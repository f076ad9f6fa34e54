//! Log levels, in the order of increasing severity.

use vstd::prelude::*;

verus! {

/// The severity of a log event.
#[derive(Clone, Copy, Debug, PartialEq, Eq, Structural)]
pub enum Level {
    Trace,
    Debug,
    Info,
    Warn,
    Error,
}

impl Level {
    /// The most verbose level.
    pub const TRACE: Level = Level::Trace;
    /// Diagnostic information.
    pub const DEBUG: Level = Level::Debug;
    /// Normal operation.
    pub const INFO: Level = Level::Info;
    /// Something unexpected, but recoverable.
    pub const WARN: Level = Level::Warn;
    /// A failure.
    pub const ERROR: Level = Level::Error;
}

} // verus!
