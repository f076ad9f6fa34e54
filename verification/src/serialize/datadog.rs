//! Datadog's reserved `status` attribute.

use vstd::prelude::*;
use crate::level::Level;

verus! {

/// The Datadog status that stands for a level: its lower-case name, with
/// `trace` folded into `debug`.
pub open spec fn datadog_status(level: Level) -> Seq<char> {
    match level {
        Level::Error => "error"@,
        Level::Warn => "warn"@,
        Level::Info => "info"@,
        Level::Debug => "debug"@,
        Level::Trace => "debug"@,
    }
}

/// Each level's status: `error`, `warn` and `info` for those levels, and
/// `debug` for both `debug` and `trace`.
pub proof fn lemma_datadog_status()
    ensures
        datadog_status(Level::Error) == "error"@,
        datadog_status(Level::Warn) == "warn"@,
        datadog_status(Level::Info) == "info"@,
        datadog_status(Level::Debug) == "debug"@,
        datadog_status(Level::Trace) == "debug"@,
{
}

/// Returns the Datadog status corresponding to a level.
pub fn level_name(level: Level) -> (status: &'static str)
    ensures
        status@ == datadog_status(level),
{
    match level {
        Level::Error => "error",
        Level::Warn => "warn",
        Level::Info => "info",
        Level::Debug => "debug",
        Level::Trace => "debug",
    }
}

} // verus!
