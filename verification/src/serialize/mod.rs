//! Helpers for serializing and writing structured log records.
//!
//! Fastly logging endpoints treat every call to `Write::write` as one log
//! record, so a record is emitted with exactly one write and without a
//! trailing newline. A partial write is reported rather than retried, since
//! a retry would create another record.

use vstd::prelude::*;

pub mod datadog;

verus! {

/// Why a record could not be emitted with one write.
#[derive(Debug, PartialEq, Eq)]
pub enum RecordWriteError<E> {
    /// The writer took only `written` of the `expected` bytes.
    Incomplete { written: usize, expected: usize },
    /// The writer failed.
    Io(E),
}

/// Judges the outcome of writing a record of `expected` bytes with one call:
/// the record was emitted only when the writer took all of its bytes.
pub fn check_record_write<E>(expected: usize, outcome: Result<usize, E>) -> (r: Result<
    (),
    RecordWriteError<E>,
>)
    ensures
        match outcome {
            Ok(written) => if written == expected {
                r is Ok
            } else {
                r == Err::<(), RecordWriteError<E>>(RecordWriteError::Incomplete { written, expected })
            },
            Err(e) => r == Err::<(), RecordWriteError<E>>(RecordWriteError::Io(e)),
        },
{
    match outcome {
        Ok(written) => {
            if written == expected {
                Ok(())
            } else {
                Err(RecordWriteError::Incomplete { written, expected })
            }
        },
        Err(error) => Err(RecordWriteError::Io(error)),
    }
}

/// Milliseconds since the Unix epoch of a time `since_epoch_ms` after it,
/// or 0 for a time before the epoch.
pub fn unix_milliseconds(since_epoch_ms: Option<u128>) -> (ms: u128)
    ensures
        ms == (match since_epoch_ms {
            Some(ms) => ms,
            None => 0,
        }),
{
    match since_epoch_ms {
        Some(ms) => ms,
        None => 0,
    }
}

} // verus!
