//! The log file.

use vstd::prelude::*;

verus! {

pub const LOG_FILE_NAME: &'static str = "voice-flow.log";

pub const MAX_LOG_BYTES: u64 = 5_242_880;

/// Whether the log file starts anew, given its size if there is one; else the program
/// appends to it.
pub fn should_truncate(size: Option<u64>) -> (result: bool)
    ensures
        result == (size matches Some(bytes) && bytes >= MAX_LOG_BYTES),
{
    match size {
        Some(bytes) => bytes >= MAX_LOG_BYTES,
        None => false,
    }
}

} // verus!
