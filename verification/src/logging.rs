//! The log of a process nobody can see.
//!
//! A background process has no standard output, so what it prints goes to a
//! file. It is appended to across restarts, so that a crash loop reads as one
//! story, and started again once it is large: a file past the cap means that
//! something is wrong and repeating, and the useful half of it is the recent
//! half.

use vstd::prelude::*;

verus! {

/// Past this many bytes the log is started again rather than appended to.
pub const MAX_LOG_BYTES: u64 = 1048576;

/// Whether the log is started again, given how long it is. A log whose length
/// cannot be read is appended to.
pub fn redirect(len: Option<u64>) -> (restart: bool)
    ensures
        restart == (len matches Some(n) && n > MAX_LOG_BYTES),
{
    match len {
        Some(n) => n > MAX_LOG_BYTES,
        None => false,
    }
}

} // verus!
