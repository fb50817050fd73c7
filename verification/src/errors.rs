//! Error taxonomy of the attribution engine.
//!
//! Malformed diff text is a parse error carrying the offending position;
//! a broken ordering or monotonicity invariant on derived data is reported
//! as an invariant violation instead of aborting the process; lookups of
//! unknown commits or line numbers are "not found".

use vstd::prelude::*;

use crate::commit_id::CommitId;

verus! {

#[derive(Clone, Copy, Debug, PartialEq, Eq, Structural)]
pub enum BlameError {
    /// Malformed diff text; `offset` is the position of the offending byte.
    ParseError { offset: usize },
    /// An ascending-order or monotonicity invariant was broken on derived
    /// data; an internal-logic failure surfaced as a value, never a panic.
    InvariantViolation,
    /// A commit id or line number outside the currently known bounds.
    NotFound,
    /// The snapshot holds no lines at all.
    NoLines,
    /// The file does not exist at the given commit (it was deleted there).
    FileDeleted { commit_id: CommitId },
    /// A time-zone offset outside the representable range.
    InvalidTimeZone { offset_minutes: i64 },
    /// A timestamp outside the representable date range.
    TimeOutOfRange { seconds: i64 },
    /// A line read from a byte stream was not valid UTF-8;
    /// `valid_len` counts the bytes before the offending position.
    InvalidUtf8 { valid_len: usize },
    /// The underlying byte stream failed.
    ReadFailed,
}

} // verus!
