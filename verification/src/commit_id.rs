//! Identifier of a commit, as the attribution engine sees it.
//!
//! The engine never inspects real repository object ids; callers hand it an
//! opaque non-zero number per commit.  The number zero is the sentinel for
//! "the unversioned working snapshot", which resolves to the most recent
//! known commit once any history has been loaded.

use vstd::prelude::*;

verus! {

/// An opaque commit identifier.  Zero is the "working snapshot" sentinel.
#[derive(Clone, Copy, Debug, Hash, PartialEq, Eq, Structural)]
pub struct CommitId {
    pub value: u64,
}

impl CommitId {
    /// The zero sentinel: "the unversioned working snapshot".
    pub fn zero() -> (r: CommitId)
        ensures
            r.value == 0,
    {
        CommitId { value: 0 }
    }

    /// Wrap a raw identifier value.
    pub fn from_value(value: u64) -> (r: CommitId)
        ensures
            r.value == value,
    {
        CommitId { value }
    }

    /// True exactly on the zero sentinel.
    pub fn is_zero(&self) -> (r: bool)
        ensures
            r == (self.value == 0),
    {
        self.value == 0
    }
}

} // verus!
