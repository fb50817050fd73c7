//! Ascending line-range pairs: the unit a commit's diff is broken into.
//!
//! A `DiffRange` is a half-open interval of 1-based line numbers whose
//! `start <= end` ("ascending").  A `DiffPart` pairs the interval a hunk
//! replaced on the parent side (`old`) with the interval that replaced it
//! on the child side (`new`).  A part list for one commit must be strictly
//! ascending on both sides; `validate_ascending_parts` is the structural
//! contract every producer of part lists must satisfy.

use core::ops::Range;

use vstd::prelude::*;

use crate::errors::BlameError;

verus! {

/// An ascending, half-open interval of line numbers.
#[derive(Clone, Copy, Debug, PartialEq, Eq, Structural)]
pub struct DiffRange {
    pub start: usize,
    pub end: usize,
}

impl DiffRange {
    /// The empty interval anchored at line 0.
    pub fn new() -> (r: DiffRange)
        ensures
            r == (DiffRange { start: 0usize, end: 0usize }),
    {
        DiffRange { start: 0, end: 0 }
    }

    /// Wrap an interval as given.
    pub fn from_range(line_numbers: Range<usize>) -> (r: DiffRange)
        ensures
            r.start == line_numbers.start,
            r.end == line_numbers.end,
    {
        DiffRange { start: line_numbers.start, end: line_numbers.end }
    }

    /// The interval holds no line number.
    pub open spec fn spec_is_empty(self) -> bool {
        self.start >= self.end
    }

    /// True when the interval holds no line number.
    pub fn is_empty(&self) -> (r: bool)
        ensures
            r == self.spec_is_empty(),
    {
        self.start >= self.end
    }

    /// The interval, in `Range` form.
    pub fn line_numbers(&self) -> (r: Range<usize>)
        ensures
            r.start == self.start,
            r.end == self.end,
    {
        self.start..self.end
    }

    /// Number of line numbers in the interval.
    pub open spec fn spec_len(self) -> int {
        if self.start <= self.end {
            self.end - self.start
        } else {
            0
        }
    }

    /// Number of line numbers in the interval.
    pub fn len(&self) -> (r: usize)
        ensures
            r == self.spec_len(),
    {
        if self.start <= self.end {
            self.end - self.start
        } else {
            0
        }
    }

    /// `start <= end`.
    pub open spec fn spec_is_ascending(self) -> bool {
        self.start <= self.end
    }

    /// `start <= end`.
    pub fn is_ascending(&self) -> (r: bool)
        ensures
            r == self.spec_is_ascending(),
    {
        self.start <= self.end
    }

    /// Accepts exactly the ascending intervals.
    pub fn validate_ascending(&self) -> (r: Result<(), BlameError>)
        ensures
            r is Ok <==> self.spec_is_ascending(),
            r is Err ==> r == Err::<(), BlameError>(BlameError::InvariantViolation),
    {
        if self.start <= self.end {
            Ok(())
        } else {
            Err(BlameError::InvariantViolation)
        }
    }

    /// Append one line number.  Lines join a hunk only in increasing order:
    /// on a non-empty interval the new line number must equal the current
    /// `end`.
    pub fn add_line(&mut self, line_number: usize)
        requires
            line_number < usize::MAX,
            !old(self).spec_is_empty() ==> line_number == old(self).end,
        ensures
            old(self).spec_is_empty() ==> *final(self) == (DiffRange {
                start: line_number,
                end: (line_number + 1) as usize,
            }),
            !old(self).spec_is_empty() ==> *final(self) == (DiffRange {
                start: old(self).start,
                end: (line_number + 1) as usize,
            }),
    {
        if self.start >= self.end {
            self.start = line_number;
            self.end = line_number + 1;
        } else {
            self.end = line_number + 1;
        }
    }

    /// Anchor an empty interval at the given position; leave a non-empty
    /// interval unchanged.
    pub fn set_line_number_if_empty(&mut self, line_number: usize)
        ensures
            old(self).spec_is_empty() ==> *final(self) == (DiffRange {
                start: line_number,
                end: line_number,
            }),
            !old(self).spec_is_empty() ==> *final(self) == *old(self),
    {
        if self.start >= self.end {
            self.start = line_number;
            self.end = line_number;
        }
    }
}

/// Both of a part's intervals are ascending.
pub open spec fn part_wf(p: DiffPart) -> bool {
    p.old.spec_is_ascending() && p.new.spec_is_ascending()
}

/// Adjacent parts do not overlap and do not go backwards, on either side.
pub open spec fn parts_pairwise_ascending(s: Seq<DiffPart>) -> bool {
    forall|i: int, j: int|
        #![trigger s[i], s[j]]
        0 <= i && j == i + 1 && j < s.len() ==> {
            &&& s[j].old.start >= s[i].old.end
            &&& s[j].new.start >= s[i].new.end
        }
}

/// A structurally valid part list: every part well-formed, ordering kept.
pub open spec fn parts_list_valid(s: Seq<DiffPart>) -> bool {
    (forall|i: int| 0 <= i < s.len() ==> part_wf(#[trigger] s[i])) && parts_pairwise_ascending(s)
}

/// One contiguous hunk: lines `old` in the parent were replaced by lines
/// `new` in the child.
#[derive(Clone, Copy, Debug, PartialEq, Eq, Structural)]
pub struct DiffPart {
    pub old: DiffRange,
    pub new: DiffRange,
}

impl DiffPart {
    /// The part with both intervals empty at line 0.
    pub open spec fn spec_empty_part() -> DiffPart {
        DiffPart {
            old: DiffRange { start: 0usize, end: 0usize },
            new: DiffRange { start: 0usize, end: 0usize },
        }
    }

    /// The part with both intervals empty at line 0.
    pub fn new() -> (r: DiffPart)
        ensures
            r == DiffPart::spec_empty_part(),
    {
        DiffPart { old: DiffRange::new(), new: DiffRange::new() }
    }

    /// Build a part from the two intervals.
    pub fn from_ranges(old_lines: Range<usize>, new_lines: Range<usize>) -> (r: DiffPart)
        ensures
            r.old.start == old_lines.start,
            r.old.end == old_lines.end,
            r.new.start == new_lines.start,
            r.new.end == new_lines.end,
    {
        DiffPart { old: DiffRange::from_range(old_lines), new: DiffRange::from_range(new_lines) }
    }

    /// Both sides are empty.
    pub open spec fn spec_is_empty(self) -> bool {
        self.old.spec_is_empty() && self.new.spec_is_empty()
    }

    /// True when both sides are empty.
    pub fn is_empty(&self) -> (r: bool)
        ensures
            r == self.spec_is_empty(),
    {
        self.old.is_empty() && self.new.is_empty()
    }

    /// Accepts exactly the parts whose two intervals are ascending.
    pub fn validate_ascending(&self) -> (r: Result<(), BlameError>)
        ensures
            r is Ok <==> part_wf(*self),
            r is Err ==> r == Err::<(), BlameError>(BlameError::InvariantViolation),
    {
        let result = self.old.validate_ascending();
        if result.is_err() {
            return result;
        }
        self.new.validate_ascending()
    }

    /// The primary structural contract on part lists: accepts a list exactly
    /// when every part is ascending and, for every adjacent pair, each side
    /// of the later part starts at or after where the same side of the
    /// earlier part ended.
    pub fn validate_ascending_parts(parts: &Vec<DiffPart>) -> (r: Result<(), BlameError>)
        ensures
            r is Ok <==> parts_list_valid(parts@),
            r is Err ==> r == Err::<(), BlameError>(BlameError::InvariantViolation),
    {
        let mut last_old: usize = 0;
        let mut last_new: usize = 0;
        let mut i: usize = 0;
        while i < parts.len()
            invariant
                i <= parts.len(),
                forall|k: int| 0 <= k < i ==> part_wf(#[trigger] parts@[k]),
                parts_pairwise_ascending(parts@.subrange(0, i as int)),
                i > 0 ==> last_old == parts@[i - 1].old.end,
                i > 0 ==> last_new == parts@[i - 1].new.end,
                i == 0 ==> last_old == 0 && last_new == 0,
            decreases parts.len() - i,
        {
            let part = &parts[i];
            if part.old.start < last_old {
                assert(!parts_pairwise_ascending(parts@)) by {
                    assert(parts@[i as int].old.start < parts@[i - 1].old.end);
                }
                return Err(BlameError::InvariantViolation);
            }
            if part.old.validate_ascending().is_err() {
                return Err(BlameError::InvariantViolation);
            }
            if part.new.start < last_new {
                assert(!parts_pairwise_ascending(parts@)) by {
                    assert(parts@[i as int].new.start < parts@[i - 1].new.end);
                }
                return Err(BlameError::InvariantViolation);
            }
            if part.new.validate_ascending().is_err() {
                return Err(BlameError::InvariantViolation);
            }
            last_old = part.old.end;
            last_new = part.new.end;
            i = i + 1;
            proof {
                assert(parts@.subrange(0, i as int) =~= parts@.subrange(0, i - 1).push(
                    parts@[i - 1],
                ));
            }
        }
        proof {
            assert(parts@.subrange(0, parts@.len() as int) =~= parts@);
        }
        Ok(())
    }
}

} // verus!
