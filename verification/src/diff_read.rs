//! The state machine that turns a stream of per-line diff events into an
//! ascending part list.
//!
//! Context lines close the pending part and reset the running counters to
//! one past the context line; added lines extend the pending part's new
//! side; deleted lines extend its old side.  When a pending part with one
//! empty side is closed, the empty side is anchored at the running counter
//! for that side, so a pure addition or deletion sits at the right position.
//!
//! Both diff backends feed this machine: the text backend line by line
//! (`on_git_line`), the tree backend through its per-line callback
//! (`on_line_callback`).

use vstd::prelude::*;

use crate::diff_part::{part_wf, DiffPart, DiffRange};
use crate::errors::BlameError;

verus! {

/// An empty range is anchored at the given position; others are kept.
pub open spec fn anchored(r: DiffRange, line_number: usize) -> DiffRange {
    if r.spec_is_empty() {
        DiffRange { start: line_number, end: line_number }
    } else {
        r
    }
}

/// A pending part completed for output: each empty side anchored at the
/// running counter of that side.
pub open spec fn completed_part(p: DiffPart, old_ln: usize, new_ln: usize) -> DiffPart {
    DiffPart { old: anchored(p.old, old_ln), new: anchored(p.new, new_ln) }
}

/// The collector state as a plain tuple: old counter, new counter,
/// pending part, finished parts.
pub open spec fn ctx_model(c: DiffReadContext) -> (usize, usize, DiffPart, Seq<DiffPart>) {
    (c.old_line_number, c.new_line_number, c.part, c.parts@)
}

/// The character that classifies a text-backend body line.
pub open spec fn git_line_origin(s: Seq<char>) -> char {
    if s.len() == 0 {
        '\u{0}'
    } else {
        s[0]
    }
}

/// Whether `on_git_line` accepts a body line in the given state.
pub open spec fn git_line_ok(m: (usize, usize, DiffPart, Seq<DiffPart>), origin: char) -> bool {
    if origin == ' ' {
        let c = completed_part(m.2, m.0, m.1);
        (m.2.spec_is_empty() || part_wf(c)) && m.0 < usize::MAX && m.1 < usize::MAX
    } else if origin == '+' {
        m.1 < usize::MAX && (!m.2.new.spec_is_empty() ==> m.1 == m.2.new.end)
    } else if origin == '-' {
        m.0 < usize::MAX && (!m.2.old.spec_is_empty() ==> m.0 == m.2.old.end)
    } else {
        origin == '\\'
    }
}

/// What `on_git_line` does to the state when it accepts the line.
pub open spec fn git_line_next(m: (usize, usize, DiffPart, Seq<DiffPart>), origin: char) -> (
    usize,
    usize,
    DiffPart,
    Seq<DiffPart>,
) {
    if origin == ' ' {
        let c = completed_part(m.2, m.0, m.1);
        (
            (m.0 + 1) as usize,
            (m.1 + 1) as usize,
            if m.2.spec_is_empty() {
                m.2
            } else {
                DiffPart::spec_empty_part()
            },
            if m.2.spec_is_empty() {
                m.3
            } else {
                m.3.push(c)
            },
        )
    } else if origin == '+' {
        (
            m.0,
            (m.1 + 1) as usize,
            DiffPart {
                old: m.2.old,
                new: DiffRange {
                    start: if m.2.new.spec_is_empty() {
                        m.1
                    } else {
                        m.2.new.start
                    },
                    end: (m.1 + 1) as usize,
                },
            },
            m.3,
        )
    } else if origin == '-' {
        (
            (m.0 + 1) as usize,
            m.1,
            DiffPart {
                old: DiffRange {
                    start: if m.2.old.spec_is_empty() {
                        m.0
                    } else {
                        m.2.old.start
                    },
                    end: (m.0 + 1) as usize,
                },
                new: m.2.new,
            },
            m.3,
        )
    } else {
        m
    }
}


/// The collector state while reading one commit's diff.
#[derive(Debug)]
pub struct DiffReadContext {
    pub old_line_number: usize,
    pub new_line_number: usize,
    pub part: DiffPart,
    pub parts: Vec<DiffPart>,
}

impl DiffReadContext {
    /// A fresh collector: counters at zero, nothing pending.
    pub fn new() -> (r: DiffReadContext)
        ensures
            r.old_line_number == 0,
            r.new_line_number == 0,
            r.part == DiffPart::spec_empty_part(),
            r.parts@ =~= (Seq::<DiffPart>::empty()),
    {
        DiffReadContext {
            old_line_number: 0,
            new_line_number: 0,
            part: DiffPart::new(),
            parts: Vec::new(),
        }
    }

    /// Close the pending part, if any: anchor its empty sides at the running
    /// counters, check it is ascending, and push it.  Fails exactly when the
    /// completed part would not be ascending; on failure nothing changes.
    pub fn flush_part(&mut self) -> (r: Result<(), BlameError>)
        ensures
            old(self).part.spec_is_empty() ==> r is Ok && *final(self) == *old(self),
            !old(self).part.spec_is_empty() ==> {
                let c = completed_part(
                    old(self).part,
                    old(self).old_line_number,
                    old(self).new_line_number,
                );
                &&& (r is Ok <==> part_wf(c))
                &&& r is Ok ==> {
                    &&& final(self).part == DiffPart::spec_empty_part()
                    &&& final(self).old_line_number == old(self).old_line_number
                    &&& final(self).new_line_number == old(self).new_line_number
                    &&& final(self).parts@ == old(self).parts@.push(c)
                }
                &&& r is Err ==> *final(self) == *old(self)
            },
    {
        if self.part.is_empty() {
            return Ok(());
        }
        let mut completed = self.part;
        completed.old.set_line_number_if_empty(self.old_line_number);
        completed.new.set_line_number_if_empty(self.new_line_number);
        if completed.validate_ascending().is_err() {
            return Err(BlameError::InvariantViolation);
        }
        self.parts.push(completed);
        self.part = DiffPart::new();
        Ok(())
    }

    /// A hunk header of the text backend: reset the running counters to the
    /// hunk's start positions.  The pending part, if any, stays pending.
    pub fn on_git_hunk(&mut self, old_line_number: usize, new_line_number: usize)
        ensures
            *final(self) == (DiffReadContext { old_line_number, new_line_number, ..*old(self) }),
    {
        self.old_line_number = old_line_number;
        self.new_line_number = new_line_number;
    }

    /// One body line of the text backend, identified by its first character:
    /// a context line (`' '`) closes the pending part and advances both
    /// counters; `'+'` extends the pending new side and advances the new
    /// counter; `'-'` extends the pending old side and advances the old
    /// counter; `'\'` (the missing-newline marker) is ignored.  Any other
    /// first character is malformed diff text.  On failure nothing changes.
    pub fn on_git_line(&mut self, line: &str) -> (r: Result<(), BlameError>)
        ensures
            ({
                let origin = git_line_origin(line@);
                let m = ctx_model(*old(self));
                &&& (r is Ok <==> git_line_ok(m, origin))
                &&& r is Ok ==> ctx_model(*final(self)) == git_line_next(m, origin)
                &&& r is Err ==> *final(self) == *old(self)
            }),
    {
        let origin = if line.unicode_len() == 0 {
            '\u{0}'
        } else {
            line.get_char(0)
        };
        if origin == ' ' {
            if self.old_line_number == usize::MAX || self.new_line_number == usize::MAX {
                return Err(BlameError::InvariantViolation);
            }
            let flushed = self.flush_part();
            if flushed.is_err() {
                return Err(BlameError::InvariantViolation);
            }
            self.old_line_number = self.old_line_number + 1;
            self.new_line_number = self.new_line_number + 1;
            Ok(())
        } else if origin == '+' {
            if self.new_line_number == usize::MAX {
                return Err(BlameError::InvariantViolation);
            }
            if !self.part.new.is_empty() && self.new_line_number != self.part.new.end {
                return Err(BlameError::InvariantViolation);
            }
            self.part.new.add_line(self.new_line_number);
            self.new_line_number = self.new_line_number + 1;
            Ok(())
        } else if origin == '-' {
            if self.old_line_number == usize::MAX {
                return Err(BlameError::InvariantViolation);
            }
            if !self.part.old.is_empty() && self.old_line_number != self.part.old.end {
                return Err(BlameError::InvariantViolation);
            }
            self.part.old.add_line(self.old_line_number);
            self.old_line_number = self.old_line_number + 1;
            Ok(())
        } else if origin == '\\' {
            // "\ No newline at end of file"
            Ok(())
        } else {
            Err(BlameError::ParseError { offset: 0 })
        }
    }

    /// One per-line callback of the tree backend.  A context line carries
    /// both absolute line numbers and closes the pending part, resetting the
    /// counters to one past them; an addition carries only the new line
    /// number and extends the pending new side; a deletion carries only the
    /// old line number and extends the pending old side; the end-of-file
    /// marker `'<'` and unknown origins are ignored.  Contradictory events
    /// are malformed.  On failure nothing changes.
    pub fn on_line_callback(
        &mut self,
        origin: char,
        old_line_number: Option<u32>,
        new_line_number: Option<u32>,
        num_lines: u32,
    ) -> (r: Result<(), BlameError>)
        ensures
            origin == ' ' ==> {
                let c = completed_part(
                    old(self).part,
                    old(self).old_line_number,
                    old(self).new_line_number,
                );
                &&& (r is Ok <==> {
                    &&& old_line_number is Some
                    &&& new_line_number is Some
                    &&& num_lines == 1
                    &&& (old_line_number.unwrap() as usize) < usize::MAX
                    &&& (new_line_number.unwrap() as usize) < usize::MAX
                    &&& (old(self).part.spec_is_empty() || part_wf(c))
                })
                &&& r is Ok ==> {
                    &&& final(self).old_line_number == old_line_number.unwrap() as usize + 1
                    &&& final(self).new_line_number == new_line_number.unwrap() as usize + 1
                    &&& final(self).part == if old(self).part.spec_is_empty() {
                        old(self).part
                    } else {
                        DiffPart::spec_empty_part()
                    }
                    &&& final(self).parts@ == if old(self).part.spec_is_empty() {
                        old(self).parts@
                    } else {
                        old(self).parts@.push(c)
                    }
                }
            },
            origin == '+' ==> {
                &&& (r is Ok <==> {
                    &&& old_line_number is None
                    &&& new_line_number is Some
                    &&& num_lines <= 1
                    &&& (new_line_number.unwrap() as usize) < usize::MAX
                    &&& (!old(self).part.new.spec_is_empty() ==> new_line_number.unwrap()
                        == old(self).part.new.end)
                })
                &&& r is Ok ==> {
                    &&& final(self).old_line_number == old(self).old_line_number
                    &&& final(self).new_line_number == old(self).new_line_number
                    &&& final(self).parts@ == old(self).parts@
                    &&& final(self).part.old == old(self).part.old
                    &&& final(self).part.new == (DiffRange {
                        start: if old(self).part.new.spec_is_empty() {
                            new_line_number.unwrap() as usize
                        } else {
                            old(self).part.new.start
                        },
                        end: (new_line_number.unwrap() as usize + 1) as usize,
                    })
                }
            },
            origin == '-' ==> {
                &&& (r is Ok <==> {
                    &&& old_line_number is Some
                    &&& new_line_number is None
                    &&& num_lines == 1
                    &&& (old_line_number.unwrap() as usize) < usize::MAX
                    &&& (!old(self).part.old.spec_is_empty() ==> old_line_number.unwrap()
                        == old(self).part.old.end)
                })
                &&& r is Ok ==> {
                    &&& final(self).old_line_number == old(self).old_line_number
                    &&& final(self).new_line_number == old(self).new_line_number
                    &&& final(self).parts@ == old(self).parts@
                    &&& final(self).part.new == old(self).part.new
                    &&& final(self).part.old == (DiffRange {
                        start: if old(self).part.old.spec_is_empty() {
                            old_line_number.unwrap() as usize
                        } else {
                            old(self).part.old.start
                        },
                        end: (old_line_number.unwrap() as usize + 1) as usize,
                    })
                }
            },
            !(origin == ' ' || origin == '+' || origin == '-') ==> r is Ok && *final(self)
                == *old(self),
            r is Err ==> *final(self) == *old(self),
    {
        if origin == ' ' {
            let (old_ln, new_ln) = match (old_line_number, new_line_number) {
                (Some(o), Some(n)) => (o, n),
                _ => {
                    return Err(BlameError::InvariantViolation);
                },
            };
            if num_lines != 1 {
                return Err(BlameError::InvariantViolation);
            }
            let old_lnu = old_ln as usize;
            let new_lnu = new_ln as usize;
            if old_lnu == usize::MAX || new_lnu == usize::MAX {
                return Err(BlameError::InvariantViolation);
            }
            if self.flush_part().is_err() {
                return Err(BlameError::InvariantViolation);
            }
            self.old_line_number = old_lnu + 1;
            self.new_line_number = new_lnu + 1;
            Ok(())
        } else if origin == '+' {
            let new_ln = match (old_line_number, new_line_number) {
                (None, Some(n)) => n,
                _ => {
                    return Err(BlameError::InvariantViolation);
                },
            };
            // `num_lines` is normally 1, but can be 0 on a missing final
            // newline.
            if num_lines > 1 {
                return Err(BlameError::InvariantViolation);
            }
            let new_lnu = new_ln as usize;
            if new_lnu == usize::MAX {
                return Err(BlameError::InvariantViolation);
            }
            if !self.part.new.is_empty() && new_lnu != self.part.new.end {
                return Err(BlameError::InvariantViolation);
            }
            self.part.new.add_line(new_lnu);
            Ok(())
        } else if origin == '-' {
            let old_ln = match (old_line_number, new_line_number) {
                (Some(o), None) => o,
                _ => {
                    return Err(BlameError::InvariantViolation);
                },
            };
            if num_lines != 1 {
                return Err(BlameError::InvariantViolation);
            }
            let old_lnu = old_ln as usize;
            if old_lnu == usize::MAX {
                return Err(BlameError::InvariantViolation);
            }
            if !self.part.old.is_empty() && old_lnu != self.part.old.end {
                return Err(BlameError::InvariantViolation);
            }
            self.part.old.add_line(old_lnu);
            Ok(())
        } else {
            // '<' marks end-of-file context; other origins carry no line
            // content and are skipped.
            Ok(())
        }
    }
}



/// A run of identical body lines, applied one after another.
pub open spec fn git_lines_next(
    m: (usize, usize, DiffPart, Seq<DiffPart>),
    origin: char,
    k: nat,
) -> (usize, usize, DiffPart, Seq<DiffPart>)
    decreases k,
{
    if k == 0 {
        m
    } else {
        git_lines_next(git_line_next(m, origin), origin, (k - 1) as nat)
    }
}

/// Whether a run of identical body lines is accepted step by step.
pub open spec fn git_lines_ok(
    m: (usize, usize, DiffPart, Seq<DiffPart>),
    origin: char,
    k: nat,
) -> bool
    decreases k,
{
    k == 0 || (git_line_ok(m, origin) && git_lines_ok(git_line_next(m, origin), origin, (k
        - 1) as nat))
}

/// A run of deletion lines on an already-opened old side: each line is
/// accepted and extends the old side by one.
proof fn lemma_deletion_run(
    o: usize,
    n: usize,
    part: DiffPart,
    parts: Seq<DiffPart>,
    j: nat,
)
    requires
        part.old.start < part.old.end == o,
        o + j <= usize::MAX,
    ensures
        git_lines_ok((o, n, part, parts), '-', j),
        git_lines_next((o, n, part, parts), '-', j) == (
            (o + j) as usize,
            n,
            DiffPart {
                old: DiffRange { start: part.old.start, end: (o + j) as usize },
                new: part.new,
            },
            parts,
        ),
    decreases j,
{
    if j == 0 {
        assert(part == (DiffPart {
            old: DiffRange { start: part.old.start, end: o },
            new: part.new,
        }));
    } else {
        let m = (o, n, part, parts);
        assert(git_line_ok(m, '-'));
        let next = git_line_next(m, '-');
        lemma_deletion_run(
            (o + 1) as usize,
            n,
            DiffPart {
                old: DiffRange { start: part.old.start, end: (o + 1) as usize },
                new: part.new,
            },
            parts,
            (j - 1) as nat,
        );
    }
}

/// A run of addition lines on an already-opened new side: each line is
/// accepted and extends the new side by one.
proof fn lemma_addition_run(
    o: usize,
    n: usize,
    part: DiffPart,
    parts: Seq<DiffPart>,
    j: nat,
)
    requires
        part.new.start < part.new.end == n,
        n + j <= usize::MAX,
    ensures
        git_lines_ok((o, n, part, parts), '+', j),
        git_lines_next((o, n, part, parts), '+', j) == (
            o,
            (n + j) as usize,
            DiffPart {
                old: part.old,
                new: DiffRange { start: part.new.start, end: (n + j) as usize },
            },
            parts,
        ),
    decreases j,
{
    if j == 0 {
        assert(part == (DiffPart {
            old: part.old,
            new: DiffRange { start: part.new.start, end: n },
        }));
    } else {
        let m = (o, n, part, parts);
        assert(git_line_ok(m, '+'));
        lemma_addition_run(
            o,
            (n + 1) as usize,
            DiffPart {
                old: part.old,
                new: DiffRange { start: part.new.start, end: (n + 1) as usize },
            },
            parts,
            (j - 1) as nat,
        );
    }
}

/// A one-for-one interior replacement — `k` deleted lines, then their `k`
/// replacements, between two context lines — yields exactly one more part,
/// spanning the same `k` lines on both sides, and leaves the counters one
/// past the closing context line.
pub proof fn lemma_substitution_yields_one_part(
    o: usize,
    n: usize,
    parts: Seq<DiffPart>,
    k: nat,
)
    requires
        1 <= k,
        o + k < usize::MAX,
        n + k < usize::MAX,
    ensures
        ({
            let m0 = (o, n, DiffPart::spec_empty_part(), parts);
            let m1 = git_lines_next(m0, '-', k);
            let m2 = git_lines_next(m1, '+', k);
            &&& git_lines_ok(m0, '-', k)
            &&& git_lines_ok(m1, '+', k)
            &&& git_line_ok(m2, ' ')
            &&& git_line_next(m2, ' ') == (
                (o + k + 1) as usize,
                (n + k + 1) as usize,
                DiffPart::spec_empty_part(),
                parts.push(
                    DiffPart {
                        old: DiffRange { start: o, end: (o + k) as usize },
                        new: DiffRange { start: n, end: (n + k) as usize },
                    },
                ),
            )
        }),
{
    let m0 = (o, n, DiffPart::spec_empty_part(), parts);
    assert(git_line_ok(m0, '-'));
    let p1 = DiffPart {
        old: DiffRange { start: o, end: (o + 1) as usize },
        new: DiffRange { start: 0, end: 0 },
    };
    assert(git_line_next(m0, '-') == ((o + 1) as usize, n, p1, parts));
    lemma_deletion_run((o + 1) as usize, n, p1, parts, (k - 1) as nat);
    let m1 = git_lines_next(m0, '-', k);
    let pk = DiffPart {
        old: DiffRange { start: o, end: (o + k) as usize },
        new: DiffRange { start: 0, end: 0 },
    };
    assert(m1 == ((o + k) as usize, n, pk, parts));
    assert(git_line_ok(m1, '+'));
    let q1 = DiffPart {
        old: pk.old,
        new: DiffRange { start: n, end: (n + 1) as usize },
    };
    assert(git_line_next(m1, '+') == ((o + k) as usize, (n + 1) as usize, q1, parts));
    lemma_addition_run((o + k) as usize, (n + 1) as usize, q1, parts, (k - 1) as nat);
    let m2 = git_lines_next(m1, '+', k);
    let qk = DiffPart {
        old: DiffRange { start: o, end: (o + k) as usize },
        new: DiffRange { start: n, end: (n + k) as usize },
    };
    assert(m2 == ((o + k) as usize, (n + k) as usize, qk, parts));
    assert(completed_part(qk, m2.0, m2.1) == qk);
    assert(part_wf(qk));
    assert(git_line_ok(m2, ' '));
}

} // verus!
