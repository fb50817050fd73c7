//! Parsing the textual output of an external unified-diff process.
//!
//! Two header forms matter: the per-file header
//! `diff --git a/OLD b/NEW`, whose two paths reveal renames, and the hunk
//! header `@@ -OLDSTART,OLDLEN +NEWSTART,NEWLEN @@`, whose two start
//! positions anchor the running line counters.  Everything between hunk
//! headers is context, addition or deletion lines, fed to the
//! `DiffReadContext` state machine.  Malformed text is a parse error, not
//! a crash.

use vstd::prelude::*;

use crate::diff_part::DiffPart;
use crate::diff_read::DiffReadContext;
use crate::errors::BlameError;

verus! {

/// A decimal digit.
pub open spec fn is_digit(c: char) -> bool {
    '0' <= c && c <= '9'
}

/// The first index at or after `i` that does not hold a digit.
pub open spec fn digits_end(s: Seq<char>, i: int) -> int
    decreases s.len() - i,
{
    if i < 0 || i >= s.len() {
        s.len() as int
    } else if is_digit(s[i]) {
        digits_end(s, i + 1)
    } else {
        i
    }
}

/// The value of the decimal digits `s[i..j)`.
pub open spec fn digits_value(s: Seq<char>, i: int, j: int) -> int
    decreases j - i,
{
    if i >= j {
        0
    } else {
        digits_value(s, i, j - 1) * 10 + (s[j - 1] as int - '0' as int)
    }
}

/// What the hunk header grammar `@@ -A,B +C,D @@` accepts, and the two
/// start positions `A` and `C` it yields.
pub open spec fn hunk_header_spec(s: Seq<char>) -> Option<(int, int)> {
    if s.len() >= 4 && s[0] == '@' && s[1] == '@' && s[2] == ' ' && s[3] == '-' {
        let d1 = digits_end(s, 4);
        if d1 > 4 && d1 < s.len() && s[d1] == ',' {
            let d2 = digits_end(s, d1 + 1);
            if d2 > d1 + 1 && d2 + 1 < s.len() && s[d2] == ' ' && s[d2 + 1] == '+' {
                let d3 = digits_end(s, d2 + 2);
                if d3 > d2 + 2 && d3 < s.len() && s[d3] == ',' {
                    let d4 = digits_end(s, d3 + 1);
                    if d4 > d3 + 1 && d4 + 2 < s.len() && s[d4] == ' ' && s[d4 + 1] == '@'
                        && s[d4 + 2] == '@' {
                        Some((digits_value(s, 4, d1), digits_value(s, d2 + 2, d3)))
                    } else {
                        None
                    }
                } else {
                    None
                }
            } else {
                None
            }
        } else {
            None
        }
    } else {
        None
    }
}

/// Digit values only grow as more digits are read.
proof fn lemma_digits_value_grows(s: Seq<char>, i: int, j: int, k: int)
    requires
        i <= j <= k,
        forall|m: int| i <= m < k ==> is_digit(#[trigger] s[m]),
        0 <= i,
        k <= s.len(),
    ensures
        digits_value(s, i, j) <= digits_value(s, i, k),
    decreases k - j,
{
    if j < k {
        assert(digits_value(s, i, j + 1) == digits_value(s, i, j) * 10 + (s[j] as int
            - '0' as int));
        assert(digits_value(s, i, j) >= 0) by {
            lemma_digits_value_nonneg(s, i, j);
        }
        assert(s[j] as int - '0' as int >= 0);
        lemma_digits_value_grows(s, i, j + 1, k);
    }
}

/// Digit values are never negative.
proof fn lemma_digits_value_nonneg(s: Seq<char>, i: int, j: int)
    requires
        forall|m: int| i <= m < j ==> is_digit(#[trigger] s[m]),
    ensures
        digits_value(s, i, j) >= 0,
    decreases j - i,
{
    if i < j {
        lemma_digits_value_nonneg(s, i, j - 1);
    }
}

/// All characters inside a digit run are digits.
proof fn lemma_digits_end_digits(s: Seq<char>, i: int)
    requires
        0 <= i,
    ensures
        forall|m: int| i <= m < digits_end(s, i) ==> is_digit(#[trigger] s[m]),
        i <= s.len() ==> i <= digits_end(s, i) <= s.len(),
    decreases s.len() - i,
{
    if 0 <= i < s.len() && is_digit(s[i]) {
        lemma_digits_end_digits(s, i + 1);
    }
}

/// The digit scan lands exactly where a linear scan stops.
proof fn lemma_digits_end_is(s: Seq<char>, i: int, j: int)
    requires
        0 <= i <= j <= s.len(),
        forall|m: int| i <= m < j ==> is_digit(#[trigger] s[m]),
        j < s.len() ==> !is_digit(s[j]),
    ensures
        digits_end(s, i) == j,
    decreases j - i,
{
    if i < j {
        lemma_digits_end_is(s, i + 1, j);
    }
}

/// Read the digit run starting at `from`: its end, and its value unless it
/// overflows `usize`.
#[verifier::loop_isolation(false)]
fn scan_digits(line: &str, from: usize) -> (r: (usize, Option<usize>))
    requires
        from <= line@.len() < usize::MAX,
    ensures
        r.0 == digits_end(line@, from as int),
        from <= r.0 <= line@.len(),
        ({
            let value = digits_value(line@, from as int, r.0 as int);
            &&& (r.1 is Some <==> value <= usize::MAX)
            &&& r.1 is Some ==> r.1.unwrap() == value
        }),
{
    let ghost s = line@;
    let len = line.unicode_len();
    let mut j = from;
    let mut value: usize = 0;
    let mut overflow = false;
    loop
        invariant
            from <= j <= len,
            len == s.len() < usize::MAX,
            forall|m: int| from <= m < j ==> is_digit(#[trigger] s[m]),
            !overflow ==> value == digits_value(s, from as int, j as int),
            overflow ==> digits_value(s, from as int, j as int) > usize::MAX,
        decreases len - j,
    {
        if j >= len {
            break;
        }
        let c = line.get_char(j);
        if !('0' <= c && c <= '9') {
            break;
        }
        let d = (c as u32 - '0' as u32) as usize;
        proof {
            lemma_digits_value_nonneg(s, from as int, j as int);
        }
        if !overflow {
            if value > (usize::MAX - d) / 10 {
                overflow = true;
                proof {
                    assert(digits_value(s, from as int, j + 1) == digits_value(
                        s,
                        from as int,
                        j as int,
                    ) * 10 + d);
                    assert(value * 10 + d > usize::MAX) by (nonlinear_arith)
                        requires
                            value > (usize::MAX - d) / 10,
                            d <= 9,
                    ;
                }
            } else {
                proof {
                    assert(value * 10 + d <= usize::MAX) by (nonlinear_arith)
                        requires
                            value <= (usize::MAX - d) / 10,
                            d <= 9,
                    ;
                }
                value = value * 10 + d;
            }
        } else {
            proof {
                lemma_digits_value_grows(s, from as int, j as int, j + 1);
                assert(digits_value(s, from as int, j + 1) >= digits_value(
                    s,
                    from as int,
                    j as int,
                ));
            }
        }
        j = j + 1;
    }
    proof {
        lemma_digits_end_is(s, from as int, j as int);
    }
    if overflow {
        (j, None)
    } else {
        (j, Some(value))
    }
}

/// Parse a hunk header `@@ -A,B +C,D @@`, yielding the old and new start
/// positions.  A line that does not have this shape is simply not a hunk
/// header; one whose start positions do not fit `usize` is malformed.
#[verifier::loop_isolation(false)]
pub fn parse_hunk_header(line: &str) -> (r: Result<Option<(usize, usize)>, BlameError>)
    requires
        line@.len() < usize::MAX,
    ensures
        hunk_header_spec(line@) is None ==> r == Ok::<Option<(usize, usize)>, BlameError>(None),
        hunk_header_spec(line@) matches Some((old_start, new_start)) ==> {
            &&& (old_start <= usize::MAX && new_start <= usize::MAX) <==> r is Ok
            &&& r is Ok ==> r == Ok::<Option<(usize, usize)>, BlameError>(
                Some((old_start as usize, new_start as usize)),
            )
        },
{
    let ghost s = line@;
    let len = line.unicode_len();
    if !(len >= 4 && line.get_char(0) == '@' && line.get_char(1) == '@' && line.get_char(2) == ' '
        && line.get_char(3) == '-') {
        return Ok(None);
    }
    let (d1, old_value) = scan_digits(line, 4);
    if !(d1 > 4 && d1 < len && line.get_char(d1) == ',') {
        return Ok(None);
    }
    let (d2, _) = scan_digits(line, d1 + 1);
    if !(d2 > d1 + 1 && d2 < len && len - d2 > 1 && line.get_char(d2) == ' ' && line.get_char(
        d2 + 1,
    ) == '+') {
        return Ok(None);
    }
    let (d3, new_value) = scan_digits(line, d2 + 2);
    if !(d3 > d2 + 2 && d3 < len && line.get_char(d3) == ',') {
        return Ok(None);
    }
    let (d4, _) = scan_digits(line, d3 + 1);
    if !(d4 > d3 + 1 && d4 < len && len - d4 > 2 && line.get_char(d4) == ' ' && line.get_char(
        d4 + 1,
    ) == '@' && line.get_char(d4 + 2) == '@') {
        return Ok(None);
    }
    let old_start = match old_value {
        Some(v) => v,
        None => {
            return Err(BlameError::ParseError { offset: 4 });
        },
    };
    let new_start = match new_value {
        Some(v) => v,
        None => {
            return Err(BlameError::ParseError { offset: d2 + 2 });
        },
    };
    Ok(Some((old_start, new_start)))
}

/// The largest index at most `k` where the separator `" b/"` begins.
pub open spec fn last_sep_at_or_before(s: Seq<char>, k: int) -> Option<int>
    decreases k,
{
    if k < 14 {
        None
    } else if k + 3 <= s.len() && s[k] == ' ' && s[k + 1] == 'b' && s[k + 2] == '/' {
        Some(k)
    } else {
        last_sep_at_or_before(s, k - 1)
    }
}

/// What the file header grammar `diff --git a/OLD b/NEW` accepts: the
/// prefix, then the two non-empty paths around the last `" b/"` separator
/// (the old-side path is matched greedily).
pub open spec fn file_header_spec(s: Seq<char>) -> Option<(Seq<char>, Seq<char>)> {
    if s.len() >= 17 && s.subrange(0, 13) =~= spec_file_header_prefix() {
        match last_sep_at_or_before(s, s.len() - 4) {
            Some(k) => Some((s.subrange(13, k), s.subrange(k + 3, s.len() as int))),
            None => None,
        }
    } else {
        None
    }
}

/// The characters of `"diff --git a/"`.
pub open spec fn spec_file_header_prefix() -> Seq<char> {
    seq!['d', 'i', 'f', 'f', ' ', '-', '-', 'g', 'i', 't', ' ', 'a', '/']
}

/// Parse a file header `diff --git a/OLD b/NEW`, yielding the two paths.
#[verifier::loop_isolation(false)]
pub fn parse_file_header(line: &str) -> (r: Option<(String, String)>)
    requires
        line@.len() < usize::MAX,
    ensures
        r is Some <==> file_header_spec(line@) is Some,
        r is Some ==> {
            let (old_path, new_path) = file_header_spec(line@).unwrap();
            &&& r.unwrap().0@ == old_path
            &&& r.unwrap().1@ == new_path
        },
{
    let ghost s = line@;
    let len = line.unicode_len();
    if len < 17 {
        return None;
    }
    let prefix = ['d', 'i', 'f', 'f', ' ', '-', '-', 'g', 'i', 't', ' ', 'a', '/'];
    let mut p: usize = 0;
    while p < 13
        invariant
            p <= 13,
            len == s.len(),
            len >= 17,
            prefix@ =~= spec_file_header_prefix(),
            forall|m: int| 0 <= m < p ==> s[m] == spec_file_header_prefix()[m],
        decreases 13 - p,
    {
        if line.get_char(p) != prefix[p] {
            proof {
                assert(s.subrange(0, 13)[p as int] != spec_file_header_prefix()[p as int]);
                assert(!(s.subrange(0, 13) =~= spec_file_header_prefix()));
            }
            return None;
        }
        p = p + 1;
    }
    proof {
        assert(s.subrange(0, 13) =~= spec_file_header_prefix());
    }
    // scan for the last " b/" separator, matching the old path greedily
    let mut k = len - 4;
    loop
        invariant
            len >= 17,
            k <= len - 4,
            len == s.len(),
            last_sep_at_or_before(s, len - 4) == last_sep_at_or_before(s, k as int),
        decreases k,
    {
        if k < 14 {
            return None;
        }
        if line.get_char(k) == ' ' && line.get_char(k + 1) == 'b' && line.get_char(k + 2) == '/' {
            let old_path = line.substring_char(13, k).to_owned();
            let new_path = line.substring_char(k + 3, len).to_owned();
            proof {
                assert(last_sep_at_or_before(s, k as int) == Some(k as int));
            }
            return Some((old_path, new_path));
        }
        k = k - 1;
    }
}


/// The line opens a new per-file section (`"diff "`).
pub open spec fn starts_with_diff(s: Seq<char>) -> bool {
    s.len() >= 5 && s[0] == 'd' && s[1] == 'i' && s[2] == 'f' && s[3] == 'f' && s[4] == ' '
}

/// The line opens a hunk (`"@@ "`).
pub open spec fn starts_with_hunk(s: Seq<char>) -> bool {
    s.len() >= 3 && s[0] == '@' && s[1] == '@' && s[2] == ' '
}

/// A structural line that was truncated by invalid bytes: the diff text is
/// undecodable and the whole computation must fail.
pub open spec fn structurally_truncated(s: Seq<char>, invalid_len: int) -> bool {
    invalid_len > 0 && (s.len() == 0 || starts_with_diff(s) || starts_with_hunk(s))
}

/// The per-commit driver of the text backend: feeds each line of the
/// diff process's output through the header parsers and the line collector,
/// restricted to one tracked path, recording a rename when the file header
/// shows one.
#[derive(Debug)]
pub struct DiffTextParser {
    pub path: String,
    pub is_in_hunk: bool,
    pub is_path_found: bool,
    pub old_path: Option<String>,
    pub context: DiffReadContext,
}

impl DiffTextParser {
    /// A fresh driver for one tracked path.
    pub fn new(path: &str) -> (r: DiffTextParser)
        ensures
            r.path@ == path@,
            r.is_in_hunk == false,
            r.is_path_found == false,
            r.old_path is None,
            crate::diff_read::ctx_model(r.context) == (
                0usize,
                0usize,
                DiffPart::spec_empty_part(),
                Seq::<DiffPart>::empty(),
            ),
    {
        let r = DiffTextParser {
            path: path.to_owned(),
            is_in_hunk: false,
            is_path_found: false,
            old_path: None,
            context: DiffReadContext::new(),
        };
        proof {
            assert(r.context.parts@ =~= (Seq::<DiffPart>::empty()));
        }
        r
    }

    /// Consume one line of diff text, with the count of undecodable bytes
    /// that followed its valid prefix.  Returns `Ok(false)` when reading
    /// should stop (a second file section began); fails on undecodable
    /// structural lines, malformed hunk headers and inconsistent hunk
    /// bodies.  On failure nothing changes.
    #[verifier::loop_isolation(false)]
    pub fn on_line(&mut self, line: &str, invalid_len: usize) -> (r: Result<bool, BlameError>)
        requires
            line@.len() < usize::MAX,
        ensures
            ({
                let s = line@;
                let m = crate::diff_read::ctx_model(old(self).context);
                let origin = crate::diff_read::git_line_origin(s);
                if structurally_truncated(s, invalid_len as int) {
                    r is Err && *final(self) == *old(self)
                } else {
                    match file_header_spec(s) {
                        Some(pair) => {
                            let old_p = pair.0;
                            let new_p = pair.1;
                            if old(self).is_path_found {
                                r == Ok::<bool, BlameError>(false) && *final(self) == *old(self)
                            } else {
                                &&& r == Ok::<bool, BlameError>(true)
                                &&& final(self).path == old(self).path
                                &&& final(self).is_in_hunk == false
                                &&& final(self).is_path_found == (new_p == old(self).path@)
                                &&& (new_p == old(self).path@ && old_p != old(self).path@) ==> (
                                final(self).old_path matches Some(op) && op@ == old_p)
                                &&& !(new_p == old(self).path@ && old_p != old(self).path@)
                                    ==> final(self).old_path == old(self).old_path
                                &&& final(self).context == old(self).context
                            }
                        },
                        None => {
                            if !old(self).is_path_found {
                                r == Ok::<bool, BlameError>(true) && *final(self) == *old(self)
                            } else {
                                match hunk_header_spec(s) {
                                    Some(header) => {
                                        if header.0 > usize::MAX || header.1 > usize::MAX {
                                            r is Err && *final(self) == *old(self)
                                        } else {
                                            &&& r == Ok::<bool, BlameError>(true)
                                            &&& final(self).path == old(self).path
                                            &&& final(self).is_in_hunk == true
                                            &&& final(self).is_path_found == old(
                                                self,
                                            ).is_path_found
                                            &&& final(self).old_path == old(self).old_path
                                            &&& crate::diff_read::ctx_model(final(self).context)
                                                == (
                                                header.0 as usize,
                                                header.1 as usize,
                                                m.2,
                                                m.3,
                                            )
                                        }
                                    },
                                    None => {
                                        if old(self).is_in_hunk {
                                            &&& (r is Ok <==> crate::diff_read::git_line_ok(
                                                m,
                                                origin,
                                            ))
                                            &&& r is Ok ==> {
                                                &&& r == Ok::<bool, BlameError>(true)
                                                &&& final(self).path == old(self).path
                                                &&& final(self).is_in_hunk == old(self).is_in_hunk
                                                &&& final(self).is_path_found == old(
                                                    self,
                                                ).is_path_found
                                                &&& final(self).old_path == old(self).old_path
                                                &&& crate::diff_read::ctx_model(
                                                    final(self).context,
                                                ) == crate::diff_read::git_line_next(m, origin)
                                            }
                                            &&& r is Err ==> *final(self) == *old(self)
                                        } else {
                                            r == Ok::<bool, BlameError>(true) && *final(self)
                                                == *old(self)
                                        }
                                    },
                                }
                            }
                        },
                    }
                }
            }),
    {
        let len = line.unicode_len();
        if invalid_len > 0 {
            let empty = len == 0;
            let is_diff = len >= 5 && line.get_char(0) == 'd' && line.get_char(1) == 'i'
                && line.get_char(2) == 'f' && line.get_char(3) == 'f' && line.get_char(4) == ' ';
            let is_hunk = len >= 3 && line.get_char(0) == '@' && line.get_char(1) == '@'
                && line.get_char(2) == ' ';
            if empty || is_diff || is_hunk {
                return Err(BlameError::InvalidUtf8 { valid_len: len });
            }
        }
        if let Some((old_p, new_p)) = parse_file_header(line) {
            if self.is_path_found {
                return Ok(false);
            }
            self.is_in_hunk = false;
            let found = string_views_equal(&new_p, &self.path);
            self.is_path_found = found;
            if found && !string_views_equal(&old_p, &self.path) {
                self.old_path = Some(old_p);
            }
            return Ok(true);
        }
        if !self.is_path_found {
            return Ok(true);
        }
        let header = match parse_hunk_header(line) {
            Ok(header) => header,
            Err(e) => {
                return Err(e);
            },
        };
        if let Some((old_start, new_start)) = header {
            self.context.on_git_hunk(old_start, new_start);
            self.is_in_hunk = true;
            return Ok(true);
        }
        if self.is_in_hunk {
            match self.context.on_git_line(line) {
                Ok(()) => Ok(true),
                Err(e) => Err(e),
            }
        } else {
            Ok(true)
        }
    }

    /// Close any pending hunk and hand out the result: the pre-rename path
    /// if the commit renamed the file, and the validated part list.  Fails
    /// exactly when the completed part would not be ascending.
    pub fn finish(&mut self) -> (r: Result<(), BlameError>)
        ensures
            ({
                let m = crate::diff_read::ctx_model(old(self).context);
                let c = crate::diff_read::completed_part(m.2, m.0, m.1);
                &&& (r is Ok <==> (m.2.spec_is_empty() || crate::diff_part::part_wf(c)))
                &&& r is Ok ==> final(self).context.parts@ == if m.2.spec_is_empty() {
                    m.3
                } else {
                    m.3.push(c)
                }
                &&& r is Ok ==> final(self).path == old(self).path
                &&& r is Ok ==> final(self).old_path == old(self).old_path
                &&& r is Err ==> *final(self) == *old(self)
            }),
    {
        self.context.flush_part()
    }
}

/// Compare two strings by their characters.
fn string_views_equal(a: &String, b: &String) -> (r: bool)
    ensures
        r == (a@ == b@),
{
    a.eq(b)
}

} // verus!
