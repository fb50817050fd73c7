//! Text utilities of the snapshot layer: splitting a file's content into
//! lines, and the case-insensitive substring matching that `search` uses.
//!
//! Unicode case folding lives in the standard library; its result is named
//! `lower_of` and the search contracts speak of that name.

use vstd::prelude::*;

verus! {

/// What `str::to_lowercase` returns: a function of the characters alone.
pub uninterp spec fn lower_of(s: Seq<char>) -> Seq<char>;

/// Relies on str::to_lowercase: Unicode lowercasing, depending on the
/// characters alone.
#[verifier::external_body]
pub fn to_lowercase(s: &str) -> (r: String)
    ensures
        r@ == lower_of(s@),
        s@.len() == 0 ==> r@.len() == 0,
{
    s.to_lowercase()
}

/// `needle` occurs contiguously somewhere in `hay`.
pub open spec fn seq_contains_sub(hay: Seq<char>, needle: Seq<char>) -> bool {
    exists|i: int|
        0 <= i && i + needle.len() <= hay.len() && #[trigger] hay.subrange(i, i + needle.len())
            == needle
}

/// Relies on str::contains with a string pattern: substring containment.
#[verifier::external_body]
pub fn str_contains(hay: &str, needle: &str) -> (r: bool)
    ensures
        r == seq_contains_sub(hay@, needle@),
{
    hay.contains(needle)
}

/// Index of the first `'\n'` at or after `from`, or the length.
pub open spec fn next_newline(s: Seq<char>, from: int) -> int
    decreases s.len() - from,
{
    if from < 0 || from >= s.len() {
        s.len() as int
    } else if s[from] == '\n' {
        from
    } else {
        next_newline(s, from + 1)
    }
}

/// The line starting at `from`: up to the next `'\n'`, with a `'\r'`
/// directly before that `'\n'` stripped.
pub open spec fn line_at(s: Seq<char>, from: int) -> Seq<char> {
    let j = next_newline(s, from);
    if j < s.len() && j > from && s[j - 1] == '\r' {
        s.subrange(from, j - 1)
    } else {
        s.subrange(from, j)
    }
}

/// The newline scan stays between its start and the end of the text.
proof fn lemma_next_newline_bounds(s: Seq<char>, from: int)
    requires
        0 <= from <= s.len(),
    ensures
        from <= next_newline(s, from) <= s.len(),
    decreases s.len() - from,
{
    if from < s.len() && s[from] != '\n' {
        lemma_next_newline_bounds(s, from + 1);
    }
}

/// The lines of `s` from `from` on: split at `'\n'` or `"\r\n"`, the final
/// line terminator optional, a trailing terminator producing no empty line.
pub open spec fn split_lines_from(s: Seq<char>, from: int) -> Seq<Seq<char>>
    decreases s.len() - from
    via split_lines_from_decreases
{
    if from < 0 || from >= s.len() {
        Seq::empty()
    } else {
        let j = next_newline(s, from);
        if j >= s.len() {
            seq![line_at(s, from)]
        } else {
            seq![line_at(s, from)] + split_lines_from(s, j + 1)
        }
    }
}

#[via_fn]
proof fn split_lines_from_decreases(s: Seq<char>, from: int) {
    if 0 <= from < s.len() {
        lemma_next_newline_bounds(s, from);
    }
}

/// The lines of a whole text.
pub open spec fn spec_split_lines(s: Seq<char>) -> Seq<Seq<char>> {
    split_lines_from(s, 0)
}

/// `next_newline` is exactly where a linear scan for `'\n'` stops.
proof fn lemma_next_newline_is(s: Seq<char>, from: int, j: int)
    requires
        0 <= from <= j <= s.len(),
        forall|m: int| from <= m < j ==> s[m] != '\n',
        j < s.len() ==> s[j] == '\n',
    ensures
        next_newline(s, from) == j,
    decreases j - from,
{
    if from < j {
        lemma_next_newline_is(s, from + 1, j);
    }
}

/// Split a text into its lines: at `'\n'` or `"\r\n"`, the final line
/// terminator optional, a trailing terminator producing no empty line.
pub fn split_lines(content: &str) -> (r: Vec<String>)
    ensures
        r@.len() == spec_split_lines(content@).len(),
        forall|i: int|
            0 <= i < r@.len() ==> (#[trigger] r@[i])@ == spec_split_lines(content@)[i],
{
    let ghost s = content@;
    let len = content.unicode_len();
    let mut result: Vec<String> = Vec::new();
    let mut i: usize = 0;
    while i < len
        invariant
            len == s.len(),
            s == content@,
            i <= len,
            result@.len() + split_lines_from(s, i as int).len() == split_lines_from(s, 0).len(),
            split_lines_from(s, i as int) =~= split_lines_from(s, 0).skip(result@.len() as int),
            forall|k: int|
                0 <= k < result@.len() ==> (#[trigger] result@[k])@ == split_lines_from(s, 0)[k],
        decreases len - i,
    {
        let mut j: usize = i;
        while j < len && content.get_char(j) != '\n'
            invariant
                len == s.len(),
                s == content@,
                i <= j <= len,
                forall|m: int| i <= m < j ==> s[m] != '\n',
            decreases len - j,
        {
            j = j + 1;
        }
        proof {
            lemma_next_newline_is(s, i as int, j as int);
        }
        let line_end = if j < len && j > i && content.get_char(j - 1) == '\r' {
            j - 1
        } else {
            j
        };
        proof {
            assert(line_at(s, i as int) == s.subrange(i as int, line_end as int));
        }
        let piece = content.substring_char(i, line_end);
        let ghost n0 = result@.len() as int;
        let ghost pre = split_lines_from(s, i as int);
        result.push(piece.to_owned());
        proof {
            let rest = if (j as int) < s.len() {
                split_lines_from(s, j + 1)
            } else {
                Seq::empty()
            };
            assert(pre =~= seq![line_at(s, i as int)] + rest);
            assert(pre[0] == line_at(s, i as int));
            assert(pre =~= split_lines_from(s, 0).skip(n0));
            assert forall|k: int| 0 <= k < rest.len() implies rest[k] == split_lines_from(
                s,
                0,
            ).skip(n0 + 1)[k] by {
                assert(rest[k] == pre[k + 1]);
                assert(pre[k + 1] == split_lines_from(s, 0).skip(n0)[k + 1]);
            }
            assert(rest =~= split_lines_from(s, 0).skip(n0 + 1));
        }
        if j < len {
            i = j + 1;
        } else {
            i = len;
        }
    }
    proof {
        assert(split_lines_from(s, i as int) =~= (Seq::<Seq<char>>::empty()));
    }
    result
}

} // verus!
