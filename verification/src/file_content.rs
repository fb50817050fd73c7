//! The attributed line buffer of the file at one commit.
//!
//! A snapshot is created for a target commit, populated from the raw text,
//! and then attributed by applying the relevant suffix of the commit
//! history: the nearest commit's parts directly, each older commit's parts
//! after remapping them into the snapshot's numbering through the
//! line-number maps of the commits in between.  The first writer wins — a
//! line attributed by a nearer commit is never overwritten by an older one.

use vstd::prelude::*;

use crate::commit_id::CommitId;
use crate::diff_part::{parts_list_valid, DiffPart};
use crate::errors::BlameError;
use crate::file_commit::FileCommit;
use crate::file_commits::{contains_id, lemma_index_of_unique, spec_index_of, FileCommits};
use crate::line::{Line, LineType};
use crate::line_number_map::{built_items, flat_bounds, mapped_parts, new_sides, old_sides,
    values_mappable, LineNumberMap};
use crate::text::{lower_of, seq_contains_sub, spec_split_lines, split_lines, str_contains,
    to_lowercase};

verus! {

/// The first index at or after `from` whose line carries number `n`.
pub open spec fn find_line_from(lines: Seq<Line>, from: int, n: int) -> Option<int>
    decreases lines.len() - from,
{
    if from < 0 || from >= lines.len() {
        None
    } else if lines[from].line_number == n {
        Some(from)
    } else {
        find_line_from(lines, from + 1, n)
    }
}

/// A found index carries the number searched for.
pub proof fn lemma_find_line_from_found(lines: Seq<Line>, from: int, n: int)
    requires
        find_line_from(lines, from, n) is Some,
    ensures
        ({
            let i = find_line_from(lines, from, n).unwrap();
            &&& from <= i < lines.len()
            &&& lines[i].line_number == n
        }),
    decreases lines.len() - from,
{
    if !(from < 0 || from >= lines.len()) && lines[from].line_number != n {
        lemma_find_line_from_found(lines, from + 1, n);
    }
}

/// A line's text matches a lowered needle, case-insensitively.
pub open spec fn line_matches(line: Line, needle: Seq<char>) -> bool {
    seq_contains_sub(lower_of(line.content@), needle)
}

/// The first matching index in `[lo, hi)`, scanning forward.
pub open spec fn search_fwd(lines: Seq<Line>, lo: int, hi: int, needle: Seq<char>) -> Option<int>
    decreases hi - lo,
{
    if lo < 0 || lo >= hi || hi > lines.len() {
        None
    } else if line_matches(lines[lo], needle) {
        Some(lo)
    } else {
        search_fwd(lines, lo + 1, hi, needle)
    }
}

/// The last matching index in `[lo, hi)`, scanning backward.
pub open spec fn search_rev(lines: Seq<Line>, lo: int, hi: int, needle: Seq<char>) -> Option<int>
    decreases hi - lo,
{
    if lo < 0 || lo >= hi || hi > lines.len() {
        None
    } else if line_matches(lines[hi - 1], needle) {
        Some(hi - 1)
    } else {
        search_rev(lines, lo, hi - 1, needle)
    }
}

/// Where a search starting at the current line lands: forward searches try
/// `(cur, len)` then wrap to `[0, cur]`; backward searches try `[0, cur)`
/// backward then wrap to `[cur, len)` backward.
pub open spec fn spec_search(
    lines: Seq<Line>,
    cur: int,
    needle: Seq<char>,
    reverse: bool,
) -> Option<int> {
    if reverse {
        match search_rev(lines, 0, cur, needle) {
            Some(i) => Some(i),
            None => search_rev(lines, cur, lines.len() as int, needle),
        }
    } else {
        match search_fwd(lines, cur + 1, lines.len() as int, needle) {
            Some(i) => Some(i),
            None => search_fwd(lines, 0, cur + 1, needle),
        }
    }
}

/// The attributed line buffer of the file at one commit.
#[derive(Debug)]
pub struct FileContent {
    pub commit_id: CommitId,
    pub path: String,
    pub lines: Vec<Line>,
    pub current_line_index: usize,
    pub applied_commits_len: usize,
}

impl FileContent {
    /// The current line index stays inside the buffer (at 0 when empty).
    pub open spec fn cur_ok(&self) -> bool {
        if self.lines@.len() == 0 {
            self.current_line_index == 0
        } else {
            self.current_line_index < self.lines@.len()
        }
    }

    /// A fresh, empty snapshot for a target commit and path.
    pub fn new(commit_id: CommitId, path: &str) -> (r: FileContent)
        ensures
            r.commit_id == commit_id,
            r.path@ == path@,
            r.lines@ =~= (Seq::<Line>::empty()),
            r.current_line_index == 0,
            r.applied_commits_len == 0,
            r.cur_ok(),
    {
        FileContent {
            commit_id,
            path: path.to_owned(),
            lines: Vec::new(),
            current_line_index: 0,
            applied_commits_len: 0,
        }
    }

    /// The commit this snapshot shows.
    pub fn commit_id(&self) -> (r: CommitId)
        ensures
            r == self.commit_id,
    {
        self.commit_id
    }

    /// The path of the file at this commit.
    pub fn path(&self) -> (r: &String)
        ensures
            *r == self.path,
    {
        &self.path
    }

    /// The attributed lines.
    pub fn lines(&self) -> (r: &Vec<Line>)
        ensures
            *r == self.lines,
    {
        &self.lines
    }

    /// Number of lines.
    pub fn lines_len(&self) -> (r: usize)
        ensures
            r == self.lines@.len(),
    {
        self.lines.len()
    }

    /// Clamp an index into the buffer (0 when the buffer is empty).
    pub fn saturate_line_index(&self, line_index: usize) -> (r: usize)
        ensures
            self.lines@.len() == 0 ==> r == 0,
            self.lines@.len() > 0 ==> r == if line_index < self.lines@.len() {
                line_index as int
            } else {
                self.lines@.len() - 1
            },
    {
        let len = self.lines.len();
        if len == 0 {
            0
        } else if line_index < len {
            line_index
        } else {
            len - 1
        }
    }

    /// The first line's number; fails exactly on an empty buffer.
    pub fn first_line_number(&self) -> (r: Result<usize, BlameError>)
        ensures
            r is Ok <==> self.lines@.len() > 0,
            r is Ok ==> r.unwrap() == self.lines@[0].line_number,
            r is Err ==> r == Err::<usize, BlameError>(BlameError::NoLines),
    {
        if self.lines.len() > 0 {
            Ok(self.lines[0].line_number())
        } else {
            Err(BlameError::NoLines)
        }
    }

    /// The last line's number; fails exactly on an empty buffer.
    pub fn last_line_number(&self) -> (r: Result<usize, BlameError>)
        ensures
            r is Ok <==> self.lines@.len() > 0,
            r is Ok ==> r.unwrap() == self.lines@[self.lines@.len() - 1].line_number,
            r is Err ==> r == Err::<usize, BlameError>(BlameError::NoLines),
    {
        let len = self.lines.len();
        if len > 0 {
            Ok(self.lines[len - 1].line_number())
        } else {
            Err(BlameError::NoLines)
        }
    }

    /// Clamp a line number into `[first, last + 1]`.  Fails exactly on an
    /// empty buffer, or when the last line's number cannot be exceeded.
    pub fn saturate_line_number_end(&self, line_number: usize) -> (r: Result<usize, BlameError>)
        ensures
            r is Ok <==> (self.lines@.len() > 0 && self.lines@[self.lines@.len()
                - 1].line_number < usize::MAX),
            r is Ok ==> r.unwrap() == ({
                let first = self.lines@[0].line_number as int;
                let last = self.lines@[self.lines@.len() - 1].line_number as int;
                let lifted = if line_number >= first {
                    line_number as int
                } else {
                    first
                };
                if lifted <= last + 1 {
                    lifted
                } else {
                    last + 1
                }
            }),
    {
        let len = self.lines.len();
        if len == 0 {
            return Err(BlameError::NoLines);
        }
        let first = self.lines[0].line_number();
        let last = self.lines[len - 1].line_number();
        if last == usize::MAX {
            return Err(BlameError::InvariantViolation);
        }
        let lifted = if line_number >= first {
            line_number
        } else {
            first
        };
        if lifted <= last + 1 {
            Ok(lifted)
        } else {
            Ok(last + 1)
        }
    }

    /// Resolve a 1-based line number to its current index.  Deleted-line
    /// placeholders can shift indices, so the buffer is searched forward
    /// from the arithmetic estimate `n - first` instead of assuming an
    /// exact hit.  Succeeds exactly when the number is inside the buffer's
    /// range, the estimate lands in bounds at or before the number, and a
    /// line carrying the number exists from the estimate on.
    #[verifier::loop_isolation(false)]
    pub fn line_index_from_number(&self, line_number: usize) -> (r: Result<usize, BlameError>)
        ensures
            ({
                let lines = self.lines@;
                let n = line_number as int;
                &&& r is Ok <==> (lines.len() > 0 && lines[0].line_number <= n && n <= lines[
                    lines.len() - 1].line_number && n - lines[0].line_number < lines.len()
                    && lines[n - lines[0].line_number].line_number <= n && find_line_from(
                    lines,
                    n - lines[0].line_number,
                    n,
                ) is Some)
                &&& r is Ok ==> Some(r.unwrap() as int) == find_line_from(
                    lines,
                    n - lines[0].line_number,
                    n,
                )
            }),
    {
        let ghost lines = self.lines@;
        let len = self.lines.len();
        if len == 0 {
            return Err(BlameError::NoLines);
        }
        let first = self.lines[0].line_number();
        let last = self.lines[len - 1].line_number();
        if line_number < first || line_number > last {
            return Err(BlameError::NotFound);
        }
        let start_index = line_number - first;
        if start_index >= len {
            return Err(BlameError::NotFound);
        }
        if self.lines[start_index].line_number() == line_number {
            return Ok(start_index);
        }
        if self.lines[start_index].line_number() > line_number {
            proof {
                assert(!(lines[line_number - lines[0].line_number].line_number
                    <= line_number));
            }
            return Err(BlameError::InvariantViolation);
        }
        let mut k = start_index + 1;
        while k < len
            invariant
                len == lines.len(),
                lines == self.lines@,
                start_index + 1 <= k <= len,
                find_line_from(lines, start_index as int, line_number as int) == find_line_from(
                    lines,
                    k as int,
                    line_number as int,
                ),
            decreases len - k,
        {
            if self.lines[k].line_number() == line_number {
                proof {
                    assert(find_line_from(lines, k as int, line_number as int) == Some(
                        k as int,
                    ));
                }
                return Ok(k);
            }
            proof {
                assert(find_line_from(lines, k as int, line_number as int) == find_line_from(
                    lines,
                    k + 1,
                    line_number as int,
                ));
            }
            k = k + 1;
        }
        Err(BlameError::NotFound)
    }

    /// Like `line_index_from_number`, but `last + 1` resolves to the
    /// one-past-the-end index.
    pub fn line_index_from_number_end(&self, line_number: usize) -> (r: Result<usize, BlameError>)
        ensures
            ({
                let lines = self.lines@;
                let n = line_number as int;
                if lines.len() > 0 && lines[lines.len() - 1].line_number < usize::MAX && n
                    == lines[lines.len() - 1].line_number + 1 {
                    r == Ok::<usize, BlameError>(lines.len() as usize)
                } else {
                    &&& r is Ok <==> (lines.len() > 0 && lines[0].line_number <= n && n
                        <= lines[lines.len() - 1].line_number && n - lines[0].line_number
                        < lines.len() && lines[n - lines[0].line_number].line_number <= n
                        && find_line_from(lines, n - lines[0].line_number, n) is Some)
                    &&& r is Ok ==> Some(r.unwrap() as int) == find_line_from(
                        lines,
                        n - lines[0].line_number,
                        n,
                    )
                }
            }),
    {
        let len = self.lines.len();
        if len > 0 {
            let last = self.lines[len - 1].line_number();
            if last < usize::MAX && line_number == last + 1 {
                return Ok(len);
            }
        }
        self.line_index_from_number(line_number)
    }

    /// The current line's index.
    pub fn current_line_index(&self) -> (r: usize)
        ensures
            r == self.current_line_index,
    {
        self.current_line_index
    }

    /// Move the current line, clamping into the buffer.
    pub fn set_current_line_index(&mut self, line_index: usize)
        ensures
            final(self).lines == old(self).lines,
            final(self).commit_id == old(self).commit_id,
            final(self).path == old(self).path,
            final(self).applied_commits_len == old(self).applied_commits_len,
            old(self).lines@.len() == 0 ==> final(self).current_line_index == 0,
            old(self).lines@.len() > 0 ==> final(self).current_line_index == if line_index
                < old(self).lines@.len() {
                line_index as int
            } else {
                old(self).lines@.len() - 1
            },
            final(self).cur_ok(),
    {
        self.current_line_index = self.saturate_line_index(line_index);
    }

    /// Move the current line to a 1-based line number; fails as
    /// `line_index_from_number` does, changing nothing then.
    pub fn set_current_line_number(&mut self, line_number: usize) -> (r: Result<(), BlameError>)
        ensures
            final(self).lines == old(self).lines,
            final(self).commit_id == old(self).commit_id,
            final(self).path == old(self).path,
            final(self).applied_commits_len == old(self).applied_commits_len,
            r is Ok <==> find_ok(old(self).lines@, line_number as int),
            r is Ok ==> old(self).lines@.len() > 0 && Some(
                final(self).current_line_index as int,
            ) == find_line_from(
                old(self).lines@,
                line_number - old(self).lines@[0].line_number,
                line_number as int,
            ) && final(self).cur_ok(),
            r is Err ==> final(self).current_line_index == old(self).current_line_index,
    {
        let index = match self.line_index_from_number(line_number) {
            Ok(index) => index,
            Err(e) => {
                return Err(e);
            },
        };
        proof {
            lemma_find_line_from_found(
                self.lines@,
                line_number - self.lines@[0].line_number,
                line_number as int,
            );
        }
        self.set_current_line_index(index);
        Ok(())
    }

    /// The current line.
    pub fn current_line(&self) -> (r: &Line)
        requires
            self.lines@.len() > 0,
            self.cur_ok(),
        ensures
            *r == self.lines@[self.current_line_index as int],
    {
        &self.lines[self.current_line_index]
    }

    /// Fill the buffer from already-split lines, numbering them from 1, all
    /// unattributed.
    pub fn read_lines(&mut self, content_lines: Vec<String>)
        ensures
            final(self).commit_id == old(self).commit_id,
            final(self).path == old(self).path,
            final(self).current_line_index == old(self).current_line_index,
            final(self).applied_commits_len == old(self).applied_commits_len,
            final(self).lines@.len() == content_lines@.len(),
            forall|i: int|
                0 <= i < content_lines@.len() ==> {
                    let line = #[trigger] final(self).lines@[i];
                    &&& line.line_type == LineType::Line
                    &&& line.line_number == i + 1
                    &&& line.content == content_lines@[i]
                    &&& line.commit_id is None
                    &&& line.index_in_hunk == 0
                    &&& line.is_last_line_in_hunk == false
                },
    {
        let mut lines: Vec<Line> = Vec::new();
        let total = content_lines.len();
        let mut i: usize = 0;
        while i < total
            invariant
                total == content_lines@.len(),
                i <= total,
                lines@.len() == i,
                forall|k: int|
                    0 <= k < i ==> {
                        let line = #[trigger] lines@[k];
                        &&& line.line_type == LineType::Line
                        &&& line.line_number == k + 1
                        &&& line.content == content_lines@[k]
                        &&& line.commit_id is None
                        &&& line.index_in_hunk == 0
                        &&& line.is_last_line_in_hunk == false
                    },
            decreases total - i,
        {
            lines.push(Line::new(i + 1, content_lines[i].clone()));
            i = i + 1;
        }
        self.lines = lines;
    }

    /// Fill the buffer from a whole text, split into lines.
    pub fn read_string(&mut self, content: &str)
        ensures
            final(self).commit_id == old(self).commit_id,
            final(self).path == old(self).path,
            final(self).current_line_index == old(self).current_line_index,
            final(self).applied_commits_len == old(self).applied_commits_len,
            final(self).lines@.len() == spec_split_lines(content@).len(),
            forall|i: int|
                0 <= i < final(self).lines@.len() ==> {
                    let line = #[trigger] final(self).lines@[i];
                    &&& line.line_type == LineType::Line
                    &&& line.line_number == i + 1
                    &&& line.content@ == spec_split_lines(content@)[i]
                    &&& line.commit_id is None
                },
    {
        let content_lines = split_lines(content);
        self.read_lines(content_lines);
    }

    /// Search for a case-insensitive substring match, starting just after
    /// (or, backward, just before) the current line and wrapping around the
    /// buffer.  Returns the matched index, or nothing when no line matches.
    pub fn search(&self, search: &str, reverse: bool) -> (r: Option<usize>)
        requires
            self.lines@.len() > 0,
            self.cur_ok(),
        ensures
            ({
                let found = spec_search(
                    self.lines@,
                    self.current_line_index as int,
                    lower_of(search@),
                    reverse,
                );
                &&& r is Some <==> found is Some
                &&& r is Some ==> r.unwrap() as int == found.unwrap() && r.unwrap()
                    < self.lines@.len()
            }),
    {
        let needle = to_lowercase(search);
        let len = self.lines.len();
        let cur = self.current_line_index;
        if reverse {
            match self.search_range(&needle, true, 0, cur) {
                Some(i) => Some(i),
                None => self.search_range(&needle, true, cur, len),
            }
        } else {
            match self.search_range(&needle, false, cur + 1, len) {
                Some(i) => Some(i),
                None => self.search_range(&needle, false, 0, cur + 1),
            }
        }
    }

    /// Search one index range, forward or backward.
    #[verifier::loop_isolation(false)]
    fn search_range(&self, needle: &String, reverse: bool, lo: usize, hi: usize) -> (r: Option<
        usize,
    >)
        requires
            hi <= self.lines@.len(),
        ensures
            ({
                let found = if reverse {
                    search_rev(self.lines@, lo as int, hi as int, needle@)
                } else {
                    search_fwd(self.lines@, lo as int, hi as int, needle@)
                };
                &&& r is Some <==> found is Some
                &&& r is Some ==> r.unwrap() as int == found.unwrap() && lo <= r.unwrap() < hi
            }),
    {
        let ghost lines = self.lines@;
        if lo >= hi {
            return None;
        }
        if reverse {
            let mut k = hi;
            while k > lo
                invariant
                    lines == self.lines@,
                    lo <= k <= hi <= lines.len(),
                    search_rev(lines, lo as int, hi as int, needle@) == search_rev(
                        lines,
                        lo as int,
                        k as int,
                        needle@,
                    ),
                decreases k,
            {
                k = k - 1;
                let matched = str_contains(
                    to_lowercase(self.lines[k].content().as_str()).as_str(),
                    needle.as_str(),
                );
                proof {
                    assert(matched == line_matches(lines[k as int], needle@));
                }
                if matched {
                    proof {
                        assert(search_rev(lines, lo as int, k + 1, needle@) == Some(k as int));
                    }
                    return Some(k);
                }
                proof {
                    assert(search_rev(lines, lo as int, k + 1, needle@) == search_rev(
                        lines,
                        lo as int,
                        k as int,
                        needle@,
                    ));
                }
            }
            None
        } else {
            let mut k = lo;
            while k < hi
                invariant
                    lines == self.lines@,
                    lo <= k <= hi <= lines.len(),
                    search_fwd(lines, lo as int, hi as int, needle@) == search_fwd(
                        lines,
                        k as int,
                        hi as int,
                        needle@,
                    ),
                decreases hi - k,
            {
                let matched = str_contains(
                    to_lowercase(self.lines[k].content().as_str()).as_str(),
                    needle.as_str(),
                );
                proof {
                    assert(matched == line_matches(lines[k as int], needle@));
                }
                if matched {
                    proof {
                        assert(search_fwd(lines, k as int, hi as int, needle@) == Some(k as int));
                    }
                    return Some(k);
                }
                proof {
                    assert(search_fwd(lines, k as int, hi as int, needle@) == search_fwd(
                        lines,
                        k + 1,
                        hi as int,
                        needle@,
                    ));
                }
                k = k + 1;
            }
            None
        }
    }
}

/// The success condition of resolving a line number, as
/// `line_index_from_number` states it.
pub open spec fn find_ok(lines: Seq<Line>, n: int) -> bool {
    &&& lines.len() > 0
    &&& lines[0].line_number <= n
    &&& n <= lines[lines.len() - 1].line_number
    &&& n - lines[0].line_number < lines.len()
    &&& lines[n - lines[0].line_number].line_number <= n
    &&& find_line_from(lines, n - lines[0].line_number, n) is Some
}


/// The mathematical model of one line.
pub ghost struct LineModel {
    pub line_type: LineType,
    pub line_number: int,
    pub content: Seq<char>,
    pub commit_id: Option<CommitId>,
    pub index_in_hunk: int,
    pub is_last_line_in_hunk: bool,
}

impl View for Line {
    type V = LineModel;

    open spec fn view(&self) -> LineModel {
        LineModel {
            line_type: self.line_type,
            line_number: self.line_number as int,
            content: self.content@,
            commit_id: self.commit_id,
            index_in_hunk: self.index_in_hunk as int,
            is_last_line_in_hunk: self.is_last_line_in_hunk,
        }
    }
}

/// The model of a whole buffer.
pub open spec fn models(lines: Seq<Line>) -> Seq<LineModel> {
    Seq::new(lines.len(), |i: int| lines[i]@)
}

/// The model of a freshly numbered, unattributed buffer over these lines.
pub open spec fn fresh_lines_model(content_lines: Seq<String>) -> Seq<LineModel> {
    Seq::new(
        content_lines.len(),
        |i: int|
            LineModel {
                line_type: LineType::Line,
                line_number: i + 1,
                content: content_lines[i]@,
                commit_id: None,
                index_in_hunk: 0,
                is_last_line_in_hunk: false,
            },
    )
}

/// The placeholder model for lines a commit deleted at this position.
pub open spec fn placeholder_model(line_number: int, cid: CommitId) -> LineModel {
    LineModel {
        line_type: LineType::Deleted,
        line_number,
        content: Seq::empty(),
        commit_id: Some(cid),
        index_in_hunk: 0,
        is_last_line_in_hunk: false,
    }
}

/// The first index at or after `from` whose line carries number `n`,
/// on the model.
pub open spec fn find_model_from(ms: Seq<LineModel>, from: int, n: int) -> Option<int>
    decreases ms.len() - from,
{
    if from < 0 || from >= ms.len() {
        None
    } else if ms[from].line_number == n {
        Some(from)
    } else {
        find_model_from(ms, from + 1, n)
    }
}

/// Line-level and model-level number lookup agree.
pub proof fn lemma_find_model_agrees(lines: Seq<Line>, from: int, n: int)
    ensures
        find_line_from(lines, from, n) == find_model_from(models(lines), from, n),
    decreases lines.len() - from,
{
    if !(from < 0 || from >= lines.len()) {
        assert(models(lines)[from] == lines[from]@);
        if lines[from].line_number != n {
            lemma_find_model_agrees(lines, from + 1, n);
        }
    }
}

/// The success condition of resolving a line number, on the model.
pub open spec fn find_ok_m(ms: Seq<LineModel>, n: int) -> bool {
    &&& ms.len() > 0
    &&& ms[0].line_number <= n
    &&& n <= ms[ms.len() - 1].line_number
    &&& n - ms[0].line_number < ms.len()
    &&& ms[n - ms[0].line_number].line_number <= n
    &&& find_model_from(ms, n - ms[0].line_number, n) is Some
}

/// The resolved index, on the model.
pub open spec fn find_idx_m(ms: Seq<LineModel>, n: int) -> int {
    find_model_from(ms, n - ms[0].line_number, n).unwrap()
}

/// The success condition of the end-tolerant lookup, on the model.
pub open spec fn find_end_ok_m(ms: Seq<LineModel>, n: int) -> bool {
    if ms.len() > 0 && ms[ms.len() - 1].line_number < usize::MAX && n == ms[ms.len()
        - 1].line_number + 1 {
        true
    } else {
        find_ok_m(ms, n)
    }
}

/// The index the end-tolerant lookup resolves to, on the model.
pub open spec fn find_end_idx_m(ms: Seq<LineModel>, n: int) -> int {
    if ms.len() > 0 && ms[ms.len() - 1].line_number < usize::MAX && n == ms[ms.len()
        - 1].line_number + 1 {
        ms.len() as int
    } else {
        find_idx_m(ms, n)
    }
}

/// A line number clamped into `[first, last + 1]`, on the model.
pub open spec fn sat_end_m(ms: Seq<LineModel>, n: int) -> int {
    let first = ms[0].line_number;
    let last = ms[ms.len() - 1].line_number;
    let lifted = if n >= first {
        n
    } else {
        first
    };
    if lifted <= last + 1 {
        lifted
    } else {
        last + 1
    }
}

/// The first index at or after `from` whose line number reaches `end_ln`,
/// or the length: where the attribution pass stops.
pub open spec fn stop_m(ms: Seq<LineModel>, from: int, end_ln: int) -> int
    decreases ms.len() - from,
{
    if from < 0 || from >= ms.len() {
        ms.len() as int
    } else if ms[from].line_number >= end_ln {
        from
    } else {
        stop_m(ms, from + 1, end_ln)
    }
}

/// Attribute every still-unattributed line in `[lo, hi)` to `cid`.
pub open spec fn window_m(ms: Seq<LineModel>, lo: int, hi: int, cid: CommitId) -> Seq<LineModel> {
    Seq::new(
        ms.len(),
        |k: int|
            if lo <= k < hi && ms[k].commit_id is None {
                LineModel { commit_id: Some(cid), ..ms[k] }
            } else {
                ms[k]
            },
    )
}

/// Whether applying one part to the snapshot state succeeds.
pub open spec fn apply_part_ok_m(st: (Seq<LineModel>, int), part: DiffPart, cid: CommitId) -> bool {
    let ms = st.0;
    if part.new.spec_is_empty() {
        if part.new.start == 0 || part.old.start == 0 {
            false
        } else if part.old.spec_is_empty() {
            true
        } else {
            find_end_ok_m(ms, part.new.start as int)
        }
    } else {
        &&& ms.len() > 0
        &&& ms[ms.len() - 1].line_number < usize::MAX
        &&& find_ok_m(ms, part.new.start as int)
    }
}

/// What applying one part does to the snapshot state: attribute the lines
/// of the part's new-side window, first writer winning; for a part whose
/// new side is empty (a pure deletion), insert a placeholder line at the
/// collapse position, unless both neighbours already belong to the same
/// commit and so already imply the deletion.
pub open spec fn apply_part_m(st: (Seq<LineModel>, int), part: DiffPart, cid: CommitId) -> (
    Seq<LineModel>,
    int,
) {
    let ms = st.0;
    let cur = st.1;
    if part.new.spec_is_empty() {
        if part.new.start == 0 || part.old.start == 0 || part.old.spec_is_empty()
            || !find_end_ok_m(ms, part.new.start as int) {
            st
        } else {
            let idx = find_end_idx_m(ms, part.new.start as int);
            if 0 < idx < ms.len() && ms[idx - 1].commit_id is Some && ms[idx].commit_id is Some
                && ms[idx - 1].commit_id == ms[idx].commit_id {
                st
            } else {
                (
                    ms.insert(idx, placeholder_model(part.new.start as int, cid)),
                    if cur >= idx {
                        cur + 1
                    } else {
                        cur
                    },
                )
            }
        }
    } else {
        if ms.len() > 0 && ms[ms.len() - 1].line_number < usize::MAX && find_ok_m(
            ms,
            part.new.start as int,
        ) {
            let idx = find_idx_m(ms, part.new.start as int);
            let hi = stop_m(ms, idx, sat_end_m(ms, part.new.end as int));
            (window_m(ms, idx, hi, cid), cur)
        } else {
            st
        }
    }
}

/// Whether applying a whole part list succeeds.
pub open spec fn apply_parts_ok_m(
    st: (Seq<LineModel>, int),
    parts: Seq<DiffPart>,
    cid: CommitId,
) -> bool
    decreases parts.len(),
{
    if parts.len() == 0 {
        true
    } else {
        apply_parts_ok_m(st, parts.drop_last(), cid) && apply_part_ok_m(
            apply_parts_m(st, parts.drop_last(), cid),
            parts.last(),
            cid,
        )
    }
}

/// What applying a whole part list does, part by part in order.
pub open spec fn apply_parts_m(
    st: (Seq<LineModel>, int),
    parts: Seq<DiffPart>,
    cid: CommitId,
) -> (Seq<LineModel>, int)
    decreases parts.len(),
{
    if parts.len() == 0 {
        st
    } else {
        apply_part_m(apply_parts_m(st, parts.drop_last(), cid), parts.last(), cid)
    }
}

/// Position of a line inside its contiguous same-commit run.
pub open spec fn run_index_m(ms: Seq<LineModel>, k: int) -> int
    decreases k,
{
    if k < 0 || k >= ms.len() {
        0
    } else if ms[k].commit_id is None {
        0
    } else if k == 0 {
        0
    } else if ms[k - 1].commit_id == ms[k].commit_id {
        run_index_m(ms, k - 1) + 1
    } else {
        0
    }
}

/// Whether a line opens a new run (an attributed line after a different
/// commit, or an unattributed line right after an attributed one).
pub open spec fn is_first_of_run_m(ms: Seq<LineModel>, k: int) -> bool {
    if ms[k].commit_id is Some {
        k == 0 || ms[k - 1].commit_id != ms[k].commit_id
    } else {
        k > 0 && ms[k - 1].commit_id is Some
    }
}

/// Recompute every line's run metadata: its position within its run, and
/// whether it closes a run (the last line keeps its old flag, as the pass
/// never looks past the end).
pub open spec fn with_runs_m(ms: Seq<LineModel>) -> Seq<LineModel> {
    Seq::new(
        ms.len(),
        |k: int|
            LineModel {
                index_in_hunk: run_index_m(ms, k),
                is_last_line_in_hunk: if k + 1 < ms.len() {
                    is_first_of_run_m(ms, k + 1)
                } else {
                    ms[k].is_last_line_in_hunk
                },
                ..ms[k]
            },
    )
}


/// The stop scan lands exactly where a linear scan stops.
proof fn lemma_stop_is(ms: Seq<LineModel>, from: int, k: int, end_ln: int)
    requires
        0 <= from <= k <= ms.len(),
        forall|m: int| from <= m < k ==> #[trigger] ms[m].line_number < end_ln,
        k < ms.len() ==> ms[k].line_number >= end_ln,
    ensures
        stop_m(ms, from, end_ln) == k,
    decreases k - from,
{
    if from < k {
        lemma_stop_is(ms, from + 1, k, end_ln);
    }
}

impl FileContent {
    /// Apply one diff part, attributing the lines of its new-side window to
    /// the given commit, first writer winning; a part whose new side is
    /// empty inserts a deleted-line placeholder instead.  On failure
    /// nothing changes.
    #[verifier::loop_isolation(false)]
    pub fn apply_diff_part(&mut self, part: &DiffPart, commit_id: CommitId) -> (r: Result<
        (),
        BlameError,
    >)
        requires
            old(self).cur_ok(),
        ensures
            ({
                let st = (models(old(self).lines@), old(self).current_line_index as int);
                &&& (r is Ok <==> apply_part_ok_m(st, *part, commit_id))
                &&& r is Ok ==> {
                    let out = apply_part_m(st, *part, commit_id);
                    &&& models(final(self).lines@) == out.0
                    &&& final(self).current_line_index == out.1
                    &&& final(self).commit_id == old(self).commit_id
                    &&& final(self).path == old(self).path
                    &&& final(self).applied_commits_len == old(self).applied_commits_len
                    &&& final(self).cur_ok()
                }
                &&& r is Err ==> *final(self) == *old(self)
            }),
    {
        let ghost ms0 = models(self.lines@);
        let ghost st0 = (ms0, self.current_line_index as int);
        if part.new.is_empty() {
            return self.insert_deleted_part(part, commit_id);
        }
        // Saturate the window end, as it may be `usize::MAX` for the
        // synthetic whole-file part.
        let end_sat = match self.saturate_line_number_end(part.new.end) {
            Ok(v) => v,
            Err(e) => {
                proof {
                    assert(!apply_part_ok_m(st0, *part, commit_id));
                }
                return Err(e);
            },
        };
        proof {
            assert(end_sat == sat_end_m(ms0, part.new.end as int));
        }
        let line_index = match self.line_index_from_number(part.new.start) {
            Ok(v) => v,
            Err(e) => {
                proof {
                    lemma_find_model_agrees(
                        self.lines@,
                        part.new.start - self.lines@[0].line_number,
                        part.new.start as int,
                    );
                    assert(!find_ok_m(ms0, part.new.start as int));
                    assert(!apply_part_ok_m(st0, *part, commit_id));
                }
                return Err(e);
            },
        };
        proof {
            lemma_find_model_agrees(
                self.lines@,
                part.new.start - self.lines@[0].line_number,
                part.new.start as int,
            );
            assert(find_ok_m(ms0, part.new.start as int));
            assert(line_index == find_idx_m(ms0, part.new.start as int));
            lemma_find_line_from_found(
                self.lines@,
                part.new.start - self.lines@[0].line_number,
                part.new.start as int,
            );
        }
        let len = self.lines.len();
        let mut k = line_index;
        while k < len
            invariant
                line_index <= k <= len,
                self.lines@.len() == len,
                self.commit_id == old(self).commit_id,
                self.path == old(self).path,
                self.current_line_index == old(self).current_line_index,
                self.applied_commits_len == old(self).applied_commits_len,
                models(self.lines@) =~= window_m(ms0, line_index as int, k as int, commit_id),
                forall|m: int|
                    line_index <= m < k ==> #[trigger] ms0[m].line_number < end_sat,
            decreases len - k,
        {
            proof {
                assert(self.lines@[k as int]@ == window_m(
                    ms0,
                    line_index as int,
                    k as int,
                    commit_id,
                )[k as int]);
            }
            if self.lines[k].line_number() >= end_sat {
                break;
            }
            if self.lines[k].commit_id().is_none() {
                self.lines[k].set_commit_id(commit_id);
            }
            k = k + 1;
            proof {
                let prev = window_m(ms0, line_index as int, k - 1, commit_id);
                let cur = window_m(ms0, line_index as int, k as int, commit_id);
                assert forall|m: int| 0 <= m < len implies models(self.lines@)[m] == cur[m] by {
                    assert(models(self.lines@)[m] == self.lines@[m]@);
                    if m != k - 1 {
                        assert(self.lines@[m]@ == prev[m]);
                    } else {
                        assert(prev[m] == ms0[m]);
                    }
                }
                assert(models(self.lines@) =~= window_m(
                    ms0,
                    line_index as int,
                    k as int,
                    commit_id,
                ));
            }
        }
        proof {
            lemma_stop_is(ms0, line_index as int, k as int, end_sat as int);
            assert(models(self.lines@) =~= apply_part_m(st0, *part, commit_id).0);
        }
        Ok(())
    }

    /// A part whose (remapped) new side is empty is a pure deletion at this
    /// snapshot: insert a placeholder line at the collapse position, unless
    /// the two neighbouring lines already belong to that same commit.  On
    /// failure nothing changes.
    #[verifier::loop_isolation(false)]
    fn insert_deleted_part(&mut self, part: &DiffPart, commit_id: CommitId) -> (r: Result<
        (),
        BlameError,
    >)
        requires
            old(self).cur_ok(),
            part.new.spec_is_empty(),
        ensures
            ({
                let st = (models(old(self).lines@), old(self).current_line_index as int);
                &&& (r is Ok <==> apply_part_ok_m(st, *part, commit_id))
                &&& r is Ok ==> {
                    let out = apply_part_m(st, *part, commit_id);
                    &&& models(final(self).lines@) == out.0
                    &&& final(self).current_line_index == out.1
                    &&& final(self).commit_id == old(self).commit_id
                    &&& final(self).path == old(self).path
                    &&& final(self).applied_commits_len == old(self).applied_commits_len
                    &&& final(self).cur_ok()
                }
                &&& r is Err ==> *final(self) == *old(self)
            }),
    {
        let ghost ms0 = models(self.lines@);
        let ghost st0 = (ms0, self.current_line_index as int);
        if part.new.start == 0 || part.old.start == 0 {
            return Err(BlameError::InvariantViolation);
        }
        if part.old.is_empty() {
            // Line-number mapping can collapse a part to nothing; there is
            // no deletion to mark then.
            return Ok(());
        }
        let total_lines = self.lines.len();
        proof {
            assert(total_lines == self.lines@.len());
        }
        let line_index = match self.line_index_from_number_end(part.new.start) {
            Ok(v) => v,
            Err(e) => {
                proof {
                    let lines = self.lines@;
                    assert forall|m: int| 0 <= m < lines.len() implies models(lines)[m]
                        == #[trigger] lines[m]@ by {}
                    lemma_find_model_agrees(
                        lines,
                        part.new.start - lines[0].line_number,
                        part.new.start as int,
                    );
                    assert(!find_end_ok_m(ms0, part.new.start as int));
                }
                return Err(e);
            },
        };
        proof {
            let lines = self.lines@;
            assert forall|m: int| 0 <= m < lines.len() implies models(lines)[m]
                == #[trigger] lines[m]@ by {}
            if !(lines.len() > 0 && lines[lines.len() - 1].line_number < usize::MAX
                && part.new.start == lines[lines.len() - 1].line_number + 1) {
                lemma_find_model_agrees(
                    lines,
                    part.new.start - lines[0].line_number,
                    part.new.start as int,
                );
                lemma_find_line_from_found(
                    lines,
                    part.new.start - lines[0].line_number,
                    part.new.start as int,
                );
            }
            assert(ms0.len() == lines.len());
            if lines.len() > 0 {
                assert(ms0[ms0.len() - 1].line_number == lines[lines.len() - 1].line_number);
                assert(ms0[0].line_number == lines[0].line_number);
            }
            assert(find_end_ok_m(ms0, part.new.start as int));
            if lines.len() > 0 && lines[lines.len() - 1].line_number < usize::MAX
                && part.new.start == lines[lines.len() - 1].line_number + 1 {
                assert(line_index == lines.len());
                assert(find_end_idx_m(ms0, part.new.start as int) == ms0.len());
            } else {
                assert(Some(line_index as int) == find_line_from(
                    lines,
                    part.new.start - lines[0].line_number,
                    part.new.start as int,
                ));
                assert(find_line_from(
                    lines,
                    part.new.start - lines[0].line_number,
                    part.new.start as int,
                ) == find_model_from(ms0, part.new.start - ms0[0].line_number, part.new.start as int));
                assert(find_end_idx_m(ms0, part.new.start as int) == find_model_from(
                    ms0,
                    part.new.start - ms0[0].line_number,
                    part.new.start as int,
                ).unwrap());
            }
            assert(line_index == find_end_idx_m(ms0, part.new.start as int));
            assert(line_index <= lines.len());
        }
        if line_index > 0 && line_index < self.lines.len() {
            let prev_commit = self.lines[line_index - 1].commit_id();
            let next_commit = self.lines[line_index].commit_id();
            match (prev_commit, next_commit) {
                (Some(prev), Some(next)) => {
                    if prev == next {
                        // The deletion is already implied by the
                        // neighbouring run; avoid a duplicate marker.
                        return Ok(());
                    }
                },
                _ => {},
            }
        }
        let line = Line::new_deleted(part.new.start, commit_id);
        self.lines.insert(line_index, line);
        if self.current_line_index >= line_index {
            self.current_line_index = self.current_line_index + 1;
        }
        proof {
            assert(models(self.lines@) =~= ms0.insert(
                line_index as int,
                placeholder_model(part.new.start as int, commit_id),
            ));
        }
        Ok(())
    }

    /// Recompute every line's run metadata: consecutive lines sharing a
    /// commit form a run; each line learns its position within its run and
    /// whether it closes one.
    #[verifier::loop_isolation(false)]
    pub fn update_lines_after_apply(&mut self)
        ensures
            models(final(self).lines@) == with_runs_m(models(old(self).lines@)),
            final(self).commit_id == old(self).commit_id,
            final(self).path == old(self).path,
            final(self).current_line_index == old(self).current_line_index,
            final(self).applied_commits_len == old(self).applied_commits_len,
            final(self).lines@.len() == old(self).lines@.len(),
    {
        let ghost ms0 = models(self.lines@);
        let len = self.lines.len();
        let mut index_in_hunk: usize = 0;
        let mut k: usize = 0;
        while k < len
            invariant
                k <= len,
                self.lines@.len() == len,
                self.commit_id == old(self).commit_id,
                self.path == old(self).path,
                self.current_line_index == old(self).current_line_index,
                self.applied_commits_len == old(self).applied_commits_len,
                ms0 == models(old(self).lines@),
                ms0.len() == len,
                forall|m: int|
                    0 <= m < len ==> {
                        let cur = #[trigger] self.lines@[m]@;
                        &&& cur.line_type == ms0[m].line_type
                        &&& cur.line_number == ms0[m].line_number
                        &&& cur.content == ms0[m].content
                        &&& cur.commit_id == ms0[m].commit_id
                    },
                forall|m: int|
                    0 <= m < k ==> (#[trigger] self.lines@[m]@).index_in_hunk == run_index_m(
                        ms0,
                        m,
                    ),
                forall|m: int|
                    0 <= m < k - 1 ==> (#[trigger] self.lines@[m]@).is_last_line_in_hunk
                        == is_first_of_run_m(ms0, m + 1),
                forall|m: int|
                    k <= m < len ==> (#[trigger] self.lines@[m]@).index_in_hunk
                        == ms0[m].index_in_hunk,
                forall|m: int|
                    (if k == 0 {
                        0int
                    } else {
                        k - 1
                    }) <= m < len ==> (#[trigger] self.lines@[m]@).is_last_line_in_hunk
                        == ms0[m].is_last_line_in_hunk,
                k > 0 ==> index_in_hunk == run_index_m(ms0, k - 1),
                k > 0 ==> index_in_hunk <= k - 1,
                k == 0 ==> index_in_hunk == 0,
            decreases len - k,
        {
            proof {
                assert(self.lines@[k as int]@.commit_id == ms0[k as int].commit_id);
                if k > 0 {
                    assert(self.lines@[k - 1]@.commit_id == ms0[k - 1].commit_id);
                }
            }
            let commit_id = self.lines[k].commit_id();
            let prev_commit_id = if k > 0 {
                self.lines[k - 1].commit_id()
            } else {
                None
            };
            let is_first_line_in_hunk: bool;
            match commit_id {
                Some(cid) => {
                    let same = match prev_commit_id {
                        Some(prev) => prev == cid,
                        None => false,
                    };
                    if same {
                        index_in_hunk = index_in_hunk + 1;
                        is_first_line_in_hunk = false;
                    } else {
                        index_in_hunk = 0;
                        is_first_line_in_hunk = true;
                    }
                },
                None => {
                    index_in_hunk = 0;
                    is_first_line_in_hunk = prev_commit_id.is_some();
                },
            }
            proof {
                assert(index_in_hunk == run_index_m(ms0, k as int));
                assert(is_first_line_in_hunk == is_first_of_run_m(ms0, k as int));
            }
            self.lines[k].set_index_in_hunk(index_in_hunk);
            if k > 0 {
                self.lines[k - 1].set_is_last_line_in_hunk(is_first_line_in_hunk);
            }
            k = k + 1;
        }
        proof {
            assert(models(self.lines@) =~= with_runs_m(ms0));
        }
    }
}


/// An older commit's parts re-expressed in the snapshot's numbering:
/// starting from commit `i`'s own parts, apply the line-number map of each
/// commit between `j` and `i`, nearest last.
pub open spec fn adjusted_down(commits: Seq<FileCommit>, i: int, j: int) -> Seq<DiffPart>
    decreases i - j,
{
    if j >= i {
        commits[i].diff_parts@
    } else {
        mapped_parts(built_items(commits[j].diff_parts@), adjusted_down(commits, i, j + 1))
    }
}

/// Whether every remapping step from commit `i` down to level `j` is
/// accepted by the maps.
pub open spec fn adjust_ok(commits: Seq<FileCommit>, i: int, j: int) -> bool
    decreases i - j,
{
    if j >= i {
        true
    } else {
        let acc = adjusted_down(commits, i, j + 1);
        let items = built_items(commits[j].diff_parts@);
        &&& adjust_ok(commits, i, j + 1)
        &&& parts_list_valid(acc)
        &&& values_mappable(items, flat_bounds(old_sides(acc)))
        &&& values_mappable(items, flat_bounds(new_sides(acc)))
    }
}

/// The parts commit `i` contributes to the snapshot: its own for the
/// nearest commit, the fully remapped ones for any older commit.
pub open spec fn commit_parts_for(commits: Seq<FileCommit>, i: int) -> Seq<DiffPart> {
    if i == 0 {
        commits[0].diff_parts@
    } else {
        adjusted_down(commits, i, 0)
    }
}

/// Whether applying commits `[from, upto)` of the suffix succeeds: every
/// remapping is accepted and every part application succeeds.
pub open spec fn apply_commits_ok_m(
    st: (Seq<LineModel>, int),
    commits: Seq<FileCommit>,
    from: int,
    upto: int,
) -> bool
    decreases upto - from,
{
    if upto <= from {
        true
    } else {
        let prev = apply_commits_m(st, commits, from, upto - 1);
        &&& apply_commits_ok_m(st, commits, from, upto - 1)
        &&& (upto - 1 > 0 ==> adjust_ok(commits, upto - 1, 0))
        &&& apply_parts_ok_m(prev, commit_parts_for(commits, upto - 1), commits[upto
            - 1].commit_id)
    }
}

/// What applying commits `[from, upto)` of the suffix does, in order of
/// increasing distance from the snapshot.
pub open spec fn apply_commits_m(
    st: (Seq<LineModel>, int),
    commits: Seq<FileCommit>,
    from: int,
    upto: int,
) -> (Seq<LineModel>, int)
    decreases upto - from,
{
    if upto <= from {
        st
    } else {
        apply_parts_m(
            apply_commits_m(st, commits, from, upto - 1),
            commit_parts_for(commits, upto - 1),
            commits[upto - 1].commit_id,
        )
    }
}

/// A successful application of a part list is successful on every prefix.
proof fn lemma_parts_ok_prefix(
    st: (Seq<LineModel>, int),
    parts: Seq<DiffPart>,
    cid: CommitId,
    k: int,
)
    requires
        0 <= k <= parts.len(),
        apply_parts_ok_m(st, parts, cid),
    ensures
        apply_parts_ok_m(st, parts.take(k), cid),
    decreases parts.len() - k,
{
    if k < parts.len() {
        assert(parts.drop_last() =~= parts.take(parts.len() - 1));
        lemma_parts_ok_prefix(st, parts.take(parts.len() - 1), cid, k);
        assert(parts.take(parts.len() - 1).take(k) =~= parts.take(k));
    } else {
        assert(parts.take(k) =~= parts);
    }
}

/// One step of a part-list application, in prefix form.
proof fn lemma_parts_take_step(
    st: (Seq<LineModel>, int),
    parts: Seq<DiffPart>,
    cid: CommitId,
    k: int,
)
    requires
        0 <= k < parts.len(),
    ensures
        apply_parts_m(st, parts.take(k + 1), cid) == apply_part_m(
            apply_parts_m(st, parts.take(k), cid),
            parts[k],
            cid,
        ),
        apply_parts_ok_m(st, parts.take(k + 1), cid) == (apply_parts_ok_m(st, parts.take(k), cid)
            && apply_part_ok_m(apply_parts_m(st, parts.take(k), cid), parts[k], cid)),
{
    assert(parts.take(k + 1).drop_last() =~= parts.take(k));
    assert(parts.take(k + 1).last() == parts[k]);
}

/// A successful application of a commit range is successful on every
/// shorter range from the same start.
proof fn lemma_commits_ok_prefix(
    st: (Seq<LineModel>, int),
    commits: Seq<FileCommit>,
    from: int,
    u: int,
    upto: int,
)
    requires
        from <= u <= upto,
        apply_commits_ok_m(st, commits, from, upto),
    ensures
        apply_commits_ok_m(st, commits, from, u),
    decreases upto - u,
{
    if u < upto {
        lemma_commits_ok_prefix(st, commits, from, u, upto - 1);
    }
}

impl FileContent {
    /// Apply the commits of the history suffix that starts at
    /// `first_index`, skipping the first `skip` of them (already applied
    /// earlier): the nearest commit's parts directly, each older commit's
    /// parts remapped into the snapshot's numbering first.  On failure the
    /// attribution may be partial; the failure is surfaced, never dropped.
    #[verifier::loop_isolation(false)]
    fn apply_commits(&mut self, commits: &FileCommits, first_index: usize, skip: usize) -> (r:
        Result<(), BlameError>)
        requires
            old(self).cur_ok(),
            commits.wf(),
            first_index <= commits@.len(),
        ensures
            ({
                let sub = commits@.skip(first_index as int);
                let st0 = (models(old(self).lines@), old(self).current_line_index as int);
                let upto = sub.len() as int;
                &&& (r is Ok <==> apply_commits_ok_m(st0, sub, skip as int, upto))
                &&& r is Ok ==> {
                    let out = apply_commits_m(st0, sub, skip as int, upto);
                    &&& models(final(self).lines@) == out.0
                    &&& final(self).current_line_index == out.1
                    &&& final(self).commit_id == old(self).commit_id
                    &&& final(self).path == old(self).path
                    &&& final(self).applied_commits_len == old(self).applied_commits_len
                    &&& final(self).cur_ok()
                }
                &&& r is Err ==> {
                    &&& final(self).applied_commits_len == old(self).applied_commits_len
                    &&& final(self).commit_id == old(self).commit_id
                    &&& final(self).path == old(self).path
                    &&& final(self).cur_ok()
                }
            }),
    {
        let ghost sub = commits@.skip(first_index as int);
        let ghost st0 = (models(self.lines@), self.current_line_index as int);
        let ghost upto = sub.len() as int;
        let total = commits.len();
        let mut i: usize;
        if skip > total - first_index {
            i = total;
            proof {
                assert(apply_commits_m(st0, sub, skip as int, upto) == st0);
            }
        } else {
            i = first_index + skip;
        }
        while i < total
            invariant
                commits.wf(),
                first_index <= commits@.len(),
                sub == commits@.skip(first_index as int),
                upto == sub.len() as int,
                total == commits@.len(),
                first_index <= i || i == total,
                i <= total,
                i >= first_index + skip || i == total,
                self.cur_ok(),
                self.commit_id == old(self).commit_id,
                self.path == old(self).path,
                self.applied_commits_len == old(self).applied_commits_len,
                (models(self.lines@), self.current_line_index as int) == apply_commits_m(
                    st0,
                    sub,
                    skip as int,
                    i - first_index,
                ),
                apply_commits_ok_m(st0, sub, skip as int, i - first_index),
            decreases total - i,
        {
            let ghost i_rel = i - first_index;
            let ghost st_i = (models(self.lines@), self.current_line_index as int);
            let commit = match commits.get(i) {
                Some(commit) => commit,
                None => {
                    proof {
                        assert(false);
                    }
                    return Err(BlameError::NotFound);
                },
            };
            let commit_id = commit.commit_id();
            proof {
                assert(sub[i_rel] == commits@[i as int]);
            }
            // The parts to lay onto the snapshot: the commit's own for the
            // nearest commit, remapped for any older one.
            let mut adjusted: Vec<DiffPart> = Vec::new();
            let source = commit.diff_parts();
            let mut p: usize = 0;
            while p < source.len()
                invariant
                    p <= source@.len(),
                    adjusted@ =~= source@.subrange(0, p as int),
                decreases source@.len() - p,
            {
                adjusted.push(source[p]);
                p = p + 1;
            }
            proof {
                assert(adjusted@ =~= source@);
                assert(adjusted@ == adjusted_down(sub, i_rel, i_rel));
            }
            if i > first_index {
                // Remap through the maps of the commits in between,
                // nearest last.
                let mut j = i;
                while j > first_index
                    invariant
                        commits.wf(),
                        first_index <= j <= i,
                        i < commits@.len(),
                        sub == commits@.skip(first_index as int),
                        i_rel == i - first_index,
                        adjusted@ == adjusted_down(sub, i_rel, j - first_index),
                        adjust_ok(sub, i_rel, j - first_index),
                    decreases j,
                {
                    j = j - 1;
                    let between = match commits.get(j) {
                        Some(between) => between,
                        None => {
                            proof {
                                assert(false);
                            }
                            return Err(BlameError::NotFound);
                        },
                    };
                    proof {
                        assert(sub[j - first_index] == commits@[j as int]);
                        assert(parts_list_valid(between.diff_parts@));
                    }
                    let map = LineNumberMap::new_new_from_old(between.diff_parts());
                    if map.apply_to_parts(&mut adjusted).is_err() {
                        proof {
                            assert(!adjust_ok(sub, i_rel, j - first_index));
                            lemma_adjust_ok_down(sub, i_rel, j - first_index);
                            assert(!apply_commits_ok_m(st0, sub, skip as int, i_rel + 1));
                            if apply_commits_ok_m(st0, sub, skip as int, upto) {
                                lemma_commits_ok_prefix(
                                    st0,
                                    sub,
                                    skip as int,
                                    i_rel + 1,
                                    upto,
                                );
                            }
                        }
                        return Err(BlameError::InvariantViolation);
                    }
                }
            }
            proof {
                assert(adjusted@ == commit_parts_for(sub, i_rel));
                assert(i_rel > 0 ==> adjust_ok(sub, i_rel, 0));
            }
            // Lay the parts onto the snapshot, first writer winning.
            let ghost parts_i = adjusted@;
            let mut q: usize = 0;
            while q < adjusted.len()
                invariant
                    q <= adjusted@.len(),
                    adjusted@ == parts_i,
                    self.cur_ok(),
                    self.commit_id == old(self).commit_id,
                    self.path == old(self).path,
                    self.applied_commits_len == old(self).applied_commits_len,
                    (models(self.lines@), self.current_line_index as int) == apply_parts_m(
                        st_i,
                        parts_i.take(q as int),
                        commit_id,
                    ),
                    apply_parts_ok_m(st_i, parts_i.take(q as int), commit_id),
                decreases adjusted@.len() - q,
            {
                let part = adjusted[q];
                let stepped = self.apply_diff_part(&part, commit_id);
                proof {
                    lemma_parts_take_step(st_i, parts_i, commit_id, q as int);
                }
                if stepped.is_err() {
                    proof {
                        assert(!apply_parts_ok_m(st_i, parts_i.take(q + 1), commit_id));
                        if apply_parts_ok_m(st_i, parts_i, commit_id) {
                            lemma_parts_ok_prefix(st_i, parts_i, commit_id, q + 1);
                        }
                        assert(!apply_commits_ok_m(st0, sub, skip as int, i_rel + 1));
                        if apply_commits_ok_m(st0, sub, skip as int, upto) {
                            lemma_commits_ok_prefix(st0, sub, skip as int, i_rel + 1, upto);
                        }
                    }
                    return Err(BlameError::InvariantViolation);
                }
                q = q + 1;
            }
            proof {
                assert(parts_i.take(adjusted@.len() as int) =~= parts_i);
                assert((models(self.lines@), self.current_line_index as int) == apply_commits_m(
                    st0,
                    sub,
                    skip as int,
                    i_rel + 1,
                ));
            }
            i = i + 1;
        }
        Ok(())
    }

    /// Attribute the snapshot against the whole history known so far:
    /// resolve this snapshot's commit in the history (the zero id becoming
    /// the most recent commit), apply the history suffix from there on —
    /// skipping whatever an earlier pass already applied — and recompute
    /// the run metadata.  Fails when the history has not grown since the
    /// last pass, when the snapshot's commit is unknown, or when a
    /// remapping or application step is rejected; a failed application may
    /// leave a partial attribution, but is always surfaced.
    pub fn update_commits(&mut self, commits: &FileCommits) -> (r: Result<(), BlameError>)
        requires
            old(self).cur_ok(),
            commits.wf(),
        ensures
            ({
                let n_commits = commits@.len() as int;
                let applied0 = old(self).applied_commits_len as int;
                let grown = n_commits > applied0;
                let cid0 = if old(self).commit_id.value == 0 && n_commits > 0 {
                    commits@[0].commit_id
                } else {
                    old(self).commit_id
                };
                let res_ok = (cid0.value == 0 && n_commits > 0) || (cid0.value != 0
                    && contains_id(commits@, cid0));
                let fi = if cid0.value == 0 {
                    0int
                } else {
                    spec_index_of(commits@, cid0)
                };
                let sub = commits@.skip(fi);
                let skip = if applied0 >= fi {
                    applied0 - fi
                } else {
                    0int
                };
                let st0 = (models(old(self).lines@), old(self).current_line_index as int);
                &&& (r is Ok <==> grown && res_ok && apply_commits_ok_m(
                    st0,
                    sub,
                    skip,
                    sub.len() as int,
                ))
                &&& r is Ok ==> {
                    let out = apply_commits_m(st0, sub, skip, sub.len() as int);
                    &&& models(final(self).lines@) == with_runs_m(out.0)
                    &&& final(self).current_line_index == out.1
                    &&& final(self).commit_id == cid0
                    &&& final(self).path == old(self).path
                    &&& final(self).applied_commits_len == n_commits
                    &&& final(self).cur_ok()
                }
                &&& r is Err ==> {
                    &&& final(self).applied_commits_len == applied0
                    &&& final(self).path == old(self).path
                    &&& final(self).cur_ok()
                    &&& (final(self).commit_id == old(self).commit_id || final(self).commit_id
                        == cid0)
                }
                &&& !grown ==> r is Err && *final(self) == *old(self)
                &&& (grown && !res_ok) ==> r is Err && final(self).lines == old(self).lines
                    && final(self).current_line_index == old(self).current_line_index
                    && final(self).commit_id == cid0
            }),
    {
        let n = commits.len();
        if n <= self.applied_commits_len {
            return Err(BlameError::InvariantViolation);
        }
        if self.commit_id.is_zero() {
            let head = match commits.get(0) {
                Some(head) => head,
                None => {
                    proof {
                        assert(false);
                    }
                    return Err(BlameError::NotFound);
                },
            };
            self.commit_id = head.commit_id();
        }
        let ghost cid0 = self.commit_id;
        let first_index = match commits.index_from_commit_id(self.commit_id) {
            Ok(v) => v,
            Err(e) => {
                return Err(e);
            },
        };
        proof {
            if cid0.value != 0 {
                lemma_index_of_unique(commits@, cid0, first_index as int);
            }
        }
        let skip = if self.applied_commits_len >= first_index {
            self.applied_commits_len - first_index
        } else {
            0
        };
        if self.apply_commits(commits, first_index, skip).is_err() {
            return Err(BlameError::InvariantViolation);
        }
        self.update_lines_after_apply();
        self.applied_commits_len = n;
        Ok(())
    }
}

/// A broken remapping at any level breaks the whole chain down to 0.
proof fn lemma_adjust_ok_down(commits: Seq<FileCommit>, i: int, j: int)
    requires
        !adjust_ok(commits, i, j),
        0 <= j,
    ensures
        !adjust_ok(commits, i, 0),
    decreases j,
{
    if j > 0 {
        if adjust_ok(commits, i, j - 1) {
            assert(adjust_ok(commits, i, j));
        }
        lemma_adjust_ok_down(commits, i, j - 1);
    }
}


/// Run positions depend only on the commit attributions.
proof fn lemma_run_index_same(a: Seq<LineModel>, b: Seq<LineModel>, k: int)
    requires
        a.len() == b.len(),
        forall|m: int| 0 <= m < a.len() ==> (#[trigger] a[m]).commit_id == b[m].commit_id,
    ensures
        run_index_m(a, k) == run_index_m(b, k),
    decreases k,
{
    if 0 <= k < a.len() && !(a[k].commit_id is None) && k != 0 {
        lemma_run_index_same(a, b, k - 1);
    }
}

/// Re-attributing a snapshot against an unchanged history suffix produces
/// an identical line buffer: applying an empty commit range changes
/// nothing (`apply_commits_m` over `[from, from)` is the identity), and
/// recomputing the run metadata a second time changes nothing either,
/// because the metadata depends only on the attributions, which the pass
/// leaves untouched.
pub proof fn lemma_reattribute_unchanged(ms: Seq<LineModel>, from: int)
    requires
        from >= 0,
    ensures
        with_runs_m(apply_commits_m((with_runs_m(ms), 0), Seq::<FileCommit>::empty(), from, 0).0)
            == with_runs_m(ms),
{
    assert(apply_commits_m((with_runs_m(ms), 0), Seq::<FileCommit>::empty(), from, 0).0
        == with_runs_m(ms));
    lemma_with_runs_idempotent(ms);
}

/// The run-metadata pass is idempotent.
pub proof fn lemma_with_runs_idempotent(ms: Seq<LineModel>)
    ensures
        with_runs_m(with_runs_m(ms)) == with_runs_m(ms),
{
    let w = with_runs_m(ms);
    assert forall|m: int| 0 <= m < w.len() implies (#[trigger] w[m]).commit_id
        == ms[m].commit_id by {}
    assert forall|k: int| 0 <= k < w.len() implies with_runs_m(w)[k] == w[k] by {
        lemma_run_index_same(w, ms, k);
        if k + 1 < w.len() {
            assert(is_first_of_run_m(w, k + 1) == is_first_of_run_m(ms, k + 1));
        }
    }
    assert(with_runs_m(w) =~= w);
}

} // verus!
