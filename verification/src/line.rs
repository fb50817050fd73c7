//! One line of an attributed snapshot: its 1-based number, its text, the
//! commit that most recently changed it (`None` while attribution is still
//! streaming in), and derived presentation data about the contiguous run of
//! lines sharing a commit.

use vstd::prelude::*;

use crate::commit_id::CommitId;
use crate::file_commit::FileCommit;

verus! {

/// What kind of row this is: a real line, a placeholder for a deleted
/// span, or one row of a commit-log listing.
#[derive(Clone, Copy, Debug, PartialEq, Eq, Structural)]
pub enum LineType {
    Line,
    Deleted,
    Log,
}

/// One attributed line.
#[derive(Debug)]
pub struct Line {
    pub line_type: LineType,
    pub line_number: usize,
    pub content: String,
    pub commit_id: Option<CommitId>,
    pub index_in_hunk: usize,
    pub is_last_line_in_hunk: bool,
}

impl Line {
    /// A plain, not yet attributed line.
    pub fn new(line_number: usize, content: String) -> (r: Line)
        ensures
            r.line_type == LineType::Line,
            r.line_number == line_number,
            r.content == content,
            r.commit_id is None,
            r.index_in_hunk == 0,
            r.is_last_line_in_hunk == false,
    {
        Line {
            line_type: LineType::Line,
            line_number,
            content,
            commit_id: None,
            index_in_hunk: 0,
            is_last_line_in_hunk: false,
        }
    }

    /// A placeholder marking lines deleted by the given commit.
    pub fn new_deleted(line_number: usize, commit_id: CommitId) -> (r: Line)
        ensures
            r.line_type == LineType::Deleted,
            r.line_number == line_number,
            r.content@ == Seq::<char>::empty(),
            r.commit_id == Some(commit_id),
            r.index_in_hunk == 0,
            r.is_last_line_in_hunk == false,
    {
        Line {
            line_type: LineType::Deleted,
            line_number,
            content: String::new(),
            commit_id: Some(commit_id),
            index_in_hunk: 0,
            is_last_line_in_hunk: false,
        }
    }

    /// One row of a commit-log listing: the commit's summary under its
    /// index.
    pub fn new_log(commit: &FileCommit) -> (r: Line)
        ensures
            r.line_type == LineType::Log,
            r.line_number == commit.index,
            commit.summary is Some ==> r.content@ == commit.summary.unwrap()@,
            commit.summary is None ==> r.content@ == Seq::<char>::empty(),
            r.commit_id == Some(commit.commit_id),
            r.index_in_hunk == 0,
            r.is_last_line_in_hunk == false,
    {
        let content = match commit.summary() {
            Some(summary) => summary.clone(),
            None => String::new(),
        };
        Line {
            line_type: LineType::Log,
            line_number: commit.index(),
            content,
            commit_id: Some(commit.commit_id()),
            index_in_hunk: 0,
            is_last_line_in_hunk: false,
        }
    }

    /// The 1-based line number.
    pub fn line_number(&self) -> (r: usize)
        ensures
            r == self.line_number,
    {
        self.line_number
    }

    /// The line's text.
    pub fn content(&self) -> (r: &String)
        ensures
            *r == self.content,
    {
        &self.content
    }

    /// The commit that most recently changed this line, when known.
    pub fn commit_id(&self) -> (r: Option<CommitId>)
        ensures
            r == self.commit_id,
    {
        self.commit_id
    }

    /// Attribute this line to a commit.
    pub fn set_commit_id(&mut self, commit_id: CommitId)
        ensures
            final(self).commit_id == Some(commit_id),
            final(self).line_type == old(self).line_type,
            final(self).line_number == old(self).line_number,
            final(self).content == old(self).content,
            final(self).index_in_hunk == old(self).index_in_hunk,
            final(self).is_last_line_in_hunk == old(self).is_last_line_in_hunk,
    {
        self.commit_id = Some(commit_id);
    }

    /// Record the line's position inside its same-commit run.
    pub fn set_index_in_hunk(&mut self, index_in_hunk: usize)
        ensures
            final(self).index_in_hunk == index_in_hunk,
            final(self).line_type == old(self).line_type,
            final(self).line_number == old(self).line_number,
            final(self).content == old(self).content,
            final(self).commit_id == old(self).commit_id,
            final(self).is_last_line_in_hunk == old(self).is_last_line_in_hunk,
    {
        self.index_in_hunk = index_in_hunk;
    }

    /// Record whether this line closes its same-commit run.
    pub fn set_is_last_line_in_hunk(&mut self, value: bool)
        ensures
            final(self).is_last_line_in_hunk == value,
            final(self).line_type == old(self).line_type,
            final(self).line_number == old(self).line_number,
            final(self).content == old(self).content,
            final(self).commit_id == old(self).commit_id,
            final(self).index_in_hunk == old(self).index_in_hunk,
    {
        self.is_last_line_in_hunk = value;
    }
}

} // verus!
