//! One commit's record for the tracked path: its identity, metadata, the
//! path it used at that commit (with the pre-rename path when the commit
//! renamed the file), and the validated ascending part list of its diff
//! against its first parent.
//!
//! A record is built empty, filled from the version-control layer, and
//! sealed with `set_diff_parts`, which enforces the ascending invariant
//! before the list can leave the reader.  A commit with no parent carries
//! the single synthetic "whole file is new" part instead.

use vstd::prelude::*;

use crate::commit_id::CommitId;
use crate::commit_time::CommitTime;
use crate::diff_part::{parts_list_valid, DiffPart, DiffRange};
use crate::errors::BlameError;

verus! {

/// Per-commit diff record for one path.
#[derive(Debug)]
pub struct FileCommit {
    pub commit_id: CommitId,
    pub path: String,
    pub index: usize,
    pub time: CommitTime,
    pub summary: Option<String>,
    pub author_email: Option<String>,
    pub old_path: Option<String>,
    pub diff_parts: Vec<DiffPart>,
}

impl FileCommit {
    /// A fresh record for one commit and the path it is tracked under.
    pub fn new(commit_id: CommitId, path: &str) -> (r: FileCommit)
        ensures
            r.commit_id == commit_id,
            r.path@ == path@,
            r.index == 0,
            r.time == (CommitTime { seconds: 0i64, offset_minutes: 0i64 }),
            r.summary is None,
            r.author_email is None,
            r.old_path is None,
            r.diff_parts@ =~= (Seq::<DiffPart>::empty()),
    {
        FileCommit {
            commit_id,
            path: path.to_owned(),
            index: 0,
            time: CommitTime::epoch(),
            summary: None,
            author_email: None,
            old_path: None,
            diff_parts: Vec::new(),
        }
    }

    /// The commit this record describes.
    pub fn commit_id(&self) -> (r: CommitId)
        ensures
            r == self.commit_id,
    {
        self.commit_id
    }

    /// Position in the history, 0 being the most recent commit.
    pub fn index(&self) -> (r: usize)
        ensures
            r == self.index,
    {
        self.index
    }

    /// Assign the position in the history.
    pub fn set_index(&mut self, index: usize)
        ensures
            *final(self) == (FileCommit { index, ..*old(self) }),
    {
        self.index = index;
    }

    /// The commit's timestamp.
    pub fn time(&self) -> (r: CommitTime)
        ensures
            r == self.time,
    {
        self.time
    }

    /// The commit's summary line, once read.
    pub fn summary(&self) -> (r: Option<&String>)
        ensures
            r is Some <==> self.summary is Some,
            r is Some ==> *r.unwrap() == self.summary.unwrap(),
    {
        self.summary.as_ref()
    }

    /// The author's e-mail address, once read.
    pub fn author_email(&self) -> (r: Option<&String>)
        ensures
            r is Some <==> self.author_email is Some,
            r is Some ==> *r.unwrap() == self.author_email.unwrap(),
    {
        self.author_email.as_ref()
    }

    /// The path the file had at this commit.
    pub fn path(&self) -> (r: &String)
        ensures
            *r == self.path,
    {
        &self.path
    }

    /// The path before the rename, when this commit renamed the file;
    /// `None` otherwise.
    pub fn old_path_if_rename(&self) -> (r: Option<&String>)
        ensures
            r is Some <==> self.old_path is Some,
            r is Some ==> *r.unwrap() == self.old_path.unwrap(),
    {
        self.old_path.as_ref()
    }

    /// The validated part list of this commit's diff.
    pub fn diff_parts(&self) -> (r: &Vec<DiffPart>)
        ensures
            *r == self.diff_parts,
    {
        &self.diff_parts
    }

    /// Record the metadata read from the commit object.
    pub fn set_commit_info(
        &mut self,
        time: CommitTime,
        summary: Option<String>,
        author_email: Option<String>,
    )
        ensures
            final(self).commit_id == old(self).commit_id,
            final(self).path == old(self).path,
            final(self).index == old(self).index,
            final(self).old_path == old(self).old_path,
            final(self).diff_parts == old(self).diff_parts,
            final(self).time == time,
            final(self).summary == summary,
            final(self).author_email == author_email,
    {
        self.time = time;
        self.summary = summary;
        self.author_email = author_email;
    }

    /// Record the pre-rename path reported by the diff.
    pub fn set_old_path(&mut self, old_path: Option<String>)
        ensures
            final(self).commit_id == old(self).commit_id,
            final(self).path == old(self).path,
            final(self).index == old(self).index,
            final(self).time == old(self).time,
            final(self).summary == old(self).summary,
            final(self).author_email == old(self).author_email,
            final(self).diff_parts == old(self).diff_parts,
            final(self).old_path == old_path,
    {
        self.old_path = old_path;
    }

    /// Seal the record with its part list.  Accepts the list exactly when
    /// it keeps the ascending invariant; on failure nothing changes.
    pub fn set_diff_parts(&mut self, parts: Vec<DiffPart>) -> (r: Result<(), BlameError>)
        ensures
            r is Ok <==> parts_list_valid(parts@),
            r is Ok ==> {
                &&& final(self).diff_parts == parts
                &&& final(self).commit_id == old(self).commit_id
                &&& final(self).path == old(self).path
                &&& final(self).index == old(self).index
                &&& final(self).time == old(self).time
                &&& final(self).summary == old(self).summary
                &&& final(self).author_email == old(self).author_email
                &&& final(self).old_path == old(self).old_path
            },
            r is Err ==> *final(self) == *old(self),
    {
        if DiffPart::validate_ascending_parts(&parts).is_err() {
            return Err(BlameError::InvariantViolation);
        }
        self.diff_parts = parts;
        Ok(())
    }

    /// The single synthetic part of a commit with no parent: the whole
    /// file, from line 1 on, is new.
    pub fn whole_file_part() -> (r: DiffPart)
        ensures
            r.old == (DiffRange { start: 0usize, end: 0usize }),
            r.new == (DiffRange { start: 1usize, end: usize::MAX }),
    {
        DiffPart {
            old: DiffRange { start: 0, end: 0 },
            new: DiffRange { start: 1, end: usize::MAX },
        }
    }

    /// Seal a record of a commit with no parent: one whole-file part.
    pub fn set_whole_file_new(&mut self)
        ensures
            final(self).diff_parts@ == seq![FileCommit::spec_whole_file_part()],
            final(self).commit_id == old(self).commit_id,
            final(self).path == old(self).path,
            final(self).index == old(self).index,
            final(self).time == old(self).time,
            final(self).summary == old(self).summary,
            final(self).author_email == old(self).author_email,
            final(self).old_path == old(self).old_path,
    {
        let mut parts: Vec<DiffPart> = Vec::new();
        parts.push(Self::whole_file_part());
        proof {
            assert(parts@ =~= seq![FileCommit::spec_whole_file_part()]);
        }
        self.diff_parts = parts;
    }

    /// The synthetic whole-file part, as a specification value.
    pub open spec fn spec_whole_file_part() -> DiffPart {
        DiffPart {
            old: DiffRange { start: 0usize, end: 0usize },
            new: DiffRange { start: 1usize, end: usize::MAX },
        }
    }
}

} // verus!
