//! The coordinator's verified core: the growing commit history for one
//! path, snapshots assembled from raw lines plus that history, and the
//! line-number remapping that keeps a cursor stable when the user jumps
//! between commits.
//!
//! The outside world feeds the history through `push_commit` (records
//! arrive nearest-first from the discovery pipeline) and hands `content`
//! the raw lines of the file at the requested commit.

use vstd::prelude::*;

use crate::commit_id::CommitId;
use crate::errors::BlameError;
use crate::file_commit::FileCommit;
use crate::file_commits::{contains_id, id_resolves, resolved_index, spec_index_of, FileCommits};
use crate::file_content::{
    apply_commits_m, apply_commits_ok_m, fresh_lines_model, models, with_runs_m, FileContent,
};
use crate::line_number_map::{built_items, map_value, swap_parts, LineNumberMap};

verus! {

/// The chain that takes a line number at commit `hi` to its number at
/// commit `lo` (towards the snapshot): the forward map of each commit
/// between them, farthest first.
pub open spec fn map_chain_newer(commits: Seq<FileCommit>, v: int, lo: int, hi: int) -> int
    decreases hi - lo,
{
    if hi <= lo {
        v
    } else {
        map_chain_newer(
            commits,
            map_value(built_items(commits[hi - 1].diff_parts@), v),
            lo,
            hi - 1,
        )
    }
}

/// Whether every step of the newer-direction chain is accepted.
pub open spec fn map_chain_newer_ok(commits: Seq<FileCommit>, v: int, lo: int, hi: int) -> bool
    decreases hi - lo,
{
    if hi <= lo {
        true
    } else {
        let items = built_items(commits[hi - 1].diff_parts@);
        &&& (items.len() == 0 || map_value(items, v) <= usize::MAX)
        &&& map_chain_newer_ok(commits, map_value(items, v), lo, hi - 1)
    }
}

/// The chain that takes a line number at commit `lo` to its number at
/// commit `hi` (away from the snapshot): the inverse map of each commit
/// between them, nearest first.
pub open spec fn map_chain_older(commits: Seq<FileCommit>, v: int, lo: int, hi: int) -> int
    decreases hi - lo,
{
    if lo >= hi {
        v
    } else {
        map_chain_older(
            commits,
            map_value(built_items(swap_parts(commits[lo].diff_parts@)), v),
            lo + 1,
            hi,
        )
    }
}

/// Whether every step of the older-direction chain is accepted.
pub open spec fn map_chain_older_ok(commits: Seq<FileCommit>, v: int, lo: int, hi: int) -> bool
    decreases hi - lo,
{
    if lo >= hi {
        true
    } else {
        let items = built_items(swap_parts(commits[lo].diff_parts@));
        &&& (items.len() == 0 || map_value(items, v) <= usize::MAX)
        &&& map_chain_older_ok(commits, map_value(items, v), lo + 1, hi)
    }
}

/// The commit history of one path and what is derived from it.
#[derive(Debug)]
pub struct FileHistory {
    pub path: String,
    pub commits: FileCommits,
}

impl FileHistory {
    /// A fresh, empty history for one path.
    pub fn new(path: &str) -> (r: FileHistory)
        ensures
            r.path@ == path@,
            r.commits@ =~= (Seq::<FileCommit>::empty()),
            r.commits.wf(),
    {
        FileHistory { path: path.to_owned(), commits: FileCommits::new() }
    }

    /// The records received so far.
    pub fn commits(&self) -> (r: &FileCommits)
        ensures
            *r == self.commits,
    {
        &self.commits
    }

    /// The record at an index.
    pub fn commit(&self, index: usize) -> (r: &FileCommit)
        requires
            index < self.commits@.len(),
        ensures
            *r == self.commits@[index as int],
    {
        match self.commits.get(index) {
            Some(commit) => commit,
            None => {
                proof {
                    assert(false);
                }
                unreached()
            },
        }
    }

    /// Take delivery of one completed record from the reading pipeline.
    /// Records arrive in discovery order and each id arrives once; a
    /// repeated id or an invalid part list is rejected.
    pub fn push_commit(&mut self, commit: FileCommit) -> (r: Result<(), BlameError>)
        requires
            old(self).commits.wf(),
        ensures
            final(self).commits.wf(),
            final(self).path == old(self).path,
            ({
                let valid = crate::diff_part::parts_list_valid(commit.diff_parts@)
                    && !contains_id(old(self).commits@, commit.commit_id);
                &&& (r is Ok <==> valid)
                &&& r is Ok ==> final(self).commits@ == old(self).commits@.push(
                    FileCommit { index: old(self).commits@.len() as usize, ..commit },
                )
                &&& r is Err ==> final(self).commits@ == old(self).commits@
            }),
    {
        if crate::diff_part::DiffPart::validate_ascending_parts(&commit.diff_parts).is_err() {
            return Err(BlameError::InvariantViolation);
        }
        if self.commits.contains_commit_id(commit.commit_id()) {
            return Err(BlameError::InvariantViolation);
        }
        self.commits.push(commit);
        Ok(())
    }

    /// Keep a cursor visually stable across a jump between two commits:
    /// remap the line number through the maps of every commit strictly
    /// between the two indexes, direction chosen by which index is larger.
    /// Equal indexes are a caller error; a rejected mapping step fails.
    pub fn map_line_number_by_commit_indexes(
        &self,
        line_number: usize,
        new_index: usize,
        old_index: usize,
    ) -> (r: Result<usize, BlameError>)
        requires
            self.commits.wf(),
            new_index < self.commits@.len(),
            old_index < self.commits@.len(),
        ensures
            new_index == old_index ==> r is Err,
            new_index < old_index ==> {
                &&& (r is Ok <==> map_chain_newer_ok(
                    self.commits@,
                    line_number as int,
                    new_index as int,
                    old_index as int,
                ))
                &&& r is Ok ==> r.unwrap() == map_chain_newer(
                    self.commits@,
                    line_number as int,
                    new_index as int,
                    old_index as int,
                )
            },
            new_index > old_index ==> {
                &&& (r is Ok <==> map_chain_older_ok(
                    self.commits@,
                    line_number as int,
                    old_index as int,
                    new_index as int,
                ))
                &&& r is Ok ==> r.unwrap() == map_chain_older(
                    self.commits@,
                    line_number as int,
                    old_index as int,
                    new_index as int,
                )
            },
    {
        let ghost commits = self.commits@;
        if new_index == old_index {
            return Err(BlameError::InvariantViolation);
        }
        let mut value = line_number;
        if new_index < old_index {
            let mut idx = old_index;
            while idx > new_index
                invariant
                    self.commits.wf(),
                    commits == self.commits@,
                    new_index <= idx <= old_index,
                    old_index < commits.len(),
                    map_chain_newer(commits, line_number as int, new_index as int, old_index as int)
                        == map_chain_newer(commits, value as int, new_index as int, idx as int),
                    map_chain_newer_ok(
                        commits,
                        line_number as int,
                        new_index as int,
                        old_index as int,
                    ) == map_chain_newer_ok(commits, value as int, new_index as int, idx as int),
                decreases idx,
            {
                idx = idx - 1;
                let commit = self.commit(idx);
                let map = LineNumberMap::new_new_from_old(commit.diff_parts());
                value = match map.map(value) {
                    Ok(v) => v,
                    Err(e) => {
                        proof {
                            assert(!map_chain_newer_ok(
                                commits,
                                value as int,
                                new_index as int,
                                idx + 1,
                            ));
                        }
                        return Err(e);
                    },
                };
            }
            Ok(value)
        } else {
            let mut idx = old_index;
            while idx < new_index
                invariant
                    self.commits.wf(),
                    commits == self.commits@,
                    old_index <= idx <= new_index,
                    new_index < commits.len(),
                    map_chain_older(commits, line_number as int, old_index as int, new_index as int)
                        == map_chain_older(commits, value as int, idx as int, new_index as int),
                    map_chain_older_ok(
                        commits,
                        line_number as int,
                        old_index as int,
                        new_index as int,
                    ) == map_chain_older_ok(commits, value as int, idx as int, new_index as int),
                decreases new_index - idx,
            {
                let commit = self.commit(idx);
                let map = LineNumberMap::new_old_from_new(commit.diff_parts());
                value = match map.map(value) {
                    Ok(v) => v,
                    Err(e) => {
                        proof {
                            assert(!map_chain_older_ok(
                                commits,
                                value as int,
                                idx as int,
                                new_index as int,
                            ));
                        }
                        return Err(e);
                    },
                };
                idx = idx + 1;
            }
            Ok(value)
        }
    }

    /// Like `map_line_number_by_commit_indexes`, with the two commits given
    /// by id.  Succeeds exactly when the two ids are different and both
    /// resolve, they resolve to different indexes (the zero id and the most
    /// recent commit's own id are two names for index 0), and the chain in
    /// the chosen direction accepts the line number.
    pub fn map_line_number_by_commit_ids(
        &self,
        line_number: usize,
        new_commit_id: CommitId,
        old_commit_id: CommitId,
    ) -> (r: Result<usize, BlameError>)
        requires
            self.commits.wf(),
        ensures
            ({
                let commits = self.commits@;
                let old_index = resolved_index(commits, old_commit_id);
                let new_index = resolved_index(commits, new_commit_id);
                &&& (r is Ok <==> {
                    &&& old_commit_id.value != new_commit_id.value
                    &&& id_resolves(commits, old_commit_id)
                    &&& id_resolves(commits, new_commit_id)
                    &&& old_index != new_index
                    &&& new_index < old_index ==> map_chain_newer_ok(
                        commits,
                        line_number as int,
                        new_index,
                        old_index,
                    )
                    &&& new_index > old_index ==> map_chain_older_ok(
                        commits,
                        line_number as int,
                        old_index,
                        new_index,
                    )
                })
                &&& r is Ok ==> {
                    &&& new_index < old_index ==> r.unwrap() == map_chain_newer(
                        commits,
                        line_number as int,
                        new_index,
                        old_index,
                    )
                    &&& new_index > old_index ==> r.unwrap() == map_chain_older(
                        commits,
                        line_number as int,
                        old_index,
                        new_index,
                    )
                }
            }),
    {
        if old_commit_id.value == new_commit_id.value {
            return Err(BlameError::InvariantViolation);
        }
        let old_index = match self.commits.index_from_commit_id(old_commit_id) {
            Ok(v) => v,
            Err(e) => {
                return Err(e);
            },
        };
        let new_index = match self.commits.index_from_commit_id(new_commit_id) {
            Ok(v) => v,
            Err(e) => {
                return Err(e);
            },
        };
        proof {
            if old_commit_id.value != 0 {
                crate::file_commits::lemma_index_of_unique(
                    self.commits@,
                    old_commit_id,
                    old_index as int,
                );
            }
            if new_commit_id.value != 0 {
                crate::file_commits::lemma_index_of_unique(
                    self.commits@,
                    new_commit_id,
                    new_index as int,
                );
            }
        }
        if old_index == new_index {
            return Err(BlameError::InvariantViolation);
        }
        self.map_line_number_by_commit_indexes(line_number, new_index, old_index)
    }

    /// Assemble the attributed snapshot of the file at a commit from its
    /// raw lines: number the lines, then attribute them against the
    /// history known so far (nothing to attribute while the history is
    /// still empty).  The zero id asks for the working snapshot and keeps
    /// the tracked path; any other id must be in the history, and the
    /// snapshot carries the path recorded at that commit, so a jump across
    /// a rename shows the file under its name at that time.
    pub fn content_from_lines(&self, commit_id: CommitId, content_lines: Vec<String>) -> (r:
        Result<FileContent, BlameError>)
        requires
            self.commits.wf(),
        ensures
            ({
                let commits = self.commits@;
                let n = commits.len() as int;
                let resolves = commit_id.value == 0 || contains_id(commits, commit_id);
                let cid0 = if commit_id.value == 0 && n > 0 {
                    commits[0].commit_id
                } else {
                    commit_id
                };
                let fi = resolved_index(commits, commit_id);
                let sub = commits.skip(fi);
                let st0 = (fresh_lines_model(content_lines@), 0int);
                let out = apply_commits_m(st0, sub, 0, sub.len() as int);
                &&& (r is Ok <==> resolves && (n == 0 || apply_commits_ok_m(
                    st0,
                    sub,
                    0,
                    sub.len() as int,
                )))
                &&& r is Ok ==> {
                    let content = r.unwrap();
                    &&& content.path@ == if commit_id.value == 0 {
                        self.path@
                    } else {
                        commits[fi].path@
                    }
                    &&& content.commit_id == cid0
                    &&& content.cur_ok()
                    &&& n == 0 ==> {
                        &&& models(content.lines@) == st0.0
                        &&& content.current_line_index == 0
                        &&& content.applied_commits_len == 0
                    }
                    &&& n > 0 ==> {
                        &&& models(content.lines@) == with_runs_m(out.0)
                        &&& content.current_line_index == out.1
                        &&& content.applied_commits_len == n
                    }
                }
                &&& (r is Err && !resolves) ==> r == Err::<FileContent, BlameError>(
                    BlameError::NotFound,
                )
            }),
    {
        let ghost commits = self.commits@;
        // the zero id keeps the tracked path; any other id shows the file
        // under the path recorded at that commit
        let path = if commit_id.is_zero() {
            self.path.clone()
        } else {
            match self.commits.get_by_commit_id(commit_id) {
                Ok(record) => record.path().clone(),
                Err(e) => {
                    return Err(e);
                },
            }
        };
        let mut content = FileContent::new(commit_id, path.as_str());
        content.read_lines(content_lines);
        proof {
            assert forall|i: int|
                0 <= i < content.lines@.len() implies models(content.lines@)[i]
                == fresh_lines_model(content_lines@)[i] by {
                assert(models(content.lines@)[i] == content.lines@[i]@);
            }
            assert(models(content.lines@) =~= fresh_lines_model(content_lines@));
        }
        if self.commits.len() > 0 {
            proof {
                if commit_id.value == 0 {
                    if commits[0].commit_id.value != 0 {
                        assert(contains_id(commits, commits[0].commit_id));
                        crate::file_commits::lemma_index_of_unique(
                            commits,
                            commits[0].commit_id,
                            0,
                        );
                    }
                }
            }
            match content.update_commits(&self.commits) {
                Ok(()) => {},
                Err(e) => {
                    return Err(e);
                },
            }
        }
        Ok(content)
    }
}

} // verus!
