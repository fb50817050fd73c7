//! The growing history of commit records for one path, newest first,
//! with constant-time lookup by commit id.
//!
//! History only grows: `push` appends a record, assigns its index and
//! registers its id.  A zero commit id is the sentinel for "the working
//! snapshot" and resolves to index 0 once the history holds anything.

use std::collections::HashMap;

use vstd::prelude::*;

use crate::commit_id::CommitId;
use crate::diff_part::parts_list_valid;
use crate::errors::BlameError;
use crate::file_commit::FileCommit;

verus! {

broadcast use vstd::std_specs::hash::group_hash_axioms;

/// The records carry their own position, their part lists are valid, and
/// no commit id repeats.
pub open spec fn commit_items_wf(s: Seq<FileCommit>) -> bool {
    &&& forall|i: int| 0 <= i < s.len() ==> (#[trigger] s[i]).index == i
    &&& forall|i: int| 0 <= i < s.len() ==> parts_list_valid((#[trigger] s[i]).diff_parts@)
    &&& forall|i: int, j: int|
        0 <= i < j < s.len() ==> (#[trigger] s[i]).commit_id.value
            != (#[trigger] s[j]).commit_id.value
}

/// Some record carries this commit id.
pub open spec fn contains_id(s: Seq<FileCommit>, commit_id: CommitId) -> bool {
    exists|i: int| 0 <= i < s.len() && (#[trigger] s[i]).commit_id == commit_id
}

/// An append-only collection of commit records with id lookup.
#[derive(Debug)]
pub struct FileCommits {
    items: Vec<FileCommit>,
    index_map: HashMap<u64, usize>,
}

impl View for FileCommits {
    type V = Seq<FileCommit>;

    closed spec fn view(&self) -> Seq<FileCommit> {
        self.items@
    }
}

impl FileCommits {
    /// The id map holds exactly the records' ids, each at its index.
    pub closed spec fn maps_wf(&self) -> bool {
        &&& forall|i: int|
            0 <= i < self.items@.len() ==> self.index_map@.contains_key(
                (#[trigger] self.items@[i]).commit_id.value,
            ) && self.index_map@[self.items@[i].commit_id.value] == i
        &&& forall|k: u64|
            self.index_map@.contains_key(k) ==> exists|i: int|
                0 <= i < self.items@.len() && (#[trigger] self.items@[i]).commit_id.value == k
    }

    /// Everything the collection's contracts rest on.
    pub open spec fn wf(&self) -> bool {
        self.maps_wf() && commit_items_wf(self@)
    }

    /// A new, empty collection.
    pub fn new() -> (r: FileCommits)
        ensures
            r@ =~= (Seq::<FileCommit>::empty()),
            r.wf(),
    {
        FileCommits { items: Vec::new(), index_map: HashMap::new() }
    }

    /// Number of records.
    pub fn len(&self) -> (r: usize)
        ensures
            r == self@.len(),
    {
        self.items.len()
    }

    /// True when no record has arrived yet.
    pub fn is_empty(&self) -> (r: bool)
        ensures
            r == (self@.len() == 0),
    {
        self.items.is_empty()
    }

    /// Append a record, assigning it the next index.  Its part list must be
    /// valid and its id must be new.
    pub fn push(&mut self, commit: FileCommit)
        requires
            old(self).wf(),
            parts_list_valid(commit.diff_parts@),
            !contains_id(old(self)@, commit.commit_id),
        ensures
            final(self).wf(),
            final(self)@ == old(self)@.push(
                FileCommit { index: old(self)@.len() as usize, ..commit },
            ),
    {
        let ghost prior = self@;
        let ghost prior_map = self.index_map@;
        let index = self.items.len();
        let mut commit = commit;
        commit.set_index(index);
        let ghost key = commit.commit_id.value;
        self.index_map.insert(commit.commit_id.value, index);
        self.items.push(commit);
        proof {
            assert(self@ == prior.push(commit));
            assert(self.index_map@ == prior_map.insert(key, index));
            assert forall|i: int, j: int|
                0 <= i < j < self@.len() implies (#[trigger] self@[i]).commit_id.value
                != (#[trigger] self@[j]).commit_id.value by {
                if j == self@.len() - 1 {
                    if self@[i].commit_id.value == self@[j].commit_id.value {
                        assert(self@[i].commit_id == self@[j].commit_id);
                        assert(prior[i] == self@[i]);
                        assert(contains_id(prior, self@[j].commit_id));
                    }
                }
            }
            assert forall|i: int|
                0 <= i < self@.len() implies self.index_map@.contains_key(
                (#[trigger] self@[i]).commit_id.value,
            ) && self.index_map@[self@[i].commit_id.value] == i by {
                if i < self@.len() - 1 {
                    assert(prior[i] == self@[i]);
                    if self@[i].commit_id.value == key {
                        assert(contains_id(prior, commit.commit_id));
                    }
                }
            }
            assert forall|k: u64| self.index_map@.contains_key(k) implies exists|i: int|
                0 <= i < self@.len() && (#[trigger] self@[i]).commit_id.value == k by {
                if k == key {
                    assert(self@[self@.len() - 1].commit_id.value == k);
                } else {
                    assert(prior_map.contains_key(k));
                    let i = choose|i: int|
                        0 <= i < prior.len() && (#[trigger] prior[i]).commit_id.value == k;
                    assert(self@[i].commit_id.value == k);
                }
            }
        }
    }

    /// The record at an index, if it exists.
    pub fn get(&self, index: usize) -> (r: Option<&FileCommit>)
        ensures
            r is Some <==> index < self@.len(),
            r is Some ==> *r.unwrap() == self@[index as int],
    {
        if index < self.items.len() {
            Some(&self.items[index])
        } else {
            None
        }
    }

    /// The most recent record, if any has arrived.
    pub fn first(&self) -> (r: Option<&FileCommit>)
        ensures
            r is Some <==> self@.len() > 0,
            r is Some ==> *r.unwrap() == self@[0],
    {
        if self.items.len() > 0 {
            Some(&self.items[0])
        } else {
            None
        }
    }

    /// True when some record carries this id.
    pub fn contains_commit_id(&self, commit_id: CommitId) -> (r: bool)
        requires
            self.wf(),
        ensures
            r == contains_id(self@, commit_id),
    {
        match self.index_map.get(&commit_id.value) {
            Some(_) => {
                proof {
                    assert(self.index_map@.contains_key(commit_id.value));
                }
                true
            },
            None => {
                proof {
                    if contains_id(self@, commit_id) {
                        let i = choose|i: int|
                            0 <= i < self@.len() && (#[trigger] self@[i]).commit_id == commit_id;
                        assert(self.index_map@.contains_key(self@[i].commit_id.value));
                    }
                }
                false
            },
        }
    }

    /// Resolve a commit id to its index.  The zero id means "the most
    /// recent entry" and resolves to index 0 exactly when the history is
    /// not empty; any other id resolves exactly when one record carries it.
    pub fn index_from_commit_id(&self, commit_id: CommitId) -> (r: Result<usize, BlameError>)
        requires
            self.wf(),
        ensures
            r is Ok <==> (commit_id.value == 0 && self@.len() > 0) || (commit_id.value != 0
                && contains_id(self@, commit_id)),
            r is Ok ==> {
                &&& r.unwrap() < self@.len()
                &&& commit_id.value == 0 ==> r.unwrap() == 0
                &&& commit_id.value != 0 ==> self@[r.unwrap() as int].commit_id == commit_id
            },
            r is Err ==> r == Err::<usize, BlameError>(BlameError::NotFound),
    {
        if commit_id.is_zero() {
            if self.items.len() > 0 {
                return Ok(0);
            }
            return Err(BlameError::NotFound);
        }
        match self.index_map.get(&commit_id.value) {
            Some(index) => {
                let index = *index;
                proof {
                    assert(self.index_map@.contains_key(commit_id.value));
                    let i = choose|i: int|
                        0 <= i < self@.len() && (#[trigger] self@[i]).commit_id.value
                            == commit_id.value;
                    assert(self.index_map@[self@[i].commit_id.value] == i);
                    assert(index == i);
                    assert(self@[i].commit_id == commit_id);
                }
                Ok(index)
            },
            None => {
                proof {
                    if contains_id(self@, commit_id) {
                        let i = choose|i: int|
                            0 <= i < self@.len() && (#[trigger] self@[i]).commit_id == commit_id;
                        assert(self.index_map@.contains_key(self@[i].commit_id.value));
                    }
                }
                Err(BlameError::NotFound)
            },
        }
    }

    /// Resolve a commit id to its record, under the same rules as
    /// `index_from_commit_id`.
    pub fn get_by_commit_id(&self, commit_id: CommitId) -> (r: Result<&FileCommit, BlameError>)
        requires
            self.wf(),
        ensures
            r is Ok <==> (commit_id.value == 0 && self@.len() > 0) || (commit_id.value != 0
                && contains_id(self@, commit_id)),
            r is Ok ==> {
                &&& commit_id.value == 0 ==> *r.unwrap() == self@[0]
                &&& commit_id.value != 0 ==> *r.unwrap() == self@[spec_index_of(self@, commit_id)]
                    && contains_id(self@, commit_id)
            },
            r is Err ==> r == Err::<&FileCommit, BlameError>(BlameError::NotFound),
    {
        let index = match self.index_from_commit_id(commit_id) {
            Ok(index) => index,
            Err(e) => {
                return Err(e);
            },
        };
        proof {
            if commit_id.value != 0 {
                lemma_index_of_unique(self@, commit_id, index as int);
            }
        }
        Ok(&self.items[index])
    }
}


/// The index of the record carrying this id (meaningful under `wf`, where
/// ids are unique).
pub open spec fn spec_index_of(s: Seq<FileCommit>, commit_id: CommitId) -> int {
    choose|i: int| 0 <= i < s.len() && (#[trigger] s[i]).commit_id == commit_id
}

/// Under unique ids, any index carrying an id is the index of that id.
pub proof fn lemma_index_of_unique(s: Seq<FileCommit>, commit_id: CommitId, k: int)
    requires
        commit_items_wf(s),
        0 <= k < s.len(),
        s[k].commit_id == commit_id,
    ensures
        spec_index_of(s, commit_id) == k,
{
    assert(contains_id(s, commit_id));
    let i = spec_index_of(s, commit_id);
    if i != k {
        if i < k {
            assert(s[i].commit_id.value != s[k].commit_id.value);
        } else {
            assert(s[k].commit_id.value != s[i].commit_id.value);
        }
    }
}


/// A commit id resolves in this history: the zero id exactly when any
/// record has arrived, any other id exactly when a record carries it.
pub open spec fn id_resolves(s: Seq<FileCommit>, commit_id: CommitId) -> bool {
    (commit_id.value == 0 && s.len() > 0) || (commit_id.value != 0 && contains_id(s, commit_id))
}

/// The index an id resolves to: 0 for the zero sentinel, the carrying
/// record's index otherwise.
pub open spec fn resolved_index(s: Seq<FileCommit>, commit_id: CommitId) -> int {
    if commit_id.value == 0 {
        0
    } else {
        spec_index_of(s, commit_id)
    }
}

} // verus!
