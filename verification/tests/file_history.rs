use git_iblame::commit_id::CommitId;
use git_iblame::diff_part::DiffPart;
use git_iblame::errors::BlameError;
use git_iblame::file_commit::FileCommit;
use git_iblame::file_history::FileHistory;

fn commit_with_parts(id: u64, ranges: &[(usize, usize, usize, usize)]) -> FileCommit {
    let mut commit = FileCommit::new(CommitId::from_value(id), "file.txt");
    let parts: Vec<DiffPart> = ranges
        .iter()
        .map(|&(os, oe, ns, ne)| DiffPart::from_ranges(os..oe, ns..ne))
        .collect();
    commit.set_diff_parts(parts).unwrap();
    commit
}

#[test]
fn push_assigns_indexes() {
    let mut history = FileHistory::new("file.txt");
    history.push_commit(commit_with_parts(7, &[])).unwrap();
    history.push_commit(commit_with_parts(9, &[])).unwrap();
    assert_eq!(history.commits().len(), 2);
    assert_eq!(history.commit(0).commit_id(), CommitId::from_value(7));
    assert_eq!(history.commit(0).index(), 0);
    assert_eq!(history.commit(1).index(), 1);
}

#[test]
fn push_rejects_duplicate_ids() {
    let mut history = FileHistory::new("file.txt");
    history.push_commit(commit_with_parts(7, &[])).unwrap();
    assert_eq!(
        history.push_commit(commit_with_parts(7, &[])),
        Err(BlameError::InvariantViolation)
    );
    assert_eq!(history.commits().len(), 1);
}

#[test]
fn zero_id_resolves_to_most_recent() {
    let mut history = FileHistory::new("file.txt");
    assert_eq!(
        history.commits().index_from_commit_id(CommitId::zero()),
        Err(BlameError::NotFound)
    );
    history.push_commit(commit_with_parts(7, &[])).unwrap();
    assert_eq!(
        history.commits().index_from_commit_id(CommitId::zero()).unwrap(),
        0
    );
    assert_eq!(
        history.commits().index_from_commit_id(CommitId::from_value(7)).unwrap(),
        0
    );
    assert_eq!(
        history.commits().index_from_commit_id(CommitId::from_value(8)),
        Err(BlameError::NotFound)
    );
}

#[test]
fn map_line_number_across_commits() {
    // Commit at index 0 inserted two lines at line 3.  A cursor on line 5
    // of the older snapshot (index 1) sits on line 7 of the newer one, and
    // comes back to 5 when jumping to the older commit again.
    let mut history = FileHistory::new("file.txt");
    history.push_commit(commit_with_parts(1, &[(3, 3, 3, 5)])).unwrap();
    history.push_commit(commit_with_parts(2, &[])).unwrap();

    let newer = history
        .map_line_number_by_commit_indexes(5, 0, 1)
        .unwrap();
    assert_eq!(newer, 7);
    let back = history
        .map_line_number_by_commit_indexes(7, 1, 0)
        .unwrap();
    assert_eq!(back, 5);
}

#[test]
fn map_line_number_by_ids() {
    let mut history = FileHistory::new("file.txt");
    history.push_commit(commit_with_parts(1, &[(3, 3, 3, 5)])).unwrap();
    history.push_commit(commit_with_parts(2, &[])).unwrap();

    let newer = history
        .map_line_number_by_commit_ids(5, CommitId::from_value(1), CommitId::from_value(2))
        .unwrap();
    assert_eq!(newer, 7);
    assert!(history
        .map_line_number_by_commit_ids(5, CommitId::from_value(1), CommitId::from_value(1))
        .is_err());
}

#[test]
fn content_for_unknown_commit_fails() {
    let mut history = FileHistory::new("file.txt");
    history.push_commit(commit_with_parts(1, &[])).unwrap();
    let result = history.content_from_lines(CommitId::from_value(9), vec!["a".to_string()]);
    assert!(result.is_err());
}

#[test]
fn snapshot_carries_the_path_recorded_at_its_commit() {
    // the tracked path is the post-rename name; the older commit was
    // recorded under its pre-rename name, and its snapshot shows it
    let mut history = FileHistory::new("new.txt");
    let mut newest = FileCommit::new(CommitId::from_value(1), "new.txt");
    newest
        .set_diff_parts(vec![DiffPart::from_ranges(2..3, 2..3)])
        .unwrap();
    history.push_commit(newest).unwrap();
    let mut old = FileCommit::new(CommitId::from_value(2), "old.txt");
    old.set_whole_file_new();
    history.push_commit(old).unwrap();

    let lines: Vec<String> = (1..=3).map(|i| format!("line {i}")).collect();
    let newest = history
        .content_from_lines(CommitId::from_value(1), lines.clone())
        .unwrap();
    assert_eq!(newest.path(), "new.txt");
    let oldest = history
        .content_from_lines(CommitId::from_value(2), lines.clone())
        .unwrap();
    assert_eq!(oldest.path(), "old.txt");
    // the zero id asks for the working snapshot under the tracked path
    let working = history.content_from_lines(CommitId::zero(), lines).unwrap();
    assert_eq!(working.path(), "new.txt");
    assert_eq!(working.commit_id(), CommitId::from_value(1));
}

#[test]
fn map_line_number_by_ids_requires_known_ids() {
    let mut history = FileHistory::new("file.txt");
    history.push_commit(commit_with_parts(1, &[])).unwrap();
    history.push_commit(commit_with_parts(2, &[])).unwrap();
    assert!(history
        .map_line_number_by_commit_ids(3, CommitId::from_value(9), CommitId::from_value(1))
        .is_err());
    assert!(history
        .map_line_number_by_commit_ids(3, CommitId::from_value(1), CommitId::from_value(9))
        .is_err());
    // the zero id and the most recent commit's own id name the same index
    assert!(history
        .map_line_number_by_commit_ids(3, CommitId::zero(), CommitId::from_value(1))
        .is_err());
}
