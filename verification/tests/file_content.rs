use git_iblame::commit_id::CommitId;
use git_iblame::diff_part::DiffPart;
use git_iblame::errors::BlameError;
use git_iblame::file_commit::FileCommit;
use git_iblame::file_content::FileContent;
use git_iblame::file_history::FileHistory;
use git_iblame::line::{Line, LineType};

fn content_with_lines(count: usize) -> FileContent {
    let mut content = FileContent::new(CommitId::zero(), "");
    content.read_lines((0..count).map(|i| i.to_string()).collect());
    content
}

#[test]
fn line_index_from_number() {
    let mut content = FileContent::new(CommitId::zero(), "");
    for i in 1..=10usize {
        content.lines.push(Line::new(i, i.to_string()));
    }
    assert_eq!(content.last_line_number().unwrap(), 10);
    assert_eq!(content.line_index_from_number(1).unwrap(), 0);
    assert_eq!(content.line_index_from_number(10).unwrap(), 9);
    content.lines.insert(5, Line::new(6, "6-2".to_string()));
    assert_eq!(content.line_index_from_number(5).unwrap(), 4);
    assert_eq!(content.line_index_from_number(6).unwrap(), 5);
    assert_eq!(content.line_index_from_number(7).unwrap(), 7);
    assert_eq!(content.line_index_from_number(10).unwrap(), 10);
}

#[test]
fn file_content_search() {
    let mut content = FileContent::new(CommitId::zero(), "");
    content.read_lines(((0..10).chain(0..10)).map(|i| i.to_string()).collect());
    let mut test = |start_index: usize, search: &str| -> (Option<usize>, Option<usize>) {
        content.set_current_line_index(start_index);
        (content.search(search, false), content.search(search, true))
    };

    assert_eq!(test(0, "X"), (None, None));

    assert_eq!(test(0, "5"), (Some(5), Some(15)));
    assert_eq!(test(5, "5"), (Some(15), Some(15)));
    assert_eq!(test(10, "5"), (Some(15), Some(5)));
    assert_eq!(test(15, "5"), (Some(5), Some(5)));
    assert_eq!(test(18, "5"), (Some(5), Some(15)));
}

#[test]
fn search_is_case_insensitive() {
    let mut content = FileContent::new(CommitId::zero(), "");
    content.read_lines(vec!["Alpha".to_string(), "BETA".to_string(), "gamma".to_string()]);
    content.set_current_line_index(0);
    assert_eq!(content.search("beta", false), Some(1));
    assert_eq!(content.search("ALPHA", false), Some(0));
}

#[test]
fn read_string_splits_lines() {
    let mut content = FileContent::new(CommitId::zero(), "");
    content.read_string("one\ntwo\r\nthree");
    assert_eq!(content.lines_len(), 3);
    assert_eq!(content.lines[0].content(), "one");
    assert_eq!(content.lines[1].content(), "two");
    assert_eq!(content.lines[2].content(), "three");
    assert_eq!(content.lines[0].line_number(), 1);
    assert_eq!(content.lines[2].line_number(), 3);
}

fn commit_with_parts(id: u64, ranges: &[(usize, usize, usize, usize)]) -> FileCommit {
    let mut commit = FileCommit::new(CommitId::from_value(id), "file.txt");
    let parts: Vec<DiffPart> = ranges
        .iter()
        .map(|&(os, oe, ns, ne)| DiffPart::from_ranges(os..oe, ns..ne))
        .collect();
    commit.set_diff_parts(parts).unwrap();
    commit
}

#[test]
fn update_commits_attributes_nearest_first() {
    // Commit 1 (nearest) inserted lines 3 and 4; commit 2 (the root)
    // created the whole file.  Lines 3 and 4 belong to commit 1, the rest
    // to commit 2.
    let mut history = FileHistory::new("file.txt");
    history.push_commit(commit_with_parts(1, &[(3, 3, 3, 5)])).unwrap();
    let mut root = FileCommit::new(CommitId::from_value(2), "file.txt");
    root.set_whole_file_new();
    history.push_commit(root).unwrap();

    let mut content = FileContent::new(CommitId::from_value(1), "file.txt");
    content.read_lines((1..=6).map(|i| format!("line {i}")).collect());
    content.update_commits(history.commits()).unwrap();

    let ids: Vec<Option<u64>> = content
        .lines()
        .iter()
        .map(|line| line.commit_id().map(|c| c.value))
        .collect();
    assert_eq!(
        ids,
        vec![Some(2), Some(2), Some(1), Some(1), Some(2), Some(2)]
    );
}

#[test]
fn update_commits_inserts_deleted_placeholder() {
    // The nearest commit deleted lines 3 and 4: a placeholder marks the
    // collapse position.
    let mut history = FileHistory::new("file.txt");
    history.push_commit(commit_with_parts(1, &[(3, 5, 3, 3)])).unwrap();

    let mut content = FileContent::new(CommitId::from_value(1), "file.txt");
    content.read_lines((1..=4).map(|i| format!("line {i}")).collect());
    content.update_commits(history.commits()).unwrap();

    assert_eq!(content.lines_len(), 5);
    let placeholder = &content.lines()[2];
    assert_eq!(placeholder.line_type, LineType::Deleted);
    assert_eq!(placeholder.line_number(), 3);
    assert_eq!(placeholder.commit_id().map(|c| c.value), Some(1));
}

#[test]
fn update_commits_recomputes_runs() {
    let mut history = FileHistory::new("file.txt");
    history.push_commit(commit_with_parts(1, &[(2, 2, 2, 4)])).unwrap();

    let mut content = FileContent::new(CommitId::from_value(1), "file.txt");
    content.read_lines((1..=4).map(|i| format!("line {i}")).collect());
    content.update_commits(history.commits()).unwrap();

    // lines 2 and 3 form one run of commit 1
    assert_eq!(content.lines()[1].index_in_hunk, 0);
    assert_eq!(content.lines()[2].index_in_hunk, 1);
    assert!(content.lines()[2].is_last_line_in_hunk);
}

#[test]
fn reattribution_is_stable() {
    // Building the same snapshot twice against the same history gives an
    // identical line buffer.
    let mut history = FileHistory::new("file.txt");
    history.push_commit(commit_with_parts(1, &[(3, 3, 3, 5)])).unwrap();
    let mut root = FileCommit::new(CommitId::from_value(2), "file.txt");
    root.set_whole_file_new();
    history.push_commit(root).unwrap();

    let lines: Vec<String> = (1..=6).map(|i| format!("line {i}")).collect();
    let a = history
        .content_from_lines(CommitId::from_value(1), lines.clone())
        .unwrap();
    let b = history
        .content_from_lines(CommitId::from_value(1), lines)
        .unwrap();
    assert_eq!(a.lines_len(), b.lines_len());
    for (la, lb) in a.lines().iter().zip(b.lines().iter()) {
        assert_eq!(la.line_number(), lb.line_number());
        assert_eq!(la.content(), lb.content());
        assert_eq!(la.commit_id(), lb.commit_id());
        assert_eq!(la.index_in_hunk, lb.index_in_hunk);
        assert_eq!(la.is_last_line_in_hunk, lb.is_last_line_in_hunk);
    }
}

#[test]
fn set_current_line_number_errors_outside_range() {
    let mut content = content_with_lines(5);
    assert_eq!(
        content.set_current_line_number(9),
        Err(BlameError::NotFound)
    );
    content.set_current_line_number(3).unwrap();
    assert_eq!(content.current_line_index(), 2);
}

#[test]
fn empty_buffer_has_no_lines() {
    let content = FileContent::new(CommitId::zero(), "");
    assert_eq!(content.first_line_number(), Err(BlameError::NoLines));
    assert_eq!(content.last_line_number(), Err(BlameError::NoLines));
}
