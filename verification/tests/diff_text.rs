use git_iblame::diff_part::DiffPart;
use git_iblame::diff_text::{parse_file_header, parse_hunk_header, DiffTextParser};
use git_iblame::errors::BlameError;

#[test]
fn hunk_header_values() {
    assert_eq!(
        parse_hunk_header("@@ -3,4 +5,6 @@").unwrap(),
        Some((3, 5))
    );
    assert_eq!(
        parse_hunk_header("@@ -137,0 +137,6 @@ fn main() {").unwrap(),
        Some((137, 137))
    );
    // without the counts the header form is not matched
    assert_eq!(parse_hunk_header("@@ -1 +1 @@").unwrap(), None);
    assert_eq!(parse_hunk_header("not a header").unwrap(), None);
    assert_eq!(parse_hunk_header("@@ -a,1 +1,1 @@").unwrap(), None);
}

#[test]
fn hunk_header_overflow_is_a_parse_error() {
    let line = "@@ -99999999999999999999999999,1 +1,1 @@";
    assert!(parse_hunk_header(line).is_err());
}

#[test]
fn file_header_paths() {
    assert_eq!(
        parse_file_header("diff --git a/src/main.rs b/src/main.rs"),
        Some(("src/main.rs".to_string(), "src/main.rs".to_string()))
    );
    // the old-side path is matched greedily, so the paths split at the
    // last separator
    assert_eq!(
        parse_file_header("diff --git a/a b/x b/a b/x"),
        Some(("a b/x b/a".to_string(), "x".to_string()))
    );
    assert_eq!(parse_file_header("diff --cc something"), None);
    assert_eq!(parse_file_header("index 123..456 100644"), None);
}

#[test]
fn parser_reads_one_file_section() {
    // a rename with a one-line change, surrounded by another file's section
    let lines = [
        "diff --git a/other.txt b/other.txt",
        "@@ -1,1 +1,1 @@",
        "-x",
        "+y",
        "diff --git a/old.txt b/new.txt",
        "index 123..456 100644",
        "@@ -2,3 +2,3 @@",
        " two",
        "-three",
        "+drei",
        " four",
    ];
    let mut parser = DiffTextParser::new("new.txt");
    for line in lines {
        assert!(parser.on_line(line, 0).unwrap());
    }
    parser.finish().unwrap();
    assert_eq!(parser.old_path.as_deref(), Some("old.txt"));
    assert_eq!(
        parser.context.parts,
        vec![DiffPart::from_ranges(3..4, 3..4)]
    );
}

#[test]
fn parser_stops_at_second_section() {
    let mut parser = DiffTextParser::new("a.txt");
    assert!(parser.on_line("diff --git a/a.txt b/a.txt", 0).unwrap());
    assert!(parser.on_line("@@ -1,1 +1,1 @@", 0).unwrap());
    assert!(parser.on_line("-x", 0).unwrap());
    assert!(parser.on_line("+y", 0).unwrap());
    // the next file section ends the scan
    assert!(!parser.on_line("diff --git a/b.txt b/b.txt", 0).unwrap());
    parser.finish().unwrap();
    assert_eq!(parser.old_path, None);
    assert_eq!(
        parser.context.parts,
        vec![DiffPart::from_ranges(1..2, 1..2)]
    );
}

#[test]
fn truncated_structural_line_fails() {
    let mut parser = DiffTextParser::new("a.txt");
    assert_eq!(
        parser.on_line("diff --git a/a.txt b/a.t", 3),
        Err(BlameError::InvalidUtf8 { valid_len: 24 })
    );
    // invalid bytes inside an ordinary content line are tolerated
    assert!(parser.on_line("some unrelated line", 3).unwrap());
}

#[test]
fn rename_without_changes_yields_no_parts() {
    // renaming a file with unchanged content: the old path is recorded and
    // the part list stays empty
    let lines = [
        "diff --git a/old.txt b/new.txt",
        "similarity index 100%",
        "rename from old.txt",
        "rename to new.txt",
    ];
    let mut parser = DiffTextParser::new("new.txt");
    for line in lines {
        assert!(parser.on_line(line, 0).unwrap());
    }
    parser.finish().unwrap();
    assert_eq!(parser.old_path.as_deref(), Some("old.txt"));
    assert!(parser.context.parts.is_empty());
}

#[test]
fn interior_modification_yields_one_part() {
    // modifying three interior lines: a single part whose two sides both
    // span the three lines, with no rename recorded
    let lines = [
        "diff --git a/text.txt b/text.txt",
        "@@ -2,5 +2,5 @@",
        " two",
        "-three",
        "-four",
        "-five",
        "+drei",
        "+vier",
        "+fuenf",
        " six",
    ];
    let mut parser = DiffTextParser::new("text.txt");
    for line in lines {
        assert!(parser.on_line(line, 0).unwrap());
    }
    parser.finish().unwrap();
    assert_eq!(parser.old_path, None);
    assert_eq!(
        parser.context.parts,
        vec![DiffPart::from_ranges(3..6, 3..6)]
    );
}
