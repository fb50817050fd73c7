use std::io::{BufRead, BufReader, Read};

use git_iblame::errors::BlameError;
use git_iblame::git_diff_line::GitDiffLine;
use git_iblame::line_read_buffer::LineReadBuffer;
use git_iblame::text::split_lines;

#[test]
fn split_lines_cases() {
    let empty: Vec<String> = vec![];
    assert_eq!(split_lines(""), empty);
    assert_eq!(split_lines("a"), vec!["a".to_string()]);
    assert_eq!(split_lines("a\n"), vec!["a".to_string()]);
    assert_eq!(split_lines("a\nb"), vec!["a".to_string(), "b".to_string()]);
    assert_eq!(
        split_lines("a\r\nb\r\n"),
        vec!["a".to_string(), "b".to_string()]
    );
    assert_eq!(
        split_lines("a\n\nb"),
        vec!["a".to_string(), "".to_string(), "b".to_string()]
    );
}

#[test]
fn read_line_from_splits_at_newlines() {
    let data: &[u8] = b"first\nsecond\nlast";
    let mut reader = BufReader::new(data);
    let mut buffer = LineReadBuffer::new();

    assert!(buffer.read_line_from(&mut reader).unwrap());
    assert_eq!(buffer.to_valid_string(), "first");
    assert_eq!(buffer.invalid_len(), 0);

    assert!(buffer.read_line_from(&mut reader).unwrap());
    assert_eq!(buffer.to_valid_string(), "second");

    assert!(buffer.read_line_from(&mut reader).unwrap());
    assert_eq!(buffer.to_valid_string(), "last");

    assert!(!buffer.read_line_from(&mut reader).unwrap());
}

#[test]
fn read_line_from_reports_invalid_utf8() {
    // a line with an invalid byte after four valid ones
    let data: &[u8] = b"good\xffbad\nnext\n";
    let mut reader = BufReader::new(data);
    let mut buffer = LineReadBuffer::new();

    assert!(buffer.read_line_from(&mut reader).unwrap());
    assert!(buffer.invalid_len() > 0);
    assert_eq!(buffer.error(), BlameError::InvalidUtf8 { valid_len: 4 });
    assert_eq!(buffer.to_string_lossy(), "good\u{fffd}bad");

    assert!(buffer.read_line_from(&mut reader).unwrap());
    assert_eq!(buffer.invalid_len(), 0);
    assert_eq!(buffer.to_valid_string(), "next");
}

#[test]
fn git_diff_line_reads_its_stream() {
    let data: &[u8] = b"diff --git a/x b/x\n@@ -1,2 +1,2 @@\n one\n";
    let reader = BufReader::new(data);
    let mut line = GitDiffLine::new(reader);

    assert!(line.next_line().unwrap());
    assert_eq!(line.to_valid_string(), "diff --git a/x b/x");
    assert_eq!(line.invalid_len(), 0);

    assert!(line.next_line().unwrap());
    assert_eq!(line.to_valid_string(), "@@ -1,2 +1,2 @@");

    assert!(line.next_line().unwrap());
    assert_eq!(line.to_lossy_string(), " one");

    assert!(!line.next_line().unwrap());
}

/// A reader that always fails, to exercise the stream-failure path.
struct FailingReader;

impl Read for FailingReader {
    fn read(&mut self, _buf: &mut [u8]) -> std::io::Result<usize> {
        Err(std::io::Error::new(std::io::ErrorKind::Other, "broken"))
    }
}

impl BufRead for FailingReader {
    fn fill_buf(&mut self) -> std::io::Result<&[u8]> {
        Err(std::io::Error::new(std::io::ErrorKind::Other, "broken"))
    }

    fn consume(&mut self, _amt: usize) {}
}

#[test]
fn read_line_from_surfaces_stream_failures() {
    let mut buffer = LineReadBuffer::new();
    let mut reader = FailingReader;
    assert_eq!(
        buffer.read_line_from(&mut reader),
        Err(BlameError::ReadFailed)
    );
}
