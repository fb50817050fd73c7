use git_iblame::diff_part::DiffPart;
use git_iblame::diff_read::DiffReadContext;
use git_iblame::errors::BlameError;

#[test]
fn context_add() {
    let mut context = DiffReadContext::new();
    context.on_line_callback(' ', Some(2), Some(2), 1).unwrap();
    context.on_line_callback(' ', Some(3), Some(3), 1).unwrap();
    context.on_line_callback(' ', Some(4), Some(4), 1).unwrap();
    context.on_line_callback('+', None, Some(5), 1).unwrap();
    context.on_line_callback('+', None, Some(6), 1).unwrap();
    context.on_line_callback(' ', Some(5), Some(7), 1).unwrap();
    context.on_line_callback(' ', Some(6), Some(8), 1).unwrap();
    context.on_line_callback('+', None, Some(9), 1).unwrap();
    context.on_line_callback(' ', Some(7), Some(10), 1).unwrap();
    context.flush_part().unwrap();
    assert_eq!(
        context.parts,
        vec![
            DiffPart::from_ranges(5..5, 5..7),
            DiffPart::from_ranges(7..7, 9..10),
        ]
    );
}

#[test]
fn context_delete() {
    let mut context = DiffReadContext::new();
    context.on_line_callback(' ', Some(1), Some(1), 1).unwrap();
    context.on_line_callback(' ', Some(2), Some(2), 1).unwrap();
    context.on_line_callback(' ', Some(3), Some(3), 1).unwrap();
    context.on_line_callback('-', Some(4), None, 1).unwrap();
    context.on_line_callback('-', Some(5), None, 1).unwrap();
    context.on_line_callback(' ', Some(6), Some(8), 1).unwrap();
    context.on_line_callback('-', Some(7), None, 1).unwrap();
    context.flush_part().unwrap();
    assert_eq!(
        context.parts,
        vec![
            DiffPart::from_ranges(4..6, 4..4),
            DiffPart::from_ranges(7..8, 9..9),
        ]
    );
}

#[test]
fn text_lines_context_add() {
    // The same change seen through the text backend, line by line.
    let mut context = DiffReadContext::new();
    context.on_git_hunk(2, 2);
    context.on_git_line(" two").unwrap();
    context.on_git_line(" three").unwrap();
    context.on_git_line(" four").unwrap();
    context.on_git_line("+five").unwrap();
    context.on_git_line("+six").unwrap();
    context.on_git_line(" old five").unwrap();
    context.flush_part().unwrap();
    assert_eq!(context.parts, vec![DiffPart::from_ranges(5..5, 5..7)]);
}

#[test]
fn text_backend_sees_final_newline_change() {
    // Adding the final line terminator to a file whose last line lacked it:
    // the unified-diff text shows the last line replaced, and the parser
    // reports the one-line change.  The tree backend's callbacks report no
    // line at all for this change, so its part list stays empty: a
    // documented divergence between the two backends.
    let mut text = DiffReadContext::new();
    text.on_git_hunk(5, 5);
    text.on_git_line("-5").unwrap();
    text.on_git_line("\\ No newline at end of file").unwrap();
    text.on_git_line("+5").unwrap();
    text.flush_part().unwrap();
    assert_eq!(text.parts, vec![DiffPart::from_ranges(5..6, 5..6)]);

    let mut tree = DiffReadContext::new();
    tree.flush_part().unwrap();
    assert_eq!(tree.parts, vec![]);
}

#[test]
fn unexpected_line_is_a_parse_error() {
    let mut context = DiffReadContext::new();
    let result = context.on_git_line("garbage");
    assert_eq!(result, Err(BlameError::ParseError { offset: 0 }));
}
