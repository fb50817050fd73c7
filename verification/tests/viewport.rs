use git_iblame::viewport::scroll_line_into_view;

fn adjust_start_line_index(
    current_line_index: usize,
    lines_len: usize,
    start_line_index: usize,
    view_rows: u16,
) -> usize {
    // the current line is clamped into the buffer, as the snapshot's
    // cursor setter does
    let current = if lines_len == 0 {
        0
    } else if current_line_index < lines_len {
        current_line_index
    } else {
        lines_len - 1
    };
    scroll_line_into_view(start_line_index, lines_len, current, view_rows as usize)
}

#[test]
fn scroll_current_line_into_view() {
    // No adjustment needed.
    assert_eq!(adjust_start_line_index(0, 30, 0, 20), 0);

    // Need to scroll up.
    assert_eq!(adjust_start_line_index(14, 30, 0, 20), 0);
    assert_eq!(adjust_start_line_index(15, 30, 0, 20), 1);

    // Need to scroll down.
    assert_eq!(adjust_start_line_index(15, 30, 10, 20), 10);
    assert_eq!(adjust_start_line_index(14, 30, 10, 20), 9);

    // Content is updated to a smaller size. Ensure all view rows are filled.
    assert_eq!(adjust_start_line_index(14, 30, 5, 20), 5);
    assert_eq!(adjust_start_line_index(14, 21, 5, 20), 1);
    assert_eq!(adjust_start_line_index(14, 15, 5, 20), 0);
}
