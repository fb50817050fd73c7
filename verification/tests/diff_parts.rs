use git_iblame::diff_part::{DiffPart, DiffRange};
use git_iblame::errors::BlameError;

#[test]
fn range_basics() {
    let mut range = DiffRange::from_range(3..3);
    assert!(range.is_empty());
    assert_eq!(range.len(), 0);
    range.add_line(3);
    range.add_line(4);
    assert_eq!(range.line_numbers(), 3..5);
    assert_eq!(range.len(), 2);
    assert!(range.is_ascending());
    assert!(range.validate_ascending().is_ok());
}

#[test]
fn set_line_number_if_empty_anchors_only_empty_ranges() {
    let mut empty = DiffRange::from_range(0..0);
    empty.set_line_number_if_empty(7);
    assert_eq!(empty.line_numbers(), 7..7);

    let mut full = DiffRange::from_range(2..4);
    full.set_line_number_if_empty(7);
    assert_eq!(full.line_numbers(), 2..4);
}

#[test]
fn validate_ascending_parts_accepts_ordered_lists() {
    let parts = vec![
        DiffPart::from_ranges(1..3, 1..2),
        DiffPart::from_ranges(3..4, 2..6),
        DiffPart::from_ranges(4..4, 6..7),
    ];
    assert!(DiffPart::validate_ascending_parts(&parts).is_ok());
}

#[test]
fn validate_ascending_parts_rejects_overlaps() {
    // the second part starts before the first one ends, on the old side
    let parts = vec![
        DiffPart::from_ranges(1..5, 1..5),
        DiffPart::from_ranges(4..6, 5..7),
    ];
    assert_eq!(
        DiffPart::validate_ascending_parts(&parts),
        Err(BlameError::InvariantViolation)
    );

    // and on the new side
    let parts = vec![
        DiffPart::from_ranges(1..5, 1..5),
        DiffPart::from_ranges(5..6, 4..7),
    ];
    assert!(DiffPart::validate_ascending_parts(&parts).is_err());
}

#[test]
fn validate_ascending_parts_rejects_descending_ranges() {
    let part = DiffPart::from_ranges(5..3, 5..5);
    assert!(part.validate_ascending().is_err());
    assert!(DiffPart::validate_ascending_parts(&vec![part]).is_err());
}

#[test]
fn empty_part() {
    let part = DiffPart::new();
    assert!(part.is_empty());
    let part = DiffPart::from_ranges(3..3, 3..5);
    assert!(!part.is_empty());
}
