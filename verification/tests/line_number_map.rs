use git_iblame::diff_part::{DiffPart, DiffRange};
use git_iblame::line_number_map::LineNumberMap;

fn parts_of(ranges: &[(usize, usize, usize, usize)]) -> Vec<DiffPart> {
    ranges
        .iter()
        .map(|&(os, oe, ns, ne)| DiffPart::from_ranges(os..oe, ns..ne))
        .collect()
}

#[test]
fn line_number_map_new_from_old_add() {
    let parts = parts_of(&[(3, 3, 3, 5)]);
    let map = LineNumberMap::new_new_from_old(&parts);
    assert_eq!(map.map(1).unwrap(), 1);
    assert_eq!(map.map(2).unwrap(), 2);
    assert_eq!(map.map(3).unwrap(), 5);
    assert_eq!(map.map(4).unwrap(), 6);
}

#[test]
fn line_number_map_new_from_old_del() {
    let parts = parts_of(&[(3, 5, 3, 3)]);
    let map = LineNumberMap::new_new_from_old(&parts);
    assert_eq!(map.map(1).unwrap(), 1);
    assert_eq!(map.map(2).unwrap(), 2);
    assert_eq!(map.map(3).unwrap(), 3);
    assert_eq!(map.map(4).unwrap(), 3);
    assert_eq!(map.map(5).unwrap(), 3);
    assert_eq!(map.map(6).unwrap(), 4);
}

#[test]
fn line_number_map_new_from_old_mix() {
    let parts = parts_of(&[(137, 137, 137, 143), (360, 361, 366, 366)]);
    let map = LineNumberMap::new_new_from_old(&parts);
    assert_eq!(map.map(359).unwrap(), 365);
    assert_eq!(map.map(361).unwrap(), 366);
}

#[test]
fn old_from_new_inverts_insertions() {
    // Round trip over an insertion: every in-range old line comes back.
    let parts = parts_of(&[(3, 3, 3, 5)]);
    let forward = LineNumberMap::new_new_from_old(&parts);
    let backward = LineNumberMap::new_old_from_new(&parts);
    for old_line in 1..20usize {
        let new_line = forward.map(old_line).unwrap();
        assert_eq!(backward.map(new_line).unwrap(), old_line);
    }
}

#[test]
fn old_from_new_inverts_substitution_and_insertion() {
    let parts = parts_of(&[(2, 4, 2, 4), (7, 7, 7, 10)]);
    let forward = LineNumberMap::new_new_from_old(&parts);
    let backward = LineNumberMap::new_old_from_new(&parts);
    for old_line in 1..30usize {
        let new_line = forward.map(old_line).unwrap();
        assert_eq!(backward.map(new_line).unwrap(), old_line);
    }
}

#[test]
fn old_from_new_inverts_mixed_lists_outside_deletions() {
    // aligned lists mixing insertions, deletions and substitutions, as a
    // diff produces them; every line outside a deleted span (and not the
    // line a deletion collapses onto, where a following hunk's boundary
    // can absorb it) comes back
    let cases: Vec<(Vec<(usize, usize, usize, usize)>, Vec<(usize, usize)>)> = vec![
        // deletion of 4..6, then insertion at 10
        (
            vec![(4, 6, 4, 4), (10, 10, 8, 11)],
            vec![(4, 6)],
        ),
        // insertion at 3, then deletion of 8..11
        (
            vec![(3, 3, 3, 5), (8, 11, 10, 10)],
            vec![(8, 11)],
        ),
        // substitution, deletion, substitution-with-growth
        (
            vec![(2, 4, 2, 4), (6, 9, 6, 7), (12, 13, 10, 14)],
            vec![(7, 9), (12, 13)],
        ),
    ];
    for (ranges, deleted) in cases {
        let parts = parts_of(&ranges);
        let forward = LineNumberMap::new_new_from_old(&parts);
        let backward = LineNumberMap::new_old_from_new(&parts);
        for old_line in 1..40usize {
            if deleted.iter().any(|&(lo, hi)| lo <= old_line && old_line <= hi) {
                continue;
            }
            let new_line = forward.map(old_line).unwrap();
            assert_eq!(
                backward.map(new_line).unwrap(),
                old_line,
                "ranges {ranges:?}, line {old_line}"
            );
        }
    }
}

#[test]
fn apply_to_values_requires_monotone_input() {
    let parts = parts_of(&[(3, 3, 3, 5)]);
    let map = LineNumberMap::new_new_from_old(&parts);
    let mut values = vec![4usize, 2usize];
    assert!(map.apply_to_values(&mut values).is_err());
    // nothing changed on failure
    assert_eq!(values, vec![4, 2]);
}

#[test]
fn apply_to_values_maps_a_stream() {
    let parts = parts_of(&[(3, 5, 3, 3)]);
    let map = LineNumberMap::new_new_from_old(&parts);
    let mut values = vec![1usize, 3, 4, 6];
    map.apply_to_values(&mut values).unwrap();
    assert_eq!(values, vec![1, 3, 3, 4]);
}

#[test]
fn apply_to_parts_remaps_both_sides() {
    // An older commit's single substitution hunk, re-expressed after a
    // two-line insertion at line 3.
    let newer = parts_of(&[(3, 3, 3, 5)]);
    let map = LineNumberMap::new_new_from_old(&newer);
    let mut older = parts_of(&[(4, 5, 4, 5)]);
    map.apply_to_parts(&mut older).unwrap();
    assert_eq!(older, parts_of(&[(6, 7, 6, 7)]));
}

#[test]
fn apply_to_ranges_maps_bounds() {
    let parts = parts_of(&[(3, 3, 3, 5)]);
    let map = LineNumberMap::new_new_from_old(&parts);
    let mut ranges = vec![DiffRange::from_range(1..2), DiffRange::from_range(4..6)];
    map.apply_to_ranges(&mut ranges).unwrap();
    assert_eq!(ranges[0], DiffRange::from_range(1..2));
    assert_eq!(ranges[1], DiffRange::from_range(6..8));
}
