use feature_refining::annotations::{annotate_changes, annotate_errors, mark_flags, Mark};
use feature_refining::glyphs::Glyph::{Ae, Ei, A, B, E, G, H, I, K, N, T};

#[test]
fn a_glyph_too_many_is_an_error() {
    assert_eq!(annotate_errors(&vec![T, H, E], &vec![T, E]), vec![false, true, false]);
    assert_eq!(annotate_errors(&vec![T, E], &vec![T, H, E]), vec![false, false]);
    assert_eq!(annotate_errors(&vec![T, H, E], &vec![T, H, E]), vec![false, false, false]);
}

#[test]
fn another_glyph_is_an_error() {
    assert_eq!(annotate_errors(&vec![K, A, T], &vec![K, Ae, T]), vec![false, true, false]);
    assert_eq!(annotate_errors(&vec![K, A, T], &vec![]), vec![true, true, true]);
    assert_eq!(annotate_errors(&vec![], &vec![K, A, T]), Vec::<bool>::new());
    assert_eq!(annotate_errors(&vec![A, B], &vec![B, A]).iter().filter(|f| **f).count(), 1);
}

#[test]
fn flags_from_marks() {
    let marks = vec![Mark::Both, Mark::Right, Mark::Left, Mark::Both, Mark::Left];
    assert_eq!(mark_flags(&marks, 4), vec![false, true, false, true]);
    assert_eq!(mark_flags(&marks, 2), vec![false, true]);
    assert_eq!(mark_flags(&marks, 6), vec![false, true, false, true, false, false]);
    assert_eq!(mark_flags(&Vec::new(), 2), vec![false, false]);
    assert_eq!(mark_flags(&vec![Mark::Right, Mark::Right], 0), Vec::<bool>::new());
}

#[test]
fn what_sets_pronunciations_apart() {
    let changes = annotate_changes(&vec![vec![N, I, T], vec![N, I, G, H, T], vec![N, Ei, T]]);
    assert_eq!(
        changes,
        vec![
            vec![false, true, false],
            vec![false, true, true, true, false],
            vec![false, true, false],
        ]
    );
    assert_eq!(annotate_changes(&vec![vec![N, I, T]]), vec![vec![false, false, false]]);
    assert_eq!(annotate_changes(&vec![vec![N], vec![N]]), vec![vec![false], vec![false]]);
    assert_eq!(annotate_changes(&Vec::new()), Vec::<Vec<bool>>::new());
}
