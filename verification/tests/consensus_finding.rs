use feature_refining::consensus_finding::{apply_copied, find_improving_edits, sub_size};
use feature_refining::edit_distance::{distance, distanceg};
use feature_refining::glyphs::Glyph::{Dh, E, Eh, Ei, F, G, H, I, T};
use feature_refining::glyphs::{aug_decode, augment};
use feature_refining::high_level_substitutions::{HLSubstitution, HLSubstitutionList};

#[test]
fn find_improving_edits_test_1() {
    let word = vec![E, I, G, H, T];
    let pronunciation = vec![Ei, T];
    let init_hl_slist = HLSubstitutionList { substitutions: vec![] };
    let found = find_improving_edits(&word, &pronunciation, &init_hl_slist);
    let found: Vec<HLSubstitution> = found.into_iter().map(|(s, _)| s).collect();
    assert!(found.contains(&HLSubstitution {
        key: vec![E, I],
        sub_start: 0,
        sub_end: 1,
        at_start: false,
        at_end: false,
        sub_content: vec![Ei]
    }));
}

#[test]
fn find_improving_edits_test_2() {
    let word = vec![T, H, E];
    let pronunciation = vec![Dh, Eh];
    let init_hl_slist = HLSubstitutionList { substitutions: vec![] };
    let found = find_improving_edits(&word, &pronunciation, &init_hl_slist);
    let found: Vec<HLSubstitution> = found.into_iter().map(|(s, _)| s).collect();
    assert!(found.contains(&HLSubstitution {
        key: vec![T, H, E],
        sub_start: 0,
        sub_end: 3,
        at_start: true,
        at_end: true,
        sub_content: vec![Dh, Eh]
    }));
}

#[test]
fn distance_test_1() {
    let a = vec![E, I, G, H, T];
    let b = vec![Ei, T];
    let d = distanceg(&a, &b);
    println!("{:?} to {:?} = {}", a, b, d);
    assert_eq!(d, 4);
}

#[test]
fn distances() {
    assert_eq!(distanceg(&vec![], &vec![]), 0);
    assert_eq!(distanceg(&vec![T], &vec![]), 1);
    assert_eq!(distanceg(&vec![], &vec![T, H]), 2);
    assert_eq!(distanceg(&vec![T, H, E], &vec![T, H, E]), 0);
    assert_eq!(distanceg(&vec![F, I, G, H, T], &vec![F, I, T]), 2);
    assert_eq!(distance(&aug_decode("k{0}t"), &aug_decode("k{1}t")), 1);
    assert_eq!(distance(&aug_decode("kat"), &augment(&vec![])), 3);
}

#[test]
fn first_findings_in_order_and_what_they_gain() {
    // one glyph to one glyph: the only key is the word, bound to both ends first
    let found = find_improving_edits(&vec![T], &vec![Dh], &HLSubstitutionList { substitutions: vec![] });
    let ends: Vec<(bool, bool, u32)> =
        found.iter().map(|(s, gain)| (s.at_start, s.at_end, *gain)).collect();
    assert_eq!(ends, vec![(true, true, 1), (true, false, 1), (false, true, 1), (false, false, 1)]);
    for (s, _) in &found {
        assert_eq!((s.key.clone(), s.sub_start, s.sub_end, s.sub_content.clone()), (vec![T], 0, 1, vec![Dh]));
    }
    // nothing to gain where the word is its pronunciation
    assert!(find_improving_edits(&vec![T], &vec![T], &HLSubstitutionList { substitutions: vec![] })
        .is_empty());
    assert!(find_improving_edits(&vec![], &vec![T], &HLSubstitutionList { substitutions: vec![] })
        .is_empty());
}

#[test]
fn apply_copied_and_size() {
    let rule = HLSubstitution {
        key: vec![G, H, T],
        at_start: false,
        at_end: true,
        sub_start: 0,
        sub_end: 2,
        sub_content: vec![],
    };
    assert_eq!(sub_size(&rule), 4);
    let list = HLSubstitutionList { substitutions: vec![rule] };
    assert_eq!(apply_copied(&vec![E, I, G, H, T], &list), vec![E, I, T]);
    assert_eq!(apply_copied(&vec![G, H, T, E], &list), vec![G, H, T, E]);
    assert_eq!(
        apply_copied(&vec![E, I], &HLSubstitutionList { substitutions: vec![] }),
        vec![E, I]
    );
}
