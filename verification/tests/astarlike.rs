use feature_refining::astarlike::{
    apply_copied_with_new, find_improving_edits, is_letter, new_distance_if_new, SubWithImprovement,
};
use feature_refining::consensus_finding::apply_copied;
use feature_refining::edit_distance::distanceg;
use feature_refining::glyphs::Glyph::{
    self, Ae, Dh, Ih, Ng, Th, Uh, A, C, E, G, H, I, K, M, N, O, S, T,
};
use feature_refining::high_level_substitutions::{HLSubstitution, HLSubstitutionList};

#[test]
fn astarlike_with_new_test_1() {
    let spelling = vec![S, O, M, E, T, H, I, N, G];
    let pronunciation = vec![S, Uh, M, Th, Ih, Ng];

    let hl_slist = HLSubstitutionList::from_debug_str(
        "[ay]$\u{2192}\u{3f5}, [sh]\u{2192}\u{283}, [ed]$\u{2192}d, [oul]d$\u{2192}\u{25c}, [ce]$\u{2192}s, [i]$\u{2192}i, [yo]\u{2192}y, [tio]n$\u{2192}\u{283}\u{28c}, [at]$\u{2192}\u{e6}t, [re]$\u{2192}r, [an]\u{2192}\u{28c}n, [to]$\u{2192}tu, [y]$\u{2192}\u{269}, [c]\u{2192}k, ^[i]\u{2192}\u{26a}, [s]$\u{2192}z, [er]$\u{2192}\u{2b3}, [of]\u{2192}\u{28c}v, [ing]$\u{2192}\u{26a}\u{14b}, [e]$\u{2192}\u{28c}, [th]\u{2192}\u{3d1}",
    )
    .unwrap();

    let sub = HLSubstitution::from_debug_str("[thi]\u{2192}\u{3d1}\u{26a}s").unwrap();

    let orig_transformed = apply_copied(&spelling, &hl_slist);
    println!("orig_transformed = {:?}", orig_transformed);

    let orig_dist = distanceg(&orig_transformed, &pronunciation);
    assert_eq!(orig_dist, 3);

    assert!(new_distance_if_new(&spelling, &pronunciation, &hl_slist, &sub).is_some());
}

#[test]
fn only_rules_that_apply_count() {
    let none = HLSubstitutionList { substitutions: vec![] };
    let rule = |key: Vec<Glyph>, content: Vec<Glyph>| HLSubstitution {
        sub_start: 0,
        sub_end: key.len(),
        key,
        at_start: false,
        at_end: false,
        sub_content: content,
    };
    let cat = vec![C, A, T];
    let list = HLSubstitutionList { substitutions: vec![rule(vec![C], vec![K]), rule(vec![A], vec![Ae])] };
    // both rules apply, and the first of them is new
    assert_eq!(apply_copied_with_new(&cat, &list, 1), Some(vec![K, Ae, T]));
    // the new rule does not apply
    let list = HLSubstitutionList { substitutions: vec![rule(vec![G], vec![K]), rule(vec![A], vec![Ae])] };
    assert_eq!(apply_copied_with_new(&cat, &list, 1), None);
    assert_eq!(apply_copied_with_new(&cat, &list, 2), Some(vec![C, Ae, T]));
    assert_eq!(apply_copied_with_new(&cat, &none, 0), None);
    assert_eq!(new_distance_if_new(&cat, &vec![K, Ae, T], &none, &rule(vec![C], vec![K])), Some(1));
    assert_eq!(new_distance_if_new(&cat, &vec![K, Ae, T], &none, &rule(vec![G], vec![K])), None);
}

#[test]
fn letters_of_the_alphabet() {
    assert!(is_letter(&A));
    assert!(is_letter(&Glyph::Z));
    assert!(!is_letter(&Ae));
    assert!(!is_letter(&Glyph::Hyphen));
    assert!(!is_letter(&Dh));
}

#[test]
fn findings_bound_to_an_end_only_where_no_letter_stands_next() {
    let none = HLSubstitutionList { substitutions: vec![] };
    let found = find_improving_edits(&vec![T, H, E], &vec![Dh, E], &none);
    assert!(found.contains(&SubWithImprovement {
        sub: HLSubstitution {
            key: vec![T, H],
            sub_start: 0,
            sub_end: 2,
            at_start: true,
            at_end: false,
            sub_content: vec![Dh]
        },
        improvement: 2
    }));
    // `e` stands behind the key `th`: the rule cannot be bound to the end of the word
    assert!(!found.iter().any(|f| f.sub.key == vec![T, H] && f.sub.at_end));
    // a hyphen is no letter: a key behind it may be bound to the start
    let found = find_improving_edits(&vec![Glyph::Hyphen, T], &vec![Glyph::Hyphen, H], &none);
    assert!(found.iter().any(|f| f.sub.key == vec![T] && f.sub.at_start && f.sub.at_end));
    // a phonetic symbol is no letter of the alphabet either, but a rule bound to the start
    // does not apply behind it
    let found = find_improving_edits(&vec![Ae, T], &vec![Ae, H], &none);
    assert!(found.iter().any(|f| f.sub.key == vec![T] && !f.sub.at_start));
    assert!(!found.iter().any(|f| f.sub.key == vec![T] && f.sub.at_start));
}
