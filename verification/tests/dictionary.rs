use feature_refining::demixing::{side_of, Side};
use feature_refining::dictionary::{letter_to_glyph, pronunciation_token_to_glyph, stretches};
use feature_refining::glyphs::Glyph;
use feature_refining::high_level_substitutions2::HLSubstitutionList;

#[test]
fn sounds_with_and_without_stress_marks() {
    assert_eq!(pronunciation_token_to_glyph("AH"), Some(Glyph::Uh));
    assert_eq!(pronunciation_token_to_glyph("AH0"), Some(Glyph::Uh));
    assert_eq!(pronunciation_token_to_glyph("EY12"), Some(Glyph::Ei));
    assert_eq!(pronunciation_token_to_glyph("1OW"), Some(Glyph::O));
    // only the first run of digits is a stress mark
    assert_eq!(pronunciation_token_to_glyph("A1H2"), None);
    assert_eq!(pronunciation_token_to_glyph("HH"), Some(Glyph::H));
    assert_eq!(pronunciation_token_to_glyph("H"), Some(Glyph::H));
    assert_eq!(pronunciation_token_to_glyph("JH"), Some(Glyph::J));
    assert_eq!(pronunciation_token_to_glyph("ZH"), Some(Glyph::Jh));
    assert_eq!(pronunciation_token_to_glyph("NG"), Some(Glyph::Ng));
    assert_eq!(pronunciation_token_to_glyph("Z"), Some(Glyph::Z));
    assert_eq!(pronunciation_token_to_glyph("ah"), None);
    assert_eq!(pronunciation_token_to_glyph("Q"), None);
    assert_eq!(pronunciation_token_to_glyph(""), None);
}

#[test]
fn letters_of_a_spelling() {
    assert_eq!(letter_to_glyph('a'), Some(Glyph::A));
    assert_eq!(letter_to_glyph('z'), Some(Glyph::Z));
    assert_eq!(letter_to_glyph('-'), Some(Glyph::Hyphen));
    assert_eq!(letter_to_glyph('\''), Some(Glyph::Apos));
    assert_eq!(letter_to_glyph('A'), None);
    assert_eq!(letter_to_glyph('\u{e6}'), None);
}

#[test]
fn sides_of_a_candidate() {
    assert_eq!(side_of(3, 0), Some(Side::Before));
    assert_eq!(side_of(3, 2), Some(Side::Before));
    assert_eq!(side_of(3, 3), None);
    assert_eq!(side_of(3, 4), Some(Side::Behind));
    assert_eq!(side_of(0, 0), None);
    assert_eq!(side_of(0, 9), Some(Side::Behind));
}

#[test]
fn the_rules_of_a_long_run() {
    let rules = HLSubstitutionList::set_1().unwrap();
    assert_eq!(rules.substitutions.len(), 400);
    assert_eq!(rules.substitutions[0].encode(), "[th]\u{2192}0\u{2192}\u{3d1}");
    assert_eq!(rules.substitutions[5].encode(), "^[of]\u{2192}5\u{2192}{3}v");
    assert_eq!(rules.substitutions[399].encode(), "[o{203}]\u{2192}399\u{2192}{143}{203}");
    assert_eq!(rules.check_back_refs(), Ok(()));
    assert_eq!(rules.next_open_mid(), 400);
}

#[test]
fn the_stretches_of_a_spelling() {
    let (a, c, t) = (Glyph::A, Glyph::C, Glyph::T);
    assert_eq!(
        stretches(&vec![c, a, t], 5),
        vec![vec![c], vec![a], vec![t], vec![c, a], vec![a, t], vec![c, a, t]]
    );
    assert_eq!(stretches(&vec![c, a, t], 2), vec![vec![c], vec![a], vec![t], vec![c, a], vec![a, t]]);
    assert_eq!(stretches(&vec![c, a, t], 0), Vec::<Vec<Glyph>>::new());
    assert_eq!(stretches(&vec![], 5), Vec::<Vec<Glyph>>::new());
    let long = vec![a; 8];
    let all = stretches(&long, 5);
    assert_eq!(all.len(), 8 + 7 + 6 + 5 + 4);
    assert!(all.iter().all(|s| 1 <= s.len() && s.len() <= 5));
}
