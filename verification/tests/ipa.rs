use feature_refining::ipa::Consonant::{CSh, Ck, Cl, Cm, Cn, Cp, Cs, Ct};
use feature_refining::ipa::Stress::{Primary, Secondary, Unstressed};
use feature_refining::ipa::Vowel::{VE, VEIh, VI, VSchwa};
use feature_refining::ipa::{
    distribute_consonants, parse_consonant, parse_double_split, parse_ipa, parse_stress,
    parse_syllable, parse_vowel, Consonant, Stress, Syllable, Vowel,
};

#[test]
fn consonants_before_an_unstressed_last_syllable() {
    // of the three consonants behind the first vowel, the first stays
    assert_eq!(
        parse_ipa("\u{2c8}empti").unwrap().1,
        vec![
            Syllable {
                initial_consonants: vec![],
                vowel: VE,
                final_consonants: vec![Cm],
                stress: Primary
            },
            Syllable {
                initial_consonants: vec![Cp, Ct],
                vowel: VI,
                final_consonants: vec![],
                stress: Unstressed
            }
        ]
    )
}

#[test]
fn test_ipa_2() {
    assert_eq!(
        parse_ipa("\u{2cc}ekspl\u{259}\u{2c8}ne\u{26a}\u{283}\u{259}n").unwrap().1,
        vec![
            Syllable {
                initial_consonants: vec![],
                vowel: VE,
                final_consonants: vec![Ck],
                stress: Secondary
            },
            Syllable {
                initial_consonants: vec![Cs, Cp, Cl],
                vowel: VSchwa,
                final_consonants: vec![],
                stress: Unstressed
            },
            Syllable {
                initial_consonants: vec![Cn],
                vowel: VEIh,
                final_consonants: vec![],
                stress: Primary
            },
            Syllable {
                initial_consonants: vec![CSh],
                vowel: VSchwa,
                final_consonants: vec![Cn],
                stress: Unstressed
            }
        ]
    )
}

#[test]
fn ipa_writing() {
    assert_eq!(Vowel::VEIh.to_ipa(), "e\u{26a}");
    assert_eq!(Vowel::VOoSchwaR.to_ipa(), "\u{28a}\u{259}R");
    assert_eq!(Consonant::CTSh.to_ipa(), "t\u{283}");
    assert_eq!(Consonant::Ck.to_ipa(), "k");
    assert_eq!(Stress::Primary.to_ipa(), "\u{2c8}");
    assert_eq!(Stress::Secondary.to_ipa(), "\u{2cc}");
    assert_eq!(Stress::Unstressed.to_ipa(), "");
    let syl = Syllable {
        initial_consonants: vec![Cs, Cp],
        vowel: VE,
        final_consonants: vec![Cn],
        stress: Secondary,
    };
    assert_eq!(syl.to_ipa(), "\u{2cc}spen");
    assert_eq!(
        syl.parts_to_ipa(),
        ("\u{2cc}".to_owned(), "sp".to_owned(), "e".to_owned(), "n".to_owned())
    );
}

#[test]
fn ipa_reading_edges() {
    assert_eq!(parse_ipa(""), None);
    assert_eq!(parse_ipa("k"), None);
    let (rest, syls) = parse_ipa("e!").unwrap();
    assert_eq!(rest, "!");
    assert_eq!(syls.len(), 1);
    // the longer writing of a vowel is read before the shorter one
    let (_, syls) = parse_ipa("e\u{26a}").unwrap();
    assert_eq!(syls.len(), 1);
    assert_eq!(syls[0].vowel, Vowel::VEIh);
    // `t` and the sound behind it are one consonant
    let (_, syls) = parse_ipa("t\u{283}e").unwrap();
    assert_eq!(syls[0].initial_consonants, vec![Consonant::CTSh]);
    // a `+` may stand before a syllable
    let (rest, syls) = parse_ipa("e+ke").unwrap();
    assert_eq!(rest, "");
    assert_eq!(syls.len(), 2);
}

#[test]
fn consonants_are_handed_on() {
    let syl = |initial: Vec<Consonant>, last: Vec<Consonant>, stress| Syllable {
        initial_consonants: initial,
        vowel: VE,
        final_consonants: last,
        stress,
    };
    // one consonant between two syllables goes to the unstressed one
    let mut word = vec![syl(vec![], vec![Ck], Primary), syl(vec![], vec![], Unstressed)];
    distribute_consonants(&mut word);
    assert_eq!(word, vec![syl(vec![], vec![], Primary), syl(vec![Ck], vec![], Unstressed)]);
    // of several the first stays
    let mut word = vec![syl(vec![], vec![Ck, Cs, Cp], Primary), syl(vec![], vec![Cn], Unstressed)];
    distribute_consonants(&mut word);
    assert_eq!(
        word,
        vec![syl(vec![], vec![Ck], Primary), syl(vec![Cs, Cp], vec![Cn], Unstressed)]
    );
    // nothing is handed on to a stressed syllable
    let mut word = vec![syl(vec![], vec![Ck, Cs], Unstressed), syl(vec![], vec![], Primary)];
    let before = word.clone();
    distribute_consonants(&mut word);
    assert_eq!(word, before);
    let mut word = vec![syl(vec![Ck], vec![Cs], Unstressed)];
    let before = word.clone();
    distribute_consonants(&mut word);
    assert_eq!(word, before);
}

#[test]
fn reading_piece_by_piece() {
    assert_eq!(parse_consonant("t\u{283}a"), Some(("a".to_owned(), Consonant::CTSh)));
    assert_eq!(parse_consonant("ta"), Some(("a".to_owned(), Consonant::Ct)));
    assert_eq!(parse_consonant("a"), None);
    assert_eq!(parse_vowel("\u{26a}\u{259}Rx"), Some(("x".to_owned(), Vowel::VIhSchwaR)));
    assert_eq!(parse_vowel("\u{26a}\u{259}x"), Some(("x".to_owned(), Vowel::VIhSchwa)));
    assert_eq!(parse_vowel("\u{26a}x"), Some(("x".to_owned(), Vowel::VIh)));
    assert_eq!(parse_vowel("x"), None);
    assert_eq!(parse_stress("\u{2c8}a"), ("a".to_owned(), Stress::Primary));
    assert_eq!(parse_stress("\u{2cc}a"), ("a".to_owned(), Stress::Secondary));
    assert_eq!(parse_stress("a"), ("a".to_owned(), Stress::Unstressed));
    assert_eq!(parse_double_split("+a"), ("a".to_owned(), "+".to_owned()));
    assert_eq!(parse_double_split("a"), ("a".to_owned(), "".to_owned()));
    let (rest, syl) = parse_syllable("+\u{2c8}step!").unwrap();
    assert_eq!(rest, "!");
    assert_eq!(
        syl,
        Syllable {
            initial_consonants: vec![Cs, Ct],
            vowel: VE,
            final_consonants: vec![Cp],
            stress: Primary
        }
    );
    assert_eq!(parse_syllable("st"), None);
}
