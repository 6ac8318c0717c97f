use feature_refining::glyphs::AugGlyph::{Real, Synthetic};
use feature_refining::glyphs::Glyph::{self, A, B, C};
use feature_refining::glyphs::{
    aug_decode, aug_encode, augment, decode, encode, strip_aug, AugGlyph, MAX_SYN,
};

#[test]
fn test_encode_1() {
    assert_eq!(encode(&vec![]), "".to_owned());
}

#[test]
fn test_encode_2() {
    assert_eq!(encode(&vec![A, B, C]), "abc".to_owned());
}

#[test]
fn test_decode_1() {
    assert_eq!(decode(""), vec![]);
}

#[test]
fn test_decode_2() {
    assert_eq!(decode("abc"), vec![A, B, C]);
}

#[test]
fn test_aug_decode() {
    assert_eq!(aug_decode("a"), vec![Real(A)]);
    assert_eq!(aug_decode("a{0}"), vec![Real(A), Synthetic(0)]);
    assert_eq!(aug_decode("a{0}b"), vec![Real(A), Synthetic(0), Real(B)]);
    assert_eq!(aug_decode("{0}b"), vec![Synthetic(0), Real(B)]);
    assert_eq!(aug_decode("{110}b"), vec![Synthetic(110), Real(B)]);
}

#[test]
fn test_aug_encode() {
    assert_eq!(&aug_encode(&aug_decode("a")), "a");
    assert_eq!(&aug_encode(&aug_decode("a{0}")), "a{0}");
    assert_eq!(&aug_encode(&aug_decode("{0}a")), "{0}a");
    assert_eq!(&aug_encode(&aug_decode("a{3}b")), "a{3}b");
    assert_eq!(&aug_encode(&aug_decode("---{7}")), "---{7}");
}

#[test]
fn glyph_names_and_chars_round_trip() {
    assert_eq!(MAX_SYN, 1000);
    let all = Glyph::all();
    assert_eq!(all.len(), 48);
    for g in all {
        let text = g.char();
        let (back, rest) = Glyph::from_char(&text).unwrap();
        assert_eq!(back, g);
        assert_eq!(rest, "");
        if g == Glyph::Eu {
            assert_eq!(Glyph::from_name(&g.name()), Some(Glyph::Eh));
        } else {
            assert_eq!(Glyph::from_name(&g.name()), Some(g));
        }
    }
    assert_eq!(Glyph::Jh.name(), "ju");
    assert_eq!(Glyph::Schwa.name(), "*");
    assert_eq!(Glyph::Hyphen.name(), "hyphen");
    assert_eq!(Glyph::Dh.char(), "\u{3d1}");
    assert_eq!(Glyph::from_name("zz"), None);
    assert_eq!(Glyph::from_name(""), None);
    assert_eq!(Glyph::from_char(""), None);
    assert_eq!(Glyph::from_char("!a"), None);
    assert_eq!(Glyph::from_char("\u{e6}t"), Some((Glyph::Ae, "t")));
}

#[test]
fn glyph_classes() {
    assert!(Glyph::A.is_vowel());
    assert!(Glyph::Schwa.is_vowel());
    assert!(!Glyph::B.is_vowel());
    assert!(!Glyph::Er.is_vowel());
    assert!(Glyph::Z.is_letter_or_phonetic());
    assert!(!Glyph::Apos.is_letter_or_phonetic());
    assert!(!Glyph::Hyphen.is_letter_or_phonetic());
    assert!(Synthetic(3).is_letter_or_phonetic());
    assert!(!Real(Glyph::Hyphen).is_letter_or_phonetic());
}

#[test]
fn aug_glyph_names() {
    assert_eq!(Synthetic(0).name(), "syn0");
    assert_eq!(Synthetic(4294967295).name(), "syn4294967295");
    assert_eq!(Real(Glyph::Ch).name(), "ch");
    assert_eq!(AugGlyph::from_name("syn17"), Some(Synthetic(17)));
    assert_eq!(AugGlyph::from_name("syn+5"), Some(Synthetic(5)));
    assert_eq!(AugGlyph::from_name("syn007"), Some(Synthetic(7)));
    assert_eq!(AugGlyph::from_name("syn"), None);
    assert_eq!(AugGlyph::from_name("syn+"), None);
    assert_eq!(AugGlyph::from_name("syn1x"), None);
    assert_eq!(AugGlyph::from_name("syn4294967296"), None);
    assert_eq!(AugGlyph::from_name("sh"), Some(Real(Glyph::Sh)));
    assert_eq!(AugGlyph::from_name("sy"), None);
}

#[test]
fn decode_passes_over_what_is_no_glyph() {
    assert_eq!(decode("a b!c"), vec![A, B, C]);
    assert_eq!(decode("\u{e9}a"), vec![A]);
    assert_eq!(decode("it's"), vec![Glyph::I, Glyph::T, Glyph::Apos, Glyph::S]);
}

#[test]
fn aug_decode_edge_cases() {
    assert_eq!(aug_decode("{x}a"), vec![Real(A)]);
    assert_eq!(aug_decode("{}a"), vec![Real(A)]);
    assert_eq!(aug_decode("a{12"), vec![Real(A), Synthetic(12)]);
    assert_eq!(aug_decode("{"), vec![]);
    assert_eq!(aug_decode("}a"), vec![Real(A)]);
    assert_eq!(aug_decode("{1}{2}"), vec![Synthetic(1), Synthetic(2)]);
    assert_eq!(aug_decode("{99999999999}b"), vec![Real(B)]);
}

#[test]
fn augment_and_strip() {
    assert_eq!(augment(&vec![A, B]), vec![Real(A), Real(B)]);
    assert_eq!(strip_aug(&vec![Real(A), Synthetic(2), Real(B)]), vec![A, B]);
    assert_eq!(strip_aug(&augment(&vec![C, A, B])), vec![C, A, B]);
    assert_eq!(decode(&encode(&Glyph::all())), Glyph::all());
}
