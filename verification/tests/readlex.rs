use feature_refining::glyphs::Glyph::{self, Ah, Ee, Ih, K, R, Schwa, T};
use feature_refining::readlex::{
    fix_final_ih, shaw_char_to_glyphs, shaw_word_to_glyphs, shaw_word_to_glyphs_with_fixes,
};

#[test]
fn test_shaw_word_to_glyphs() {
    assert_eq!(shaw_word_to_glyphs("\u{10452}\u{10478}"), vec![K, Ah, R]);
    assert_eq!(
        shaw_word_to_glyphs("\u{10452}\u{10478}-\u{10452}\u{10478}"),
        vec![K, Ah, R, K, Ah, R]
    );
}

#[test]
fn shaw_letters() {
    assert_eq!(shaw_char_to_glyphs('\u{10450}'), Some(vec![Glyph::P]));
    assert_eq!(shaw_char_to_glyphs('\u{1045d}'), Some(vec![Glyph::V]));
    assert_eq!(shaw_char_to_glyphs('\u{1047e}'), Some(vec![Ee, Glyph::Eh]));
    assert_eq!(shaw_char_to_glyphs('\u{1045c}'), None);
    assert_eq!(shaw_char_to_glyphs('a'), None);
}

#[test]
fn shaw_fixes() {
    assert_eq!(fix_final_ih(&vec![T, Ih]), vec![T, Ee]);
    assert_eq!(fix_final_ih(&vec![Ih, T]), vec![Ih, T]);
    assert_eq!(fix_final_ih(&vec![]), vec![]);
    // a last `Ih` becomes `Ee`
    assert_eq!(shaw_word_to_glyphs_with_fixes("\u{10451}\u{10466}", "ty"), vec![T, Ee]);
    // a first `Ih` of a word spelt with `e` becomes a schwa
    assert_eq!(shaw_word_to_glyphs_with_fixes("\u{10466}\u{10451}", "et"), vec![Schwa, T]);
    assert_eq!(shaw_word_to_glyphs_with_fixes("\u{10466}\u{10451}", "it"), vec![Ih, T]);
    // the last one is mended first
    assert_eq!(shaw_word_to_glyphs_with_fixes("\u{10466}", "e"), vec![Ee]);
    assert_eq!(shaw_word_to_glyphs_with_fixes("", "e"), vec![]);
}
