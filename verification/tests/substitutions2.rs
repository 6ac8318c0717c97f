use feature_refining::fea_parsing::parse_fea_feature_body;
use feature_refining::glyphs::AugGlyph;
use feature_refining::glyphs::Glyph::{self, A, B, C, D, E, F, G, H, I, J};
use feature_refining::substitutions2::{
    apply_all, apply_all_with_new, apply_sub_at_pos, KeyElem, Substitution,
};

fn r(g: Glyph) -> AugGlyph {
    AugGlyph::Real(g)
}

fn rr(g: &[Glyph]) -> Vec<AugGlyph> {
    g.iter().map(|g| r(*g)).collect()
}

fn only_sub(text: &str) -> Substitution {
    parse_fea_feature_body(text).unwrap().lookups.pop().unwrap().substitutions.pop().unwrap()
}

#[test]
fn substitutions2_test_1() {
    let mut working = vec![r(A), r(B), r(C), r(D), r(E)];
    let sub = only_sub("lookup l0 { sub b c' d' by f; } l0;");
    assert_eq!(apply_sub_at_pos(&mut working, 0, &sub), false);
    assert_eq!(working, vec![r(A), r(B), r(C), r(D), r(E)]);
}

#[test]
fn test_1() {
    let slist = parse_fea_feature_body(
        "
",
    )
    .unwrap();
    let mut working = rr(&[A, B, C, D, E]);
    apply_all(&mut working, &slist);
    assert_eq!(working, rr(&[A, B, C, D, E]));
}

#[test]
fn substitutions2_test_2() {
    let mut working = rr(&[A, B, C, D, E]);
    let sub = only_sub("lookup l0 { sub b c' d' by f; } l0;");
    assert_eq!(apply_sub_at_pos(&mut working, 2, &sub), true);
    assert_eq!(working, rr(&[A, B, F, E]));
}

#[test]
fn test_2() {
    let slist = parse_fea_feature_body(
        "
      lookup l1 {
        sub b' by f;
      } l1;
      lookup l2 {
        sub f' by g;
      } l2;
",
    )
    .unwrap();
    let mut working = rr(&[A, B, C, D, E]);
    apply_all(&mut working, &slist);
    assert_eq!(working, rr(&[A, G, C, D, E]));
}

#[test]
fn substitutions2_test_3() {
    let mut working = rr(&[A, B, C, D, E]);
    let sub = only_sub("lookup l0 { sub g c' d' by f; } l0;");
    assert_eq!(apply_sub_at_pos(&mut working, 2, &sub), false);
    assert_eq!(working, rr(&[A, B, C, D, E]));
}

#[test]
fn test_3() {
    let slist = parse_fea_feature_body(
        "
      lookup l1 {
        sub a b' c' by f;
        sub a' f' by g;
      } l1;
      lookup l2 {
        sub f' d by h i;
        sub i d' by j;
      } l2;
",
    )
    .unwrap();
    let mut working = rr(&[A, B, C, D, E]);
    apply_all(&mut working, &slist);
    assert_eq!(working, rr(&[A, H, I, J, E]));
}

#[test]
fn substitutions2_test_4() {
    let slist = parse_fea_feature_body(
        "
      lookup l1 {
        sub a' by c d;
        sub d' by e;
      } l1;
",
    )
    .unwrap();
    let mut working = rr(&[A, B]);
    apply_all(&mut working, &slist);
    assert_eq!(working, rr(&[C, D, B]));
}

#[test]
fn matches_glyph_or_any_letter() {
    assert!(feature_refining::substitutions2::matches(&r(A), &KeyElem::Glyph(r(A))));
    assert!(!feature_refining::substitutions2::matches(&r(A), &KeyElem::Glyph(r(B))));
    assert!(feature_refining::substitutions2::matches(&r(A), &KeyElem::AnyLetter));
    assert!(feature_refining::substitutions2::matches(&AugGlyph::Synthetic(1), &KeyElem::AnyLetter));
    assert!(!feature_refining::substitutions2::matches(&r(Glyph::Hyphen), &KeyElem::AnyLetter));
}

#[test]
fn ignore_keeps_later_substitutions_off() {
    let slist = parse_fea_feature_body(
        "lookup l0 { ignore sub @lc a' ; sub a' by e; } l0;",
    )
    .unwrap();
    let mut working = rr(&[A, B, A]);
    apply_all(&mut working, &slist);
    assert_eq!(working, rr(&[E, B, A]));
}

#[test]
fn apply_all_with_new_says_whether_a_new_one_applied() {
    let slist = parse_fea_feature_body(
        "
      lookup l1 {
        sub a' by f;
      } l1;
      lookup l2 {
        sub b' by g;
      } l2;
",
    )
    .unwrap();
    let mut working = rr(&[A, B]);
    assert_eq!(apply_all_with_new(&mut working, &slist, 1), true);
    assert_eq!(working, rr(&[F, G]));

    let mut working = rr(&[C, B]);
    assert_eq!(apply_all_with_new(&mut working, &slist, 1), false);
    assert_eq!(working, rr(&[C, B]));

    let mut working = rr(&[C, B]);
    assert_eq!(apply_all_with_new(&mut working, &slist, 2), true);
    assert_eq!(working, rr(&[C, G]));

    let mut working = rr(&[A, B]);
    assert_eq!(apply_all_with_new(&mut working, &slist, 0), false);
    assert_eq!(working, rr(&[A, B]));
}
