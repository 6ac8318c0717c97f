use feature_refining::fea_parsing::{parse_fea_feature_body, render_fea_feature_body};
use feature_refining::glyphs::{aug_decode, AugGlyph};
use feature_refining::glyphs::Glyph::{self, B, D, E};
use feature_refining::hbshape::{feature_file_text, shaped_glyphs, strip_shaping_stuff};
use feature_refining::substitutions2::{KeyElem, Lookup, SubContent, Substitution, SubstitutionList};

fn r(g: Glyph) -> AugGlyph {
    AugGlyph::Real(g)
}

fn rr(g: &[Glyph]) -> Vec<AugGlyph> {
    g.iter().map(|g| r(*g)).collect()
}

#[test]
fn test_stripping_1() {
    assert_eq!(strip_shaping_stuff("[y=0+400|u=1+1000]"), Some("yu".to_owned()));
}

#[test]
fn stripping_leaves_other_text() {
    assert_eq!(strip_shaping_stuff("yu"), Some("yu".to_owned()));
    assert_eq!(strip_shaping_stuff("[a=0+5]"), Some("a".to_owned()));
    assert_eq!(strip_shaping_stuff("a[b]c"), Some("a[b]c".to_owned()));
    assert_eq!(strip_shaping_stuff(""), Some("".to_owned()));
}

#[test]
fn there_back_test_1() {
    let slist = SubstitutionList {
        lookups: vec![Lookup {
            substitutions: vec![Substitution {
                pre_key: vec![],
                at_key: rr(&[E]),
                post_key: vec![KeyElem::Glyph(AugGlyph::Real(E)), KeyElem::Glyph(AugGlyph::Real(E))],
                sub_content: SubContent::Sub(rr(&[E])),
            }],
        }],
    };
    let slist_rendered = render_fea_feature_body(&slist);
    println!("{}", slist_rendered);
    let slist_back = parse_fea_feature_body(&slist_rendered).unwrap();
    assert_eq!(slist, slist_back);
}

#[test]
fn there_back_test_2() {
    let slist = SubstitutionList {
        lookups: vec![Lookup {
            substitutions: vec![Substitution {
                pre_key: vec![KeyElem::Glyph(AugGlyph::Real(D))],
                at_key: rr(&[E, B]),
                post_key: vec![],
                sub_content: SubContent::Ignore,
            }],
        }],
    };
    let slist_rendered = render_fea_feature_body(&slist);
    println!("{}", slist_rendered);
    let slist_back = parse_fea_feature_body(&slist_rendered).unwrap();
    assert_eq!(slist, slist_back);
}

#[test]
fn the_feature_file_of_a_list() {
    let slist = parse_fea_feature_body("lookup l0 { sub a' b by c; } l0;").unwrap();
    let text = feature_file_text(&slist);
    let body = text
        .strip_prefix(
            "\n@lc = [a b c d e f g h i j k l m n o p q r s t u v w x y z];\n  \nfeature rlig {\n  ",
        )
        .unwrap()
        .strip_suffix("\n} rlig;\n")
        .unwrap();
    assert_eq!(body, render_fea_feature_body(&slist));
    assert_eq!(parse_fea_feature_body(body).unwrap(), slist);
    let empty = feature_file_text(&SubstitutionList { lookups: vec![] });
    assert_eq!(
        empty,
        "\n@lc = [a b c d e f g h i j k l m n o p q r s t u v w x y z];\n  \nfeature rlig {\n  \n} rlig;\n"
    );
}

#[test]
fn the_glyphs_that_the_program_names() {
    assert_eq!(shaped_glyphs("[y=0+500|u=1+500]"), Some(aug_decode("yu")));
    assert_eq!(shaped_glyphs("[k=0+512]"), Some(aug_decode("k")));
    assert_eq!(shaped_glyphs(""), Some(vec![]));
}
