use feature_refining::fea_parsing::mid;
use feature_refining::fea_parsing::{
    key_elem_name, parse_fea_feature_body, parse_fea_feature_body_1, parse_key_elem, parse_lhs,
    render_fea_feature_body, render_fea_sub,
};
use feature_refining::glyphs::AugGlyph;
use feature_refining::glyphs::Glyph::{self, A, B, C, D, E};
use feature_refining::substitutions2::{KeyElem, Lookup, SubContent, Substitution, SubstitutionList};

fn r(g: Glyph) -> AugGlyph {
    AugGlyph::Real(g)
}

fn rr(g: &[Glyph]) -> Vec<AugGlyph> {
    g.iter().map(|g| r(*g)).collect()
}

#[test]
fn fea_parser_test_1() {
    assert_eq!(
        parse_fea_feature_body_1("lookup l0 { sub a by b; } l0;"),
        Ok(mid::Feature {
            lookups: vec![mid::Lookup {
                entries: vec![mid::LookupEntry::Sub(mid::Sub {
                    lhs: vec![mid::LHSElement { glyph: "a".to_owned(), prime: false }],
                    rhs: vec!["b".to_owned()]
                })]
            }]
        })
    );
}

#[test]
fn fea_parser_test_2() {
    assert_eq!(
        parse_fea_feature_body_1("lookup l0 { ignore sub a' b'; } l0;"),
        Ok(mid::Feature {
            lookups: vec![mid::Lookup {
                entries: vec![mid::LookupEntry::Ignore(mid::Ignore {
                    lhs: vec![
                        mid::LHSElement { glyph: "a".to_owned(), prime: true },
                        mid::LHSElement { glyph: "b".to_owned(), prime: true }
                    ]
                })]
            }]
        })
    );
}

#[test]
fn fea_parser_test_3() {
    assert_eq!(
        parse_fea_feature_body(
            "lookup l0 { sub a b' c' d by e; } l0; lookup l1 { ignore sub a b' c' @lc; } l1;"
        ),
        Ok(SubstitutionList {
            lookups: vec![
                Lookup {
                    substitutions: vec![Substitution {
                        pre_key: vec![KeyElem::Glyph(AugGlyph::Real(A))],
                        at_key: rr(&[B, C]),
                        post_key: vec![KeyElem::Glyph(AugGlyph::Real(D))],
                        sub_content: SubContent::Sub(rr(&[E]))
                    },],
                },
                Lookup {
                    substitutions: vec![Substitution {
                        pre_key: vec![KeyElem::Glyph(AugGlyph::Real(A))],
                        at_key: rr(&[B, C]),
                        post_key: vec![KeyElem::AnyLetter],
                        sub_content: SubContent::Ignore
                    }]
                }
            ]
        })
    );
}

#[test]
fn fea_parser_test_4() {
    let parsed = parse_fea_feature_body(
        "
  lookup l0 {
    sub a' by b;
  } l0;
",
    );
    assert_eq!(
        parsed,
        Ok(SubstitutionList {
            lookups: vec![Lookup {
                substitutions: vec![Substitution {
                    pre_key: vec![],
                    at_key: rr(&[A]),
                    post_key: vec![],
                    sub_content: SubContent::Sub(rr(&[B]))
                }]
            }]
        })
    );
}

#[test]
fn fea_render() {
    let sub = Substitution {
        pre_key: vec![KeyElem::AnyLetter, KeyElem::Glyph(r(C))],
        at_key: vec![r(A), AugGlyph::Synthetic(12)],
        post_key: vec![KeyElem::Glyph(r(Glyph::Schwa))],
        sub_content: SubContent::Sub(vec![r(B), AugGlyph::Synthetic(3)]),
    };
    assert_eq!(render_fea_sub(&sub), "sub @lc c a' syn12' * by b syn3;");
    let ignore = Substitution {
        pre_key: vec![],
        at_key: vec![r(A)],
        post_key: vec![KeyElem::AnyLetter],
        sub_content: SubContent::Ignore,
    };
    assert_eq!(render_fea_sub(&ignore), "ignore sub a' @lc;");
    let list = SubstitutionList {
        lookups: vec![Lookup { substitutions: vec![ignore, sub] }, Lookup { substitutions: vec![] }],
    };
    assert_eq!(
        render_fea_feature_body(&list),
        "lookup l0 {\n  ignore sub a' @lc;\n  sub @lc c a' syn12' * by b syn3;\n} l0;\nlookup l1 {\n} l1;\n"
    );
    assert_eq!(parse_fea_feature_body(&render_fea_feature_body(&list)), Ok(list));
    assert_eq!(key_elem_name(&KeyElem::AnyLetter), "@lc");
    assert_eq!(key_elem_name(&KeyElem::Glyph(r(Glyph::Th))), "th");
}

#[test]
fn fea_parse_errors() {
    assert!(parse_fea_feature_body_1("lookup l0 { sub a by b } l0;").is_err());
    assert!(parse_fea_feature_body_1("lookup l0 { sub by b; } l0;").is_err());
    assert!(parse_fea_feature_body_1("lookup l0 { sub a by ; } l0;").is_err());
    assert!(parse_fea_feature_body_1("lookup l0 { ignore sub ; } l0;").is_err());
    assert!(parse_fea_feature_body_1("lookup l0 { sub a by b; }").is_err());
    assert!(parse_fea_feature_body_1("sub a by b;").is_err());
    assert!(parse_fea_feature_body_1("lookup { sub a by b; } l0;").is_err());
    assert_eq!(parse_fea_feature_body_1("  \n "), Ok(mid::Feature { lookups: vec![] }));
    assert!(parse_fea_feature_body("lookup l0 { sub a by qq; } l0;").is_err());
    assert!(parse_fea_feature_body("lookup l0 { sub qq' by a; } l0;").is_err());
    assert!(parse_fea_feature_body("lookup l0 { sub @lc' by a; } l0;").is_err());
    assert!(parse_fea_feature_body("lookup l0 { sub @lc a' by a; } l0;").is_ok());
    assert_eq!(parse_key_elem("@lc"), Ok(KeyElem::AnyLetter));
    assert_eq!(parse_key_elem("syn4"), Ok(KeyElem::Glyph(AugGlyph::Synthetic(4))));
    assert_eq!(parse_key_elem("qq"), Err("Can't parse glyph name qq".to_owned()));
}

#[test]
fn the_first_name_that_stands_for_nothing_is_named() {
    let elem = |glyph: &str, prime: bool| mid::LHSElement { glyph: glyph.to_owned(), prime };
    let read = |lhs: Vec<mid::LHSElement>| parse_lhs(&lhs).map(|p| (p.pre_key, p.at_key, p.post_key));
    assert_eq!(
        read(vec![elem("a", false), elem("b", true), elem("@lc", false)]),
        Ok((vec![KeyElem::Glyph(r(A))], vec![r(B)], vec![KeyElem::AnyLetter]))
    );
    assert_eq!(
        read(vec![elem("a", false), elem("qq", true), elem("zz", false)]),
        Err("Can't parse glyph name qq".to_owned())
    );
    assert_eq!(
        read(vec![elem("xx", false), elem("qq", true)]),
        Err("Can't parse glyph name xx".to_owned())
    );
    assert_eq!(
        read(vec![elem("a", false), elem("@lc", true)]),
        Err("Can't parse glyph name @lc".to_owned())
    );
    assert_eq!(
        read(vec![elem("a", true), elem("b", false), elem("", true)]),
        Err("Can't parse glyph name ".to_owned())
    );
    assert_eq!(read(vec![]), Ok((vec![], vec![], vec![])));
}
