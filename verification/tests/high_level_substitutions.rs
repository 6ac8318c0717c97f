use feature_refining::glyphs::AugGlyph;
use feature_refining::glyphs::Glyph::{A, B, C, D, Dh, E, H, O, T, U};
use feature_refining::high_level_substitutions::{
    hl_to_ll, hl_to_ll_with_new, HLSubstitution, HLSubstitutionList,
};
use feature_refining::substitutions2 as s2;

#[test]
fn high_level_substitutions_test_1() {
    let hl_slist = HLSubstitutionList {
        substitutions: vec![HLSubstitution {
            key: vec![A, B],
            sub_start: 0,
            sub_end: 2,
            at_start: false,
            at_end: false,
            sub_content: vec![C, D],
        }],
    };
    let slist = hl_to_ll(&hl_slist).unwrap();
    assert_eq!(
        slist,
        s2::SubstitutionList {
            lookups: vec![
                s2::Lookup {
                    substitutions: vec![s2::Substitution {
                        pre_key: vec![],
                        at_key: vec![AugGlyph::Real(A), AugGlyph::Real(B)],
                        post_key: vec![],
                        sub_content: s2::SubContent::Sub(vec![AugGlyph::Synthetic(0)])
                    }]
                },
                s2::Lookup {
                    substitutions: vec![s2::Substitution {
                        pre_key: vec![],
                        at_key: vec![AugGlyph::Synthetic(0)],
                        post_key: vec![],
                        sub_content: s2::SubContent::Sub(vec![
                            AugGlyph::Real(C),
                            AugGlyph::Real(D)
                        ])
                    }]
                }
            ]
        }
    );
}

#[test]
fn high_level_substitutions_test_2() {
    let hl_slist = HLSubstitutionList {
        substitutions: vec![HLSubstitution {
            key: vec![A, B],
            sub_start: 0,
            sub_end: 2,
            at_start: true,
            at_end: true,
            sub_content: vec![C, D],
        }],
    };
    let slist = hl_to_ll(&hl_slist).unwrap();
    assert_eq!(
        slist,
        s2::SubstitutionList {
            lookups: vec![
                s2::Lookup {
                    substitutions: vec![
                        s2::Substitution {
                            pre_key: vec![s2::KeyElem::AnyLetter],
                            at_key: vec![AugGlyph::Real(A), AugGlyph::Real(B)],
                            post_key: vec![],
                            sub_content: s2::SubContent::Ignore
                        },
                        s2::Substitution {
                            pre_key: vec![],
                            at_key: vec![AugGlyph::Real(A), AugGlyph::Real(B)],
                            post_key: vec![s2::KeyElem::AnyLetter],
                            sub_content: s2::SubContent::Ignore
                        },
                        s2::Substitution {
                            pre_key: vec![],
                            at_key: vec![AugGlyph::Real(A), AugGlyph::Real(B)],
                            post_key: vec![],
                            sub_content: s2::SubContent::Sub(vec![AugGlyph::Synthetic(0)])
                        }
                    ]
                },
                s2::Lookup {
                    substitutions: vec![s2::Substitution {
                        pre_key: vec![],
                        at_key: vec![AugGlyph::Synthetic(0)],
                        post_key: vec![],
                        sub_content: s2::SubContent::Sub(vec![
                            AugGlyph::Real(C),
                            AugGlyph::Real(D)
                        ])
                    }]
                }
            ]
        }
    );
}

#[test]
fn test_hl_debug_grammar_1() {
    assert_eq!(
        HLSubstitution::from_debug_str("^[to]$\u{2192}tu").unwrap(),
        HLSubstitution {
            at_start: true,
            at_end: true,
            key: vec![T, O],
            sub_start: 0,
            sub_end: 2,
            sub_content: vec![T, U]
        }
    );
}

#[test]
fn test_hl_debug_grammar_2() {
    assert_eq!(
        HLSubstitutionList::from_debug_str("^[to]$\u{2192}tu, ^[th]e\u{2192}\u{3d1}").unwrap(),
        HLSubstitutionList {
            substitutions: vec![
                HLSubstitution {
                    at_start: true,
                    at_end: true,
                    key: vec![T, O],
                    sub_start: 0,
                    sub_end: 2,
                    sub_content: vec![T, U]
                },
                HLSubstitution {
                    at_start: true,
                    at_end: false,
                    key: vec![T, H, E],
                    sub_start: 0,
                    sub_end: 2,
                    sub_content: vec![Dh]
                },
            ]
        }
    );
}

#[test]
fn hl_debug_grammar_more() {
    assert_eq!(
        HLSubstitution::from_debug_str("a[b]c\u{2192}").unwrap(),
        HLSubstitution {
            at_start: false,
            at_end: false,
            key: vec![A, B, C],
            sub_start: 1,
            sub_end: 2,
            sub_content: vec![]
        }
    );
    assert!(HLSubstitution::from_debug_str("ab\u{2192}c").is_err());
    assert!(HLSubstitution::from_debug_str("[ab]c").is_err());
    assert!(HLSubstitution::from_debug_str("[a!]\u{2192}c").is_err());
    assert!(HLSubstitution::from_debug_str("]a[\u{2192}c").is_err());
    assert_eq!(
        HLSubstitutionList::from_debug_str("  \n ").unwrap(),
        HLSubstitutionList { substitutions: vec![] }
    );
    let by_lines = HLSubstitutionList::from_debug_str("[a]\u{2192}b\n [c]\u{2192}d ").unwrap();
    assert_eq!(by_lines.substitutions.len(), 2);
    assert_eq!(by_lines.substitutions[0].key, vec![C]);
    assert_eq!(by_lines.substitutions[1].key, vec![A]);
    assert!(HLSubstitutionList::from_debug_str("[a]\u{2192}b,").is_err());
}

#[test]
fn hl_to_ll_shares_placeholders_and_counts_new() {
    let rule = |key: Vec<_>, at_start: bool, content: Vec<_>| HLSubstitution {
        sub_start: 0,
        sub_end: key.len(),
        key,
        at_start,
        at_end: false,
        sub_content: content,
    };
    let list = HLSubstitutionList {
        substitutions: vec![
            rule(vec![A], true, vec![C]),
            rule(vec![B], false, vec![D]),
            rule(vec![E], false, vec![C]),
        ],
    };
    let (ll, new_count) = hl_to_ll_with_new(&list, 2).unwrap();
    assert_eq!(new_count, 3);
    assert_eq!(ll.lookups.len(), 3);
    assert_eq!(ll.lookups[0].substitutions.len(), 2);
    assert_eq!(ll.lookups[1].substitutions.len(), 2);
    assert_eq!(
        ll.lookups[1].substitutions[1].sub_content,
        s2::SubContent::Sub(vec![AugGlyph::Synthetic(0)])
    );
    assert_eq!(ll.lookups[2].substitutions.len(), 2);
    assert_eq!(ll.lookups[2].substitutions[1].at_key, vec![AugGlyph::Synthetic(1)]);
    assert_eq!(hl_to_ll(&list).unwrap(), ll);
    assert_eq!(hl_to_ll_with_new(&list, 0).unwrap().1, 0);
}

#[test]
fn hl_to_ll_runs_out_of_placeholders() {
    let mut substitutions = vec![];
    for i in 0..1001usize {
        let mut content = vec![];
        let mut n = i;
        for _ in 0..10 {
            content.push(if n % 2 == 0 { A } else { B });
            n /= 2;
        }
        substitutions.push(HLSubstitution {
            key: vec![C],
            sub_start: 0,
            sub_end: 1,
            at_start: false,
            at_end: false,
            sub_content: content,
        });
    }
    let full = HLSubstitutionList { substitutions };
    assert_eq!(hl_to_ll(&full), Err("Exceeded max number of syn glyphs 1000".to_owned()));
    let mut fits = full.clone();
    fits.substitutions.pop();
    assert!(hl_to_ll(&fits).is_ok());
}

#[test]
fn rules_as_text_and_back() {
    for text in [
        "[a]\u{2192}\u{e6}",
        "^[th]e\u{2192}\u{3d1}",
        "n[igh]t$\u{2192}i",
        "^[a]$\u{2192}",
        "a[b]c\u{2192}bb",
    ] {
        let rule = HLSubstitution::from_debug_str(text).unwrap();
        assert_eq!(rule.debug_text(), text);
        assert_eq!(HLSubstitution::from_debug_str(&rule.debug_text()).unwrap(), rule);
    }
    let empty = HLSubstitution {
        key: vec![A, B],
        sub_start: 1,
        sub_end: 1,
        at_start: false,
        at_end: false,
        sub_content: vec![C],
    };
    assert_eq!(empty.debug_text(), "a][b\u{2192}c");
}

#[test]
fn a_list_of_rules_as_text() {
    let list = HLSubstitutionList {
        substitutions: vec![
            HLSubstitution::from_debug_str("[a]\u{2192}\u{e6}").unwrap(),
            HLSubstitution::from_debug_str("^[th]e\u{2192}\u{3d1}").unwrap(),
        ],
    };
    assert_eq!(list.debug_text(), "[a]\u{2192}\u{e6}, ^[th]e\u{2192}\u{3d1}, ");
    assert_eq!(HLSubstitutionList { substitutions: vec![] }.debug_text(), "");
}
