use feature_refining::astarlike2::SubWithImprovement;
use feature_refining::glyphs::aug_decode;
use feature_refining::high_level_substitutions2::HLSubstitution;
use feature_refining::numbering::{copy_rule, number_findings, same_glyphs, same_rule, Numbering};

fn rule(text: &str) -> HLSubstitution {
    HLSubstitution::decode(text).unwrap()
}

fn finding(text: &str, improvement: u32) -> SubWithImprovement {
    SubWithImprovement { sub: rule(text), improvement }
}

#[test]
fn the_same_and_not_the_same() {
    assert!(same_glyphs(&aug_decode("k{3}t"), &aug_decode("k{3}t")));
    assert!(!same_glyphs(&aug_decode("k{3}t"), &aug_decode("k{4}t")));
    assert!(!same_glyphs(&aug_decode("kat"), &aug_decode("ka")));
    assert!(same_glyphs(&aug_decode(""), &aug_decode("")));
    let a = rule("^k[a]t\u{2192}0\u{2192}\u{e6}");
    assert!(same_rule(&a, &copy_rule(&a)));
    assert_eq!(copy_rule(&a), a);
    for other in [
        "k[a]t\u{2192}0\u{2192}\u{e6}",
        "^k[a]t$\u{2192}0\u{2192}\u{e6}",
        "^[a]t\u{2192}0\u{2192}\u{e6}",
        "^k[at]\u{2192}0\u{2192}\u{e6}",
        "^k[a]\u{2192}0\u{2192}\u{e6}",
        "^k[a]t\u{2192}1\u{2192}\u{e6}",
        "^k[a]t\u{2192}0\u{2192}a",
    ] {
        let b = rule(other);
        assert!(!same_rule(&a, &b), "{}", other);
        assert_eq!(same_rule(&a, &b), a == b);
    }
}

#[test]
fn a_rule_keeps_its_number() {
    let a = rule("[a]\u{2192}0\u{2192}\u{e6}");
    let b = rule("[s]\u{2192}0\u{2192}z");
    let mut numbering = Numbering::new();
    assert_eq!(numbering.len(), 0);
    assert_eq!(numbering.find(&a), None);
    assert_eq!(numbering.rule(0), None);
    assert_eq!(numbering.number_of(&a), 0);
    assert_eq!(numbering.number_of(&b), 1);
    assert_eq!(numbering.number_of(&a), 0);
    assert_eq!(numbering.number_of(&b), 1);
    assert_eq!(numbering.len(), 2);
    assert_eq!(numbering.find(&b), Some(1));
    assert_eq!(numbering.rule(0), Some(a));
    assert_eq!(numbering.rule(1), Some(b));
    assert_eq!(numbering.rule(2), None);
}

#[test]
fn findings_as_the_search_is_told_of_them() {
    let mut numbering = Numbering::new();
    let first = number_findings(
        &mut numbering,
        &vec![
            finding("[a]\u{2192}0\u{2192}\u{e6}", 1),
            finding("^k[a]t$\u{2192}0\u{2192}\u{e6}", 2),
            finding("[a]\u{2192}0\u{2192}\u{e6}", 3),
        ],
    );
    assert_eq!(first.iter().map(|c| c.sub).collect::<Vec<_>>(), vec![0, 1, 0]);
    assert_eq!(first.iter().map(|c| c.improvement).collect::<Vec<_>>(), vec![1, 2, 3]);
    assert_eq!(first.iter().map(|c| c.size_cost).collect::<Vec<_>>(), vec![1, 5, 1]);
    let second = number_findings(
        &mut numbering,
        &vec![
            finding("[s]\u{2192}0\u{2192}z", 1),
            finding("^k[a]t$\u{2192}0\u{2192}\u{e6}", 1),
        ],
    );
    assert_eq!(second.iter().map(|c| c.sub).collect::<Vec<_>>(), vec![2, 1]);
    assert_eq!(numbering.len(), 3);
    assert_eq!(numbering.rule(2), Some(rule("[s]\u{2192}0\u{2192}z")));
    assert!(number_findings(&mut numbering, &Vec::new()).is_empty());
    assert_eq!(numbering.len(), 3);
}
