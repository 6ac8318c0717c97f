use feature_refining::glyphs::Glyph::{O, U, X, Y, Z};
use feature_refining::substitutions::{Substitution, SubstitutionList, SubstitutionListItem};

#[test]
fn substitution_test_1() {
    let sub = Substitution { key: vec![Y, O, U], sub_start: 1, sub_end: 3, sub_content: X };
    let mut working = vec![Y, O, U];
    assert_eq!(sub.apply(&mut working, 0), false);
    assert_eq!(sub.apply(&mut working, 1), true);
    assert_eq!(working, vec![Y, X]);
}

#[test]
fn substitution_list_test_1() {
    let mut substitution_list = SubstitutionList { substitutions: vec![] };
    substitution_list.substitutions.push(SubstitutionListItem::Substitution(Substitution {
        key: vec![Y, O, U],
        sub_start: 0,
        sub_end: 1,
        sub_content: Z,
    }));
    substitution_list.substitutions.push(SubstitutionListItem::Barrier);
    substitution_list.substitutions.push(SubstitutionListItem::Substitution(Substitution {
        key: vec![Z, O, U],
        sub_start: 0,
        sub_end: 1,
        sub_content: X,
    }));
    let mut working = vec![Y, O, U];
    substitution_list.apply_all_pos(&mut working);
    assert_eq!(working, vec![X, O, U]);
}

#[test]
fn substitution_list_test_2() {
    let mut substitution_list = SubstitutionList { substitutions: vec![] };
    substitution_list.substitutions.push(SubstitutionListItem::Substitution(Substitution {
        key: vec![Y, O, U],
        sub_start: 0,
        sub_end: 1,
        sub_content: Z,
    }));
    substitution_list.substitutions.push(SubstitutionListItem::Substitution(Substitution {
        key: vec![Z, O, U],
        sub_start: 0,
        sub_end: 1,
        sub_content: X,
    }));
    let mut working = vec![Y, O, U];
    substitution_list.apply_all_pos(&mut working);
    assert_eq!(working, vec![Z, O, U]);
}

#[test]
fn substitution_list_test_3() {
    let mut substitution_list = SubstitutionList { substitutions: vec![] };
    substitution_list.substitutions.push(SubstitutionListItem::Substitution(Substitution {
        key: vec![Y, O, U],
        sub_start: 0,
        sub_end: 1,
        sub_content: Z,
    }));
    substitution_list.substitutions.push(SubstitutionListItem::Substitution(Substitution {
        key: vec![Z, O, U],
        sub_start: 2,
        sub_end: 3,
        sub_content: X,
    }));
    let mut working = vec![Y, O, U];
    substitution_list.apply_all_pos(&mut working);
    assert_eq!(working, vec![Z, O, X]);
}

#[test]
fn substitution_render() {
    let sub = Substitution { key: vec![Y, O, U], sub_start: 1, sub_end: 3, sub_content: X };
    assert_eq!(sub.render(), "sub y o' u' by x;");
    let list = SubstitutionList {
        substitutions: vec![
            SubstitutionListItem::Substitution(sub.clone()),
            SubstitutionListItem::Barrier,
            SubstitutionListItem::Substitution(sub),
        ],
    };
    assert_eq!(
        list.render(),
        "lookup l0 {\n  sub y o' u' by x;\n} lookup l0;\nlookup l1 {\n  sub y o' u' by x;\n} l1;\n"
    );
    let empty = SubstitutionList { substitutions: vec![] };
    assert_eq!(empty.render(), "lookup l0 {\n} l0;\n");
}

#[test]
fn substitution_at_the_end_of_the_word() {
    let sub = Substitution { key: vec![O, U], sub_start: 0, sub_end: 2, sub_content: X };
    let mut working = vec![Y, O, U];
    assert_eq!(sub.apply(&mut working, 2), false);
    assert_eq!(sub.apply(&mut working, 3), false);
    assert_eq!(sub.apply(&mut working, 1), true);
    assert_eq!(working, vec![Y, X]);
}
