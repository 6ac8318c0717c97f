//! The rules that apply in one word and would bring it closer to its
//! pronunciation.

use vstd::prelude::*;
use crate::consensus_finding::{
    apply_copied, lemma_hl_to_ll_wf, strict_list_wf, strict_wf, transformed,
};
use crate::edit_distance::{levenshtein, levenshtein_distance};
use crate::glyphs::{Glyph, augment, augment_spec, strip_aug, strip_aug_spec};
use crate::high_level_substitutions::{
    HLSubstitution, HLSubstitutionList, HLSubstitutionView, hl_to_ll_spec, hl_to_ll_with_new,
    hl_view, hl_wf,
};
use crate::seqs::{copy_range, copy_vec};
use crate::substitutions2::{apply_all_with_new, apply_all_with_new_spec};

verus! {

/// A rule that brings a word closer to its pronunciation, and by how much.
#[derive(Clone, Debug, PartialEq, Eq)]
pub struct SubWithImprovement {
    pub sub: HLSubstitution,
    pub improvement: u32,
}

/// Whether a glyph is a letter of the alphabet.
pub open spec fn is_letter_spec(g: Glyph) -> bool {
    g == Glyph::A || g == Glyph::B || g == Glyph::C || g == Glyph::D || g == Glyph::E || g
        == Glyph::F || g == Glyph::G || g == Glyph::H || g == Glyph::I || g == Glyph::J || g
        == Glyph::K || g == Glyph::L || g == Glyph::M || g == Glyph::N || g == Glyph::O || g
        == Glyph::P || g == Glyph::Q || g == Glyph::R || g == Glyph::S || g == Glyph::T || g
        == Glyph::U || g == Glyph::V || g == Glyph::W || g == Glyph::X || g == Glyph::Y || g
        == Glyph::Z
}

/// Whether a glyph is a letter of the alphabet.
pub fn is_letter(g: &Glyph) -> (res: bool)
    ensures
        res == is_letter_spec(*g),
{
    match g {
        Glyph::A | Glyph::B | Glyph::C | Glyph::D | Glyph::E | Glyph::F | Glyph::G | Glyph::H
        | Glyph::I | Glyph::J | Glyph::K | Glyph::L | Glyph::M | Glyph::N | Glyph::O | Glyph::P
        | Glyph::Q | Glyph::R | Glyph::S | Glyph::T | Glyph::U | Glyph::V | Glyph::W | Glyph::X
        | Glyph::Y | Glyph::Z => true,
        _ => false,
    }
}

/// What a list of rules makes of a word where one of its first
/// `new_amount` rules applies; nothing where none of them does, or where
/// the list cannot be written as substitutions.
pub open spec fn transformed_with_new(
    v: Seq<Glyph>,
    list: Seq<HLSubstitutionView>,
    new_amount: int,
) -> Option<Seq<Glyph>> {
    match hl_to_ll_spec(list, new_amount) {
        Some(r) => {
            let applied = apply_all_with_new_spec(augment_spec(v), r.0, r.1);
            if applied.1 {
                Some(strip_aug_spec(applied.0))
            } else {
                None
            }
        },
        None => None,
    }
}

/// What a list of rules makes of a word where one of its first
/// `new_amount` rules applies.
pub fn apply_copied_with_new(v: &Vec<Glyph>, hl_slist: &HLSubstitutionList, new_amount: usize) -> (res:
    Option<Vec<Glyph>>)
    requires
        strict_list_wf(hl_slist@),
        hl_slist@.len() * 3 <= usize::MAX,
        hl_to_ll_spec(hl_slist@, new_amount as int) is Some,
    ensures
        match res {
            Some(t) => transformed_with_new(v@, hl_slist@, new_amount as int) == Some(t@),
            None => transformed_with_new(v@, hl_slist@, new_amount as int) is None,
        },
{
    proof {
        lemma_hl_to_ll_wf(hl_slist@, new_amount as int);
        assert forall|i: int| 0 <= i < hl_slist@.len() implies hl_wf(#[trigger] hl_slist@[i]) by {
            assert(strict_wf(hl_slist@[i]));
        }
    }
    match hl_to_ll_with_new(hl_slist, new_amount) {
        Ok((slist, new_amount)) => {
            let mut working = augment(v);
            if apply_all_with_new(&mut working, &slist, new_amount) {
                Some(strip_aug(&working))
            } else {
                None
            }
        },
        Err(_) => None,
    }
}

/// How far `spelling` is from `pronunciation` under the rule `sub` put
/// before the rules `init_hl_slist`; nothing where `sub` applies nowhere.
pub fn new_distance_if_new(
    spelling: &Vec<Glyph>,
    pronunciation: &Vec<Glyph>,
    init_hl_slist: &HLSubstitutionList,
    sub: &HLSubstitution,
) -> (res: Option<usize>)
    requires
        strict_list_wf(init_hl_slist@),
        strict_wf(sub@),
        (init_hl_slist@.len() + 1) * 3 <= usize::MAX,
        hl_to_ll_spec(seq![sub@] + init_hl_slist@, 1) is Some,
    ensures
        match res {
            Some(d) => new_distance_spec(spelling@, pronunciation@, init_hl_slist@, sub@) == Some(
                d as nat,
            ),
            None => new_distance_spec(spelling@, pronunciation@, init_hl_slist@, sub@) is None,
        },
{
    let working_hl_slist = with_first(copy_rule(sub), init_hl_slist);
    proof {
        assert forall|i: int| 0 <= i < working_hl_slist@.len() implies strict_wf(
            #[trigger] working_hl_slist@[i],
        ) by {
            if i > 0 {
                assert(working_hl_slist@[i] == init_hl_slist@[i - 1]);
            }
        }
    }
    match apply_copied_with_new(spelling, &working_hl_slist, 1) {
        Some(new_transformed) => Some(
            levenshtein_distance(&augment(&new_transformed), &augment(pronunciation)),
        ),
        None => None,
    }
}

/// How far a word is from a pronunciation under a list of rules.
pub open spec fn distance_under(
    word: Seq<Glyph>,
    pronunciation: Seq<Glyph>,
    list: Seq<HLSubstitutionView>,
) -> nat {
    levenshtein(augment_spec(transformed(word, list)), augment_spec(pronunciation))
}

/// The rule that makes the glyphs of `word` from `k1 + s1` up to `k1 + s2`
/// give way to the glyphs of `pronunciation` from `sc1` up to `sc2`, where
/// the glyphs of `word` from `k1` up to `k2` stand.
pub open spec fn candidate(
    word: Seq<Glyph>,
    pronunciation: Seq<Glyph>,
    k1: int,
    k2: int,
    s1: int,
    s2: int,
    sc1: int,
    sc2: int,
    at_start: bool,
    at_end: bool,
) -> HLSubstitutionView {
    HLSubstitutionView {
        key: word.subrange(k1, k2),
        sub_start: s1,
        sub_end: s2,
        at_start,
        at_end,
        sub_content: pronunciation.subrange(sc1, sc2),
    }
}

/// How far `word` is from `pronunciation` under the rule `c` put before
/// the rules `init`; nothing where `c` applies nowhere in the word.
pub open spec fn new_distance_spec(
    word: Seq<Glyph>,
    pronunciation: Seq<Glyph>,
    init: Seq<HLSubstitutionView>,
    c: HLSubstitutionView,
) -> Option<nat> {
    match transformed_with_new(word, seq![c] + init, 1) {
        Some(t) => Some(levenshtein(augment_spec(t), augment_spec(pronunciation))),
        None => None,
    }
}

/// By how much the rule `c`, put before the rules `init`, brings `word`
/// closer to `pronunciation`, where it applies and does.
pub open spec fn gain(
    word: Seq<Glyph>,
    pronunciation: Seq<Glyph>,
    init: Seq<HLSubstitutionView>,
    c: HLSubstitutionView,
) -> Option<u32> {
    let base = distance_under(word, pronunciation, init);
    match new_distance_spec(word, pronunciation, init, c) {
        Some(with) => if with < base {
            Some((base - with) as u32)
        } else {
            None
        },
        None => None,
    }
}

/// The findings `acc` with the rule `c` behind them, where it brings the
/// word closer.
pub open spec fn tried(
    acc: Seq<(HLSubstitutionView, u32)>,
    word: Seq<Glyph>,
    pronunciation: Seq<Glyph>,
    init: Seq<HLSubstitutionView>,
    c: HLSubstitutionView,
) -> Seq<(HLSubstitutionView, u32)> {
    match gain(word, pronunciation, init, c) {
        Some(g) => acc.push((c, g)),
        None => acc,
    }
}

/// Whether a key that begins at `k1` may be bound to the start of the
/// word: it begins the word, or no letter of the alphabet stands before it.
pub open spec fn can_be_at_start(word: Seq<Glyph>, k1: int) -> bool {
    k1 == 0 || !is_letter_spec(word[k1 - 1])
}

/// Whether a key that ends at `k2` may be bound to the end of the word: it
/// ends the word, or no letter of the alphabet stands behind it.
pub open spec fn can_be_at_end(word: Seq<Glyph>, k2: int) -> bool {
    k2 == word.len() || !is_letter_spec(word[k2])
}

/// The findings for one key, one stretch and one content: the rule is
/// tried bound to the start and to the end of the word where it may be,
/// the bound ones first.
pub open spec fn ends(
    acc: Seq<(HLSubstitutionView, u32)>,
    word: Seq<Glyph>,
    pronunciation: Seq<Glyph>,
    init: Seq<HLSubstitutionView>,
    k1: int,
    k2: int,
    s1: int,
    s2: int,
    sc1: int,
    sc2: int,
) -> Seq<(HLSubstitutionView, u32)> {
    let first = can_be_at_start(word, k1);
    let last = can_be_at_end(word, k2);
    let a1 = if first && last {
        tried(acc, word, pronunciation, init, candidate(word, pronunciation, k1, k2, s1, s2, sc1, sc2, true, true))
    } else {
        acc
    };
    let a2 = if first {
        tried(a1, word, pronunciation, init, candidate(word, pronunciation, k1, k2, s1, s2, sc1, sc2, true, false))
    } else {
        a1
    };
    let a3 = if last {
        tried(a2, word, pronunciation, init, candidate(word, pronunciation, k1, k2, s1, s2, sc1, sc2, false, true))
    } else {
        a2
    };
    tried(a3, word, pronunciation, init, candidate(word, pronunciation, k1, k2, s1, s2, sc1, sc2, false, false))
}

/// The findings for the contents that begin at `sc1` and end at `sc2` or
/// behind it.
pub open spec fn content_ends_from(
    acc: Seq<(HLSubstitutionView, u32)>,
    word: Seq<Glyph>,
    pronunciation: Seq<Glyph>,
    init: Seq<HLSubstitutionView>,
    k1: int,
    k2: int,
    s1: int,
    s2: int,
    sc1: int,
    sc2: int,
) -> Seq<(HLSubstitutionView, u32)>
    decreases pronunciation.len() + 1 - sc2,
{
    if sc2 > pronunciation.len() {
        acc
    } else {
        content_ends_from(
            ends(acc, word, pronunciation, init, k1, k2, s1, s2, sc1, sc2),
            word,
            pronunciation,
            init,
            k1,
            k2,
            s1,
            s2,
            sc1,
            sc2 + 1,
        )
    }
}

/// The findings for the contents that begin at `sc1` or behind it.
pub open spec fn content_starts_from(
    acc: Seq<(HLSubstitutionView, u32)>,
    word: Seq<Glyph>,
    pronunciation: Seq<Glyph>,
    init: Seq<HLSubstitutionView>,
    k1: int,
    k2: int,
    s1: int,
    s2: int,
    sc1: int,
) -> Seq<(HLSubstitutionView, u32)>
    decreases pronunciation.len() - sc1,
{
    if sc1 >= pronunciation.len() {
        acc
    } else {
        content_starts_from(
            content_ends_from(acc, word, pronunciation, init, k1, k2, s1, s2, sc1, sc1 + 1),
            word,
            pronunciation,
            init,
            k1,
            k2,
            s1,
            s2,
            sc1 + 1,
        )
    }
}

/// The findings for the stretches that begin at `s1` and end at `s2` or
/// behind it.
pub open spec fn stretch_ends_from(
    acc: Seq<(HLSubstitutionView, u32)>,
    word: Seq<Glyph>,
    pronunciation: Seq<Glyph>,
    init: Seq<HLSubstitutionView>,
    k1: int,
    k2: int,
    s1: int,
    s2: int,
) -> Seq<(HLSubstitutionView, u32)>
    decreases k2 - k1 + 1 - s2,
{
    if s2 > k2 - k1 {
        acc
    } else {
        stretch_ends_from(
            content_starts_from(acc, word, pronunciation, init, k1, k2, s1, s2, 0),
            word,
            pronunciation,
            init,
            k1,
            k2,
            s1,
            s2 + 1,
        )
    }
}

/// The findings for the stretches that begin at `s1` or behind it.
pub open spec fn stretch_starts_from(
    acc: Seq<(HLSubstitutionView, u32)>,
    word: Seq<Glyph>,
    pronunciation: Seq<Glyph>,
    init: Seq<HLSubstitutionView>,
    k1: int,
    k2: int,
    s1: int,
) -> Seq<(HLSubstitutionView, u32)>
    decreases k2 - k1 - s1,
{
    if s1 >= k2 - k1 {
        acc
    } else {
        stretch_starts_from(
            stretch_ends_from(acc, word, pronunciation, init, k1, k2, s1, s1 + 1),
            word,
            pronunciation,
            init,
            k1,
            k2,
            s1 + 1,
        )
    }
}

/// The findings for the keys that begin at `k1` and end at `k2` or behind
/// it.
pub open spec fn key_ends_from(
    acc: Seq<(HLSubstitutionView, u32)>,
    word: Seq<Glyph>,
    pronunciation: Seq<Glyph>,
    init: Seq<HLSubstitutionView>,
    k1: int,
    k2: int,
) -> Seq<(HLSubstitutionView, u32)>
    decreases word.len() + 1 - k2,
{
    if k2 > word.len() {
        acc
    } else {
        key_ends_from(
            stretch_starts_from(acc, word, pronunciation, init, k1, k2, 0),
            word,
            pronunciation,
            init,
            k1,
            k2 + 1,
        )
    }
}

/// The findings for the keys that begin at `k1` or behind it.
pub open spec fn key_starts_from(
    acc: Seq<(HLSubstitutionView, u32)>,
    word: Seq<Glyph>,
    pronunciation: Seq<Glyph>,
    init: Seq<HLSubstitutionView>,
    k1: int,
) -> Seq<(HLSubstitutionView, u32)>
    decreases word.len() - k1,
{
    if k1 >= word.len() {
        acc
    } else {
        key_starts_from(
            key_ends_from(acc, word, pronunciation, init, k1, k1 + 1),
            word,
            pronunciation,
            init,
            k1 + 1,
        )
    }
}

/// Every rule that applies in `word` and brings it closer to
/// `pronunciation` when it is put before the rules `init`, with what it
/// gains: each stretch of each stretch of the word as key and what gives
/// way, each stretch of the pronunciation as content, the shorter and
/// earlier ones first.
pub open spec fn improving_edits_spec(
    word: Seq<Glyph>,
    pronunciation: Seq<Glyph>,
    init: Seq<HLSubstitutionView>,
) -> Seq<(HLSubstitutionView, u32)> {
    key_starts_from(Seq::empty(), word, pronunciation, init, 0)
}

/// Whether every rule that is tried for `word` and `pronunciation` can be
/// written as substitutions together with the rules `init`.
pub open spec fn can_try_all(
    word: Seq<Glyph>,
    pronunciation: Seq<Glyph>,
    init: Seq<HLSubstitutionView>,
) -> bool {
    &&& hl_to_ll_spec(init, 0) is Some
    &&& (init.len() + 1) * 3 <= usize::MAX
    &&& forall|k1: int, k2: int, s1: int, s2: int, sc1: int, sc2: int, at_start: bool, at_end: bool|
        0 <= k1 < k2 <= word.len() && 0 <= s1 < s2 <= k2 - k1 && 0 <= sc1 < sc2
            <= pronunciation.len() ==> hl_to_ll_spec(
            seq![
                #[trigger] candidate(word, pronunciation, k1, k2, s1, s2, sc1, sc2, at_start, at_end),
            ] + init,
            1,
        ) is Some
}

/// The values of a run of findings.
pub open spec fn findings_view(res: Seq<SubWithImprovement>) -> Seq<(HLSubstitutionView, u32)> {
    res.map_values(|f: SubWithImprovement| (f.sub@, f.improvement))
}

fn copy_rule(s: &HLSubstitution) -> (res: HLSubstitution)
    ensures
        res@ == s@,
{
    HLSubstitution {
        key: copy_vec(&s.key),
        sub_start: s.sub_start,
        sub_end: s.sub_end,
        at_start: s.at_start,
        at_end: s.at_end,
        sub_content: copy_vec(&s.sub_content),
    }
}

fn with_first(first: HLSubstitution, init: &HLSubstitutionList) -> (res: HLSubstitutionList)
    ensures
        res@ == seq![first@] + init@,
{
    let ghost fv = first@;
    let mut substitutions: Vec<HLSubstitution> = Vec::new();
    substitutions.push(first);
    let mut i: usize = 0;
    assert(hl_view(substitutions@) =~= seq![fv] + init@.take(0));
    while i < init.substitutions.len()
        invariant
            i <= init.substitutions.len(),
            hl_view(substitutions@) == seq![fv] + init@.take(i as int),
        decreases init.substitutions.len() - i,
    {
        let ghost before = hl_view(substitutions@);
        let copy = copy_rule(&init.substitutions[i]);
        assert(copy@ == init@[i as int]);
        substitutions.push(copy);
        assert(hl_view(substitutions@) =~= before.push(init@[i as int]));
        assert(hl_view(substitutions@) =~= seq![fv] + init@.take(i + 1));
        i += 1;
    }
    assert(init@.take(init.substitutions.len() as int) =~= init@);
    HLSubstitutionList { substitutions }
}

fn try_one(
    res: &mut Vec<SubWithImprovement>,
    word: &Vec<Glyph>,
    pronunciation: &Vec<Glyph>,
    init_hl_slist: &HLSubstitutionList,
    base_distance: usize,
    k1: usize,
    k2: usize,
    s1: usize,
    s2: usize,
    sc1: usize,
    sc2: usize,
    at_start: bool,
    at_end: bool,
)
    requires
        strict_list_wf(init_hl_slist@),
        can_try_all(word@, pronunciation@, init_hl_slist@),
        base_distance == distance_under(word@, pronunciation@, init_hl_slist@),
        base_distance <= u32::MAX,
        k1 < k2 <= word.len(),
        s1 < s2 <= k2 - k1,
        sc1 < sc2 <= pronunciation.len(),
    ensures
        findings_view(final(res)@) == tried(
            findings_view(old(res)@),
            word@,
            pronunciation@,
            init_hl_slist@,
            candidate(
                word@,
                pronunciation@,
                k1 as int,
                k2 as int,
                s1 as int,
                s2 as int,
                sc1 as int,
                sc2 as int,
                at_start,
                at_end,
            ),
        ),
{
    let hlsub = HLSubstitution {
        key: copy_range(word, k1, k2),
        sub_start: s1,
        sub_end: s2,
        at_start,
        at_end,
        sub_content: copy_range(pronunciation, sc1, sc2),
    };
    let ghost c = hlsub@;
    let kept = copy_rule(&hlsub);
    let working_hl_slist = with_first(hlsub, init_hl_slist);
    proof {
        assert(c == candidate(
            word@,
            pronunciation@,
            k1 as int,
            k2 as int,
            s1 as int,
            s2 as int,
            sc1 as int,
            sc2 as int,
            at_start,
            at_end,
        ));
        assert(strict_wf(c));
        assert forall|i: int| 0 <= i < working_hl_slist@.len() implies strict_wf(
            #[trigger] working_hl_slist@[i],
        ) by {
            if i > 0 {
                assert(working_hl_slist@[i] == init_hl_slist@[i - 1]);
            }
        }
    }
    match apply_copied_with_new(word, &working_hl_slist, 1) {
        Some(new_transformed) => {
            let new_distance = levenshtein_distance(
                &augment(&new_transformed),
                &augment(pronunciation),
            );
            if new_distance < base_distance {
                let ghost before = findings_view(res@);
                let improvement = (base_distance - new_distance) as u32;
                res.push(SubWithImprovement { sub: kept, improvement });
                assert(findings_view(res@) =~= before.push((c, improvement)));
            }
        },
        None => {},
    }
}

fn try_ends(
    res: &mut Vec<SubWithImprovement>,
    word: &Vec<Glyph>,
    pronunciation: &Vec<Glyph>,
    init_hl_slist: &HLSubstitutionList,
    base_distance: usize,
    k1: usize,
    k2: usize,
    s1: usize,
    s2: usize,
    sc1: usize,
    sc2: usize,
)
    requires
        strict_list_wf(init_hl_slist@),
        can_try_all(word@, pronunciation@, init_hl_slist@),
        base_distance == distance_under(word@, pronunciation@, init_hl_slist@),
        base_distance <= u32::MAX,
        k1 < k2 <= word.len(),
        s1 < s2 <= k2 - k1,
        sc1 < sc2 <= pronunciation.len(),
    ensures
        findings_view(final(res)@) == ends(
            findings_view(old(res)@),
            word@,
            pronunciation@,
            init_hl_slist@,
            k1 as int,
            k2 as int,
            s1 as int,
            s2 as int,
            sc1 as int,
            sc2 as int,
        ),
{
    let first = k1 == 0 || !is_letter(&word[k1 - 1]);
    let last = k2 == word.len() || !is_letter(&word[k2]);
    if first && last {
        try_one(res, word, pronunciation, init_hl_slist, base_distance, k1, k2, s1, s2, sc1, sc2, true, true);
    }
    if first {
        try_one(res, word, pronunciation, init_hl_slist, base_distance, k1, k2, s1, s2, sc1, sc2, true, false);
    }
    if last {
        try_one(res, word, pronunciation, init_hl_slist, base_distance, k1, k2, s1, s2, sc1, sc2, false, true);
    }
    try_one(res, word, pronunciation, init_hl_slist, base_distance, k1, k2, s1, s2, sc1, sc2, false, false);
}

fn try_contents(
    res: &mut Vec<SubWithImprovement>,
    word: &Vec<Glyph>,
    pronunciation: &Vec<Glyph>,
    init_hl_slist: &HLSubstitutionList,
    base_distance: usize,
    k1: usize,
    k2: usize,
    s1: usize,
    s2: usize,
)
    requires
        strict_list_wf(init_hl_slist@),
        can_try_all(word@, pronunciation@, init_hl_slist@),
        base_distance == distance_under(word@, pronunciation@, init_hl_slist@),
        base_distance <= u32::MAX,
        k1 < k2 <= word.len(),
        s1 < s2 <= k2 - k1,
    ensures
        findings_view(final(res)@) == content_starts_from(
            findings_view(old(res)@),
            word@,
            pronunciation@,
            init_hl_slist@,
            k1 as int,
            k2 as int,
            s1 as int,
            s2 as int,
            0,
        ),
{
    let m = pronunciation.len();
    let ghost goal = content_starts_from(
        findings_view(res@),
        word@,
        pronunciation@,
        init_hl_slist@,
        k1 as int,
        k2 as int,
        s1 as int,
        s2 as int,
        0,
    );
    let mut sc1: usize = 0;
    while sc1 < m
        invariant
            m == pronunciation.len(),
            strict_list_wf(init_hl_slist@),
            can_try_all(word@, pronunciation@, init_hl_slist@),
            base_distance == distance_under(word@, pronunciation@, init_hl_slist@),
            base_distance <= u32::MAX,
            k1 < k2 <= word.len(),
            s1 < s2 <= k2 - k1,
            sc1 <= m,
            content_starts_from(
                findings_view(res@),
                word@,
                pronunciation@,
                init_hl_slist@,
                k1 as int,
                k2 as int,
                s1 as int,
                s2 as int,
                sc1 as int,
            ) == goal,
        decreases m - sc1,
    {
        let ghost inner = content_ends_from(
            findings_view(res@),
            word@,
            pronunciation@,
            init_hl_slist@,
            k1 as int,
            k2 as int,
            s1 as int,
            s2 as int,
            sc1 as int,
            sc1 + 1,
        );
        let mut sc2: usize = sc1;
        while sc2 < m
            invariant
                m == pronunciation.len(),
                strict_list_wf(init_hl_slist@),
                can_try_all(word@, pronunciation@, init_hl_slist@),
                base_distance == distance_under(word@, pronunciation@, init_hl_slist@),
                base_distance <= u32::MAX,
                k1 < k2 <= word.len(),
                s1 < s2 <= k2 - k1,
                sc1 <= sc2 <= m,
                content_ends_from(
                    findings_view(res@),
                    word@,
                    pronunciation@,
                    init_hl_slist@,
                    k1 as int,
                    k2 as int,
                    s1 as int,
                    s2 as int,
                    sc1 as int,
                    sc2 + 1,
                ) == inner,
            decreases m - sc2,
        {
            sc2 += 1;
            try_ends(res, word, pronunciation, init_hl_slist, base_distance, k1, k2, s1, s2, sc1, sc2);
        }
        sc1 += 1;
    }
}

fn try_stretches(
    res: &mut Vec<SubWithImprovement>,
    word: &Vec<Glyph>,
    pronunciation: &Vec<Glyph>,
    init_hl_slist: &HLSubstitutionList,
    base_distance: usize,
    k1: usize,
    k2: usize,
)
    requires
        strict_list_wf(init_hl_slist@),
        can_try_all(word@, pronunciation@, init_hl_slist@),
        base_distance == distance_under(word@, pronunciation@, init_hl_slist@),
        base_distance <= u32::MAX,
        k1 < k2 <= word.len(),
    ensures
        findings_view(final(res)@) == stretch_starts_from(
            findings_view(old(res)@),
            word@,
            pronunciation@,
            init_hl_slist@,
            k1 as int,
            k2 as int,
            0,
        ),
{
    let key_size = k2 - k1;
    let ghost goal = stretch_starts_from(
        findings_view(res@),
        word@,
        pronunciation@,
        init_hl_slist@,
        k1 as int,
        k2 as int,
        0,
    );
    let mut s1: usize = 0;
    while s1 < key_size
        invariant
            key_size == k2 - k1,
            strict_list_wf(init_hl_slist@),
            can_try_all(word@, pronunciation@, init_hl_slist@),
            base_distance == distance_under(word@, pronunciation@, init_hl_slist@),
            base_distance <= u32::MAX,
            k1 < k2 <= word.len(),
            s1 <= key_size,
            stretch_starts_from(
                findings_view(res@),
                word@,
                pronunciation@,
                init_hl_slist@,
                k1 as int,
                k2 as int,
                s1 as int,
            ) == goal,
        decreases key_size - s1,
    {
        let ghost inner = stretch_ends_from(
            findings_view(res@),
            word@,
            pronunciation@,
            init_hl_slist@,
            k1 as int,
            k2 as int,
            s1 as int,
            s1 + 1,
        );
        let mut s2: usize = s1;
        while s2 < key_size
            invariant
                key_size == k2 - k1,
                strict_list_wf(init_hl_slist@),
                can_try_all(word@, pronunciation@, init_hl_slist@),
                base_distance == distance_under(word@, pronunciation@, init_hl_slist@),
                base_distance <= u32::MAX,
                k1 < k2 <= word.len(),
                s1 <= s2 <= key_size,
                stretch_ends_from(
                    findings_view(res@),
                    word@,
                    pronunciation@,
                    init_hl_slist@,
                    k1 as int,
                    k2 as int,
                    s1 as int,
                    s2 + 1,
                ) == inner,
            decreases key_size - s2,
        {
            s2 += 1;
            try_contents(res, word, pronunciation, init_hl_slist, base_distance, k1, k2, s1, s2);
        }
        s1 += 1;
    }
}

/// Finds every rule that applies in `word` and brings it closer to
/// `pronunciation` when it is put before the rules `init_hl_slist`, and
/// what each gains.
pub fn find_improving_edits(
    word: &Vec<Glyph>,
    pronunciation: &Vec<Glyph>,
    init_hl_slist: &HLSubstitutionList,
) -> (res: Vec<SubWithImprovement>)
    requires
        strict_list_wf(init_hl_slist@),
        can_try_all(word@, pronunciation@, init_hl_slist@),
        distance_under(word@, pronunciation@, init_hl_slist@) <= u32::MAX,
    ensures
        findings_view(res@) == improving_edits_spec(word@, pronunciation@, init_hl_slist@),
{
    let mut res: Vec<SubWithImprovement> = Vec::new();
    let base_transformed = apply_copied(word, init_hl_slist);
    let base_distance = levenshtein_distance(&augment(&base_transformed), &augment(pronunciation));
    let n = word.len();
    assert(findings_view(res@) =~= Seq::<(HLSubstitutionView, u32)>::empty());
    let mut k1: usize = 0;
    while k1 < n
        invariant
            n == word.len(),
            strict_list_wf(init_hl_slist@),
            can_try_all(word@, pronunciation@, init_hl_slist@),
            base_distance == distance_under(word@, pronunciation@, init_hl_slist@),
            base_distance <= u32::MAX,
            k1 <= n,
            key_starts_from(
                findings_view(res@),
                word@,
                pronunciation@,
                init_hl_slist@,
                k1 as int,
            ) == improving_edits_spec(word@, pronunciation@, init_hl_slist@),
        decreases n - k1,
    {
        let ghost inner = key_ends_from(
            findings_view(res@),
            word@,
            pronunciation@,
            init_hl_slist@,
            k1 as int,
            k1 + 1,
        );
        let mut k2: usize = k1;
        while k2 < n
            invariant
                n == word.len(),
                strict_list_wf(init_hl_slist@),
                can_try_all(word@, pronunciation@, init_hl_slist@),
                base_distance == distance_under(word@, pronunciation@, init_hl_slist@),
                base_distance <= u32::MAX,
                k1 <= k2 <= n,
                key_ends_from(
                    findings_view(res@),
                    word@,
                    pronunciation@,
                    init_hl_slist@,
                    k1 as int,
                    k2 + 1,
                ) == inner,
            decreases n - k2,
        {
            k2 += 1;
            try_stretches(&mut res, word, pronunciation, init_hl_slist, base_distance, k1, k2);
        }
        k1 += 1;
    }
    res
}


} // verus!
