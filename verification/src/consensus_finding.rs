//! The rules that would bring one word closer to its pronunciation.

use vstd::prelude::*;
use crate::edit_distance::{levenshtein, levenshtein_distance};
use crate::glyphs::{Glyph, augment, augment_spec, strip_aug, strip_aug_spec};
use crate::high_level_substitutions::{
    HLSubstitution, HLSubstitutionList, HLSubstitutionView, Lowering, hl_to_ll, hl_to_ll_spec,
    hl_view, hl_wf, index_in, lemma_index_in_bounds, lower_from, lower_step, rule_subs,
    table_lookup,
};
use crate::high_level_substitutions2::flush_group;
use crate::seqs::{copy_range, copy_vec};
use crate::substitutions2::{
    apply_all, apply_all_spec, list_wf, lookup_wf, sub_wf,
};

verus! {

/// Whether a rule is well formed and makes something give way.
pub open spec fn strict_wf(s: HLSubstitutionView) -> bool {
    hl_wf(s) && s.sub_start < s.sub_end
}

/// Whether each rule of a list is well formed and makes something give
/// way.
pub open spec fn strict_list_wf(subs: Seq<HLSubstitutionView>) -> bool {
    forall|i: int| 0 <= i < subs.len() ==> strict_wf(#[trigger] subs[i])
}

/// What a list of rules makes of a word: the list is written as lookups of
/// substitutions, these are applied, and the real glyphs of the result are
/// the word. A list that cannot be written as substitutions leaves the
/// word as it is.
pub open spec fn transformed(v: Seq<Glyph>, list: Seq<HLSubstitutionView>) -> Seq<Glyph> {
    match hl_to_ll_spec(list, 0) {
        Some(r) => strip_aug_spec(apply_all_spec(augment_spec(v), r.0)),
        None => v,
    }
}

/// The substitutions that a rule is written as have something to match.
proof fn lemma_rule_subs_wf(s: HLSubstitutionView, k: u32)
    requires
        strict_wf(s),
    ensures
        lookup_wf(rule_subs(s, k)),
{
    let subs = rule_subs(s, k);
    assert forall|i: int| 0 <= i < subs.len() implies sub_wf(#[trigger] subs[i]) by {
        assert(augment_spec(s.key).subrange(s.sub_start, s.sub_end).len() > 0);
    }
}

/// Writing rules that make something give way as substitutions gives
/// substitutions that have something to match.
proof fn lemma_lower_wf(subs: Seq<HLSubstitutionView>, i: int, st: Lowering, new_amount: int)
    requires
        0 <= i,
        strict_list_wf(subs),
        list_wf(st.lookups),
        lookup_wf(st.cur),
    ensures
        lower_from(subs, i, st, new_amount) matches Some(end) ==> list_wf(end.lookups)
            && lookup_wf(end.cur),
    decreases subs.len() - i,
{
    if i < subs.len() {
        match lower_step(st, subs[i], i < new_amount) {
            Some(next) => {
                let k = index_in(st.table, subs[i].sub_content, 0);
                lemma_rule_subs_wf(subs[i], k as u32);
                let added = rule_subs(subs[i], k as u32);
                let cur = st.cur + added;
                assert forall|j: int| 0 <= j < cur.len() implies sub_wf(#[trigger] cur[j]) by {
                    if j < st.cur.len() {
                        assert(cur[j] == st.cur[j]);
                    } else {
                        assert(cur[j] == added[j - st.cur.len()]);
                    }
                }
                assert forall|j: int| 0 <= j < next.lookups.len() implies lookup_wf(
                    #[trigger] next.lookups[j],
                ) by {
                    if j < st.lookups.len() {
                        assert(next.lookups[j] == st.lookups[j]);
                    }
                }
                lemma_lower_wf(subs, i + 1, next, new_amount);
            },
            None => {},
        }
    }
}

/// A list of rules that make something give way is written as
/// substitutions that have something to match.
pub proof fn lemma_hl_to_ll_wf(subs: Seq<HLSubstitutionView>, new_amount: int)
    requires
        strict_list_wf(subs),
    ensures
        hl_to_ll_spec(subs, new_amount) matches Some(r) ==> list_wf(r.0),
{
    let start = Lowering {
        lookups: Seq::empty(),
        cur: Seq::empty(),
        table: Seq::empty(),
        new_count: 0,
    };
    lemma_lower_wf(subs, 0, start, new_amount);
    match lower_from(subs, 0, start, new_amount) {
        Some(end) => {
            let lookups = flush_group(end.lookups, end.cur).push(table_lookup(end.table));
            assert forall|j: int| 0 <= j < lookups.len() implies lookup_wf(#[trigger] lookups[j]) by {
                if j < end.lookups.len() {
                    assert(lookups[j] == end.lookups[j]);
                }
            }
        },
        None => {},
    }
}

/// What a list of rules makes of a word.
pub fn apply_copied(v: &Vec<Glyph>, hl_slist: &HLSubstitutionList) -> (res: Vec<Glyph>)
    requires
        strict_list_wf(hl_slist@),
        hl_to_ll_spec(hl_slist@, 0) is Some,
    ensures
        res@ == transformed(v@, hl_slist@),
{
    proof {
        lemma_hl_to_ll_wf(hl_slist@, 0);
        assert forall|i: int| 0 <= i < hl_slist@.len() implies hl_wf(#[trigger] hl_slist@[i]) by {
            assert(strict_wf(hl_slist@[i]));
        }
    }
    match hl_to_ll(hl_slist) {
        Ok(slist) => {
            let mut working = augment(v);
            apply_all(&mut working, &slist);
            strip_aug(&working)
        },
        Err(_) => copy_vec(v),
    }
}

/// How far a word is from a pronunciation under a list of rules.
pub open spec fn distance_under(
    word: Seq<Glyph>,
    pronunciation: Seq<Glyph>,
    list: Seq<HLSubstitutionView>,
) -> nat {
    levenshtein(augment_spec(transformed(word, list)), augment_spec(pronunciation))
}

/// The rule that makes the glyphs of `word` from `k1 + s1` up to `k1 + s2`
/// give way to the glyphs of `pronunciation` from `sc1` up to `sc2`, where
/// the glyphs of `word` from `k1` up to `k2` stand.
pub open spec fn candidate(
    word: Seq<Glyph>,
    pronunciation: Seq<Glyph>,
    k1: int,
    k2: int,
    s1: int,
    s2: int,
    sc1: int,
    sc2: int,
    at_start: bool,
    at_end: bool,
) -> HLSubstitutionView {
    HLSubstitutionView {
        key: word.subrange(k1, k2),
        sub_start: s1,
        sub_end: s2,
        at_start,
        at_end,
        sub_content: pronunciation.subrange(sc1, sc2),
    }
}

/// By how much the rule `c`, put before the rules `init`, brings `word`
/// closer to `pronunciation`, where it does.
pub open spec fn gain(
    word: Seq<Glyph>,
    pronunciation: Seq<Glyph>,
    init: Seq<HLSubstitutionView>,
    c: HLSubstitutionView,
) -> Option<u32> {
    let base = distance_under(word, pronunciation, init);
    let with = distance_under(word, pronunciation, seq![c] + init);
    if with < base {
        Some((base - with) as u32)
    } else {
        None
    }
}

/// The findings `acc` with the rule `c` behind them, where it brings the
/// word closer.
pub open spec fn tried(
    acc: Seq<(HLSubstitutionView, u32)>,
    word: Seq<Glyph>,
    pronunciation: Seq<Glyph>,
    init: Seq<HLSubstitutionView>,
    c: HLSubstitutionView,
) -> Seq<(HLSubstitutionView, u32)> {
    match gain(word, pronunciation, init, c) {
        Some(g) => acc.push((c, g)),
        None => acc,
    }
}

/// The findings for one key, one stretch and one content: the rule is
/// tried bound to the start of the word where the key begins the word, and
/// bound to the end where the key ends it, the bound ones first.
pub open spec fn ends(
    acc: Seq<(HLSubstitutionView, u32)>,
    word: Seq<Glyph>,
    pronunciation: Seq<Glyph>,
    init: Seq<HLSubstitutionView>,
    k1: int,
    k2: int,
    s1: int,
    s2: int,
    sc1: int,
    sc2: int,
) -> Seq<(HLSubstitutionView, u32)> {
    let first = k1 == 0;
    let last = k2 == word.len();
    let a1 = if first && last {
        tried(acc, word, pronunciation, init, candidate(word, pronunciation, k1, k2, s1, s2, sc1, sc2, true, true))
    } else {
        acc
    };
    let a2 = if first {
        tried(a1, word, pronunciation, init, candidate(word, pronunciation, k1, k2, s1, s2, sc1, sc2, true, false))
    } else {
        a1
    };
    let a3 = if last {
        tried(a2, word, pronunciation, init, candidate(word, pronunciation, k1, k2, s1, s2, sc1, sc2, false, true))
    } else {
        a2
    };
    tried(a3, word, pronunciation, init, candidate(word, pronunciation, k1, k2, s1, s2, sc1, sc2, false, false))
}

/// The findings for the contents that begin at `sc1` and end at `sc2` or
/// behind it.
pub open spec fn content_ends_from(
    acc: Seq<(HLSubstitutionView, u32)>,
    word: Seq<Glyph>,
    pronunciation: Seq<Glyph>,
    init: Seq<HLSubstitutionView>,
    k1: int,
    k2: int,
    s1: int,
    s2: int,
    sc1: int,
    sc2: int,
) -> Seq<(HLSubstitutionView, u32)>
    decreases pronunciation.len() + 1 - sc2,
{
    if sc2 > pronunciation.len() {
        acc
    } else {
        content_ends_from(
            ends(acc, word, pronunciation, init, k1, k2, s1, s2, sc1, sc2),
            word,
            pronunciation,
            init,
            k1,
            k2,
            s1,
            s2,
            sc1,
            sc2 + 1,
        )
    }
}

/// The findings for the contents that begin at `sc1` or behind it.
pub open spec fn content_starts_from(
    acc: Seq<(HLSubstitutionView, u32)>,
    word: Seq<Glyph>,
    pronunciation: Seq<Glyph>,
    init: Seq<HLSubstitutionView>,
    k1: int,
    k2: int,
    s1: int,
    s2: int,
    sc1: int,
) -> Seq<(HLSubstitutionView, u32)>
    decreases pronunciation.len() - sc1,
{
    if sc1 >= pronunciation.len() {
        acc
    } else {
        content_starts_from(
            content_ends_from(acc, word, pronunciation, init, k1, k2, s1, s2, sc1, sc1 + 1),
            word,
            pronunciation,
            init,
            k1,
            k2,
            s1,
            s2,
            sc1 + 1,
        )
    }
}

/// The findings for the stretches that begin at `s1` and end at `s2` or
/// behind it.
pub open spec fn stretch_ends_from(
    acc: Seq<(HLSubstitutionView, u32)>,
    word: Seq<Glyph>,
    pronunciation: Seq<Glyph>,
    init: Seq<HLSubstitutionView>,
    k1: int,
    k2: int,
    s1: int,
    s2: int,
) -> Seq<(HLSubstitutionView, u32)>
    decreases k2 - k1 + 1 - s2,
{
    if s2 > k2 - k1 {
        acc
    } else {
        stretch_ends_from(
            content_starts_from(acc, word, pronunciation, init, k1, k2, s1, s2, 0),
            word,
            pronunciation,
            init,
            k1,
            k2,
            s1,
            s2 + 1,
        )
    }
}

/// The findings for the stretches that begin at `s1` or behind it.
pub open spec fn stretch_starts_from(
    acc: Seq<(HLSubstitutionView, u32)>,
    word: Seq<Glyph>,
    pronunciation: Seq<Glyph>,
    init: Seq<HLSubstitutionView>,
    k1: int,
    k2: int,
    s1: int,
) -> Seq<(HLSubstitutionView, u32)>
    decreases k2 - k1 - s1,
{
    if s1 >= k2 - k1 {
        acc
    } else {
        stretch_starts_from(
            stretch_ends_from(acc, word, pronunciation, init, k1, k2, s1, s1 + 1),
            word,
            pronunciation,
            init,
            k1,
            k2,
            s1 + 1,
        )
    }
}

/// The findings for the keys that begin at `k1` and end at `k2` or behind
/// it.
pub open spec fn key_ends_from(
    acc: Seq<(HLSubstitutionView, u32)>,
    word: Seq<Glyph>,
    pronunciation: Seq<Glyph>,
    init: Seq<HLSubstitutionView>,
    k1: int,
    k2: int,
) -> Seq<(HLSubstitutionView, u32)>
    decreases word.len() + 1 - k2,
{
    if k2 > word.len() {
        acc
    } else {
        key_ends_from(
            stretch_starts_from(acc, word, pronunciation, init, k1, k2, 0),
            word,
            pronunciation,
            init,
            k1,
            k2 + 1,
        )
    }
}

/// The findings for the keys that begin at `k1` or behind it.
pub open spec fn key_starts_from(
    acc: Seq<(HLSubstitutionView, u32)>,
    word: Seq<Glyph>,
    pronunciation: Seq<Glyph>,
    init: Seq<HLSubstitutionView>,
    k1: int,
) -> Seq<(HLSubstitutionView, u32)>
    decreases word.len() - k1,
{
    if k1 >= word.len() {
        acc
    } else {
        key_starts_from(
            key_ends_from(acc, word, pronunciation, init, k1, k1 + 1),
            word,
            pronunciation,
            init,
            k1 + 1,
        )
    }
}

/// Every rule that brings `word` closer to `pronunciation` when it is put
/// before the rules `init`, with what it gains: each stretch of each
/// stretch of the word as key and what gives way, each stretch of the
/// pronunciation as content, the shorter and earlier ones first.
pub open spec fn improving_edits_spec(
    word: Seq<Glyph>,
    pronunciation: Seq<Glyph>,
    init: Seq<HLSubstitutionView>,
) -> Seq<(HLSubstitutionView, u32)> {
    key_starts_from(Seq::empty(), word, pronunciation, init, 0)
}

/// Whether every rule that is tried for `word` and `pronunciation` can be
/// written as substitutions together with the rules `init`.
pub open spec fn can_try_all(
    word: Seq<Glyph>,
    pronunciation: Seq<Glyph>,
    init: Seq<HLSubstitutionView>,
) -> bool {
    &&& hl_to_ll_spec(init, 0) is Some
    &&& forall|k1: int, k2: int, s1: int, s2: int, sc1: int, sc2: int, at_start: bool, at_end: bool|
        0 <= k1 < k2 <= word.len() && 0 <= s1 < s2 <= k2 - k1 && 0 <= sc1 < sc2
            <= pronunciation.len() ==> hl_to_ll_spec(
            seq![
                #[trigger] candidate(word, pronunciation, k1, k2, s1, s2, sc1, sc2, at_start, at_end),
            ] + init,
            0,
        ) is Some
}

/// Writing a list of no more rules than there are placeholders as
/// substitutions does not run out of placeholders.
proof fn lemma_lower_succeeds(subs: Seq<HLSubstitutionView>, i: int, st: Lowering, new_amount: int)
    requires
        0 <= i <= subs.len(),
        st.table.len() <= i,
        subs.len() <= crate::glyphs::MAX_SYN,
    ensures
        lower_from(subs, i, st, new_amount) is Some,
    decreases subs.len() - i,
{
    if i < subs.len() {
        lemma_index_in_bounds(st.table, subs[i].sub_content, 0);
        let next = lower_step(st, subs[i], i < new_amount);
        assert(next is Some);
        lemma_lower_succeeds(subs, i + 1, next->0, new_amount);
    }
}

/// A list of no more rules than there are placeholders can be written as
/// substitutions.
pub proof fn lemma_short_list_lowers(subs: Seq<HLSubstitutionView>, new_amount: int)
    requires
        subs.len() <= crate::glyphs::MAX_SYN,
    ensures
        hl_to_ll_spec(subs, new_amount) is Some,
{
    lemma_lower_succeeds(
        subs,
        0,
        Lowering { lookups: Seq::empty(), cur: Seq::empty(), table: Seq::empty(), new_count: 0 },
        new_amount,
    );
}

/// Every rule can be tried before a list of fewer rules than there are
/// placeholders.
pub proof fn lemma_can_try_all(
    word: Seq<Glyph>,
    pronunciation: Seq<Glyph>,
    init: Seq<HLSubstitutionView>,
)
    requires
        init.len() < crate::glyphs::MAX_SYN,
    ensures
        can_try_all(word, pronunciation, init),
{
    lemma_short_list_lowers(init, 0);
    assert forall|
        k1: int,
        k2: int,
        s1: int,
        s2: int,
        sc1: int,
        sc2: int,
        at_start: bool,
        at_end: bool,
    |
        0 <= k1 < k2 <= word.len() && 0 <= s1 < s2 <= k2 - k1 && 0 <= sc1 < sc2
            <= pronunciation.len() implies hl_to_ll_spec(
        seq![#[trigger] candidate(word, pronunciation, k1, k2, s1, s2, sc1, sc2, at_start, at_end)]
            + init,
        0,
    ) is Some by {
        lemma_short_list_lowers(
            seq![candidate(word, pronunciation, k1, k2, s1, s2, sc1, sc2, at_start, at_end)] + init,
            0,
        );
    }
}

/// The values of a run of findings.
pub open spec fn findings_view(res: Seq<(HLSubstitution, u32)>) -> Seq<(HLSubstitutionView, u32)> {
    res.map_values(|f: (HLSubstitution, u32)| (f.0@, f.1))
}

fn copy_rule(s: &HLSubstitution) -> (res: HLSubstitution)
    ensures
        res@ == s@,
{
    HLSubstitution {
        key: copy_vec(&s.key),
        sub_start: s.sub_start,
        sub_end: s.sub_end,
        at_start: s.at_start,
        at_end: s.at_end,
        sub_content: copy_vec(&s.sub_content),
    }
}

fn with_first(first: HLSubstitution, init: &HLSubstitutionList) -> (res: HLSubstitutionList)
    ensures
        res@ == seq![first@] + init@,
{
    let ghost fv = first@;
    let mut substitutions: Vec<HLSubstitution> = Vec::new();
    substitutions.push(first);
    let mut i: usize = 0;
    assert(hl_view(substitutions@) =~= seq![fv] + init@.take(0));
    while i < init.substitutions.len()
        invariant
            i <= init.substitutions.len(),
            hl_view(substitutions@) == seq![fv] + init@.take(i as int),
        decreases init.substitutions.len() - i,
    {
        let ghost before = hl_view(substitutions@);
        let copy = copy_rule(&init.substitutions[i]);
        assert(copy@ == init@[i as int]);
        substitutions.push(copy);
        assert(hl_view(substitutions@) =~= before.push(init@[i as int]));
        assert(hl_view(substitutions@) =~= seq![fv] + init@.take(i + 1));
        i += 1;
    }
    assert(init@.take(init.substitutions.len() as int) =~= init@);
    HLSubstitutionList { substitutions }
}

fn try_one(
    res: &mut Vec<(HLSubstitution, u32)>,
    word: &Vec<Glyph>,
    pronunciation: &Vec<Glyph>,
    init_hl_slist: &HLSubstitutionList,
    base_distance: usize,
    k1: usize,
    k2: usize,
    s1: usize,
    s2: usize,
    sc1: usize,
    sc2: usize,
    at_start: bool,
    at_end: bool,
)
    requires
        strict_list_wf(init_hl_slist@),
        can_try_all(word@, pronunciation@, init_hl_slist@),
        base_distance == distance_under(word@, pronunciation@, init_hl_slist@),
        base_distance <= u32::MAX,
        k1 < k2 <= word.len(),
        s1 < s2 <= k2 - k1,
        sc1 < sc2 <= pronunciation.len(),
    ensures
        findings_view(final(res)@) == tried(
            findings_view(old(res)@),
            word@,
            pronunciation@,
            init_hl_slist@,
            candidate(
                word@,
                pronunciation@,
                k1 as int,
                k2 as int,
                s1 as int,
                s2 as int,
                sc1 as int,
                sc2 as int,
                at_start,
                at_end,
            ),
        ),
{
    let hlsub = HLSubstitution {
        key: copy_range(word, k1, k2),
        sub_start: s1,
        sub_end: s2,
        at_start,
        at_end,
        sub_content: copy_range(pronunciation, sc1, sc2),
    };
    let ghost c = hlsub@;
    let kept = copy_rule(&hlsub);
    let working_hl_slist = with_first(hlsub, init_hl_slist);
    proof {
        assert(c == candidate(
            word@,
            pronunciation@,
            k1 as int,
            k2 as int,
            s1 as int,
            s2 as int,
            sc1 as int,
            sc2 as int,
            at_start,
            at_end,
        ));
        assert(strict_wf(c));
        assert forall|i: int| 0 <= i < working_hl_slist@.len() implies strict_wf(
            #[trigger] working_hl_slist@[i],
        ) by {
            if i > 0 {
                assert(working_hl_slist@[i] == init_hl_slist@[i - 1]);
            }
        }
    }
    let new_transformed = apply_copied(word, &working_hl_slist);
    let new_distance = levenshtein_distance(&augment(&new_transformed), &augment(pronunciation));
    if new_distance < base_distance {
        let ghost before = findings_view(res@);
        let improvement = (base_distance - new_distance) as u32;
        res.push((kept, improvement));
        assert(findings_view(res@) =~= before.push((c, improvement)));
    }
}

fn try_ends(
    res: &mut Vec<(HLSubstitution, u32)>,
    word: &Vec<Glyph>,
    pronunciation: &Vec<Glyph>,
    init_hl_slist: &HLSubstitutionList,
    base_distance: usize,
    k1: usize,
    k2: usize,
    s1: usize,
    s2: usize,
    sc1: usize,
    sc2: usize,
)
    requires
        strict_list_wf(init_hl_slist@),
        can_try_all(word@, pronunciation@, init_hl_slist@),
        base_distance == distance_under(word@, pronunciation@, init_hl_slist@),
        base_distance <= u32::MAX,
        k1 < k2 <= word.len(),
        s1 < s2 <= k2 - k1,
        sc1 < sc2 <= pronunciation.len(),
    ensures
        findings_view(final(res)@) == ends(
            findings_view(old(res)@),
            word@,
            pronunciation@,
            init_hl_slist@,
            k1 as int,
            k2 as int,
            s1 as int,
            s2 as int,
            sc1 as int,
            sc2 as int,
        ),
{
    let first = k1 == 0;
    let last = k2 == word.len();
    if first && last {
        try_one(res, word, pronunciation, init_hl_slist, base_distance, k1, k2, s1, s2, sc1, sc2, true, true);
    }
    if first {
        try_one(res, word, pronunciation, init_hl_slist, base_distance, k1, k2, s1, s2, sc1, sc2, true, false);
    }
    if last {
        try_one(res, word, pronunciation, init_hl_slist, base_distance, k1, k2, s1, s2, sc1, sc2, false, true);
    }
    try_one(res, word, pronunciation, init_hl_slist, base_distance, k1, k2, s1, s2, sc1, sc2, false, false);
}

fn try_contents(
    res: &mut Vec<(HLSubstitution, u32)>,
    word: &Vec<Glyph>,
    pronunciation: &Vec<Glyph>,
    init_hl_slist: &HLSubstitutionList,
    base_distance: usize,
    k1: usize,
    k2: usize,
    s1: usize,
    s2: usize,
)
    requires
        strict_list_wf(init_hl_slist@),
        can_try_all(word@, pronunciation@, init_hl_slist@),
        base_distance == distance_under(word@, pronunciation@, init_hl_slist@),
        base_distance <= u32::MAX,
        k1 < k2 <= word.len(),
        s1 < s2 <= k2 - k1,
    ensures
        findings_view(final(res)@) == content_starts_from(
            findings_view(old(res)@),
            word@,
            pronunciation@,
            init_hl_slist@,
            k1 as int,
            k2 as int,
            s1 as int,
            s2 as int,
            0,
        ),
{
    let m = pronunciation.len();
    let ghost goal = content_starts_from(
        findings_view(res@),
        word@,
        pronunciation@,
        init_hl_slist@,
        k1 as int,
        k2 as int,
        s1 as int,
        s2 as int,
        0,
    );
    let mut sc1: usize = 0;
    while sc1 < m
        invariant
            m == pronunciation.len(),
            strict_list_wf(init_hl_slist@),
            can_try_all(word@, pronunciation@, init_hl_slist@),
            base_distance == distance_under(word@, pronunciation@, init_hl_slist@),
            base_distance <= u32::MAX,
            k1 < k2 <= word.len(),
            s1 < s2 <= k2 - k1,
            sc1 <= m,
            content_starts_from(
                findings_view(res@),
                word@,
                pronunciation@,
                init_hl_slist@,
                k1 as int,
                k2 as int,
                s1 as int,
                s2 as int,
                sc1 as int,
            ) == goal,
        decreases m - sc1,
    {
        let ghost inner = content_ends_from(
            findings_view(res@),
            word@,
            pronunciation@,
            init_hl_slist@,
            k1 as int,
            k2 as int,
            s1 as int,
            s2 as int,
            sc1 as int,
            sc1 + 1,
        );
        let mut sc2: usize = sc1;
        while sc2 < m
            invariant
                m == pronunciation.len(),
                strict_list_wf(init_hl_slist@),
                can_try_all(word@, pronunciation@, init_hl_slist@),
                base_distance == distance_under(word@, pronunciation@, init_hl_slist@),
                base_distance <= u32::MAX,
                k1 < k2 <= word.len(),
                s1 < s2 <= k2 - k1,
                sc1 <= sc2 <= m,
                content_ends_from(
                    findings_view(res@),
                    word@,
                    pronunciation@,
                    init_hl_slist@,
                    k1 as int,
                    k2 as int,
                    s1 as int,
                    s2 as int,
                    sc1 as int,
                    sc2 + 1,
                ) == inner,
            decreases m - sc2,
        {
            sc2 += 1;
            try_ends(res, word, pronunciation, init_hl_slist, base_distance, k1, k2, s1, s2, sc1, sc2);
        }
        sc1 += 1;
    }
}

fn try_stretches(
    res: &mut Vec<(HLSubstitution, u32)>,
    word: &Vec<Glyph>,
    pronunciation: &Vec<Glyph>,
    init_hl_slist: &HLSubstitutionList,
    base_distance: usize,
    k1: usize,
    k2: usize,
)
    requires
        strict_list_wf(init_hl_slist@),
        can_try_all(word@, pronunciation@, init_hl_slist@),
        base_distance == distance_under(word@, pronunciation@, init_hl_slist@),
        base_distance <= u32::MAX,
        k1 < k2 <= word.len(),
    ensures
        findings_view(final(res)@) == stretch_starts_from(
            findings_view(old(res)@),
            word@,
            pronunciation@,
            init_hl_slist@,
            k1 as int,
            k2 as int,
            0,
        ),
{
    let key_size = k2 - k1;
    let ghost goal = stretch_starts_from(
        findings_view(res@),
        word@,
        pronunciation@,
        init_hl_slist@,
        k1 as int,
        k2 as int,
        0,
    );
    let mut s1: usize = 0;
    while s1 < key_size
        invariant
            key_size == k2 - k1,
            strict_list_wf(init_hl_slist@),
            can_try_all(word@, pronunciation@, init_hl_slist@),
            base_distance == distance_under(word@, pronunciation@, init_hl_slist@),
            base_distance <= u32::MAX,
            k1 < k2 <= word.len(),
            s1 <= key_size,
            stretch_starts_from(
                findings_view(res@),
                word@,
                pronunciation@,
                init_hl_slist@,
                k1 as int,
                k2 as int,
                s1 as int,
            ) == goal,
        decreases key_size - s1,
    {
        let ghost inner = stretch_ends_from(
            findings_view(res@),
            word@,
            pronunciation@,
            init_hl_slist@,
            k1 as int,
            k2 as int,
            s1 as int,
            s1 + 1,
        );
        let mut s2: usize = s1;
        while s2 < key_size
            invariant
                key_size == k2 - k1,
                strict_list_wf(init_hl_slist@),
                can_try_all(word@, pronunciation@, init_hl_slist@),
                base_distance == distance_under(word@, pronunciation@, init_hl_slist@),
                base_distance <= u32::MAX,
                k1 < k2 <= word.len(),
                s1 <= s2 <= key_size,
                stretch_ends_from(
                    findings_view(res@),
                    word@,
                    pronunciation@,
                    init_hl_slist@,
                    k1 as int,
                    k2 as int,
                    s1 as int,
                    s2 + 1,
                ) == inner,
            decreases key_size - s2,
        {
            s2 += 1;
            try_contents(res, word, pronunciation, init_hl_slist, base_distance, k1, k2, s1, s2);
        }
        s1 += 1;
    }
}

/// Finds every rule that brings `word` closer to `pronunciation` when it is
/// put before the rules `init_hl_slist`, and what each gains.
pub fn find_improving_edits(
    word: &Vec<Glyph>,
    pronunciation: &Vec<Glyph>,
    init_hl_slist: &HLSubstitutionList,
) -> (res: Vec<(HLSubstitution, u32)>)
    requires
        strict_list_wf(init_hl_slist@),
        can_try_all(word@, pronunciation@, init_hl_slist@),
        distance_under(word@, pronunciation@, init_hl_slist@) <= u32::MAX,
    ensures
        findings_view(res@) == improving_edits_spec(word@, pronunciation@, init_hl_slist@),
{
    let mut res: Vec<(HLSubstitution, u32)> = Vec::new();
    let base_transformed = apply_copied(word, init_hl_slist);
    let base_distance = levenshtein_distance(&augment(&base_transformed), &augment(pronunciation));
    let n = word.len();
    assert(findings_view(res@) =~= Seq::<(HLSubstitutionView, u32)>::empty());
    let mut k1: usize = 0;
    while k1 < n
        invariant
            n == word.len(),
            strict_list_wf(init_hl_slist@),
            can_try_all(word@, pronunciation@, init_hl_slist@),
            base_distance == distance_under(word@, pronunciation@, init_hl_slist@),
            base_distance <= u32::MAX,
            k1 <= n,
            key_starts_from(
                findings_view(res@),
                word@,
                pronunciation@,
                init_hl_slist@,
                k1 as int,
            ) == improving_edits_spec(word@, pronunciation@, init_hl_slist@),
        decreases n - k1,
    {
        let ghost inner = key_ends_from(
            findings_view(res@),
            word@,
            pronunciation@,
            init_hl_slist@,
            k1 as int,
            k1 + 1,
        );
        let mut k2: usize = k1;
        while k2 < n
            invariant
                n == word.len(),
                strict_list_wf(init_hl_slist@),
                can_try_all(word@, pronunciation@, init_hl_slist@),
                base_distance == distance_under(word@, pronunciation@, init_hl_slist@),
                base_distance <= u32::MAX,
                k1 <= k2 <= n,
                key_ends_from(
                    findings_view(res@),
                    word@,
                    pronunciation@,
                    init_hl_slist@,
                    k1 as int,
                    k2 + 1,
                ) == inner,
            decreases n - k2,
        {
            k2 += 1;
            try_stretches(&mut res, word, pronunciation, init_hl_slist, base_distance, k1, k2);
        }
        k1 += 1;
    }
    res
}

/// The size of a rule: the glyphs of its key, and one for each end of the
/// word that it is bound to.
pub open spec fn sub_size_spec(sub: HLSubstitutionView) -> int {
    sub.key.len() + if sub.at_start {
        1int
    } else {
        0int
    } + if sub.at_end {
        1int
    } else {
        0int
    }
}

/// The size of a rule.
pub fn sub_size(sub: &HLSubstitution) -> (res: usize)
    requires
        sub.key.len() <= usize::MAX - 2,
    ensures
        res == sub_size_spec(sub@),
{
    sub.key.len() + (if sub.at_start {
        1
    } else {
        0
    }) + (if sub.at_end {
        1
    } else {
        0
    })
}

} // verus!
