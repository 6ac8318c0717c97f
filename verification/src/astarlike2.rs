//! The rules in two halves that would bring one word of a corpus closer to
//! its pronunciation, and the corpus as it stands while rules are found
//! one after the other.

use vstd::prelude::*;
use crate::dictionary::Dictionary;
use crate::edit_distance::{levenshtein, levenshtein_distance};
use crate::glyphs::{AugGlyph, augment, augment_spec, aug_is_letter_or_phonetic};
use crate::high_level_substitutions2::{
    Anterior, AnteriorView, HLSubstitution, HLSubstitutionList, HLSubstitutionView, Posterior,
    anterior_apply_from, deapply_from, hl_apply_spec, hl_view, posteriors_down,
};
use crate::seqs::{copy_range, copy_vec};

verus! {

/// A word of the corpus while rules are being found.
#[derive(Clone, Debug, PartialEq, Eq)]
pub struct AugDictionaryWord {
    /// The spelling with the anterior halves of the rules found so far
    /// applied.
    pub transformed_spelling: Vec<AugGlyph>,
    /// The pronunciation.
    pub base_pronunciation: Vec<AugGlyph>,
    /// The pronunciation with the posterior halves of the rules found so
    /// far taken back.
    pub back_transformed_pronunciation: Vec<AugGlyph>,
    /// The weight of the word, which the estimation system reads.
    pub frequency: i64,
}

/// The corpus while rules are being found.
#[derive(Clone, Debug, PartialEq, Eq)]
pub struct AugDictionary {
    pub words: Vec<AugDictionaryWord>,
}

/// A rule that brings a word closer to its pronunciation, and by how much.
#[derive(Clone, Debug, PartialEq, Eq)]
pub struct SubWithImprovement {
    pub sub: HLSubstitution,
    pub improvement: u32,
}

/// The values of a run of findings.
pub open spec fn findings_view(res: Seq<SubWithImprovement>) -> Seq<(HLSubstitutionView, u32)> {
    res.map_values(|f: SubWithImprovement| (f.sub@, f.improvement))
}

/// What rules are looked for: for a word as it stands and its
/// pronunciation as it stands, rules with the placeholder `mid` that bring
/// the word closer than `base_distance` to the pronunciation `base_pronunciation`
/// once the posterior halves of `rules` have been applied.
pub struct Quest {
    pub word: Seq<AugGlyph>,
    pub pronunciation: Seq<AugGlyph>,
    pub base_pronunciation: Seq<AugGlyph>,
    pub rules: Seq<HLSubstitutionView>,
    pub base_distance: u32,
    pub mid: u32,
}

/// The quest with these parts.
pub open spec fn quest(
    word: Seq<AugGlyph>,
    pronunciation: Seq<AugGlyph>,
    base_pronunciation: Seq<AugGlyph>,
    rules: Seq<HLSubstitutionView>,
    base_distance: u32,
    mid: u32,
) -> Quest {
    Quest { word, pronunciation, base_pronunciation, rules, base_distance, mid }
}

/// The rule whose key is the glyphs of the word from `k1` up to `k2`, of
/// which those from `k1 + s1` up to `k1 + s2` give way, in the end, to the
/// glyphs of the pronunciation from `sc1` up to `sc2`.
pub open spec fn candidate(
    q: Quest,
    k1: int,
    k2: int,
    s1: int,
    s2: int,
    sc1: int,
    sc2: int,
    at_start: bool,
    at_end: bool,
) -> HLSubstitutionView {
    HLSubstitutionView {
        anterior: AnteriorView {
            pre_key: q.word.subrange(k1, k1 + s1),
            at_key: q.word.subrange(k1 + s1, k1 + s2),
            post_key: q.word.subrange(k1 + s2, k2),
            at_start,
            at_end,
        },
        mid: q.mid,
        posterior: q.pronunciation.subrange(sc1, sc2),
    }
}

/// How far `word` is from `base_pronunciation` once the rule `c` has been
/// applied to it and then the posterior halves of `rules`; nothing where
/// `c` does not change the word.
pub open spec fn new_distance_spec(
    word: Seq<AugGlyph>,
    base_pronunciation: Seq<AugGlyph>,
    c: HLSubstitutionView,
    rules: Seq<HLSubstitutionView>,
) -> Option<nat> {
    let first = hl_apply_spec(word, c);
    if first.1 {
        Some(
            levenshtein(posteriors_down(first.0, rules, rules.len() as int).0, base_pronunciation),
        )
    } else {
        None
    }
}

/// By how much the rule `c` brings the word of the quest closer, where it
/// does.
pub open spec fn gain(q: Quest, c: HLSubstitutionView) -> Option<u32> {
    match new_distance_spec(q.word, q.base_pronunciation, c, q.rules) {
        Some(d) => if d < q.base_distance {
            Some((q.base_distance - d) as u32)
        } else {
            None
        },
        None => None,
    }
}

/// The findings `acc` with the rule `c` behind them, where it brings the
/// word closer.
pub open spec fn tried(acc: Seq<(HLSubstitutionView, u32)>, q: Quest, c: HLSubstitutionView) -> Seq<
    (HLSubstitutionView, u32),
> {
    match gain(q, c) {
        Some(g) => acc.push((c, g)),
        None => acc,
    }
}

/// Whether a key that begins at `k1` may be bound to the start of the
/// word: it begins the word, or no letter stands before it.
pub open spec fn can_be_at_start(q: Quest, k1: int) -> bool {
    k1 == 0 || !aug_is_letter_or_phonetic(q.word[k1 - 1])
}

/// Whether a key that ends at `k2` may be bound to the end of the word: it
/// ends the word, or no letter stands behind it.
pub open spec fn can_be_at_end(q: Quest, k2: int) -> bool {
    k2 == q.word.len() || !aug_is_letter_or_phonetic(q.word[k2])
}

/// The findings for one key, one stretch and one content: the rule is
/// tried bound to the start and to the end of the word where it may be,
/// the bound ones first.
pub open spec fn ends(
    acc: Seq<(HLSubstitutionView, u32)>,
    q: Quest,
    k1: int,
    k2: int,
    s1: int,
    s2: int,
    sc1: int,
    sc2: int,
) -> Seq<(HLSubstitutionView, u32)> {
    let first = can_be_at_start(q, k1);
    let last = can_be_at_end(q, k2);
    let a1 = if first && last {
        tried(acc, q, candidate(q, k1, k2, s1, s2, sc1, sc2, true, true))
    } else {
        acc
    };
    let a2 = if first {
        tried(a1, q, candidate(q, k1, k2, s1, s2, sc1, sc2, true, false))
    } else {
        a1
    };
    let a3 = if last {
        tried(a2, q, candidate(q, k1, k2, s1, s2, sc1, sc2, false, true))
    } else {
        a2
    };
    tried(a3, q, candidate(q, k1, k2, s1, s2, sc1, sc2, false, false))
}

/// The findings for the contents that begin at `sc1` and end at `sc2` or
/// behind it.
pub open spec fn content_ends_from(
    acc: Seq<(HLSubstitutionView, u32)>,
    q: Quest,
    k1: int,
    k2: int,
    s1: int,
    s2: int,
    sc1: int,
    sc2: int,
) -> Seq<(HLSubstitutionView, u32)>
    decreases q.pronunciation.len() + 1 - sc2,
{
    if sc2 > q.pronunciation.len() {
        acc
    } else {
        content_ends_from(
            ends(acc, q, k1, k2, s1, s2, sc1, sc2),
            q,
            k1,
            k2,
            s1,
            s2,
            sc1,
            sc2 + 1,
        )
    }
}

/// The findings for the contents that begin at `sc1` or behind it.
pub open spec fn content_starts_from(
    acc: Seq<(HLSubstitutionView, u32)>,
    q: Quest,
    k1: int,
    k2: int,
    s1: int,
    s2: int,
    sc1: int,
) -> Seq<(HLSubstitutionView, u32)>
    decreases q.pronunciation.len() - sc1,
{
    if sc1 >= q.pronunciation.len() {
        acc
    } else {
        content_starts_from(
            content_ends_from(acc, q, k1, k2, s1, s2, sc1, sc1 + 1),
            q,
            k1,
            k2,
            s1,
            s2,
            sc1 + 1,
        )
    }
}

/// The findings for the stretches that begin at `s1` and end at `s2` or
/// behind it.
pub open spec fn stretch_ends_from(
    acc: Seq<(HLSubstitutionView, u32)>,
    q: Quest,
    k1: int,
    k2: int,
    s1: int,
    s2: int,
) -> Seq<(HLSubstitutionView, u32)>
    decreases k2 - k1 + 1 - s2,
{
    if s2 > k2 - k1 {
        acc
    } else {
        stretch_ends_from(
            content_starts_from(acc, q, k1, k2, s1, s2, 0),
            q,
            k1,
            k2,
            s1,
            s2 + 1,
        )
    }
}

/// The findings for the stretches that begin at `s1` or behind it.
pub open spec fn stretch_starts_from(
    acc: Seq<(HLSubstitutionView, u32)>,
    q: Quest,
    k1: int,
    k2: int,
    s1: int,
) -> Seq<(HLSubstitutionView, u32)>
    decreases k2 - k1 - s1,
{
    if s1 >= k2 - k1 {
        acc
    } else {
        stretch_starts_from(
            stretch_ends_from(acc, q, k1, k2, s1, s1 + 1),
            q,
            k1,
            k2,
            s1 + 1,
        )
    }
}

/// The findings for the keys that begin at `k1` and end at `k2` or behind
/// it.
pub open spec fn key_ends_from(
    acc: Seq<(HLSubstitutionView, u32)>,
    q: Quest,
    k1: int,
    k2: int,
) -> Seq<(HLSubstitutionView, u32)>
    decreases q.word.len() + 1 - k2,
{
    if k2 > q.word.len() {
        acc
    } else {
        key_ends_from(
            stretch_starts_from(acc, q, k1, k2, 0),
            q,
            k1,
            k2 + 1,
        )
    }
}

/// The findings for the keys that begin at `k1` or behind it.
pub open spec fn key_starts_from(
    acc: Seq<(HLSubstitutionView, u32)>,
    q: Quest,
    k1: int,
) -> Seq<(HLSubstitutionView, u32)>
    decreases q.word.len() - k1,
{
    if k1 >= q.word.len() {
        acc
    } else {
        key_starts_from(
            key_ends_from(acc, q, k1, k1 + 1),
            q,
            k1 + 1,
        )
    }
}

/// Every rule of the quest that brings the word closer, with what it
/// gains: each stretch of each stretch of the word as key and what gives
/// way, each stretch of the pronunciation as content, the shorter and
/// earlier ones first.
pub open spec fn improving_edits_spec(q: Quest) -> Seq<(HLSubstitutionView, u32)> {
    key_starts_from(Seq::empty(), q, 0)
}

/// The rule with these halves.
fn make_rule(
    word: &Vec<AugGlyph>,
    pronunciation: &Vec<AugGlyph>,
    mid: u32,
    k1: usize,
    k2: usize,
    s1: usize,
    s2: usize,
    sc1: usize,
    sc2: usize,
    at_start: bool,
    at_end: bool,
) -> (res: HLSubstitution)
    requires
        k1 < k2 <= word.len(),
        s1 < s2 <= k2 - k1,
        sc1 < sc2 <= pronunciation.len(),
    ensures
        res@.anterior.pre_key == word@.subrange(k1 as int, k1 + s1),
        res@.anterior.at_key == word@.subrange(k1 + s1, k1 + s2),
        res@.anterior.post_key == word@.subrange(k1 + s2, k2 as int),
        res@.anterior.at_start == at_start,
        res@.anterior.at_end == at_end,
        res@.mid == mid,
        res@.posterior == pronunciation@.subrange(sc1 as int, sc2 as int),
{
    HLSubstitution {
        anterior: Anterior {
            at_start,
            at_end,
            pre_key: copy_range(word, k1, k1 + s1),
            at_key: copy_range(word, k1 + s1, k1 + s2),
            post_key: copy_range(word, k1 + s2, k2),
        },
        mid,
        posterior: Posterior { content: copy_range(pronunciation, sc1, sc2) },
    }
}

/// How far a word is from its pronunciation once the rule `sub` has been
/// applied to it and then the posterior halves of `rules`; nothing where
/// `sub` does not change the word.
pub fn new_distance_if_new(
    transformed_spelling: &Vec<AugGlyph>,
    base_pronunciation: &Vec<AugGlyph>,
    sub: &HLSubstitution,
    rules: &HLSubstitutionList,
) -> (res: Option<usize>)
    requires
        sub.anterior.at_key.len() > 0,
    ensures
        match res {
            Some(d) => new_distance_spec(transformed_spelling@, base_pronunciation@, sub@, rules@)
                == Some(d as nat),
            None => new_distance_spec(transformed_spelling@, base_pronunciation@, sub@, rules@)
                is None,
        },
{
    match sub.apply_copied(transformed_spelling) {
        Some(new_step_one) => {
            let new_transformed = rules.apply_posterior_copied(&new_step_one);
            Some(levenshtein_distance(&new_transformed, base_pronunciation))
        },
        None => None,
    }
}

/// By how much the rule `sub` changes the distance of a word whose
/// distance was `orig_dist`; by nothing where it does not change the word.
pub fn calc_change(
    transformed_spelling: &Vec<AugGlyph>,
    base_pronunciation: &Vec<AugGlyph>,
    sub: &HLSubstitution,
    rules: &HLSubstitutionList,
    orig_dist: u32,
) -> (res: i64)
    requires
        sub.anterior.at_key.len() > 0,
        new_distance_spec(transformed_spelling@, base_pronunciation@, sub@, rules@) matches Some(d)
            ==> d <= i64::MAX,
    ensures
        res == match new_distance_spec(transformed_spelling@, base_pronunciation@, sub@, rules@) {
            Some(d) => d - orig_dist,
            None => 0,
        },
{
    match new_distance_if_new(transformed_spelling, base_pronunciation, sub, rules) {
        Some(new_dist) => (new_dist as i64) - (orig_dist as i64),
        None => 0,
    }
}

/// The size of a rule: the glyphs of its key and contexts, and one for
/// each end of the word that it is bound to.
pub open spec fn edit_size_spec(a: AnteriorView) -> int {
    a.pre_key.len() + a.at_key.len() + a.post_key.len() + if a.at_start {
        1int
    } else {
        0int
    } + if a.at_end {
        1int
    } else {
        0int
    }
}

/// The size of a rule, or the greatest number where the size is greater
/// than any number.
pub fn edit_size(edit: &HLSubstitution) -> (res: usize)
    ensures
        res == if edit_size_spec(edit@.anterior) <= usize::MAX {
            edit_size_spec(edit@.anterior)
        } else {
            usize::MAX as int
        },
{
    let a = &edit.anterior;
    let ends: usize = (if a.at_start {
        1
    } else {
        0
    }) + (if a.at_end {
        1
    } else {
        0
    });
    a.pre_key.len().saturating_add(a.at_key.len()).saturating_add(
        a.post_key.len(),
    ).saturating_add(ends)
}

fn try_one(
    res: &mut Vec<SubWithImprovement>,
    Ghost(q): Ghost<Quest>,
    word: &Vec<AugGlyph>,
    pronunciation: &Vec<AugGlyph>,
    base_pronunciation: &Vec<AugGlyph>,
    rules: &HLSubstitutionList,
    base_distance: u32,
    mid: u32,
    k1: usize,
    k2: usize,
    s1: usize,
    s2: usize,
    sc1: usize,
    sc2: usize,
    at_start: bool,
    at_end: bool,
)
    requires
        q == quest(word@, pronunciation@, base_pronunciation@, rules@, base_distance, mid),
        k1 < k2 <= word.len(),
        s1 < s2 <= k2 - k1,
        sc1 < sc2 <= pronunciation.len(),
    ensures
        findings_view(final(res)@) == tried(
            findings_view(old(res)@),
            q,
            candidate(
                q,
                k1 as int,
                k2 as int,
                s1 as int,
                s2 as int,
                sc1 as int,
                sc2 as int,
                at_start,
                at_end,
            ),
        ),
{
    let hlsub = make_rule(word, pronunciation, mid, k1, k2, s1, s2, sc1, sc2, at_start, at_end);
    let ghost c = hlsub@;
    proof {
        assert(c.anterior == candidate(
            q,
            k1 as int,
            k2 as int,
            s1 as int,
            s2 as int,
            sc1 as int,
            sc2 as int,
            at_start,
            at_end,
        ).anterior);
    }
    match new_distance_if_new(word, base_pronunciation, &hlsub, rules) {
        Some(new_distance) => {
            if new_distance < base_distance as usize {
                let ghost before = findings_view(res@);
                let improvement = base_distance - (new_distance as u32);
                res.push(SubWithImprovement { sub: hlsub, improvement });
                assert(findings_view(res@) =~= before.push((c, improvement)));
            }
        },
        None => {},
    }
}

fn try_ends(
    res: &mut Vec<SubWithImprovement>,
    Ghost(q): Ghost<Quest>,
    word: &Vec<AugGlyph>,
    pronunciation: &Vec<AugGlyph>,
    base_pronunciation: &Vec<AugGlyph>,
    rules: &HLSubstitutionList,
    base_distance: u32,
    mid: u32,
    k1: usize,
    k2: usize,
    s1: usize,
    s2: usize,
    sc1: usize,
    sc2: usize,
)
    requires
        q == quest(word@, pronunciation@, base_pronunciation@, rules@, base_distance, mid),
        k1 < k2 <= word.len(),
        s1 < s2 <= k2 - k1,
        sc1 < sc2 <= pronunciation.len(),
    ensures
        findings_view(final(res)@) == ends(
            findings_view(old(res)@),
            q,
            k1 as int,
            k2 as int,
            s1 as int,
            s2 as int,
            sc1 as int,
            sc2 as int,
        ),
{
    let first = k1 == 0 || !word[k1 - 1].is_letter_or_phonetic();
    let last = k2 == word.len() || !word[k2].is_letter_or_phonetic();
    if first && last {
        try_one(res, Ghost(q), word, pronunciation, base_pronunciation, rules, base_distance, mid, k1, k2, s1, s2, sc1, sc2, true, true);
    }
    if first {
        try_one(res, Ghost(q), word, pronunciation, base_pronunciation, rules, base_distance, mid, k1, k2, s1, s2, sc1, sc2, true, false);
    }
    if last {
        try_one(res, Ghost(q), word, pronunciation, base_pronunciation, rules, base_distance, mid, k1, k2, s1, s2, sc1, sc2, false, true);
    }
    try_one(res, Ghost(q), word, pronunciation, base_pronunciation, rules, base_distance, mid, k1, k2, s1, s2, sc1, sc2, false, false);
}

fn try_contents(
    res: &mut Vec<SubWithImprovement>,
    Ghost(q): Ghost<Quest>,
    word: &Vec<AugGlyph>,
    pronunciation: &Vec<AugGlyph>,
    base_pronunciation: &Vec<AugGlyph>,
    rules: &HLSubstitutionList,
    base_distance: u32,
    mid: u32,
    k1: usize,
    k2: usize,
    s1: usize,
    s2: usize,
)
    requires
        q == quest(word@, pronunciation@, base_pronunciation@, rules@, base_distance, mid),
        k1 < k2 <= word.len(),
        s1 < s2 <= k2 - k1,
    ensures
        findings_view(final(res)@) == content_starts_from(
            findings_view(old(res)@),
            q,
            k1 as int,
            k2 as int,
            s1 as int,
            s2 as int,
            0,
        ),
{
    let m = pronunciation.len();
    let ghost goal = content_starts_from(
        findings_view(res@),
        q,
        k1 as int,
        k2 as int,
        s1 as int,
        s2 as int,
        0,
    );
    let mut sc1: usize = 0;
    while sc1 < m
        invariant
            m == pronunciation.len(),
            q == quest(word@, pronunciation@, base_pronunciation@, rules@, base_distance, mid),
            k1 < k2 <= word.len(),
            s1 < s2 <= k2 - k1,
            sc1 <= m,
            content_starts_from(
                findings_view(res@),
                q,
                k1 as int,
                k2 as int,
                s1 as int,
                s2 as int,
                sc1 as int,
            ) == goal,
        decreases m - sc1,
    {
        let ghost inner = content_ends_from(
            findings_view(res@),
            q,
            k1 as int,
            k2 as int,
            s1 as int,
            s2 as int,
            sc1 as int,
            sc1 + 1,
        );
        let mut sc2: usize = sc1;
        while sc2 < m
            invariant
                m == pronunciation.len(),
                q == quest(word@, pronunciation@, base_pronunciation@, rules@, base_distance, mid),
                k1 < k2 <= word.len(),
                s1 < s2 <= k2 - k1,
                sc1 <= sc2 <= m,
                content_ends_from(
                    findings_view(res@),
                    q,
                    k1 as int,
                    k2 as int,
                    s1 as int,
                    s2 as int,
                    sc1 as int,
                    sc2 + 1,
                ) == inner,
            decreases m - sc2,
        {
            sc2 += 1;
            try_ends(res, Ghost(q), word, pronunciation, base_pronunciation, rules, base_distance, mid, k1, k2, s1, s2, sc1, sc2);
        }
        sc1 += 1;
    }
}

fn try_stretches(
    res: &mut Vec<SubWithImprovement>,
    Ghost(q): Ghost<Quest>,
    word: &Vec<AugGlyph>,
    pronunciation: &Vec<AugGlyph>,
    base_pronunciation: &Vec<AugGlyph>,
    rules: &HLSubstitutionList,
    base_distance: u32,
    mid: u32,
    k1: usize,
    k2: usize,
)
    requires
        q == quest(word@, pronunciation@, base_pronunciation@, rules@, base_distance, mid),
        k1 < k2 <= word.len(),
    ensures
        findings_view(final(res)@) == stretch_starts_from(
            findings_view(old(res)@),
            q,
            k1 as int,
            k2 as int,
            0,
        ),
{
    let key_size = k2 - k1;
    let ghost goal = stretch_starts_from(
        findings_view(res@),
        q,
        k1 as int,
        k2 as int,
        0,
    );
    let mut s1: usize = 0;
    while s1 < key_size
        invariant
            key_size == k2 - k1,
            q == quest(word@, pronunciation@, base_pronunciation@, rules@, base_distance, mid),
            k1 < k2 <= word.len(),
            s1 <= key_size,
            stretch_starts_from(
                findings_view(res@),
                q,
                k1 as int,
                k2 as int,
                s1 as int,
            ) == goal,
        decreases key_size - s1,
    {
        let ghost inner = stretch_ends_from(
            findings_view(res@),
            q,
            k1 as int,
            k2 as int,
            s1 as int,
            s1 + 1,
        );
        let mut s2: usize = s1;
        while s2 < key_size
            invariant
                key_size == k2 - k1,
                q == quest(word@, pronunciation@, base_pronunciation@, rules@, base_distance, mid),
                k1 < k2 <= word.len(),
                s1 <= s2 <= key_size,
                stretch_ends_from(
                    findings_view(res@),
                    q,
                    k1 as int,
                    k2 as int,
                    s1 as int,
                    s2 + 1,
                ) == inner,
            decreases key_size - s2,
        {
            s2 += 1;
            try_contents(res, Ghost(q), word, pronunciation, base_pronunciation, rules, base_distance, mid, k1, k2, s1, s2);
        }
        s1 += 1;
    }
}

/// Finds every rule with the placeholder `mid` that brings a word closer
/// than `base_distance` to its pronunciation, and what each gains. The key
/// of a rule is taken from the word as it stands, and its content from
/// the pronunciation as it stands.
pub fn find_improving_edits(
    transformed_spelling: &Vec<AugGlyph>,
    back_transformed_pronunciation: &Vec<AugGlyph>,
    base_pronunciation: &Vec<AugGlyph>,
    rules: &HLSubstitutionList,
    base_distance: u32,
    mid: u32,
) -> (res: Vec<SubWithImprovement>)
    ensures
        findings_view(res@) == improving_edits_spec(
            quest(
                transformed_spelling@,
                back_transformed_pronunciation@,
                base_pronunciation@,
                rules@,
                base_distance,
                mid,
            ),
        ),
{
    let word = transformed_spelling;
    let pronunciation = back_transformed_pronunciation;
    let ghost q = quest(word@, pronunciation@, base_pronunciation@, rules@, base_distance, mid);
    let mut res: Vec<SubWithImprovement> = Vec::new();
    let n = word.len();
    assert(findings_view(res@) =~= Seq::<(HLSubstitutionView, u32)>::empty());
    let mut k1: usize = 0;
    while k1 < n
        invariant
            n == word.len(),
            q == quest(word@, pronunciation@, base_pronunciation@, rules@, base_distance, mid),
            k1 <= n,
            key_starts_from(findings_view(res@), q, k1 as int) == improving_edits_spec(q),
        decreases n - k1,
    {
        let ghost inner = key_ends_from(findings_view(res@), q, k1 as int, k1 + 1);
        let mut k2: usize = k1;
        while k2 < n
            invariant
                n == word.len(),
                q == quest(word@, pronunciation@, base_pronunciation@, rules@, base_distance, mid),
                k1 <= k2 <= n,
                key_ends_from(findings_view(res@), q, k1 as int, k2 + 1) == inner,
            decreases n - k2,
        {
            k2 += 1;
            try_stretches(
                &mut res,
                Ghost(q),
                word,
                pronunciation,
                base_pronunciation,
                rules,
                base_distance,
                mid,
                k1,
                k2,
            );
        }
        k1 += 1;
    }
    res
}

/// The corpus as it stands, and the rules found so far.
pub struct IterativeSystem {
    pub dictionary: AugDictionary,
    pub rules: HLSubstitutionList,
}

/// The values of the words of a corpus: for each its spelling as it
/// stands, its pronunciation, its pronunciation as it stands, and its
/// weight.
pub open spec fn words_view(words: Seq<AugDictionaryWord>) -> Seq<
    (Seq<AugGlyph>, Seq<AugGlyph>, Seq<AugGlyph>, i64),
> {
    words.map_values(
        |w: AugDictionaryWord|
            (
                w.transformed_spelling@,
                w.base_pronunciation@,
                w.back_transformed_pronunciation@,
                w.frequency,
            ),
    )
}

/// A word after the rule `sub` has been accepted: the anterior half is
/// applied to the spelling as it stood, and the posterior half is taken
/// back from the pronunciation as it stood.
pub open spec fn accepted_word(
    w: (Seq<AugGlyph>, Seq<AugGlyph>, Seq<AugGlyph>, i64),
    sub: HLSubstitutionView,
) -> (Seq<AugGlyph>, Seq<AugGlyph>, Seq<AugGlyph>, i64) {
    (
        anterior_apply_from(w.0, 0, sub.anterior, sub.mid).0,
        w.1,
        deapply_from(w.2, 0, sub.posterior, sub.mid).0,
        w.3,
    )
}

impl IterativeSystem {
    /// The corpus before any rule has been found beyond `init_rules`: each
    /// word stands as it is spelt and pronounced.
    pub fn setup(dictionary: &Dictionary, init_rules: HLSubstitutionList) -> (res: IterativeSystem)
        ensures
            res.rules == init_rules,
            res.dictionary.words.len() == dictionary.words.len(),
            forall|i: int|
                0 <= i < dictionary.words.len() ==> (#[trigger] words_view(
                    res.dictionary.words@,
                )[i]) == (
                    augment_spec(dictionary.words[i].spelling@),
                    augment_spec(dictionary.words[i].pronunciation@),
                    augment_spec(dictionary.words[i].pronunciation@),
                    dictionary.words[i].frequency,
                ),
    {
        let mut words: Vec<AugDictionaryWord> = Vec::new();
        let mut i: usize = 0;
        while i < dictionary.words.len()
            invariant
                i <= dictionary.words.len(),
                words.len() == i,
                forall|j: int|
                    0 <= j < i ==> (#[trigger] words_view(words@)[j]) == (
                        augment_spec(dictionary.words[j].spelling@),
                        augment_spec(dictionary.words[j].pronunciation@),
                        augment_spec(dictionary.words[j].pronunciation@),
                        dictionary.words[j].frequency,
                    ),
            decreases dictionary.words.len() - i,
        {
            let w = &dictionary.words[i];
            let base_pronunciation = augment(&w.pronunciation);
            let ghost before = words_view(words@);
            let word = AugDictionaryWord {
                transformed_spelling: augment(&w.spelling),
                back_transformed_pronunciation: copy_vec(&base_pronunciation),
                base_pronunciation,
                frequency: w.frequency,
            };
            let ghost wv = (
                word.transformed_spelling@,
                word.base_pronunciation@,
                word.back_transformed_pronunciation@,
                word.frequency,
            );
            words.push(word);
            assert(words_view(words@) =~= before.push(wv));
            i += 1;
        }
        IterativeSystem { dictionary: AugDictionary { words }, rules: init_rules }
    }

    /// Takes the rule `sub` in: it becomes the last rule, and each word of
    /// the corpus is brought up to date.
    pub fn accept(&mut self, sub: HLSubstitution)
        requires
            sub.anterior.at_key.len() > 0,
            sub.posterior.content.len() > 0,
        ensures
            final(self).rules@ == old(self).rules@.push(sub@),
            final(self).dictionary.words.len() == old(self).dictionary.words.len(),
            forall|i: int|
                0 <= i < old(self).dictionary.words.len() ==> (#[trigger] words_view(
                    final(self).dictionary.words@,
                )[i]) == accepted_word(words_view(old(self).dictionary.words@)[i], sub@),
    {
        let mut words: Vec<AugDictionaryWord> = Vec::new();
        let mut i: usize = 0;
        while i < self.dictionary.words.len()
            invariant
                sub.anterior.at_key.len() > 0,
                sub.posterior.content.len() > 0,
                self.dictionary == old(self).dictionary,
                self.rules == old(self).rules,
                i <= self.dictionary.words.len(),
                words.len() == i,
                forall|j: int|
                    0 <= j < i ==> (#[trigger] words_view(words@)[j]) == accepted_word(
                        words_view(self.dictionary.words@)[j],
                        sub@,
                    ),
            decreases self.dictionary.words.len() - i,
        {
            let w = &self.dictionary.words[i];
            let mut transformed_spelling = copy_vec(&w.transformed_spelling);
            let _ = sub.apply_anterior(&mut transformed_spelling);
            let mut back_transformed_pronunciation = copy_vec(&w.back_transformed_pronunciation);
            let _ = sub.deapply_posterior(&mut back_transformed_pronunciation);
            let ghost before = words_view(words@);
            let word = AugDictionaryWord {
                transformed_spelling,
                base_pronunciation: copy_vec(&w.base_pronunciation),
                back_transformed_pronunciation,
                frequency: w.frequency,
            };
            let ghost wv = (
                word.transformed_spelling@,
                word.base_pronunciation@,
                word.back_transformed_pronunciation@,
                word.frequency,
            );
            words.push(word);
            assert(words_view(words@) =~= before.push(wv));
            i += 1;
        }
        let ghost rules_before = hl_view(self.rules.substitutions@);
        let ghost sv = sub@;
        self.rules.substitutions.push(sub);
        assert(hl_view(self.rules.substitutions@) =~= rules_before.push(sv));
        self.dictionary = AugDictionary { words };
    }
}

} // verus!
