//! A best-first search for the one candidate rule that lowers the weighted
//! distance of a corpus the most.
//!
//! Each candidate in the ledger carries a best possible and a worst
//! possible score; a lower score is the better one. A tick of the search
//! either introduces the candidates of one more word, or removes the
//! candidates that cannot win and tightens the bounds of the best ones by
//! measuring them on more words, until one candidate is left that nothing
//! can beat.
//!
//! Scores and weights are whole numbers whose order is all that the search
//! reads. What they measure, and how the bounds follow from what has been
//! measured, is the business of the estimation system.

use vstd::prelude::*;
use vstd::seq_lib::*;
use vstd::map_lib::*;
use vstd::set_lib::*;
use crate::dictionary::Dictionary;
use crate::glyphs::Glyph;
use crate::seqs::{lemma_push_contains, lemma_skip_contains, lemma_take_contains};
use crate::keyed_queue::{
    ScoreQueue, is_top, queue_entries, queue_new, queue_peek, queue_pop, queue_push,
    queue_remove, queue_set_priority, queue_top,
};
use std::collections::HashMap;
use crate::genastarlike::soundness::{
    dominated, has_won, is_honest, is_least, lemma_culled_keeps_one, lemma_tick_empty,
    lemma_tick_is_sound, lemma_tick_keeps_honest, lemma_tick_winner, nothing_to_find,
    sound_system, winner_of,
};

pub mod soundness;

verus! {

broadcast use vstd::std_specs::hash::group_hash_axioms;

/// How many candidates one tick measures further.
pub const EDIT_CHUNK_SIZE: usize = 256;

/// On how many more words one tick measures a candidate.
pub const STEPS_CHUNK_SIZE: usize = 256;

/// A candidate that lowers the distance of the word that it was found at:
/// its number, by how much it lowers that distance, and what its size
/// costs.
#[derive(Clone, Copy, Debug, PartialEq, Eq, Structural)]
pub struct SubWithImprovement {
    pub sub: u64,
    pub improvement: u32,
    pub size_cost: i64,
}

/// What the search needs to know of the rules: which candidates a word
/// gives rise to, and what a word's distance is with and without a
/// candidate. Each answer depends on the question alone.
pub trait EditSystem<EditList> {
    /// The candidates that lower the distance of a word.
    closed spec fn improving_edits(
        &self,
        spelling: Seq<Glyph>,
        pronunciation: Seq<Glyph>,
        prior_rules: &EditList,
    ) -> Seq<SubWithImprovement> {
        arbitrary()
    }

    /// The distance of a word under the rules.
    closed spec fn distance_of(
        &self,
        rules: &EditList,
        spelling: Seq<Glyph>,
        pronunciation: Seq<Glyph>,
    ) -> u32 {
        arbitrary()
    }

    /// The distance of a word under the rules and a candidate, or nothing
    /// where the candidate does not apply to the word.
    closed spec fn new_distance_of(
        &self,
        prior_rules: &EditList,
        new_rule: u64,
        spelling: Seq<Glyph>,
        pronunciation: Seq<Glyph>,
    ) -> Option<u32> {
        arbitrary()
    }

    fn find_improving_edits(
        &self,
        spelling: &Vec<Glyph>,
        pronunciation: &Vec<Glyph>,
        prior_rules: &EditList,
    ) -> (res: Vec<SubWithImprovement>)
        ensures
            res@ == self.improving_edits(spelling@, pronunciation@, prior_rules),
    ;

    fn distance(&self, rules: &EditList, spelling: &Vec<Glyph>, pronunciation: &Vec<Glyph>) -> (d:
        u32)
        ensures
            d == self.distance_of(rules, spelling@, pronunciation@),
    ;

    fn new_distance(
        &self,
        prior_rules: &EditList,
        new_rule: u64,
        spelling: &Vec<Glyph>,
        pronunciation: &Vec<Glyph>,
    ) -> (d: Option<u32>)
        ensures
            d == self.new_distance_of(prior_rules, new_rule, spelling@, pronunciation@),
    ;
}

/// What an estimation system has worked out of the corpus for one round:
/// from it come the running summary of a candidate, and the estimate for
/// the candidates that a word may still give rise to. Ranks count the
/// words in the order in which they are introduced.
pub trait Table<Estimate, Estimator> {
    /// The summary of a candidate found at rank `introducing_i`, whose
    /// change of distance there is known.
    closed spec fn introduce_of(
        &self,
        frequencies_in_introducing_order: Seq<i64>,
        introducing_i: int,
        change_at_introducing_i: i64,
        edit: u64,
    ) -> Estimator {
        arbitrary()
    }

    /// The estimate for whatever the word at rank `introducing_i` may give
    /// rise to.
    closed spec fn estimate_introduce_of(
        &self,
        frequencies_in_introducing_order: Seq<i64>,
        introducing_i: int,
    ) -> Estimate {
        arbitrary()
    }

    /// The summary after the change of distance at rank `updated_i` has
    /// become known.
    closed spec fn update_of(
        &self,
        frequencies_in_introducing_order: Seq<i64>,
        current_distances_in_introducing_order: Seq<u32>,
        introduced_i: int,
        updated_i: int,
        change_at_updated_i: i64,
        prev_estimate: Estimator,
    ) -> Estimator {
        arbitrary()
    }

    fn introduce(
        &self,
        frequencies_in_introducing_order: &Vec<i64>,
        introducing_i: usize,
        change_at_introducing_i: i64,
        edit: u64,
    ) -> (res: Estimator)
        requires
            introducing_i < frequencies_in_introducing_order.len(),
        ensures
            res == self.introduce_of(
                frequencies_in_introducing_order@,
                introducing_i as int,
                change_at_introducing_i,
                edit,
            ),
    ;

    fn estimate_introduce(
        &self,
        frequencies_in_introducing_order: &Vec<i64>,
        introducing_i: usize,
    ) -> (res: Estimate)
        requires
            introducing_i < frequencies_in_introducing_order.len(),
        ensures
            res == self.estimate_introduce_of(
                frequencies_in_introducing_order@,
                introducing_i as int,
            ),
    ;

    fn update_edit(
        &self,
        frequencies_in_introducing_order: &Vec<i64>,
        current_distances_in_introducing_order: &Vec<u32>,
        introduced_i: usize,
        updated_i: usize,
        change_at_updated_i: i64,
        prev_estimate: Estimator,
    ) -> (res: Estimator)
        requires
            frequencies_in_introducing_order.len() == current_distances_in_introducing_order.len(),
            introduced_i < frequencies_in_introducing_order.len(),
            updated_i < frequencies_in_introducing_order.len(),
            introduced_i != updated_i,
        ensures
            res == self.update_of(
                frequencies_in_introducing_order@,
                current_distances_in_introducing_order@,
                introduced_i as int,
                updated_i as int,
                change_at_updated_i,
                prev_estimate,
            ),
    ;
}

/// The estimation system: it builds the table of a round, orders the words
/// for introduction, and turns a summary into an estimate and an estimate
/// into bounds.
pub trait EstimationSystem<T: Table<Estimate, Estimator>, Estimate, Estimator> {
    /// The table for a corpus whose weights and distances are given in
    /// introducing order.
    closed spec fn table_of(
        &self,
        frequencies_in_introducing_order: Seq<i64>,
        current_distances_in_introducing_order: Seq<u32>,
    ) -> T {
        arbitrary()
    }

    /// The key by which a word of this weight and distance is ordered for
    /// introduction: the words with the lesser keys come first.
    closed spec fn introducing_key_of(&self, frequency: i64, distance: u32) -> i64 {
        arbitrary()
    }

    /// The estimate that a summary stands for.
    closed spec fn estimate_of(&self, estimator: Estimator) -> Estimate {
        arbitrary()
    }

    /// The best score that is possible under an estimate for a candidate
    /// of this size cost.
    closed spec fn best_possible_of(&self, estimate: Estimate, size_cost: i64) -> i64 {
        arbitrary()
    }

    /// The worst score that is possible under an estimate for a candidate
    /// of this size cost.
    closed spec fn worst_possible_of(&self, estimate: Estimate, size_cost: i64) -> i64 {
        arbitrary()
    }

    fn build_table(
        &self,
        frequencies_in_introducing_order: &Vec<i64>,
        current_distances_in_introducing_order: &Vec<u32>,
    ) -> (res: T)
        requires
            frequencies_in_introducing_order.len() == current_distances_in_introducing_order.len(),
        ensures
            res == self.table_of(
                frequencies_in_introducing_order@,
                current_distances_in_introducing_order@,
            ),
    ;

    fn introducing_key(&self, frequency: i64, distance: u32) -> (res: i64)
        ensures
            res == self.introducing_key_of(frequency, distance),
    ;

    fn calc_estimate(&self, estimator: &Estimator) -> (res: Estimate)
        ensures
            res == self.estimate_of(*estimator),
    ;

    fn calc_best_possible(&self, estimate: &Estimate, size_cost: i64) -> (res: i64)
        ensures
            res == self.best_possible_of(*estimate, size_cost),
    ;

    fn calc_worst_possible(&self, estimate: &Estimate, size_cost: i64) -> (res: i64)
        ensures
            res == self.worst_possible_of(*estimate, size_cost),
    ;
}

/// How a round ends: with the candidate that lowers the weighted distance
/// the most and the score that it reaches, or with the best candidate
/// there is, which lowers nothing.
#[derive(Clone, Copy, Debug, PartialEq, Eq, Structural)]
pub enum Outcome {
    FoundImprovement(u64, i64),
    FailedToFindImprovement(u64, i64),
}

/// What the ledger holds of a live candidate.
pub struct WorkingEntry<Estimator> {
    /// The running summary of what has been measured.
    pub estimator: Estimator,
    /// No full measurement can give a better score than this.
    pub best_possible: i64,
    /// No full measurement can give a worse score than this.
    pub worst_possible: i64,
    /// What the size of the candidate costs.
    pub size_cost: i64,
    /// The rank of the word that the candidate was found at.
    pub introducing_index: usize,
    /// The rank of the next word to measure the candidate on.
    pub next_to_explore_index: usize,
}

/// What a round works from and does not change: the corpus, the rules
/// found so far, the distance of each word under them, the order in which
/// the words are introduced, and the table of the estimation system.
pub struct ReferenceData<'d, T, EditList> {
    pub dictionary: &'d Dictionary,
    pub rules: &'d EditList,
    pub n: usize,
    pub current_distances: Vec<u32>,
    pub table: T,
    /// The word at each rank.
    pub introducing_order: Vec<usize>,
    /// The rank of each word.
    pub introducing_order_rev: Vec<usize>,
    pub frequencies_in_introducing_order: Vec<i64>,
    pub current_distances_in_introducing_order: Vec<u32>,
}

/// Whether `order` ranks each of `n` words once.
pub open spec fn is_ranking(order: Seq<usize>, n: int) -> bool {
    &&& order.len() == n
    &&& forall|i: int| 0 <= i < n ==> (#[trigger] order[i]) < n
    &&& forall|i: int, j: int| 0 <= i < j < n ==> order[i] != order[j]
}

impl<'d, T, EditList> ReferenceData<'d, T, EditList> {
    /// The reference data hold together: every table has an entry for each
    /// word, the introducing order ranks each word once, the other order
    /// leads back from each word to its rank, and the tables in
    /// introducing order hold what the word at each rank has.
    pub open spec fn wf(&self) -> bool {
        let n = self.n as int;
        &&& self.dictionary.words.len() == n
        &&& self.current_distances.len() == n
        &&& self.introducing_order_rev.len() == n
        &&& self.frequencies_in_introducing_order.len() == n
        &&& self.current_distances_in_introducing_order.len() == n
        &&& is_ranking(self.introducing_order@, n)
        &&& forall|i: int|
            0 <= i < n ==> self.introducing_order_rev[(#[trigger] self.introducing_order[i]) as int]
                == i
        &&& forall|i: int|
            0 <= i < n ==> (#[trigger] self.frequencies_in_introducing_order[i])
                == self.dictionary.words[self.introducing_order[i] as int].frequency
        &&& forall|i: int|
            0 <= i < n ==> (#[trigger] self.current_distances_in_introducing_order[i])
                == self.current_distances[self.introducing_order[i] as int]
    }

    /// The spelling of the word at rank `i`.
    pub open spec fn spelling_at(&self, i: int) -> Seq<Glyph> {
        self.dictionary.words[self.introducing_order[i] as int].spelling@
    }

    /// The pronunciation of the word at rank `i`.
    pub open spec fn pronunciation_at(&self, i: int) -> Seq<Glyph> {
        self.dictionary.words[self.introducing_order[i] as int].pronunciation@
    }
}

/// Whether `keys` never fall from one rank of `order` to the next, and
/// words of one key stand in the order of the corpus.
pub open spec fn ordered_by_keys(order: Seq<usize>, keys: Seq<i64>) -> bool {
    forall|a: int, b: int|
        0 <= a < b < order.len() ==> {
            ||| keys[(#[trigger] order[a]) as int] < keys[(#[trigger] order[b]) as int]
            ||| (keys[order[a] as int] == keys[order[b] as int] && order[a] < order[b])
        }
}

/// Whether each of `pairs` has its own place as its second part.
pub open spec fn numbered(pairs: Seq<(i64, usize)>) -> bool {
    forall|i: int| 0 <= i < pairs.len() ==> (#[trigger] pairs[i]).1 == i
}

/// Whether the first parts of `pairs` never fall from one pair to the
/// next, and pairs of one first part stand by rising second parts.
pub open spec fn ordered_pairs(pairs: Seq<(i64, usize)>) -> bool {
    forall|a: int, b: int|
        0 <= a < b < pairs.len() ==> {
            ||| (#[trigger] pairs[a]).0 < (#[trigger] pairs[b]).0
            ||| (pairs[a].0 == pairs[b].0 && pairs[a].1 < pairs[b].1)
        }
}

/// Sorts `pairs` by their first parts: `slice::sort_by_key`, which
/// rearranges the items so that their keys never fall, and leaves items of
/// one key in the order in which they stood. So where each pair had its
/// place as its second part, pairs of one first part stand by rising
/// second parts afterwards.
#[verifier::external_body]
fn sort_by_key(pairs: &mut Vec<(i64, usize)>)
    ensures
        final(pairs)@.to_multiset() == old(pairs)@.to_multiset(),
        numbered(old(pairs)@) ==> ordered_pairs(final(pairs)@),
{
    pairs.sort_by_key(|pair| pair.0);
}

/// Pairs that are the numbered pairs `start` in another order: each is the
/// pair of `start` that its second part names, and no two have the same
/// second part.
pub proof fn lemma_rearranged_is_ranking(sorted: Seq<(i64, usize)>, start: Seq<(i64, usize)>)
    requires
        numbered(start),
        sorted.to_multiset() == start.to_multiset(),
    ensures
        sorted.len() == start.len(),
        forall|i: int|
            0 <= i < sorted.len() ==> (#[trigger] sorted[i]).1 < start.len() && sorted[i]
                == start[sorted[i].1 as int],
        forall|i: int, j: int|
            0 <= i < j < sorted.len() ==> (#[trigger] sorted[i]).1 != (#[trigger] sorted[j]).1,
{
    broadcast use {to_multiset_len, to_multiset_contains};

    assert(start.no_duplicates());
    start.lemma_multiset_has_no_duplicates();
    sorted.lemma_multiset_has_no_duplicates_conv();
    to_multiset_len(sorted);
    to_multiset_len(start);
    assert forall|i: int| 0 <= i < sorted.len() implies (#[trigger] sorted[i]).1 < start.len()
        && sorted[i] == start[sorted[i].1 as int] by {
        assert(sorted.contains(sorted[i]));
        assert(start.to_multiset().contains(sorted[i]));
        assert(start.contains(sorted[i]));
        let k = choose|k: int| 0 <= k < start.len() && start[k] == sorted[i];
        assert(start[k].1 == k);
    }
    assert forall|i: int, j: int| 0 <= i < j < sorted.len() implies (#[trigger] sorted[i]).1 != (
    #[trigger] sorted[j]).1 by {
        if sorted[i].1 == sorted[j].1 {
            assert(sorted[i] == start[sorted[i].1 as int]);
            assert(sorted[j] == start[sorted[j].1 as int]);
            assert(sorted[i] == sorted[j]);
        }
    }
}

/// The distance of word `j` of the corpus under the rules.
pub open spec fn word_distance<EditList, EditSys: EditSystem<EditList>>(
    edit_sys: &EditSys,
    dictionary: &Dictionary,
    rules: &EditList,
    j: int,
) -> u32 {
    edit_sys.distance_of(
        rules,
        dictionary.words[j].spelling@,
        dictionary.words[j].pronunciation@,
    )
}

/// The key by which word `j` of the corpus is ordered for introduction.
pub open spec fn word_key<
    T: Table<Estimate, Estimator>,
    Estimate,
    Estimator,
    EstSys: EstimationSystem<T, Estimate, Estimator>,
    EditList,
    EditSys: EditSystem<EditList>,
>(est_sys: &EstSys, edit_sys: &EditSys, dictionary: &Dictionary, rules: &EditList, j: int) -> i64 {
    est_sys.introducing_key_of(
        dictionary.words[j].frequency,
        word_distance(edit_sys, dictionary, rules, j),
    )
}

/// Whether `r` is what the two systems make of its corpus and rules: each
/// distance is the one that the edit system gives, the words are ranked by
/// the keys that the estimation system gives them, words of one key in the
/// order of the corpus, and the table is the one that the estimation
/// system builds.
pub open spec fn built_from<
    'd,
    T: Table<Estimate, Estimator>,
    Estimate,
    Estimator,
    EstSys: EstimationSystem<T, Estimate, Estimator>,
    EditList,
    EditSys: EditSystem<EditList>,
>(r: &ReferenceData<'d, T, EditList>, est_sys: &EstSys, edit_sys: &EditSys) -> bool {
    &&& forall|j: int|
        0 <= j < r.n ==> (#[trigger] r.current_distances[j]) == word_distance(
            edit_sys,
            r.dictionary,
            r.rules,
            j,
        )
    &&& ordered_by_keys(
        r.introducing_order@,
        Seq::new(
            r.n as nat,
            |j: int| word_key::<T, Estimate, Estimator, EstSys, EditList, EditSys>(est_sys, edit_sys, r.dictionary, r.rules, j),
        ),
    )
    &&& r.table == est_sys.table_of(
        r.frequencies_in_introducing_order@,
        r.current_distances_in_introducing_order@,
    )
}

/// Builds the reference data of a round: measures each word, ranks the
/// words for introduction, and has the estimation system build its table.
pub fn init_ref_data<
    'd,
    T: Table<Estimate, Estimator>,
    Estimate,
    Estimator,
    EstSys: EstimationSystem<T, Estimate, Estimator>,
    EditList,
    EditSys: EditSystem<EditList>,
>(est_sys: &EstSys, edit_sys: &EditSys, dictionary: &'d Dictionary, rules: &'d EditList) -> (r:
    ReferenceData<'d, T, EditList>)
    ensures
        r.wf(),
        r.dictionary == dictionary,
        r.rules == rules,
        built_from(&r, est_sys, edit_sys),
{
    let n = dictionary.words.len();
    let mut current_distances: Vec<u32> = Vec::new();
    let mut pairs: Vec<(i64, usize)> = Vec::new();
    let mut j: usize = 0;
    while j < n
        invariant
            n == dictionary.words.len(),
            j <= n,
            current_distances.len() == j,
            pairs.len() == j,
            numbered(pairs@),
            forall|k: int|
                0 <= k < j ==> (#[trigger] current_distances[k]) == word_distance(
                    edit_sys,
                    dictionary,
                    rules,
                    k,
                ),
            forall|k: int|
                0 <= k < j ==> (#[trigger] pairs[k]).0 == word_key::<T, Estimate, Estimator, EstSys, EditList, EditSys>(
                    est_sys,
                    edit_sys,
                    dictionary,
                    rules,
                    k,
                ),
        decreases n - j,
    {
        let w = &dictionary.words[j];
        let d = edit_sys.distance(rules, &w.spelling, &w.pronunciation);
        current_distances.push(d);
        pairs.push((est_sys.introducing_key(w.frequency, d), j));
        j += 1;
    }
    let ghost start = pairs@;
    let ghost keys = Seq::new(
        n as nat,
        |j: int| word_key::<T, Estimate, Estimator, EstSys, EditList, EditSys>(est_sys, edit_sys, dictionary, rules, j),
    );
    sort_by_key(&mut pairs);
    proof {
        lemma_rearranged_is_ranking(pairs@, start);
    }
    let mut introducing_order: Vec<usize> = Vec::new();
    let mut i: usize = 0;
    while i < n
        invariant
            i <= n,
            pairs.len() == n,
            introducing_order.len() == i,
            forall|k: int| 0 <= k < i ==> (#[trigger] introducing_order[k]) == pairs[k].1,
        decreases n - i,
    {
        introducing_order.push(pairs[i].1);
        i += 1;
    }
    proof {
        assert(is_ranking(introducing_order@, n as int)) by {
            assert forall|i: int| 0 <= i < n implies (#[trigger] introducing_order[i]) < n by {
                assert(pairs[i].1 < n);
            }
            assert forall|i: int, j: int| 0 <= i < j < n implies introducing_order[i]
                != introducing_order[j] by {
                assert(pairs[i].1 != pairs[j].1);
            }
        }
        assert(ordered_by_keys(introducing_order@, keys)) by {
            assert forall|a: int, b: int| 0 <= a < b < introducing_order.len() implies {
                ||| keys[(#[trigger] introducing_order[a]) as int] < keys[(
                #[trigger] introducing_order[b]) as int]
                ||| (keys[introducing_order[a] as int] == keys[introducing_order[b] as int]
                    && introducing_order[a] < introducing_order[b])
            } by {
                assert(pairs[a] == start[pairs[a].1 as int]);
                assert(pairs[b] == start[pairs[b].1 as int]);
                assert(pairs[a].0 < pairs[b].0 || (pairs[a].0 == pairs[b].0 && pairs[a].1
                    < pairs[b].1));
            }
        }
    }
    let mut introducing_order_rev: Vec<usize> = Vec::new();
    let mut i: usize = 0;
    while i < n
        invariant
            i <= n,
            introducing_order_rev.len() == i,
        decreases n - i,
    {
        introducing_order_rev.push(0);
        i += 1;
    }
    let mut frequencies_in_introducing_order: Vec<i64> = Vec::new();
    let mut current_distances_in_introducing_order: Vec<u32> = Vec::new();
    let mut i: usize = 0;
    while i < n
        invariant
            n == dictionary.words.len(),
            i <= n,
            is_ranking(introducing_order@, n as int),
            current_distances.len() == n,
            introducing_order_rev.len() == n,
            frequencies_in_introducing_order.len() == i,
            current_distances_in_introducing_order.len() == i,
            forall|k: int|
                0 <= k < i ==> introducing_order_rev[(#[trigger] introducing_order[k]) as int] == k,
            forall|k: int|
                0 <= k < i ==> (#[trigger] frequencies_in_introducing_order[k])
                    == dictionary.words[introducing_order[k] as int].frequency,
            forall|k: int|
                0 <= k < i ==> (#[trigger] current_distances_in_introducing_order[k])
                    == current_distances[introducing_order[k] as int],
        decreases n - i,
    {
        let word = introducing_order[i];
        introducing_order_rev.set(word, i);
        frequencies_in_introducing_order.push(dictionary.words[word].frequency);
        current_distances_in_introducing_order.push(current_distances[word]);
        i += 1;
    }
    let table = est_sys.build_table(
        &frequencies_in_introducing_order,
        &current_distances_in_introducing_order,
    );
    ReferenceData {
        dictionary,
        rules,
        n,
        current_distances,
        table,
        introducing_order,
        introducing_order_rev,
        frequencies_in_introducing_order,
        current_distances_in_introducing_order,
    }
}

/// The candidate ledger: the live candidates with what is known of each,
/// ordered both from the best and from the worst of their best possible
/// scores, and the number of words that have been introduced.
pub struct WorkingData<Estimator> {
    working_table: HashMap<u64, WorkingEntry<Estimator>>,
    /// The candidates by falling priority, the one with the least best
    /// possible score first.
    best_possible: ScoreQueue,
    /// The candidates by falling best possible score.
    best_possible_rev: ScoreQueue,
    introducing_working_index: usize,
}

/// The priority of a score in the order that puts the least score first.
pub open spec fn least_first(score: i64) -> i64 {
    (-1 - score) as i64
}

/// Whether `k` is a candidate of `entries` whose best possible score is the
/// least.
pub open spec fn is_best<Estimator>(entries: Map<u64, WorkingEntry<Estimator>>, k: u64) -> bool {
    &&& entries.contains_key(k)
    &&& forall|other: u64|
        entries.contains_key(other) ==> entries[k].best_possible
            <= (#[trigger] entries[other]).best_possible
}

/// Whether `k` is a candidate of `entries` whose best possible score is the
/// greatest.
pub open spec fn is_weakest<Estimator>(entries: Map<u64, WorkingEntry<Estimator>>, k: u64) -> bool {
    &&& entries.contains_key(k)
    &&& forall|other: u64|
        entries.contains_key(other) ==> (#[trigger] entries[other]).best_possible
            <= entries[k].best_possible
}

impl<Estimator> WorkingData<Estimator> {
    /// The live candidates, each with its entry.
    pub closed spec fn entries(&self) -> Map<u64, WorkingEntry<Estimator>> {
        self.working_table@
    }

    /// The number of words that have been introduced.
    pub closed spec fn cursor(&self) -> nat {
        self.introducing_working_index as nat
    }

    /// The ledger is consistent: the table and the two orders hold the same
    /// candidates, and each order holds each candidate by the best
    /// possible score of its entry.
    pub closed spec fn wf(&self) -> bool {
        &&& queue_entries(self.best_possible).dom() == self.working_table@.dom()
        &&& queue_entries(self.best_possible_rev).dom() == self.working_table@.dom()
        &&& forall|k: u64| #[trigger]
            self.working_table@.contains_key(k) ==> {
                &&& queue_entries(self.best_possible)[k] == least_first(
                    self.working_table@[k].best_possible,
                )
                &&& queue_entries(self.best_possible_rev)[k]
                    == self.working_table@[k].best_possible
            }
    }

    /// The candidate that stands first among those whose best possible
    /// score is the least: the one that is looked at for a winner, and
    /// that is measured further before any other.
    pub closed spec fn top(&self) -> Option<u64> {
        match queue_top(self.best_possible) {
            Some(t) => Some(t.0),
            None => None,
        }
    }

    /// The live candidates are finitely many.
    pub proof fn lemma_finite(&self)
        ensures
            self.entries().dom().finite(),
    {
    }

    /// The number of live candidates.
    pub fn len(&self) -> (n: usize)
        ensures
            n == self.entries().dom().len(),
    {
        self.working_table.len()
    }

    /// Whether there is no live candidate.
    pub fn is_empty(&self) -> (res: bool)
        ensures
            res == (self.entries().dom().len() == 0),
            res == (self.entries() == Map::<u64, WorkingEntry<Estimator>>::empty()),
    {
        let n = self.working_table.len();
        proof {
            if n == 0 {
                assert(self.working_table@.dom() =~= Set::<u64>::empty());
                assert(self.working_table@ =~= Map::<u64, WorkingEntry<Estimator>>::empty());
            }
        }
        n == 0
    }

    /// The number of words that have been introduced.
    pub fn introduced(&self) -> (n: usize)
        ensures
            n == self.cursor(),
    {
        self.introducing_working_index
    }

    /// Whether `sub` is a live candidate.
    pub fn contains(&self, sub: u64) -> (res: bool)
        ensures
            res == self.entries().contains_key(sub),
    {
        self.working_table.contains_key(&sub)
    }

    /// The entry of a live candidate.
    pub fn get(&self, sub: u64) -> (res: Option<&WorkingEntry<Estimator>>)
        ensures
            match res {
                Some(e) => self.entries().contains_key(sub) && *e == self.entries()[sub],
                None => !self.entries().contains_key(sub),
            },
    {
        self.working_table.get(&sub)
    }

    /// A candidate whose best possible score is the least, if there is a
    /// candidate.
    pub fn peek_best(&self) -> (res: Option<u64>)
        requires
            self.wf(),
        ensures
            res == self.top(),
            match res {
                Some(k) => is_best(self.entries(), k),
                None => self.entries() == Map::<u64, WorkingEntry<Estimator>>::empty(),
            },
    {
        match queue_peek(&self.best_possible) {
            Some((k, p)) => {
                proof {
                    assert forall|other: u64| self.entries().contains_key(other) implies self.entries()[k].best_possible
                        <= (#[trigger] self.entries()[other]).best_possible by {
                        assert(queue_entries(self.best_possible).contains_key(other));
                        assert(queue_entries(self.best_possible)[other] <= p);
                    }
                }
                Some(k)
            },
            None => {
                proof {
                    assert(self.working_table@.dom() =~= Set::<u64>::empty());
                    assert(self.working_table@ =~= Map::<u64, WorkingEntry<Estimator>>::empty());
                }
                None
            },
        }
    }

    /// A candidate whose best possible score is the greatest, if there is a
    /// candidate.
    pub fn peek_weakest(&self) -> (res: Option<u64>)
        requires
            self.wf(),
        ensures
            match res {
                Some(k) => is_weakest(self.entries(), k),
                None => self.entries() == Map::<u64, WorkingEntry<Estimator>>::empty(),
            },
    {
        match queue_peek(&self.best_possible_rev) {
            Some((k, p)) => {
                proof {
                    assert forall|other: u64| self.entries().contains_key(other) implies (
                    #[trigger] self.entries()[other]).best_possible
                        <= self.entries()[k].best_possible by {
                        assert(queue_entries(self.best_possible_rev).contains_key(other));
                        assert(queue_entries(self.best_possible_rev)[other] <= p);
                    }
                }
                Some(k)
            },
            None => {
                proof {
                    assert(self.working_table@.dom() =~= Set::<u64>::empty());
                    assert(self.working_table@ =~= Map::<u64, WorkingEntry<Estimator>>::empty());
                }
                None
            },
        }
    }

    /// Puts a candidate into the ledger, or gives a live candidate a new
    /// entry.
    pub fn insert(&mut self, sub: u64, entry: WorkingEntry<Estimator>)
        requires
            old(self).wf(),
        ensures
            final(self).wf(),
            final(self).entries() == old(self).entries().insert(sub, entry),
            final(self).cursor() == old(self).cursor(),
    {
        let best = entry.best_possible;
        self.working_table.insert(sub, entry);
        queue_push(&mut self.best_possible, sub, -1 - best);
        queue_push(&mut self.best_possible_rev, sub, best);
        proof {
            assert(queue_entries(self.best_possible).dom() =~= self.working_table@.dom());
            assert(queue_entries(self.best_possible_rev).dom() =~= self.working_table@.dom());
        }
    }

    /// Takes a candidate out of the ledger, if it is a live one.
    pub fn remove(&mut self, sub: u64) -> (res: Option<WorkingEntry<Estimator>>)
        requires
            old(self).wf(),
        ensures
            final(self).wf(),
            final(self).entries() == old(self).entries().remove(sub),
            final(self).cursor() == old(self).cursor(),
            match res {
                Some(e) => old(self).entries().contains_key(sub) && e == old(self).entries()[sub],
                None => !old(self).entries().contains_key(sub),
            },
    {
        let res = self.working_table.remove(&sub);
        let _ = queue_remove(&mut self.best_possible, sub);
        let _ = queue_remove(&mut self.best_possible_rev, sub);
        proof {
            assert(queue_entries(self.best_possible).dom() =~= self.working_table@.dom());
            assert(queue_entries(self.best_possible_rev).dom() =~= self.working_table@.dom());
        }
        res
    }
}

/// A ledger without candidates, before the first word.
pub fn init_working_data<Estimator>() -> (w: WorkingData<Estimator>)
    ensures
        w.wf(),
        w.entries() == Map::<u64, WorkingEntry<Estimator>>::empty(),
        w.cursor() == 0,
{
    let w = WorkingData {
        working_table: HashMap::new(),
        best_possible: queue_new(),
        best_possible_rev: queue_new(),
        introducing_working_index: 0,
    };
    proof {
        assert(queue_entries(w.best_possible).dom() =~= w.working_table@.dom());
        assert(queue_entries(w.best_possible_rev).dom() =~= w.working_table@.dom());
    }
    w
}

/// The entry that a candidate enters the ledger with when it is found at
/// `rank`: the change of distance at that rank is known, no other word has
/// been measured, and the bounds are those of the estimation system.
pub open spec fn initial_entry<
    T: Table<Estimate, Estimator>,
    Estimate,
    Estimator,
    EstSys: EstimationSystem<T, Estimate, Estimator>,
>(
    est_sys: &EstSys,
    table: &T,
    frequencies: Seq<i64>,
    rank: int,
    cand: SubWithImprovement,
) -> WorkingEntry<Estimator> {
    let estimator = table.introduce_of(frequencies, rank, (-(cand.improvement as int)) as i64, cand.sub);
    let estimate = est_sys.estimate_of(estimator);
    WorkingEntry {
        estimator,
        best_possible: est_sys.best_possible_of(estimate, cand.size_cost),
        worst_possible: est_sys.worst_possible_of(estimate, cand.size_cost),
        size_cost: cand.size_cost,
        introducing_index: rank as usize,
        next_to_explore_index: 0,
    }
}

/// The ledger after the candidates from number `j` on have been
/// introduced at `rank`: each that is not a live candidate yet comes in
/// with its initial entry, and a live one keeps the entry that it has.
pub open spec fn introduced<
    T: Table<Estimate, Estimator>,
    Estimate,
    Estimator,
    EstSys: EstimationSystem<T, Estimate, Estimator>,
>(
    entries: Map<u64, WorkingEntry<Estimator>>,
    est_sys: &EstSys,
    table: &T,
    frequencies: Seq<i64>,
    rank: int,
    cands: Seq<SubWithImprovement>,
    j: int,
) -> Map<u64, WorkingEntry<Estimator>>
    decreases cands.len() - j,
{
    if j < 0 || j >= cands.len() {
        entries
    } else if entries.contains_key(cands[j].sub) {
        introduced(entries, est_sys, table, frequencies, rank, cands, j + 1)
    } else {
        introduced(
            entries.insert(
                cands[j].sub,
                initial_entry::<T, Estimate, Estimator, EstSys>(est_sys, table, frequencies, rank, cands[j]),
            ),
            est_sys,
            table,
            frequencies,
            rank,
            cands,
            j + 1,
        )
    }
}

/// Whether each entry of a ledger belongs to a corpus of `n` words: the
/// candidate was found at one of its ranks, and has been measured on no
/// more than its words.
pub open spec fn fits<Estimator>(entries: Map<u64, WorkingEntry<Estimator>>, n: int) -> bool {
    forall|k: u64| #[trigger]
        entries.contains_key(k) ==> entries[k].introducing_index < n
            && entries[k].next_to_explore_index <= n
}

/// Introducing keeps the live candidates, with their entries, and brings
/// in only entries that belong to the corpus.
pub proof fn lemma_introduced<
    T: Table<Estimate, Estimator>,
    Estimate,
    Estimator,
    EstSys: EstimationSystem<T, Estimate, Estimator>,
>(
    entries: Map<u64, WorkingEntry<Estimator>>,
    est_sys: &EstSys,
    table: &T,
    frequencies: Seq<i64>,
    rank: int,
    cands: Seq<SubWithImprovement>,
    j: int,
    n: int,
)
    requires
        0 <= rank < n,
        n <= usize::MAX,
    ensures
        entries.submap_of(
            introduced::<T, Estimate, Estimator, EstSys>(entries, est_sys, table, frequencies, rank, cands, j),
        ),
        fits(entries, n) ==> fits(
            introduced::<T, Estimate, Estimator, EstSys>(entries, est_sys, table, frequencies, rank, cands, j),
            n,
        ),
    decreases cands.len() - j,
{
    if 0 <= j < cands.len() {
        if entries.contains_key(cands[j].sub) {
            lemma_introduced::<T, Estimate, Estimator, EstSys>(entries, est_sys, table, frequencies, rank, cands, j + 1, n);
        } else {
            let next = entries.insert(
                cands[j].sub,
                initial_entry::<T, Estimate, Estimator, EstSys>(est_sys, table, frequencies, rank, cands[j]),
            );
            lemma_introduced::<T, Estimate, Estimator, EstSys>(next, est_sys, table, frequencies, rank, cands, j + 1, n);
            assert(entries.submap_of(next));
            lemma_submap_of_trans(
                entries,
                next,
                introduced::<T, Estimate, Estimator, EstSys>(next, est_sys, table, frequencies, rank, cands, j + 1),
            );
        }
    }
}

/// The estimate for what the next word may give rise to, while there is a
/// word that has not been introduced.
pub fn estimate_from_introducing_iterator<
    'd,
    T: Table<Estimate, Estimator>,
    Estimate,
    Estimator,
    EditList,
>(r: &ReferenceData<'d, T, EditList>, w: &WorkingData<Estimator>) -> (res: Option<Estimate>)
    requires
        r.wf(),
    ensures
        match res {
            Some(e) => w.cursor() < r.n && e == r.table.estimate_introduce_of(
                r.frequencies_in_introducing_order@,
                w.cursor() as int,
            ),
            None => w.cursor() >= r.n,
        },
{
    if w.introducing_working_index < r.n {
        Some(
            r.table.estimate_introduce(
                &r.frequencies_in_introducing_order,
                w.introducing_working_index,
            ),
        )
    } else {
        None
    }
}

/// The candidates that the word at rank `i` gives rise to.
pub open spec fn improving_edits_at<'d, T, EditList, EditSys: EditSystem<EditList>>(
    edit_sys: &EditSys,
    r: &ReferenceData<'d, T, EditList>,
    i: int,
) -> Seq<SubWithImprovement> {
    edit_sys.improving_edits(r.spelling_at(i), r.pronunciation_at(i), r.rules)
}

fn improving_edits_at_i<'d, T, EditList, EditSys: EditSystem<EditList>>(
    edit_sys: &EditSys,
    r: &ReferenceData<'d, T, EditList>,
    i: usize,
) -> (res: Vec<SubWithImprovement>)
    requires
        r.wf(),
        i < r.n,
    ensures
        res@ == improving_edits_at(edit_sys, r, i as int),
{
    let j = r.introducing_order[i];
    let w = &r.dictionary.words[j];
    edit_sys.find_improving_edits(&w.spelling, &w.pronunciation, r.rules)
}

/// Introduces the next word: each candidate that it gives rise to and that
/// is not a live candidate yet enters the ledger. Where every word has
/// been introduced, nothing happens.
pub fn introduce<
    'd,
    T: Table<Estimate, Estimator>,
    Estimate,
    Estimator,
    EstSys: EstimationSystem<T, Estimate, Estimator>,
    EditList,
    EditSys: EditSystem<EditList>,
>(
    est_sys: &EstSys,
    edit_sys: &EditSys,
    r: &ReferenceData<'d, T, EditList>,
    w: &mut WorkingData<Estimator>,
)
    requires
        r.wf(),
        old(w).wf(),
    ensures
        final(w).wf(),
        old(w).cursor() >= r.n ==> final(w).cursor() == old(w).cursor() && final(w).entries()
            == old(w).entries(),
        old(w).cursor() < r.n ==> final(w).cursor() == old(w).cursor() + 1 && final(w).entries()
            == introduced::<T, Estimate, Estimator, EstSys>(
            old(w).entries(),
            est_sys,
            &r.table,
            r.frequencies_in_introducing_order@,
            old(w).cursor() as int,
            improving_edits_at(edit_sys, r, old(w).cursor() as int),
            0,
        ),
{
    if w.introducing_working_index >= r.n {
        return ;
    }
    let i = w.introducing_working_index;
    let introducing_improving_edits = improving_edits_at_i(edit_sys, r, i);
    let ghost cands = introducing_improving_edits@;
    let mut j: usize = 0;
    while j < introducing_improving_edits.len()
        invariant
            r.wf(),
            w.wf(),
            i < r.n,
            w.cursor() == i,
            j <= introducing_improving_edits.len(),
            cands == introducing_improving_edits@,
            introduced::<T, Estimate, Estimator, EstSys>(
                w.entries(),
                est_sys,
                &r.table,
                r.frequencies_in_introducing_order@,
                i as int,
                cands,
                j as int,
            ) == introduced::<T, Estimate, Estimator, EstSys>(
                old(w).entries(),
                est_sys,
                &r.table,
                r.frequencies_in_introducing_order@,
                i as int,
                cands,
                0,
            ),
        decreases introducing_improving_edits.len() - j,
    {
        let edit = introducing_improving_edits[j];
        if !w.contains(edit.sub) {
            let change: i64 = 0 - (edit.improvement as i64);
            let init_estimator = r.table.introduce(
                &r.frequencies_in_introducing_order,
                i,
                change,
                edit.sub,
            );
            let e = est_sys.calc_estimate(&init_estimator);
            let best_possible = est_sys.calc_best_possible(&e, edit.size_cost);
            let worst_possible = est_sys.calc_worst_possible(&e, edit.size_cost);
            let entry = WorkingEntry {
                estimator: init_estimator,
                best_possible,
                worst_possible,
                size_cost: edit.size_cost,
                introducing_index: i,
                next_to_explore_index: 0,
            };
            w.insert(edit.sub, entry);
        }
        j += 1;
    }
    w.introducing_working_index = i + 1;
}

/// A candidate of a part of a ledger is a candidate of the whole, with the
/// same entry.
pub proof fn lemma_submap_entry<Estimator>(
    part: Map<u64, WorkingEntry<Estimator>>,
    whole: Map<u64, WorkingEntry<Estimator>>,
    k: u64,
)
    requires
        part.submap_of(whole),
        part.contains_key(k),
    ensures
        whole.contains_key(k),
        part[k] == whole[k],
{
    assert(part.dom().contains(k) ==> whole.dom().contains(k) && part[k] == whole[k]);
}

/// Whether `k` is a candidate of `entries` that could still beat a score of
/// `bound`.
pub open spec fn survives<Estimator>(
    entries: Map<u64, WorkingEntry<Estimator>>,
    k: u64,
    bound: i64,
) -> bool {
    entries.contains_key(k) && entries[k].best_possible < bound
}

/// Whether `after` is what culling against `bound` leaves of `before`.
///
/// Where there are two candidates or more, those go whose best possible
/// score is not better than `bound`; but one candidate always stays, and
/// where none is better than `bound` it is one whose best possible score
/// is the least. A candidate that stays keeps its entry.
pub open spec fn is_culled<Estimator>(
    before: Map<u64, WorkingEntry<Estimator>>,
    bound: i64,
    after: Map<u64, WorkingEntry<Estimator>>,
) -> bool {
    &&& after.submap_of(before)
    &&& before.dom().len() <= 1 ==> after == before
    &&& before.dom().len() > 1 ==> if exists|k: u64| survives(before, k, bound) {
        forall|k: u64| after.contains_key(k) <==> survives(before, k, bound)
    } else {
        exists|k: u64| is_best(before, k) && after.dom() == set![k]
    }
}

/// Culling twice against one bound removes nothing the second time.
pub proof fn lemma_cull_idempotent<Estimator>(
    first: Map<u64, WorkingEntry<Estimator>>,
    bound: i64,
    second: Map<u64, WorkingEntry<Estimator>>,
    third: Map<u64, WorkingEntry<Estimator>>,
)
    requires
        first.dom().finite(),
        is_culled(first, bound, second),
        is_culled(second, bound, third),
    ensures
        third == second,
{
    if second.dom().len() > 1 {
        if first.dom().len() <= 1 {
            assert(second == first);
        }
        if !(exists|k: u64| survives(first, k, bound)) {
            let k = choose|k: u64| is_best(first, k) && second.dom() == set![k];
            assert(second.dom().len() == 1);
        }
        assert forall|k: u64| second.contains_key(k) implies survives(second, k, bound) by {
            assert(survives(first, k, bound));
        }
        assert(second.dom().len() > 0);
        let some = second.dom().choose();
        lemma_set_subset_finite(first.dom(), second.dom());
        assert(second.dom().contains(some));
        assert(survives(second, some, bound));
        assert(third =~= second);
    }
}

impl<Estimator> WorkingData<Estimator> {
    /// Removes the candidates that cannot beat a score of `bound`, the
    /// weakest first, down to the last candidate at most.
    pub fn cull_against(&mut self, bound: i64)
        requires
            old(self).wf(),
        ensures
            final(self).wf(),
            final(self).cursor() == old(self).cursor(),
            is_culled(old(self).entries(), bound, final(self).entries()),
    {
        let ghost before = self.entries();
        proof {
            self.lemma_finite();
        }
        loop
            invariant
                self.wf(),
                before == old(self).entries(),
                before.dom().finite(),
                self.cursor() == old(self).cursor(),
                self.entries().submap_of(before),
                before.dom().len() <= 1 ==> self.entries() == before,
                before.dom().len() >= 1 ==> self.entries().dom().len() >= 1,
                forall|k: u64|
                    before.contains_key(k) && !self.entries().contains_key(k) ==> (
                    #[trigger] before[k]).best_possible >= bound,
                forall|k: u64, other: u64|
                    before.contains_key(k) && !self.entries().contains_key(k)
                        && self.entries().contains_key(other) ==> (#[trigger] before[k]).best_possible
                        >= (#[trigger] before[other]).best_possible,
            ensures
                self.wf(),
                self.cursor() == old(self).cursor(),
                is_culled(before, bound, self.entries()),
            decreases self.entries().dom().len(),
        {
            let ghost now = self.entries();
            proof {
                self.lemma_finite();
                lemma_len_subset(now.dom(), before.dom());
            }
            if self.len() <= 1 {
                proof {
                    if before.dom().len() > 1 {
                        assert(now.dom().len() == 1);
                        let last = now.dom().choose();
                        assert(now.dom().contains(last));
                        Set::lemma_is_singleton(now.dom());
                        assert(now.dom() =~= set![last]);
                        if exists|k: u64| survives(before, k, bound) {
                            let s = choose|k: u64| survives(before, k, bound);
                            assert(now.contains_key(s));
                            assert(s == last);
                            assert forall|k: u64| now.contains_key(k) <==> survives(
                                before,
                                k,
                                bound,
                            ) by {
                                if survives(before, k, bound) {
                                    assert(now.contains_key(k));
                                }
                                if now.contains_key(k) {
                                    assert(k == last);
                                }
                            }
                        } else {
                            assert forall|other: u64| before.contains_key(other) implies before[last].best_possible
                                <= (#[trigger] before[other]).best_possible by {
                                if now.contains_key(other) {
                                    assert(other == last);
                                }
                            }
                            assert(is_best(before, last));
                        }
                    }
                }
                break ;
            }
            let weakest = match self.peek_weakest() {
                Some(k) => k,
                None => {
                    break ;
                },
            };
            let worst_best = match self.get(weakest) {
                Some(e) => e.best_possible,
                None => {
                    break ;
                },
            };
            if worst_best >= bound {
                let _ = self.remove(weakest);
                proof {
                    assert forall|k: u64, other: u64|
                        before.contains_key(k) && !self.entries().contains_key(k)
                            && self.entries().contains_key(other) implies (#[trigger] before[k]).best_possible
                        >= (#[trigger] before[other]).best_possible by {
                        assert(now.contains_key(other));
                        lemma_submap_entry(now, before, other);
                        if k == weakest {
                            lemma_submap_entry(now, before, weakest);
                            assert(now[other].best_possible <= now[weakest].best_possible);
                        }
                    }
                }
            } else {
                proof {
                    assert(before.dom().len() > 1);
                    lemma_submap_entry(now, before, weakest);
                    assert(survives(before, weakest, bound));
                    assert forall|k: u64| now.contains_key(k) <==> survives(before, k, bound) by {
                        if now.contains_key(k) {
                            lemma_submap_entry(now, before, k);
                            assert(now[k].best_possible <= now[weakest].best_possible);
                        }
                    }
                }
                break ;
            }
        }
    }
}

/// Culls the ledger against the worst possible score of a best candidate:
/// what cannot beat even that will not win.
pub fn cull_working_table<Estimator>(w: &mut WorkingData<Estimator>)
    requires
        old(w).wf(),
    ensures
        final(w).wf(),
        final(w).cursor() == old(w).cursor(),
        match old(w).top() {
            Some(top) => is_best(old(w).entries(), top) && is_culled(
                old(w).entries(),
                old(w).entries()[top].worst_possible,
                final(w).entries(),
            ),
            None => final(w).entries() == old(w).entries(),
        },
{
    let best_top = match w.peek_best() {
        Some(k) => k,
        None => {
            return ;
        },
    };
    let best_worst = match w.get(best_top) {
        Some(e) => e.worst_possible,
        None => {
            return ;
        },
    };
    w.cull_against(best_worst);
}

/// How a round ends with this candidate and this score: a score below zero
/// is an improvement.
pub open spec fn outcome_of(sub: u64, best_possible: i64) -> Outcome {
    if best_possible < 0 {
        Outcome::FoundImprovement(sub, best_possible)
    } else {
        Outcome::FailedToFindImprovement(sub, best_possible)
    }
}

/// How a round ends with this candidate and this score.
pub fn produce_outcome(best_possible_sub: u64, best_possible: i64) -> (res: Outcome)
    ensures
        res == outcome_of(best_possible_sub, best_possible),
{
    if best_possible < 0 {
        Outcome::FoundImprovement(best_possible_sub, best_possible)
    } else {
        Outcome::FailedToFindImprovement(best_possible_sub, best_possible)
    }
}

/// Whether the best candidate `sub` has won, and how the round ends then.
///
/// It has won where it is the only live candidate and even its worst
/// possible score is no worse than the best that a word not yet introduced
/// could give rise to, and where it has been measured on every word.
pub open spec fn verdict<Estimator>(
    sub: u64,
    entry: WorkingEntry<Estimator>,
    live: nat,
    from_introducing: Option<i64>,
    n: nat,
) -> Option<Outcome> {
    let alone = live == 1 && match from_introducing {
        Some(b) => entry.worst_possible <= b,
        None => true,
    };
    if alone || entry.next_to_explore_index >= n {
        Some(outcome_of(sub, entry.best_possible))
    } else {
        None
    }
}

/// Looks whether a best candidate of the ledger has won.
pub fn check_for_winner<'d, T, Estimator, EditList>(
    r: &ReferenceData<'d, T, EditList>,
    w: &WorkingData<Estimator>,
    best_possible_from_introducing_iterator: Option<i64>,
) -> (res: Option<Outcome>)
    requires
        w.wf(),
        w.entries().dom().len() > 0,
    ensures
        w.top() matches Some(top) && is_best(w.entries(), top) && res == verdict(
            top,
            w.entries()[top],
            w.entries().dom().len(),
            best_possible_from_introducing_iterator,
            r.n as nat,
        ),
{
    proof {
        w.lemma_finite();
    }
    let best_possible_sub = match w.peek_best() {
        Some(k) => k,
        None => {
            assert(w.entries().dom() =~= Set::<u64>::empty());
            return None;
        },
    };
    let working_table_len = w.len();
    let working = match w.get(best_possible_sub) {
        Some(e) => e,
        None => {
            return None;
        },
    };
    let alone = working_table_len == 1 && match best_possible_from_introducing_iterator {
        Some(b) => working.worst_possible <= b,
        None => true,
    };
    let res = if alone || working.next_to_explore_index >= r.n {
        Some(produce_outcome(best_possible_sub, working.best_possible))
    } else {
        None
    };
    assert(res == verdict(
        best_possible_sub,
        w.entries()[best_possible_sub],
        w.entries().dom().len(),
        best_possible_from_introducing_iterator,
        r.n as nat,
    ));
    res
}

/// What measuring a candidate further gives: its new summary, and the
/// rank of the next word to measure it on.
pub struct WorkIntermediate<Estimator> {
    pub estimator: Estimator,
    pub next_to_explore_index: usize,
}

/// By how much the candidate `sub` changes the distance of the word at
/// `rank`; by nothing where it does not apply to the word.
pub open spec fn change_at<'d, T, EditList, EditSys: EditSystem<EditList>>(
    edit_sys: &EditSys,
    r: &ReferenceData<'d, T, EditList>,
    sub: u64,
    rank: int,
) -> i64 {
    match edit_sys.new_distance_of(r.rules, sub, r.spelling_at(rank), r.pronunciation_at(rank)) {
        Some(new_dist) => (new_dist - r.current_distances_in_introducing_order[rank]) as i64,
        None => 0,
    }
}

/// The summary of the candidate `sub` after it has been measured on the
/// words from rank `from` up to rank `to`, one after the other, but for
/// the word that it was found at, whose change is in the summary from
/// the start.
pub open spec fn advanced_estimator<
    'd,
    T: Table<Estimate, Estimator>,
    Estimate,
    Estimator,
    EditList,
    EditSys: EditSystem<EditList>,
>(
    edit_sys: &EditSys,
    r: &ReferenceData<'d, T, EditList>,
    sub: u64,
    introducing_index: int,
    estimator: Estimator,
    from: int,
    to: int,
) -> Estimator
    decreases to - from,
{
    if from >= to {
        estimator
    } else if from == introducing_index {
        advanced_estimator::<T, Estimate, Estimator, EditList, EditSys>(edit_sys, r, sub, introducing_index, estimator, from + 1, to)
    } else {
        advanced_estimator::<T, Estimate, Estimator, EditList, EditSys>(
            edit_sys,
            r,
            sub,
            introducing_index,
            r.table.update_of(
                r.frequencies_in_introducing_order@,
                r.current_distances_in_introducing_order@,
                introducing_index,
                from,
                change_at(edit_sys, r, sub, from),
                estimator,
            ),
            from + 1,
            to,
        )
    }
}

/// The rank at which measuring stops when it begins at rank `next` and
/// takes `steps` words at most of a corpus of `n`.
pub open spec fn stop_rank(next: int, steps: int, n: int) -> int {
    if next >= n {
        next
    } else if n - next < steps {
        n
    } else {
        next + steps
    }
}

fn change_with_new<EditList, EditSys: EditSystem<EditList>>(
    edit_sys: &EditSys,
    prior_edits: &EditList,
    edit: u64,
    spelling: &Vec<Glyph>,
    pronunciation: &Vec<Glyph>,
    orig_dist: u32,
) -> (res: i64)
    ensures
        res == match edit_sys.new_distance_of(prior_edits, edit, spelling@, pronunciation@) {
            Some(new_dist) => (new_dist - orig_dist) as i64,
            None => 0,
        },
{
    match edit_sys.new_distance(prior_edits, edit, spelling, pronunciation) {
        Some(new_dist) => (new_dist as i64) - (orig_dist as i64),
        None => 0,
    }
}

/// Measures the candidate `sub` on the next words, `num_to_advance` of
/// them at most.
pub fn advance_many<
    'd,
    T: Table<Estimate, Estimator>,
    Estimate,
    Estimator,
    EditList,
    EditSys: EditSystem<EditList>,
>(
    edit_sys: &EditSys,
    r: &ReferenceData<'d, T, EditList>,
    sub: u64,
    working: WorkingEntry<Estimator>,
    num_to_advance: usize,
) -> (res: WorkIntermediate<Estimator>)
    requires
        r.wf(),
        working.introducing_index < r.n,
    ensures
        res.next_to_explore_index == stop_rank(
            working.next_to_explore_index as int,
            num_to_advance as int,
            r.n as int,
        ),
        res.estimator == advanced_estimator::<T, Estimate, Estimator, EditList, EditSys>(
            edit_sys,
            r,
            sub,
            working.introducing_index as int,
            working.estimator,
            working.next_to_explore_index as int,
            res.next_to_explore_index as int,
        ),
{
    let from = working.next_to_explore_index;
    let introducing_index = working.introducing_index;
    let to: usize = if from >= r.n {
        from
    } else if r.n - from < num_to_advance {
        r.n
    } else {
        from + num_to_advance
    };
    let ghost first = working.estimator;
    let mut estimator = working.estimator;
    let mut j: usize = from;
    while j < to
        invariant
            r.wf(),
            introducing_index < r.n,
            from <= j <= to,
            to <= r.n || to == from,
            advanced_estimator::<T, Estimate, Estimator, EditList, EditSys>(
                edit_sys,
                r,
                sub,
                introducing_index as int,
                estimator,
                j as int,
                to as int,
            ) == advanced_estimator::<T, Estimate, Estimator, EditList, EditSys>(
                edit_sys,
                r,
                sub,
                introducing_index as int,
                first,
                from as int,
                to as int,
            ),
        decreases to - j,
    {
        if j != introducing_index {
            let word = &r.dictionary.words[r.introducing_order[j]];
            let change = change_with_new(
                edit_sys,
                r.rules,
                sub,
                &word.spelling,
                &word.pronunciation,
                r.current_distances_in_introducing_order[j],
            );
            estimator =
            r.table.update_edit(
                &r.frequencies_in_introducing_order,
                &r.current_distances_in_introducing_order,
                introducing_index,
                j,
                change,
                estimator,
            );
        }
        j += 1;
    }
    WorkIntermediate { estimator, next_to_explore_index: to }
}

/// The entry of the candidate `sub` after one tick has measured it
/// further: the summary has taken in the next words, and the bounds are
/// those that the estimation system gives for it.
pub open spec fn advanced_entry<
    'd,
    T: Table<Estimate, Estimator>,
    Estimate,
    Estimator,
    EstSys: EstimationSystem<T, Estimate, Estimator>,
    EditList,
    EditSys: EditSystem<EditList>,
>(
    est_sys: &EstSys,
    edit_sys: &EditSys,
    r: &ReferenceData<'d, T, EditList>,
    sub: u64,
    entry: WorkingEntry<Estimator>,
) -> WorkingEntry<Estimator> {
    let to = stop_rank(entry.next_to_explore_index as int, STEPS_CHUNK_SIZE as int, r.n as int);
    let estimator = advanced_estimator::<T, Estimate, Estimator, EditList, EditSys>(
        edit_sys,
        r,
        sub,
        entry.introducing_index as int,
        entry.estimator,
        entry.next_to_explore_index as int,
        to,
    );
    let estimate = est_sys.estimate_of(estimator);
    WorkingEntry {
        estimator,
        best_possible: est_sys.best_possible_of(estimate, entry.size_cost),
        worst_possible: est_sys.worst_possible_of(estimate, entry.size_cost),
        size_cost: entry.size_cost,
        introducing_index: entry.introducing_index,
        next_to_explore_index: to as usize,
    }
}

/// Whether `chunk` is what a tick takes from the ledger `before` to
/// measure further: the first candidates of the ledger, best first, as
/// many as a tick takes or all there are.
pub open spec fn is_chunk<Estimator>(
    before: Map<u64, WorkingEntry<Estimator>>,
    chunk: Seq<u64>,
) -> bool {
    &&& chunk.no_duplicates()
    &&& chunk.len() == if before.dom().len() < EDIT_CHUNK_SIZE {
        before.dom().len()
    } else {
        EDIT_CHUNK_SIZE as nat
    }
    &&& forall|i: int| 0 <= i < chunk.len() ==> before.contains_key(#[trigger] chunk[i])
    &&& forall|i: int, j: int|
        0 <= i < j < chunk.len() ==> before[#[trigger] chunk[i]].best_possible
            <= before[#[trigger] chunk[j]].best_possible
    &&& forall|i: int, other: u64|
        0 <= i < chunk.len() && before.contains_key(other) && !chunk.contains(other)
            ==> before[#[trigger] chunk[i]].best_possible
            <= (#[trigger] before[other]).best_possible
}

/// Whether `after` is the ledger `before` with the candidates of `chunk`
/// measured further: each of them has its advanced entry, whatever the
/// order in which they were measured, and every other candidate has the
/// entry that it had.
pub open spec fn is_worked<
    'd,
    T: Table<Estimate, Estimator>,
    Estimate,
    Estimator,
    EstSys: EstimationSystem<T, Estimate, Estimator>,
    EditList,
    EditSys: EditSystem<EditList>,
>(
    before: Map<u64, WorkingEntry<Estimator>>,
    chunk: Seq<u64>,
    after: Map<u64, WorkingEntry<Estimator>>,
    est_sys: &EstSys,
    edit_sys: &EditSys,
    r: &ReferenceData<'d, T, EditList>,
) -> bool {
    &&& after.dom() == before.dom()
    &&& forall|k: u64| #[trigger]
        before.contains_key(k) ==> after[k] == if chunk.contains(k) {
            advanced_entry::<T, Estimate, Estimator, EstSys, EditList, EditSys>(est_sys, edit_sys, r, k, before[k])
        } else {
            before[k]
        }
}

/// Measures the first candidates of the ledger further, as many as a tick
/// takes: each is measured on its next words, its bounds are worked out
/// anew, and the two orders of the ledger are brought up to date.
pub fn do_work<
    'd,
    T: Table<Estimate, Estimator>,
    Estimate,
    Estimator,
    EstSys: EstimationSystem<T, Estimate, Estimator>,
    EditList,
    EditSys: EditSystem<EditList>,
>(
    est_sys: &EstSys,
    edit_sys: &EditSys,
    r: &ReferenceData<'d, T, EditList>,
    w: &mut WorkingData<Estimator>,
)
    requires
        r.wf(),
        old(w).wf(),
        fits(old(w).entries(), r.n as int),
    ensures
        final(w).wf(),
        final(w).cursor() == old(w).cursor(),
        exists|chunk: Seq<u64>|
            {
                &&& #[trigger] is_chunk(old(w).entries(), chunk)
                &&& old(w).top() matches Some(t) ==> chunk.len() > 0 && chunk[0] == t
                &&& is_worked::<T, Estimate, Estimator, EstSys, EditList, EditSys>(
                    old(w).entries(),
                    chunk,
                    final(w).entries(),
                    est_sys,
                    edit_sys,
                    r,
                )
            },
{
    let ghost before = w.entries();
    let ghost q0 = queue_entries(w.best_possible);
    let ghost first = w.top();
    proof {
        w.lemma_finite();
    }
    let mut edit_chunk: Vec<u64> = Vec::new();
    proof {
        assert(q0.remove_keys(edit_chunk@.to_set()) =~= q0);
    }
    while edit_chunk.len() < EDIT_CHUNK_SIZE
        invariant
            before.dom().finite(),
            q0.dom() == before.dom(),
            w.working_table@ == before,
            w.introducing_working_index == old(w).introducing_working_index,
            queue_entries(w.best_possible_rev) == queue_entries(old(w).best_possible_rev),
            queue_entries(w.best_possible) == q0.remove_keys(edit_chunk@.to_set()),
            edit_chunk.len() <= EDIT_CHUNK_SIZE,
            edit_chunk@.no_duplicates(),
            forall|i: int| 0 <= i < edit_chunk.len() ==> q0.contains_key(#[trigger] edit_chunk[i]),
            forall|i: int, j: int|
                0 <= i < j < edit_chunk.len() ==> q0[#[trigger] edit_chunk[i]]
                    >= q0[#[trigger] edit_chunk[j]],
            forall|i: int, other: u64|
                0 <= i < edit_chunk.len() && q0.contains_key(other) && !edit_chunk@.contains(other)
                    ==> q0[#[trigger] edit_chunk[i]] >= (#[trigger] q0[other]),
            first matches Some(t) ==> (if edit_chunk.len() == 0 {
                queue_top(w.best_possible) matches Some(top) && top.0 == t
            } else {
                edit_chunk[0] == t
            }),
        ensures
            before.dom().finite(),
            q0.dom() == before.dom(),
            w.working_table@ == before,
            w.introducing_working_index == old(w).introducing_working_index,
            queue_entries(w.best_possible_rev) == queue_entries(old(w).best_possible_rev),
            queue_entries(w.best_possible) == q0.remove_keys(edit_chunk@.to_set()),
            edit_chunk@.no_duplicates(),
            forall|i: int| 0 <= i < edit_chunk.len() ==> q0.contains_key(#[trigger] edit_chunk[i]),
            forall|i: int, j: int|
                0 <= i < j < edit_chunk.len() ==> q0[#[trigger] edit_chunk[i]]
                    >= q0[#[trigger] edit_chunk[j]],
            forall|i: int, other: u64|
                0 <= i < edit_chunk.len() && q0.contains_key(other) && !edit_chunk@.contains(other)
                    ==> q0[#[trigger] edit_chunk[i]] >= (#[trigger] q0[other]),
            first matches Some(t) ==> edit_chunk.len() > 0 && edit_chunk[0] == t,
            edit_chunk.len() == EDIT_CHUNK_SIZE || edit_chunk@.to_set() == before.dom(),
        decreases EDIT_CHUNK_SIZE - edit_chunk.len(),
    {
        let ghost taken = edit_chunk@;
        let ghost left = queue_entries(w.best_possible);
        match queue_pop(&mut w.best_possible) {
            Some((sub, priority)) => {
                edit_chunk.push(sub);
                proof {
                    assert(is_top(left, (sub, priority)));
                    assert(left.contains_key(sub));
                    assert(!taken.to_set().contains(sub));
                    assert(!taken.contains(sub));
                    assert forall|x: u64| edit_chunk@.to_set().contains(x)
                        <==> taken.to_set().insert(sub).contains(x) by {
                        lemma_push_contains(taken, sub, x);
                    }
                    assert(edit_chunk@.to_set() =~= taken.to_set().insert(sub));
                    assert(queue_entries(w.best_possible) =~= q0.remove_keys(
                        edit_chunk@.to_set(),
                    ));
                    assert forall|i: int, j: int|
                        0 <= i < j < edit_chunk.len() implies q0[#[trigger] edit_chunk[i]]
                        >= q0[#[trigger] edit_chunk[j]] by {
                        if j == taken.len() {
                            assert(edit_chunk[i] == taken[i]);
                        }
                    }
                    assert forall|i: int, other: u64|
                        0 <= i < edit_chunk.len() && q0.contains_key(other) && !edit_chunk@.contains(
                            other,
                        ) implies q0[#[trigger] edit_chunk[i]] >= (#[trigger] q0[other]) by {
                        lemma_push_contains(taken, sub, other);
                        if !taken.contains(other) {
                            if i == taken.len() {
                                assert(!taken.to_set().contains(other));
                                assert(left.contains_key(other));
                                assert(left[other] <= priority);
                                assert(left[other] == q0[other]);
                                assert(left[sub] == q0[sub]);
                            } else {
                                assert(edit_chunk[i] == taken[i]);
                            }
                        } else {
                            let at = choose|at: int| 0 <= at < taken.len() && taken[at] == other;
                            assert(edit_chunk@[at] == other);
                        }
                    }
                }
            },
            None => {
                proof {
                    assert forall|k: u64| before.dom().contains(k) implies edit_chunk@.to_set().contains(
                        k,
                    ) by {
                        if !edit_chunk@.to_set().contains(k) {
                            assert(q0.remove_keys(edit_chunk@.to_set()).contains_key(k));
                        }
                    }
                    assert(edit_chunk@.to_set() =~= before.dom());
                }
                break ;
            },
        }
    }
    let ghost chunk = edit_chunk@;
    proof {
        chunk.unique_seq_to_set();
        assert(chunk.to_set().subset_of(before.dom())) by {
            assert forall|k: u64| chunk.to_set().contains(k) implies before.dom().contains(k) by {
                let at = choose|at: int| 0 <= at < chunk.len() && chunk[at] == k;
                assert(q0.contains_key(chunk[at]));
            }
        }
        lemma_len_subset(chunk.to_set(), before.dom());
        assert forall|i: int, j: int| 0 <= i < j < chunk.len() implies before[#[trigger] chunk[i]].best_possible
            <= before[#[trigger] chunk[j]].best_possible by {
            assert(before.contains_key(chunk[i]));
            assert(before.contains_key(chunk[j]));
        }
        assert forall|i: int, other: u64|
            0 <= i < chunk.len() && before.contains_key(other) && !chunk.contains(other) implies before[#[trigger] chunk[i]].best_possible
            <= (#[trigger] before[other]).best_possible by {
            assert(before.contains_key(chunk[i]));
            assert(q0[chunk[i]] >= q0[other]);
        }
        assert(is_chunk(before, chunk));
        assert(chunk.skip(0) =~= chunk);
        assert(chunk.take(0) =~= Seq::<u64>::empty());
        assert forall|k: u64| #[trigger]
            queue_entries(w.best_possible).contains_key(k) <==> before.contains_key(k)
                && !chunk.skip(0).contains(k) by {
            assert(chunk.to_set().contains(k) <==> chunk.contains(k));
        }
    }
    let mut i: usize = 0;
    while i < edit_chunk.len()
        invariant
            r.wf(),
            fits(before, r.n as int),
            i <= edit_chunk.len(),
            chunk == edit_chunk@,
            chunk.no_duplicates(),
            forall|j: int| 0 <= j < chunk.len() ==> before.contains_key(#[trigger] chunk[j]),
            w.introducing_working_index == old(w).introducing_working_index,
            w.working_table@.dom() == before.dom(),
            forall|k: u64| #[trigger]
                before.contains_key(k) ==> w.working_table@[k] == if chunk.take(i as int).contains(k) {
                    advanced_entry::<T, Estimate, Estimator, EstSys, EditList, EditSys>(est_sys, edit_sys, r, k, before[k])
                } else {
                    before[k]
                },
            forall|k: u64|
                #[trigger] queue_entries(w.best_possible).contains_key(k) <==> before.contains_key(k)
                    && !chunk.skip(i as int).contains(k),
            forall|k: u64| #[trigger]
                queue_entries(w.best_possible).contains_key(k) ==> queue_entries(
                    w.best_possible,
                )[k] == least_first(w.working_table@[k].best_possible),
            queue_entries(w.best_possible_rev).dom() == before.dom(),
            forall|k: u64| #[trigger]
                before.contains_key(k) ==> queue_entries(w.best_possible_rev)[k]
                    == w.working_table@[k].best_possible,
        decreases edit_chunk.len() - i,
    {
        let sub = edit_chunk[i];
        let ghost table_before = w.working_table@;
        let ghost best_before = queue_entries(w.best_possible);
        proof {
            assert(before.contains_key(chunk[i as int]));
            assert(!chunk.take(i as int).contains(sub)) by {
                let done = chunk.take(i as int);
                if done.contains(sub) {
                    let at = choose|at: int| 0 <= at < done.len() && done[at] == sub;
                    assert(chunk[at] == chunk[i as int]);
                }
            }
        }
        match w.working_table.remove(&sub) {
            None => {
                proof {
                    assert(false);
                }
            },
            Some(working) => {
                let size_cost = working.size_cost;
                let introducing_index = working.introducing_index;
                let ghost was = working;
                let intermediate = advance_many(edit_sys, r, sub, working, STEPS_CHUNK_SIZE);
                let e = est_sys.calc_estimate(&intermediate.estimator);
                let best_possible = est_sys.calc_best_possible(&e, size_cost);
                let worst_possible = est_sys.calc_worst_possible(&e, size_cost);
                let _ = queue_set_priority(&mut w.best_possible_rev, sub, best_possible);
                queue_push(&mut w.best_possible, sub, -1 - best_possible);
                let entry = WorkingEntry {
                    estimator: intermediate.estimator,
                    best_possible,
                    worst_possible,
                    size_cost,
                    introducing_index,
                    next_to_explore_index: intermediate.next_to_explore_index,
                };
                proof {
                    assert(was == before[sub]);
                    assert(entry == advanced_entry::<T, Estimate, Estimator, EstSys, EditList, EditSys>(est_sys, edit_sys, r, sub, before[sub]));
                }
                w.working_table.insert(sub, entry);
                proof {
                    assert(w.working_table@.dom() =~= before.dom());
                    assert(queue_entries(w.best_possible_rev).dom() =~= before.dom());
                    assert forall|k: u64| #[trigger] before.contains_key(k) implies w.working_table@[k]
                        == if chunk.take(i + 1).contains(k) {
                        advanced_entry::<T, Estimate, Estimator, EstSys, EditList, EditSys>(est_sys, edit_sys, r, k, before[k])
                    } else {
                        before[k]
                    } by {
                        lemma_take_contains(chunk, i as int, k);
                    }
                    assert forall|k: u64| #[trigger]
                        queue_entries(w.best_possible).contains_key(k) <==> before.contains_key(k)
                            && !chunk.skip(i + 1).contains(k) by {
                        lemma_skip_contains(chunk, i as int, k);
                        assert(best_before.contains_key(k) <==> before.contains_key(k)
                            && !chunk.skip(i as int).contains(k));
                        if k == sub {
                            assert(!chunk.skip(i + 1).contains(sub)) by {
                                let rest = chunk.skip(i + 1);
                                if rest.contains(sub) {
                                    let at = choose|at: int| 0 <= at < rest.len() && rest[at] == sub;
                                    assert(chunk[i + 1 + at] == chunk[i as int]);
                                }
                            }
                        }
                    }
                    assert forall|k: u64| #[trigger]
                        queue_entries(w.best_possible).contains_key(k) implies queue_entries(
                        w.best_possible,
                    )[k] == least_first(w.working_table@[k].best_possible) by {
                        if k != sub {
                            assert(best_before.contains_key(k));
                            assert(before.contains_key(k));
                        }
                    }
                }
            },
        }
        i += 1;
    }
    proof {
        assert(chunk.take(chunk.len() as int) =~= chunk);
        assert(chunk.skip(chunk.len() as int) =~= Seq::<u64>::empty());
        assert(queue_entries(w.best_possible).dom() =~= w.working_table@.dom());
        assert(is_worked::<T, Estimate, Estimator, EstSys, EditList, EditSys>(
            before,
            chunk,
            w.entries(),
            est_sys,
            edit_sys,
            r,
        ));
    }
}

/// What is left to measure in a ledger: each live candidate with each
/// rank from its next one up to the end of the corpus, the end itself
/// counted in.
pub open spec fn pending<Estimator>(entries: Map<u64, WorkingEntry<Estimator>>, n: int) -> Set<
    (u64, int),
> {
    Set::new(
        |p: (u64, int)|
            entries.contains_key(p.0) && entries[p.0].next_to_explore_index <= p.1 <= n,
    )
}

/// How much is left to measure in a ledger. No tick that leaves the
/// introducing to later makes it more, and a tick that measures makes it
/// less.
pub open spec fn potential<Estimator>(entries: Map<u64, WorkingEntry<Estimator>>, n: int) -> nat {
    pending(entries, n).len()
}

/// The ranks of one candidate that are left to measure are finitely many.
proof fn lemma_slice_finite(k: u64, from: int, n: int)
    ensures
        Set::new(|p: (u64, int)| p.0 == k && from <= p.1 <= n).finite(),
{
    let ranks = set_int_range(from, n + 1);
    let slice = Set::new(|p: (u64, int)| p.0 == k && from <= p.1 <= n);
    if from <= n {
        lemma_int_range(from, n + 1);
        ranks.lemma_map_finite(|j: int| (k, j));
        assert forall|p: (u64, int)| slice.contains(p) implies ranks.map(|j: int| (k, j)).contains(
            p,
        ) by {
            assert(ranks.contains(p.1));
            assert(p == (k, p.1));
        }
        lemma_set_subset_finite(ranks.map(|j: int| (k, j)), slice);
    } else {
        assert(slice =~= Set::<(u64, int)>::empty());
    }
}

/// What is left to measure in a ledger of finitely many candidates is
/// finite.
pub proof fn lemma_pending_finite<Estimator>(entries: Map<u64, WorkingEntry<Estimator>>, n: int)
    requires
        entries.dom().finite(),
    ensures
        pending(entries, n).finite(),
    decreases entries.dom().len(),
{
    if entries.dom().len() == 0 {
        assert(entries.dom() =~= Set::<u64>::empty());
        assert(pending(entries, n) =~= Set::<(u64, int)>::empty());
    } else {
        let k = entries.dom().choose();
        let rest = entries.remove(k);
        lemma_pending_finite(rest, n);
        let from = entries[k].next_to_explore_index as int;
        lemma_slice_finite(k, from, n);
        let slice = Set::new(|p: (u64, int)| p.0 == k && from <= p.1 <= n);
        assert(pending(entries, n) =~= pending(rest, n).union(slice));
    }
}

/// Where each candidate of `after` is a candidate of `before` and has been
/// measured no less, no more is left to measure; and less is left where a
/// candidate has gone that had a rank left, or one has been measured
/// further.
pub proof fn lemma_potential_falls<Estimator>(
    before: Map<u64, WorkingEntry<Estimator>>,
    after: Map<u64, WorkingEntry<Estimator>>,
    n: int,
)
    requires
        before.dom().finite(),
        forall|k: u64| #[trigger]
            after.contains_key(k) ==> before.contains_key(k) && before[k].next_to_explore_index
                <= after[k].next_to_explore_index,
    ensures
        potential(after, n) <= potential(before, n),
        forall|k: u64|
            before.contains_key(k) && (#[trigger] before[k]).next_to_explore_index <= n && (
            !after.contains_key(k) || before[k].next_to_explore_index
                < after[k].next_to_explore_index) ==> potential(after, n) < potential(before, n),
{
    lemma_pending_finite(before, n);
    assert(pending(after, n).subset_of(pending(before, n)));
    lemma_len_subset(pending(after, n), pending(before, n));
    assert forall|k: u64|
        before.contains_key(k) && (#[trigger] before[k]).next_to_explore_index <= n && (
        !after.contains_key(k) || before[k].next_to_explore_index
            < after[k].next_to_explore_index) implies potential(after, n) < potential(
        before,
        n,
    ) by {
        let gone = (k, before[k].next_to_explore_index as int);
        assert(pending(before, n).contains(gone));
        assert(!pending(after, n).contains(gone));
        pending(after, n).lemma_subset_not_in_lt(pending(before, n), gone);
    }
}

/// The best score that a word not yet introduced could give rise to, while
/// there is such a word.
pub open spec fn from_introducing<
    'd,
    T: Table<Estimate, Estimator>,
    Estimate,
    Estimator,
    EstSys: EstimationSystem<T, Estimate, Estimator>,
    EditList,
>(est_sys: &EstSys, r: &ReferenceData<'d, T, EditList>, cursor: int) -> Option<i64> {
    if cursor < r.n {
        Some(
            est_sys.best_possible_of(
                r.table.estimate_introduce_of(r.frequencies_in_introducing_order@, cursor),
                0,
            ),
        )
    } else {
        None
    }
}

/// Whether `after` is the ledger `before` with the word at rank `cursor`
/// introduced.
pub open spec fn is_introduced<
    'd,
    T: Table<Estimate, Estimator>,
    Estimate,
    Estimator,
    EstSys: EstimationSystem<T, Estimate, Estimator>,
    EditList,
    EditSys: EditSystem<EditList>,
>(
    before: Map<u64, WorkingEntry<Estimator>>,
    cursor: int,
    after: Map<u64, WorkingEntry<Estimator>>,
    est_sys: &EstSys,
    edit_sys: &EditSys,
    r: &ReferenceData<'d, T, EditList>,
) -> bool {
    after == introduced::<T, Estimate, Estimator, EstSys>(
        before,
        est_sys,
        &r.table,
        r.frequencies_in_introducing_order@,
        cursor,
        improving_edits_at(edit_sys, r, cursor),
        0,
    )
}

/// Whether a tick that begins with a ledger that is not empty may go by
/// way of `first`, the first candidate of the ledger, `culled`, what is
/// left of the ledger when it is culled against the worst possible score
/// of `first`, and `top`, the first candidate of `culled`.
pub open spec fn tick_parts<
    'd,
    T: Table<Estimate, Estimator>,
    Estimate,
    Estimator,
    EstSys: EstimationSystem<T, Estimate, Estimator>,
    EditList,
    EditSys: EditSystem<EditList>,
>(
    before: Map<u64, WorkingEntry<Estimator>>,
    cursor: int,
    after: Map<u64, WorkingEntry<Estimator>>,
    after_cursor: int,
    res: Option<Outcome>,
    first: u64,
    culled: Map<u64, WorkingEntry<Estimator>>,
    top: u64,
    est_sys: &EstSys,
    edit_sys: &EditSys,
    r: &ReferenceData<'d, T, EditList>,
) -> bool {
    &&& is_best(before, first)
    &&& is_culled(before, before[first].worst_possible, culled)
    &&& is_best(culled, top)
    &&& match from_introducing::<T, Estimate, Estimator, EstSys, EditList>(est_sys, r, cursor) {
        Some(b) if b < culled[top].best_possible => {
            &&& res is None
            &&& after_cursor == cursor + 1
            &&& is_introduced::<T, Estimate, Estimator, EstSys, EditList, EditSys>(culled, cursor, after, est_sys, edit_sys, r)
        },
        b => match verdict(top, culled[top], culled.dom().len(), b, r.n as nat) {
            Some(outcome) => {
                &&& res == Some(outcome)
                &&& after_cursor == cursor
                &&& after == culled
            },
            None => {
                &&& res is None
                &&& after_cursor == cursor
                &&& exists|chunk: Seq<u64>|
                    {
                        &&& #[trigger] is_chunk(culled, chunk)
                        &&& chunk.len() > 0
                        &&& chunk[0] == top
                        &&& is_worked::<T, Estimate, Estimator, EstSys, EditList, EditSys>(culled, chunk, after, est_sys, edit_sys, r)
                    }
            },
        },
    }
}

/// Whether a tick that begins with the ledger `before` and `cursor` words
/// introduced may end with the ledger `after` and the answer `res`.
///
/// An empty ledger has the next word introduced. Else the ledger is culled
/// against the worst possible score of its first candidate. Then, where a
/// word not yet introduced could give rise to something better than the
/// first candidate of what is left, the next word is introduced; where the
/// first candidate has won, the round ends with it; and else the first
/// candidates are measured further.
pub open spec fn ticked<
    'd,
    T: Table<Estimate, Estimator>,
    Estimate,
    Estimator,
    EstSys: EstimationSystem<T, Estimate, Estimator>,
    EditList,
    EditSys: EditSystem<EditList>,
>(
    before: Map<u64, WorkingEntry<Estimator>>,
    cursor: int,
    after: Map<u64, WorkingEntry<Estimator>>,
    after_cursor: int,
    res: Option<Outcome>,
    est_sys: &EstSys,
    edit_sys: &EditSys,
    r: &ReferenceData<'d, T, EditList>,
) -> bool {
    if before.dom().len() == 0 {
        &&& res is None
        &&& if cursor < r.n {
            after_cursor == cursor + 1 && is_introduced::<T, Estimate, Estimator, EstSys, EditList, EditSys>(before, cursor, after, est_sys, edit_sys, r)
        } else {
            after_cursor == cursor && after == before
        }
    } else {
        exists|first: u64, culled: Map<u64, WorkingEntry<Estimator>>, top: u64| #[trigger]
            tick_parts::<T, Estimate, Estimator, EstSys, EditList, EditSys>(before, cursor, after, after_cursor, res, first, culled, top, est_sys, edit_sys, r)
    }
}

/// Whether a tick has brought the round on: it has introduced a word, or
/// it has left less to measure.
pub open spec fn progressed<Estimator>(
    before: Map<u64, WorkingEntry<Estimator>>,
    cursor: int,
    after: Map<u64, WorkingEntry<Estimator>>,
    after_cursor: int,
    n: int,
) -> bool {
    ||| cursor < after_cursor
    ||| (cursor == after_cursor && potential(after, n) < potential(before, n))
}

/// One tick of the search.
///
/// The tick answers with the end of the round, or with nothing where the
/// round goes on. A tick that does not end the round brings it on, unless
/// there is no candidate and no word left to introduce.
pub fn step<
    'd,
    T: Table<Estimate, Estimator>,
    Estimate,
    Estimator,
    EstSys: EstimationSystem<T, Estimate, Estimator>,
    EditList,
    EditSys: EditSystem<EditList>,
>(
    est_sys: &EstSys,
    edit_sys: &EditSys,
    r: &ReferenceData<'d, T, EditList>,
    w: &mut WorkingData<Estimator>,
) -> (res: Option<Outcome>)
    requires
        r.wf(),
        old(w).wf(),
        old(w).cursor() <= r.n,
        fits(old(w).entries(), r.n as int),
    ensures
        final(w).wf(),
        final(w).cursor() <= r.n,
        fits(final(w).entries(), r.n as int),
        ticked::<T, Estimate, Estimator, EstSys, EditList, EditSys>(
            old(w).entries(),
            old(w).cursor() as int,
            final(w).entries(),
            final(w).cursor() as int,
            res,
            est_sys,
            edit_sys,
            r,
        ),
        res is None && !(old(w).entries().dom().len() == 0 && old(w).cursor() >= r.n)
            ==> progressed(
            old(w).entries(),
            old(w).cursor() as int,
            final(w).entries(),
            final(w).cursor() as int,
            r.n as int,
        ),
{
    let ghost before = w.entries();
    let ghost cursor = w.cursor() as int;
    proof {
        w.lemma_finite();
    }
    if w.is_empty() {
        proof {
            if cursor < r.n {
                lemma_introduced::<T, Estimate, Estimator, EstSys>(
                    before,
                    est_sys,
                    &r.table,
                    r.frequencies_in_introducing_order@,
                    cursor,
                    improving_edits_at(edit_sys, r, cursor),
                    0,
                    r.n as int,
                );
            }
        }
        introduce(est_sys, edit_sys, r, w);
        return None;
    }
    let ghost first = w.top();
    if w.peek_best().is_none() {
        return None;
    }
    cull_working_table(w);
    let ghost culled = w.entries();
    proof {
        w.lemma_finite();
        assert(culled.submap_of(before));
        assert forall|k: u64| #[trigger] culled.contains_key(k) implies before.contains_key(k)
            && before[k] == culled[k] by {
            lemma_submap_entry(culled, before, k);
        }
        assert(fits(culled, r.n as int));
        lemma_culled_keeps_one(before, before[first->0].worst_possible, culled);
    }
    let estimate = estimate_from_introducing_iterator(r, w);
    let best_possible_from_introducing_iterator = match estimate {
        Some(e) => Some(est_sys.calc_best_possible(&e, 0)),
        None => None,
    };
    let best_possible_top = match w.peek_best() {
        Some(k) => k,
        None => {
            proof {
                assert(false);
            }
            return None;
        },
    };
    let best_possible_from_working_table = match w.get(best_possible_top) {
        Some(e) => e.best_possible,
        None => {
            return None;
        },
    };
    let intro_iter_is_better = match best_possible_from_introducing_iterator {
        Some(b) => b < best_possible_from_working_table,
        None => false,
    };
    if intro_iter_is_better {
        proof {
            lemma_introduced::<T, Estimate, Estimator, EstSys>(
                culled,
                est_sys,
                &r.table,
                r.frequencies_in_introducing_order@,
                cursor,
                improving_edits_at(edit_sys, r, cursor),
                0,
                r.n as int,
            );
        }
        introduce(est_sys, edit_sys, r, w);
        proof {
            assert(is_culled(before, before[first->0].worst_possible, culled));
            assert(is_best(culled, best_possible_top));
            assert(tick_parts::<T, Estimate, Estimator, EstSys, EditList, EditSys>(
                before,
                cursor,
                w.entries(),
                w.cursor() as int,
                None,
                first->0,
                culled,
                best_possible_top,
                est_sys,
                edit_sys,
                r,
            ));
        }
        None
    } else {
        match check_for_winner(r, w, best_possible_from_introducing_iterator) {
            Some(res) => {
                proof {
                    assert(is_culled(before, before[first->0].worst_possible, culled));
                    assert(is_best(culled, best_possible_top));
                    assert(tick_parts::<T, Estimate, Estimator, EstSys, EditList, EditSys>(
                before,
                cursor,
                w.entries(),
                w.cursor() as int,
                Some(res),
                first->0,
                culled,
                best_possible_top,
                est_sys,
                edit_sys,
                r,
            ));
                }
                Some(res)
            },
            None => {
                do_work(est_sys, edit_sys, r, w);
                proof {
                    let after = w.entries();
                    let chunk = choose|chunk: Seq<u64>|
                        {
                            &&& #[trigger] is_chunk(culled, chunk)
                            &&& chunk.len() > 0 && chunk[0] == best_possible_top
                            &&& is_worked::<T, Estimate, Estimator, EstSys, EditList, EditSys>(
                                culled,
                                chunk,
                                after,
                                est_sys,
                                edit_sys,
                                r,
                            )
                        };
                    assert(is_culled(before, before[first->0].worst_possible, culled));
                    assert(is_best(culled, best_possible_top));
                    assert(chunk.contains(best_possible_top)) by {
                        assert(chunk[0] == best_possible_top);
                    }
                    assert forall|k: u64| #[trigger] after.contains_key(k) implies before.contains_key(
                        k,
                    ) && before[k].next_to_explore_index <= after[k].next_to_explore_index
                        && after[k].introducing_index < r.n && after[k].next_to_explore_index
                        <= r.n by {
                        assert(culled.contains_key(k));
                    }
                    lemma_potential_falls(before, after, r.n as int);
                    assert(before.contains_key(best_possible_top));
                    assert(before[best_possible_top].next_to_explore_index
                        < after[best_possible_top].next_to_explore_index);
                    assert(tick_parts::<T, Estimate, Estimator, EstSys, EditList, EditSys>(
                before,
                cursor,
                w.entries(),
                w.cursor() as int,
                None,
                first->0,
                culled,
                best_possible_top,
                est_sys,
                edit_sys,
                r,
            ));
                }
                None
            },
        }
    }
}

/// Searches for the candidate that lowers the weighted distance of the
/// corpus the most: builds the reference data, and ticks until a tick ends
/// the round.
///
/// There is no answer where no word gives rise to a candidate. Else the
/// round ends on a ledger of honest entries on which the first candidate
/// has won, and the answer is that candidate with its best possible score.
/// Under sound systems that candidate has the least score of all
/// candidates that a word of the corpus gives rise to.
pub fn search<
    'd,
    T: Table<Estimate, Estimator>,
    Estimate,
    Estimator,
    EstSys: EstimationSystem<T, Estimate, Estimator>,
    EditList,
    EditSys: EditSystem<EditList>,
>(est_sys: &EstSys, edit_sys: &EditSys, dictionary: &'d Dictionary, rules: &'d EditList) -> (res:
    Option<Outcome>)
    ensures
        match res {
            Some(outcome) => exists|
                r: ReferenceData<'d, T, EditList>,
                entries: Map<u64, WorkingEntry<Estimator>>,
                cursor: int,
            |
                {
                    &&& r.wf()
                    &&& r.dictionary == dictionary
                    &&& r.rules == rules
                    &&& built_from(&r, est_sys, edit_sys)
                    &&& 0 <= cursor <= r.n
                    &&& is_honest::<T, Estimate, Estimator, EstSys, EditList, EditSys>(entries, est_sys, edit_sys, &r)
                    &&& #[trigger] has_won::<T, Estimate, Estimator, EstSys, EditList>(outcome, entries, cursor, est_sys, &r)
                    &&& forall|truth: spec_fn(u64) -> int| #[trigger]
                        sound_system::<T, Estimate, Estimator, EstSys, EditList, EditSys>(est_sys, edit_sys, &r, truth) ==> is_least(winner_of(outcome), edit_sys, &r, truth)
                },
            None => exists|r: ReferenceData<'d, T, EditList>|
                {
                    &&& r.wf()
                    &&& r.dictionary == dictionary
                    &&& r.rules == rules
                    &&& #[trigger] built_from(&r, est_sys, edit_sys)
                    &&& nothing_to_find(edit_sys, &r, r.n as int)
                },
        },
{
    let r = init_ref_data(est_sys, edit_sys, dictionary, rules);
    let mut w = init_working_data();
    loop
        invariant
            r.wf(),
            r.dictionary == dictionary,
            r.rules == rules,
            built_from(&r, est_sys, edit_sys),
            w.wf(),
            w.cursor() <= r.n,
            fits(w.entries(), r.n as int),
            is_honest::<T, Estimate, Estimator, EstSys, EditList, EditSys>(w.entries(), est_sys, edit_sys, &r),
            w.entries().dom().len() == 0 ==> nothing_to_find(edit_sys, &r, w.cursor() as int),
            forall|truth: spec_fn(u64) -> int| #[trigger]
                sound_system::<T, Estimate, Estimator, EstSys, EditList, EditSys>(est_sys, edit_sys, &r, truth) ==> dominated(w.entries(), w.cursor() as int, edit_sys, &r, truth),
        decreases r.n - w.cursor(), potential(w.entries(), r.n as int),
    {
        if w.is_empty() && w.introduced() >= r.n {
            return None;
        }
        let ghost before = w.entries();
        let ghost cursor = w.cursor() as int;
        proof {
            w.lemma_finite();
        }
        let res = step(est_sys, edit_sys, &r, &mut w);
        proof {
            assert forall|truth: spec_fn(u64) -> int| #[trigger]
                sound_system::<T, Estimate, Estimator, EstSys, EditList, EditSys>(est_sys, edit_sys, &r, truth) implies dominated(w.entries(), w.cursor() as int, edit_sys, &r, truth) && (res matches Some(outcome) ==> is_least(winner_of(outcome), edit_sys, &r, truth)) by {
                lemma_tick_is_sound::<T, Estimate, Estimator, EstSys, EditList, EditSys>(before, cursor, w.entries(), w.cursor() as int, res, est_sys, edit_sys, &r, truth);
            }
            lemma_tick_keeps_honest::<T, Estimate, Estimator, EstSys, EditList, EditSys>(
                before,
                cursor,
                w.entries(),
                w.cursor() as int,
                res,
                est_sys,
                edit_sys,
                &r,
            );
            w.lemma_finite();
            if w.entries().dom().len() == 0 {
                lemma_tick_empty::<T, Estimate, Estimator, EstSys, EditList, EditSys>(
                    before,
                    cursor,
                    w.entries(),
                    w.cursor() as int,
                    res,
                    est_sys,
                    edit_sys,
                    &r,
                );
            }
        }
        match res {
            Some(outcome) => {
                proof {
                    lemma_tick_winner::<T, Estimate, Estimator, EstSys, EditList, EditSys>(
                        before,
                        cursor,
                        w.entries(),
                        w.cursor() as int,
                        outcome,
                        est_sys,
                        edit_sys,
                        &r,
                    );
                }
                return Some(outcome);
            },
            None => {},
        }
    }
}

} // verus!
