//! What the search guarantees: every entry of the ledger is what its
//! candidate earns from the words that it has been measured on, a round can
//! end in one way only, and under sound systems it ends with the candidate
//! of the least score.

use vstd::prelude::*;
use vstd::seq_lib::*;
use vstd::map_lib::*;
use vstd::set_lib::*;
use crate::genastarlike::{
    EditSystem, EstimationSystem, Outcome, ReferenceData, STEPS_CHUNK_SIZE, SubWithImprovement,
    Table, WorkingEntry, advanced_estimator, change_at, from_introducing, improving_edits_at,
    initial_entry, introduced, is_best, is_chunk, is_culled, is_introduced, is_worked,
    lemma_introduced, lemma_submap_entry, stop_rank, survives, tick_parts, ticked, verdict,
};

verus! {

/// Culling a ledger that has a candidate leaves a candidate.
pub proof fn lemma_culled_keeps_one<Estimator>(
    before: Map<u64, WorkingEntry<Estimator>>,
    bound: i64,
    after: Map<u64, WorkingEntry<Estimator>>,
)
    requires
        before.dom().finite(),
        before.dom().len() > 0,
        is_culled(before, bound, after),
    ensures
        after.dom().finite(),
        after.dom().len() > 0,
{
    lemma_set_subset_finite(before.dom(), after.dom());
    if before.dom().len() > 1 {
        if exists|k: u64| survives(before, k, bound) {
            let k = choose|k: u64| survives(before, k, bound);
            assert(after.contains_key(k));
        } else {
            let k = choose|k: u64| is_best(before, k) && after.dom() == set![k];
            assert(after.dom().contains(k));
        }
    }
}

/// Measuring up to a rank and from there up to a later one is measuring up
/// to the later one.
pub proof fn lemma_advanced_twice<
    'd,
    T: Table<Estimate, Estimator>,
    Estimate,
    Estimator,
    EditList,
    EditSys: EditSystem<EditList>,
>(
    edit_sys: &EditSys,
    r: &ReferenceData<'d, T, EditList>,
    sub: u64,
    introducing_index: int,
    estimator: Estimator,
    from: int,
    mid: int,
    to: int,
)
    requires
        from <= mid <= to,
    ensures
        advanced_estimator::<T, Estimate, Estimator, EditList, EditSys>(
            edit_sys,
            r,
            sub,
            introducing_index,
            advanced_estimator::<T, Estimate, Estimator, EditList, EditSys>(edit_sys, r, sub, introducing_index, estimator, from, mid),
            mid,
            to,
        ) == advanced_estimator::<T, Estimate, Estimator, EditList, EditSys>(edit_sys, r, sub, introducing_index, estimator, from, to),
    decreases mid - from,
{
    if from < mid {
        let next = if from == introducing_index {
            estimator
        } else {
            r.table.update_of(
                r.frequencies_in_introducing_order@,
                r.current_distances_in_introducing_order@,
                introducing_index,
                from,
                change_at(edit_sys, r, sub, from),
                estimator,
            )
        };
        lemma_advanced_twice::<T, Estimate, Estimator, EditList, EditSys>(edit_sys, r, sub, introducing_index, next, from + 1, mid, to);
    }
}

/// The entry that a candidate has when the bookkeeping is right: found at
/// `rank` with the improvement that the edit system gave, measured on the
/// words up to rank `next` in order, with the changes that the edit system
/// gives, and bounded as the estimation system bounds that summary.
pub open spec fn honest_entry<
    'd,
    T: Table<Estimate, Estimator>,
    Estimate,
    Estimator,
    EstSys: EstimationSystem<T, Estimate, Estimator>,
    EditList,
    EditSys: EditSystem<EditList>,
>(
    est_sys: &EstSys,
    edit_sys: &EditSys,
    r: &ReferenceData<'d, T, EditList>,
    cand: SubWithImprovement,
    rank: int,
    next: int,
) -> WorkingEntry<Estimator> {
    let first = r.table.introduce_of(
        r.frequencies_in_introducing_order@,
        rank,
        (-(cand.improvement as int)) as i64,
        cand.sub,
    );
    let estimator = advanced_estimator::<T, Estimate, Estimator, EditList, EditSys>(edit_sys, r, cand.sub, rank, first, 0, next);
    let estimate = est_sys.estimate_of(estimator);
    WorkingEntry {
        estimator,
        best_possible: est_sys.best_possible_of(estimate, cand.size_cost),
        worst_possible: est_sys.worst_possible_of(estimate, cand.size_cost),
        size_cost: cand.size_cost,
        introducing_index: rank as usize,
        next_to_explore_index: next as usize,
    }
}

/// Whether `entry` is the honest entry of the candidate `k` as the
/// candidate number `j` of the word that it was found at.
pub open spec fn honest_at<
    'd,
    T: Table<Estimate, Estimator>,
    Estimate,
    Estimator,
    EstSys: EstimationSystem<T, Estimate, Estimator>,
    EditList,
    EditSys: EditSystem<EditList>,
>(
    entry: WorkingEntry<Estimator>,
    k: u64,
    j: int,
    est_sys: &EstSys,
    edit_sys: &EditSys,
    r: &ReferenceData<'d, T, EditList>,
) -> bool {
    let rank = entry.introducing_index as int;
    let cands = improving_edits_at(edit_sys, r, rank);
    &&& rank < r.n
    &&& entry.next_to_explore_index <= r.n
    &&& 0 <= j < cands.len()
    &&& cands[j].sub == k
    &&& entry == honest_entry::<T, Estimate, Estimator, EstSys, EditList, EditSys>(est_sys, edit_sys, r, cands[j], rank, entry.next_to_explore_index as int)
}

/// Whether each entry of a ledger is an honest one.
pub open spec fn is_honest<
    'd,
    T: Table<Estimate, Estimator>,
    Estimate,
    Estimator,
    EstSys: EstimationSystem<T, Estimate, Estimator>,
    EditList,
    EditSys: EditSystem<EditList>,
>(
    entries: Map<u64, WorkingEntry<Estimator>>,
    est_sys: &EstSys,
    edit_sys: &EditSys,
    r: &ReferenceData<'d, T, EditList>,
) -> bool {
    forall|k: u64| #[trigger]
        entries.contains_key(k) ==> exists|j: int|
            honest_at::<T, Estimate, Estimator, EstSys, EditList, EditSys>(entries[k], k, j, est_sys, edit_sys, r)
}

/// Introducing a word into a ledger of honest entries leaves a ledger of
/// honest entries.
pub proof fn lemma_introduced_honest<
    'd,
    T: Table<Estimate, Estimator>,
    Estimate,
    Estimator,
    EstSys: EstimationSystem<T, Estimate, Estimator>,
    EditList,
    EditSys: EditSystem<EditList>,
>(
    entries: Map<u64, WorkingEntry<Estimator>>,
    est_sys: &EstSys,
    edit_sys: &EditSys,
    r: &ReferenceData<'d, T, EditList>,
    rank: int,
    j: int,
)
    requires
        0 <= rank < r.n,
        0 <= j,
        is_honest::<T, Estimate, Estimator, EstSys, EditList, EditSys>(entries, est_sys, edit_sys, r),
    ensures
        is_honest::<T, Estimate, Estimator, EstSys, EditList, EditSys>(
            introduced::<T, Estimate, Estimator, EstSys>(
                entries,
                est_sys,
                &r.table,
                r.frequencies_in_introducing_order@,
                rank,
                improving_edits_at(edit_sys, r, rank),
                j,
            ),
            est_sys,
            edit_sys,
            r,
        ),
    decreases improving_edits_at(edit_sys, r, rank).len() - j,
{
    let cands = improving_edits_at(edit_sys, r, rank);
    if j < cands.len() {
        if entries.contains_key(cands[j].sub) {
            lemma_introduced_honest::<T, Estimate, Estimator, EstSys, EditList, EditSys>(entries, est_sys, edit_sys, r, rank, j + 1);
        } else {
            let entry = initial_entry::<T, Estimate, Estimator, EstSys>(
                est_sys,
                &r.table,
                r.frequencies_in_introducing_order@,
                rank,
                cands[j],
            );
            let next = entries.insert(cands[j].sub, entry);
            assert(honest_at::<T, Estimate, Estimator, EstSys, EditList, EditSys>(entry, cands[j].sub, j, est_sys, edit_sys, r));
            assert forall|k: u64| #[trigger] next.contains_key(k) implies exists|i: int|
                honest_at::<T, Estimate, Estimator, EstSys, EditList, EditSys>(next[k], k, i, est_sys, edit_sys, r) by {
                if k != cands[j].sub {
                    assert(entries.contains_key(k));
                    let i = choose|i: int|
                        honest_at::<T, Estimate, Estimator, EstSys, EditList, EditSys>(entries[k], k, i, est_sys, edit_sys, r);
                    assert(honest_at::<T, Estimate, Estimator, EstSys, EditList, EditSys>(next[k], k, i, est_sys, edit_sys, r));
                } else {
                    assert(honest_at::<T, Estimate, Estimator, EstSys, EditList, EditSys>(next[k], k, j, est_sys, edit_sys, r));
                }
            }
            lemma_introduced_honest::<T, Estimate, Estimator, EstSys, EditList, EditSys>(next, est_sys, edit_sys, r, rank, j + 1);
        }
    }
}

/// Measuring the candidates of a chunk further in a ledger of honest
/// entries leaves a ledger of honest entries.
pub proof fn lemma_worked_honest<
    'd,
    T: Table<Estimate, Estimator>,
    Estimate,
    Estimator,
    EstSys: EstimationSystem<T, Estimate, Estimator>,
    EditList,
    EditSys: EditSystem<EditList>,
>(
    before: Map<u64, WorkingEntry<Estimator>>,
    chunk: Seq<u64>,
    after: Map<u64, WorkingEntry<Estimator>>,
    est_sys: &EstSys,
    edit_sys: &EditSys,
    r: &ReferenceData<'d, T, EditList>,
)
    requires
        is_honest::<T, Estimate, Estimator, EstSys, EditList, EditSys>(before, est_sys, edit_sys, r),
        is_worked::<T, Estimate, Estimator, EstSys, EditList, EditSys>(before, chunk, after, est_sys, edit_sys, r),
    ensures
        is_honest::<T, Estimate, Estimator, EstSys, EditList, EditSys>(after, est_sys, edit_sys, r),
{
    assert forall|k: u64| #[trigger] after.contains_key(k) implies exists|j: int|
        honest_at::<T, Estimate, Estimator, EstSys, EditList, EditSys>(after[k], k, j, est_sys, edit_sys, r) by {
        assert(before.contains_key(k));
        let j = choose|j: int|
            honest_at::<T, Estimate, Estimator, EstSys, EditList, EditSys>(before[k], k, j, est_sys, edit_sys, r);
        if chunk.contains(k) {
            let entry = before[k];
            let rank = entry.introducing_index as int;
            let cand = improving_edits_at(edit_sys, r, rank)[j];
            let next = entry.next_to_explore_index as int;
            let to = stop_rank(next, STEPS_CHUNK_SIZE as int, r.n as int);
            let first = r.table.introduce_of(
                r.frequencies_in_introducing_order@,
                rank,
                (-(cand.improvement as int)) as i64,
                cand.sub,
            );
            lemma_advanced_twice::<T, Estimate, Estimator, EditList, EditSys>(edit_sys, r, k, rank, first, 0, next, to);
            assert(honest_at::<T, Estimate, Estimator, EstSys, EditList, EditSys>(after[k], k, j, est_sys, edit_sys, r));
        } else {
            assert(honest_at::<T, Estimate, Estimator, EstSys, EditList, EditSys>(after[k], k, j, est_sys, edit_sys, r));
        }
    }
}

/// A tick on a ledger of honest entries leaves a ledger of honest entries:
/// whatever a tick does, each bound in the ledger is the one that the
/// estimation system gives for what has been measured of the candidate.
pub proof fn lemma_tick_keeps_honest<
    'd,
    T: Table<Estimate, Estimator>,
    Estimate,
    Estimator,
    EstSys: EstimationSystem<T, Estimate, Estimator>,
    EditList,
    EditSys: EditSystem<EditList>,
>(
    before: Map<u64, WorkingEntry<Estimator>>,
    cursor: int,
    after: Map<u64, WorkingEntry<Estimator>>,
    after_cursor: int,
    res: Option<Outcome>,
    est_sys: &EstSys,
    edit_sys: &EditSys,
    r: &ReferenceData<'d, T, EditList>,
)
    requires
        0 <= cursor <= r.n,
        is_honest::<T, Estimate, Estimator, EstSys, EditList, EditSys>(before, est_sys, edit_sys, r),
        ticked::<T, Estimate, Estimator, EstSys, EditList, EditSys>(before, cursor, after, after_cursor, res, est_sys, edit_sys, r),
    ensures
        is_honest::<T, Estimate, Estimator, EstSys, EditList, EditSys>(after, est_sys, edit_sys, r),
{
    if before.dom().len() == 0 {
        if cursor < r.n {
            lemma_introduced_honest::<T, Estimate, Estimator, EstSys, EditList, EditSys>(before, est_sys, edit_sys, r, cursor, 0);
        }
    } else {
        let (first, culled, top) = choose|
            first: u64,
            culled: Map<u64, WorkingEntry<Estimator>>,
            top: u64,
        |
            tick_parts::<T, Estimate, Estimator, EstSys, EditList, EditSys>(before, cursor, after, after_cursor, res, first, culled, top, est_sys, edit_sys, r);
        assert forall|k: u64| #[trigger] culled.contains_key(k) implies exists|j: int|
            honest_at::<T, Estimate, Estimator, EstSys, EditList, EditSys>(culled[k], k, j, est_sys, edit_sys, r) by {
            lemma_submap_entry(culled, before, k);
        }
        match from_introducing::<T, Estimate, Estimator, EstSys, EditList>(est_sys, r, cursor) {
            Some(b) if b < culled[top].best_possible => {
                lemma_introduced_honest::<T, Estimate, Estimator, EstSys, EditList, EditSys>(culled, est_sys, edit_sys, r, cursor, 0);
            },
            b => match verdict(top, culled[top], culled.dom().len(), b, r.n as nat) {
                Some(outcome) => {},
                None => {
                    let chunk = choose|chunk: Seq<u64>|
                        {
                            &&& #[trigger] is_chunk(culled, chunk)
                            &&& chunk.len() > 0
                            &&& chunk[0] == top
                            &&& is_worked::<T, Estimate, Estimator, EstSys, EditList, EditSys>(culled, chunk, after, est_sys, edit_sys, r)
                        };
                    lemma_worked_honest::<T, Estimate, Estimator, EstSys, EditList, EditSys>(culled, chunk, after, est_sys, edit_sys, r);
                },
            },
        }
    }
}

/// Whether the score of candidate number `j` of the word at `rank` lies
/// between the bounds of its honest entry when it has been measured up to
/// rank `next`.
pub open spec fn bounds_hold<
    'd,
    T: Table<Estimate, Estimator>,
    Estimate,
    Estimator,
    EstSys: EstimationSystem<T, Estimate, Estimator>,
    EditList,
    EditSys: EditSystem<EditList>,
>(
    est_sys: &EstSys,
    edit_sys: &EditSys,
    r: &ReferenceData<'d, T, EditList>,
    truth: spec_fn(u64) -> int,
    rank: int,
    j: int,
    next: int,
) -> bool {
    let cand = improving_edits_at(edit_sys, r, rank)[j];
    let entry = honest_entry::<T, Estimate, Estimator, EstSys, EditList, EditSys>(est_sys, edit_sys, r, cand, rank, next);
    entry.best_possible <= truth(cand.sub) <= entry.worst_possible
}

/// Whether the bounds that the estimation system gives are admissible for
/// the scores `truth`: whatever has been measured of a candidate, its
/// score lies between the best possible and the worst possible one.
pub open spec fn admissible_system<
    'd,
    T: Table<Estimate, Estimator>,
    Estimate,
    Estimator,
    EstSys: EstimationSystem<T, Estimate, Estimator>,
    EditList,
    EditSys: EditSystem<EditList>,
>(
    est_sys: &EstSys,
    edit_sys: &EditSys,
    r: &ReferenceData<'d, T, EditList>,
    truth: spec_fn(u64) -> int,
) -> bool {
    forall|rank: int, j: int, next: int|
        0 <= rank < r.n && 0 <= j < improving_edits_at(edit_sys, r, rank).len() && 0 <= next <= r.n
            ==> #[trigger] bounds_hold::<T, Estimate, Estimator, EstSys, EditList, EditSys>(est_sys, edit_sys, r, truth, rank, j, next)
}

/// Admissibility: in a ledger of honest entries, under an estimation
/// system whose bounds are admissible, the score of each live candidate
/// lies between its best possible and its worst possible score.
pub proof fn lemma_admissible<
    'd,
    T: Table<Estimate, Estimator>,
    Estimate,
    Estimator,
    EstSys: EstimationSystem<T, Estimate, Estimator>,
    EditList,
    EditSys: EditSystem<EditList>,
>(
    entries: Map<u64, WorkingEntry<Estimator>>,
    est_sys: &EstSys,
    edit_sys: &EditSys,
    r: &ReferenceData<'d, T, EditList>,
    truth: spec_fn(u64) -> int,
)
    requires
        is_honest::<T, Estimate, Estimator, EstSys, EditList, EditSys>(entries, est_sys, edit_sys, r),
        admissible_system::<T, Estimate, Estimator, EstSys, EditList, EditSys>(est_sys, edit_sys, r, truth),
    ensures
        forall|k: u64| #[trigger]
            entries.contains_key(k) ==> entries[k].best_possible <= truth(k)
                <= entries[k].worst_possible,
{
    assert forall|k: u64| #[trigger] entries.contains_key(k) implies entries[k].best_possible
        <= truth(k) <= entries[k].worst_possible by {
        let j = choose|j: int|
            honest_at::<T, Estimate, Estimator, EstSys, EditList, EditSys>(entries[k], k, j, est_sys, edit_sys, r);
        let rank = entries[k].introducing_index as int;
        let next = entries[k].next_to_explore_index as int;
        assert(bounds_hold::<T, Estimate, Estimator, EstSys, EditList, EditSys>(est_sys, edit_sys, r, truth, rank, j, next));
    }
}

/// Culling is sound: under admissible bounds, a candidate that goes when
/// the ledger is culled against the worst possible score of `top` has no
/// better score than `top`, and `top` stays unless its two bounds have met.
pub proof fn lemma_cull_sound<Estimator>(
    before: Map<u64, WorkingEntry<Estimator>>,
    top: u64,
    after: Map<u64, WorkingEntry<Estimator>>,
    truth: spec_fn(u64) -> int,
)
    requires
        before.dom().finite(),
        before.contains_key(top),
        is_culled(before, before[top].worst_possible, after),
        forall|k: u64| #[trigger]
            before.contains_key(k) ==> before[k].best_possible <= truth(k)
                <= before[k].worst_possible,
    ensures
        before[top].best_possible < before[top].worst_possible ==> after.contains_key(top),
        forall|k: u64|
            #![trigger after.contains_key(k)]
            before.contains_key(k) && !after.contains_key(k) && after.contains_key(top) ==> truth(
                top,
            ) <= truth(k),
{
    let bound = before[top].worst_possible;
    if before[top].best_possible < bound {
        assert(survives(before, top, bound));
    }
    if before.dom().len() > 1 {
        if exists|k: u64| survives(before, k, bound) {
        } else {
            let last = choose|k: u64| is_best(before, k) && after.dom() == set![k];
            assert(after.dom().contains(last));
            assert forall|k: u64|
                before.contains_key(k) && !after.contains_key(k) && after.contains_key(
                    top,
                ) implies truth(top) <= truth(k) by {
                assert(!survives(before, k, bound));
            }
        }
    }
}

/// The first candidate of a ledger has won soundly: under admissible
/// bounds, where it stands alone and even its worst possible score is no
/// worse than the best that the words not yet introduced could give rise
/// to, no candidate to come has a better score.
pub proof fn lemma_alone_is_sound<Estimator>(
    top: u64,
    entry: WorkingEntry<Estimator>,
    from_introducing: i64,
    to_come: u64,
    truth: spec_fn(u64) -> int,
)
    requires
        entry.worst_possible <= from_introducing,
        truth(top) <= entry.worst_possible,
        from_introducing <= truth(to_come),
    ensures
        truth(top) <= truth(to_come),
{
}

/// Whether no word of the corpus gives rise to a candidate.
pub open spec fn nothing_to_find<'d, T, EditList, EditSys: EditSystem<EditList>>(
    edit_sys: &EditSys,
    r: &ReferenceData<'d, T, EditList>,
    upto: int,
) -> bool {
    forall|i: int| 0 <= i < upto ==> (#[trigger] improving_edits_at(edit_sys, r, i)).len() == 0
}

/// Whether the round may end with `outcome` on the ledger `entries` when
/// `cursor` words have been introduced: the first candidate has won.
pub open spec fn has_won<
    'd,
    T: Table<Estimate, Estimator>,
    Estimate,
    Estimator,
    EstSys: EstimationSystem<T, Estimate, Estimator>,
    EditList,
>(
    outcome: Outcome,
    entries: Map<u64, WorkingEntry<Estimator>>,
    cursor: int,
    est_sys: &EstSys,
    r: &ReferenceData<'d, T, EditList>,
) -> bool {
    exists|top: u64|
        #[trigger] is_best(entries, top) && verdict(
            top,
            entries[top],
            entries.dom().len(),
            from_introducing::<T, Estimate, Estimator, EstSys, EditList>(est_sys, r, cursor),
            r.n as nat,
        ) == Some(outcome)
}

/// A tick that ends the round ends it on a ledger of honest entries on
/// which the first candidate has won.
pub proof fn lemma_tick_winner<
    'd,
    T: Table<Estimate, Estimator>,
    Estimate,
    Estimator,
    EstSys: EstimationSystem<T, Estimate, Estimator>,
    EditList,
    EditSys: EditSystem<EditList>,
>(
    before: Map<u64, WorkingEntry<Estimator>>,
    cursor: int,
    after: Map<u64, WorkingEntry<Estimator>>,
    after_cursor: int,
    outcome: Outcome,
    est_sys: &EstSys,
    edit_sys: &EditSys,
    r: &ReferenceData<'d, T, EditList>,
)
    requires
        ticked::<T, Estimate, Estimator, EstSys, EditList, EditSys>(before, cursor, after, after_cursor, Some(outcome), est_sys, edit_sys, r),
    ensures
        after_cursor == cursor,
        has_won::<T, Estimate, Estimator, EstSys, EditList>(outcome, after, cursor, est_sys, r),
{
    let res = Some(outcome);
    let (first, culled, top) = choose|
            first: u64,
            culled: Map<u64, WorkingEntry<Estimator>>,
            top: u64,
        |
            tick_parts::<T, Estimate, Estimator, EstSys, EditList, EditSys>(before, cursor, after, after_cursor, res, first, culled, top, est_sys, edit_sys, r);
    assert(is_best(after, top));
}

/// Whether the word at `rank` gives rise to the candidate `c` as its
/// candidate number `j`.
pub open spec fn found_at<'d, T, EditList, EditSys: EditSystem<EditList>>(
    edit_sys: &EditSys,
    r: &ReferenceData<'d, T, EditList>,
    c: u64,
    rank: int,
    j: int,
) -> bool {
    &&& 0 <= rank < r.n
    &&& 0 <= j < improving_edits_at(edit_sys, r, rank).len()
    &&& improving_edits_at(edit_sys, r, rank)[j].sub == c
}

/// Whether a word ranked before `upto` gives rise to the candidate `c`.
pub open spec fn found_before<'d, T, EditList, EditSys: EditSystem<EditList>>(
    edit_sys: &EditSys,
    r: &ReferenceData<'d, T, EditList>,
    c: u64,
    upto: int,
) -> bool {
    exists|rank: int, j: int| #[trigger] found_at(edit_sys, r, c, rank, j) && rank < upto
}

/// Whether `entry` is an honest entry of the candidate `k`.
pub open spec fn honest_for<
    'd,
    T: Table<Estimate, Estimator>,
    Estimate,
    Estimator,
    EstSys: EstimationSystem<T, Estimate, Estimator>,
    EditList,
    EditSys: EditSystem<EditList>,
>(
    k: u64,
    entry: WorkingEntry<Estimator>,
    est_sys: &EstSys,
    edit_sys: &EditSys,
    r: &ReferenceData<'d, T, EditList>,
) -> bool {
    exists|j: int| honest_at::<T, Estimate, Estimator, EstSys, EditList, EditSys>(entry, k, j, est_sys, edit_sys, r)
}

/// Whether an entry of the candidate `k` is its first one: no word ranked
/// before the one that the entry was found at gives rise to `k`.
pub open spec fn is_first_entry<'d, T, Estimator, EditList, EditSys: EditSystem<EditList>>(
    k: u64,
    entry: WorkingEntry<Estimator>,
    edit_sys: &EditSys,
    r: &ReferenceData<'d, T, EditList>,
) -> bool {
    !found_before(edit_sys, r, k, entry.introducing_index as int)
}

/// Whether the two systems are sound for the scores `truth`, so that the
/// search finds the candidate of the least score:
///
/// - the worst possible score of an honest entry is no better than the
///   score of its candidate;
/// - the best possible score of a first entry is no worse than the score
///   of its candidate;
/// - the two bounds of a candidate that has been measured on every word
///   are one;
/// - the best that the words from a rank on could give rise to is no worse
///   than the score of any candidate that only they give rise to;
/// - no two candidates have the same best possible score, nor the same
///   score.
pub open spec fn sound_system<
    'd,
    T: Table<Estimate, Estimator>,
    Estimate,
    Estimator,
    EstSys: EstimationSystem<T, Estimate, Estimator>,
    EditList,
    EditSys: EditSystem<EditList>,
>(
    est_sys: &EstSys,
    edit_sys: &EditSys,
    r: &ReferenceData<'d, T, EditList>,
    truth: spec_fn(u64) -> int,
) -> bool {
    &&& forall|k: u64, e: WorkingEntry<Estimator>| #[trigger]
        honest_for::<T, Estimate, Estimator, EstSys, EditList, EditSys>(k, e, est_sys, edit_sys, r) ==> truth(k) <= e.worst_possible
    &&& forall|k: u64, e: WorkingEntry<Estimator>| #[trigger]
        honest_for::<T, Estimate, Estimator, EstSys, EditList, EditSys>(k, e, est_sys, edit_sys, r) && is_first_entry(k, e, edit_sys, r) ==> e.best_possible <= truth(k)
    &&& forall|k: u64, e: WorkingEntry<Estimator>| #[trigger]
        honest_for::<T, Estimate, Estimator, EstSys, EditList, EditSys>(k, e, est_sys, edit_sys, r) && e.next_to_explore_index >= r.n ==> e.best_possible == e.worst_possible
    &&& forall|cursor: int, c: u64, rank: int, j: int|
        0 <= cursor <= rank && #[trigger] found_at(edit_sys, r, c, rank, j) && !#[trigger] found_before(edit_sys, r, c, cursor) ==> (from_introducing::<T, Estimate, Estimator, EstSys, EditList>(est_sys, r, cursor) matches Some(b) && b <= truth(c))
    &&& forall|k1: u64, e1: WorkingEntry<Estimator>, k2: u64, e2: WorkingEntry<Estimator>|
        #[trigger] honest_for::<T, Estimate, Estimator, EstSys, EditList, EditSys>(k1, e1, est_sys, edit_sys, r) && #[trigger] honest_for::<T, Estimate, Estimator, EstSys, EditList, EditSys>(k2, e2, est_sys, edit_sys, r) && k1 != k2 ==> e1.best_possible != e2.best_possible
    &&& forall|a: u64, rank_a: int, j_a: int, b: u64, rank_b: int, j_b: int|
        #[trigger] found_at(edit_sys, r, a, rank_a, j_a) && #[trigger] found_at(edit_sys, r, b, rank_b, j_b) && a != b
            ==> truth(a) != truth(b)
}

/// Whether each candidate that a word ranked before `cursor` gives rise
/// to has, among the live candidates, one in its first entry whose score
/// is no worse; and each live candidate was found before `cursor`.
pub open spec fn dominated<
    'd,
    T,
    Estimator,
    EditList,
    EditSys: EditSystem<EditList>,
>(
    entries: Map<u64, WorkingEntry<Estimator>>,
    cursor: int,
    edit_sys: &EditSys,
    r: &ReferenceData<'d, T, EditList>,
    truth: spec_fn(u64) -> int,
) -> bool {
    &&& forall|k: u64| #[trigger] entries.contains_key(k) ==> entries[k].introducing_index < cursor
    &&& forall|c: u64| #[trigger]
        found_before(edit_sys, r, c, cursor) ==> exists|k: u64|
            #[trigger] entries.contains_key(k) && is_first_entry(k, entries[k], edit_sys, r) && truth(k)
                <= truth(c)
}

/// Whether the candidate `winner` has the least score of all candidates
/// that a word of the corpus gives rise to.
pub open spec fn is_least<'d, T, EditList, EditSys: EditSystem<EditList>>(
    winner: u64,
    edit_sys: &EditSys,
    r: &ReferenceData<'d, T, EditList>,
    truth: spec_fn(u64) -> int,
) -> bool {
    forall|c: u64, rank: int, j: int| #[trigger]
        found_at(edit_sys, r, c, rank, j) ==> truth(winner) <= truth(c)
}

/// The candidate of an outcome.
pub open spec fn winner_of(outcome: Outcome) -> u64 {
    match outcome {
        Outcome::FoundImprovement(k, _) => k,
        Outcome::FailedToFindImprovement(k, _) => k,
    }
}

/// A live candidate of a ledger of honest entries has an honest entry, and
/// was found at the rank of its entry.
pub proof fn lemma_live_is_found<
    'd,
    T: Table<Estimate, Estimator>,
    Estimate,
    Estimator,
    EstSys: EstimationSystem<T, Estimate, Estimator>,
    EditList,
    EditSys: EditSystem<EditList>,
>(
    entries: Map<u64, WorkingEntry<Estimator>>,
    k: u64,
    est_sys: &EstSys,
    edit_sys: &EditSys,
    r: &ReferenceData<'d, T, EditList>,
)
    requires
        is_honest::<T, Estimate, Estimator, EstSys, EditList, EditSys>(entries, est_sys, edit_sys, r),
        entries.contains_key(k),
    ensures
        honest_for::<T, Estimate, Estimator, EstSys, EditList, EditSys>(k, entries[k], est_sys, edit_sys, r),
        found_before(edit_sys, r, k, entries[k].introducing_index + 1),
        entries[k].introducing_index < r.n,
{
    let j = choose|j: int| honest_at::<T, Estimate, Estimator, EstSys, EditList, EditSys>(entries[k], k, j, est_sys, edit_sys, r);
    assert(found_at(edit_sys, r, k, entries[k].introducing_index as int, j));
}

/// A candidate found before a rank was found before each later rank.
pub proof fn lemma_found_before_later<'d, T, EditList, EditSys: EditSystem<EditList>>(
    edit_sys: &EditSys,
    r: &ReferenceData<'d, T, EditList>,
    c: u64,
    upto: int,
    later: int,
)
    requires
        found_before(edit_sys, r, c, upto),
        upto <= later,
    ensures
        found_before(edit_sys, r, c, later),
{
    let (rank, j) = choose|rank: int, j: int| #[trigger] found_at(edit_sys, r, c, rank, j) && rank < upto;
    assert(found_at(edit_sys, r, c, rank, j) && rank < later);
}

/// Under sound systems the first candidate of a ledger stays when the
/// ledger is culled against its worst possible score.
pub proof fn lemma_first_stays<
    'd,
    T: Table<Estimate, Estimator>,
    Estimate,
    Estimator,
    EstSys: EstimationSystem<T, Estimate, Estimator>,
    EditList,
    EditSys: EditSystem<EditList>,
>(
    before: Map<u64, WorkingEntry<Estimator>>,
    first: u64,
    culled: Map<u64, WorkingEntry<Estimator>>,
    est_sys: &EstSys,
    edit_sys: &EditSys,
    r: &ReferenceData<'d, T, EditList>,
    truth: spec_fn(u64) -> int,
)
    requires
        is_honest::<T, Estimate, Estimator, EstSys, EditList, EditSys>(before, est_sys, edit_sys, r),
        sound_system::<T, Estimate, Estimator, EstSys, EditList, EditSys>(est_sys, edit_sys, r, truth),
        is_best(before, first),
        is_culled(before, before[first].worst_possible, culled),
    ensures
        culled.contains_key(first),
{
    let bound = before[first].worst_possible;
    if before.dom().len() > 1 {
        if exists|k: u64| survives(before, k, bound) {
            let k = choose|k: u64| survives(before, k, bound);
            assert(before[first].best_possible <= before[k].best_possible);
            assert(survives(before, first, bound));
        } else {
            let last = choose|k: u64| is_best(before, k) && culled.dom() == set![k];
            assert(culled.dom().contains(last));
            assert(before[last].best_possible <= before[first].best_possible);
            assert(before[first].best_possible <= before[last].best_possible);
            lemma_live_is_found::<T, Estimate, Estimator, EstSys, EditList, EditSys>(before, first, est_sys, edit_sys, r);
            lemma_live_is_found::<T, Estimate, Estimator, EstSys, EditList, EditSys>(before, last, est_sys, edit_sys, r);
        }
    }
}

/// Under sound systems culling keeps, for each candidate found so far, a
/// live candidate in its first entry whose score is no worse.
pub proof fn lemma_cull_keeps_dominated<
    'd,
    T: Table<Estimate, Estimator>,
    Estimate,
    Estimator,
    EstSys: EstimationSystem<T, Estimate, Estimator>,
    EditList,
    EditSys: EditSystem<EditList>,
>(
    before: Map<u64, WorkingEntry<Estimator>>,
    first: u64,
    culled: Map<u64, WorkingEntry<Estimator>>,
    cursor: int,
    est_sys: &EstSys,
    edit_sys: &EditSys,
    r: &ReferenceData<'d, T, EditList>,
    truth: spec_fn(u64) -> int,
)
    requires
        0 <= cursor <= r.n,
        is_honest::<T, Estimate, Estimator, EstSys, EditList, EditSys>(before, est_sys, edit_sys, r),
        sound_system::<T, Estimate, Estimator, EstSys, EditList, EditSys>(est_sys, edit_sys, r, truth),
        dominated(before, cursor, edit_sys, r, truth),
        is_best(before, first),
        is_culled(before, before[first].worst_possible, culled),
    ensures
        dominated(culled, cursor, edit_sys, r, truth),
        culled.contains_key(first),
{
    let bound = before[first].worst_possible;
    lemma_first_stays::<T, Estimate, Estimator, EstSys, EditList, EditSys>(before, first, culled, est_sys, edit_sys, r, truth);
    lemma_live_is_found::<T, Estimate, Estimator, EstSys, EditList, EditSys>(before, first, est_sys, edit_sys, r);
    assert(truth(first) <= bound);
    assert forall|k: u64| #[trigger] culled.contains_key(k) implies culled[k].introducing_index
        < cursor by {
        lemma_submap_entry(culled, before, k);
    }
    // whatever goes in its first entry has no better score than the first candidate
    assert forall|k: u64|
        before.contains_key(k) && !culled.contains_key(k) && is_first_entry(
            k,
            before[k],
            edit_sys,
            r,
        ) implies truth(first) <= truth(k) by {
        lemma_live_is_found::<T, Estimate, Estimator, EstSys, EditList, EditSys>(before, k, est_sys, edit_sys, r);
        assert(before.dom().len() > 1);
        if exists|s: u64| survives(before, s, bound) {
            assert(!survives(before, k, bound));
        } else {
            assert(!survives(before, k, bound));
        }
        assert(before[k].best_possible <= truth(k));
    }
    // the first candidate has a live candidate in its first entry behind it, which stays
    lemma_found_before_later(edit_sys, r, first, before[first].introducing_index + 1, cursor);
    let lead = choose|k: u64|
        #[trigger] before.contains_key(k) && is_first_entry(k, before[k], edit_sys, r) && truth(k)
            <= truth(first);
    assert(culled.contains_key(lead)) by {
        if !culled.contains_key(lead) {
            assert(truth(first) <= truth(lead));
            lemma_live_is_found::<T, Estimate, Estimator, EstSys, EditList, EditSys>(before, lead, est_sys, edit_sys, r);
            let j_first = choose|j: int| honest_at::<T, Estimate, Estimator, EstSys, EditList, EditSys>(before[first], first, j, est_sys, edit_sys, r);
            let j_lead = choose|j: int| honest_at::<T, Estimate, Estimator, EstSys, EditList, EditSys>(before[lead], lead, j, est_sys, edit_sys, r);
            assert(found_at(edit_sys, r, first, before[first].introducing_index as int, j_first));
            assert(found_at(edit_sys, r, lead, before[lead].introducing_index as int, j_lead));
            assert(lead == first);
        }
    }
    lemma_submap_entry(culled, before, lead);
    assert forall|c: u64| #[trigger] found_before(edit_sys, r, c, cursor) implies exists|k: u64|
        #[trigger] culled.contains_key(k) && is_first_entry(k, culled[k], edit_sys, r) && truth(k)
            <= truth(c) by {
        let k = choose|k: u64|
            #[trigger] before.contains_key(k) && is_first_entry(k, before[k], edit_sys, r)
                && truth(k) <= truth(c);
        if culled.contains_key(k) {
            lemma_submap_entry(culled, before, k);
        } else {
            assert(truth(first) <= truth(k));
            assert(culled.contains_key(lead) && is_first_entry(lead, culled[lead], edit_sys, r)
                && truth(lead) <= truth(c));
        }
    }
}

/// Each candidate that a word gives rise to is live once the word has been
/// introduced, and in an entry found at that word if it was not live
/// before.
pub proof fn lemma_introduced_holds<
    T: Table<Estimate, Estimator>,
    Estimate,
    Estimator,
    EstSys: EstimationSystem<T, Estimate, Estimator>,
>(
    entries: Map<u64, WorkingEntry<Estimator>>,
    est_sys: &EstSys,
    table: &T,
    frequencies: Seq<i64>,
    rank: int,
    cands: Seq<SubWithImprovement>,
    j: int,
    at: int,
)
    requires
        0 <= j <= at < cands.len(),
        0 <= rank < usize::MAX,
    ensures
        ({
            let after = introduced::<T, Estimate, Estimator, EstSys>(entries, est_sys, table, frequencies, rank, cands, j);
            after.contains_key(cands[at].sub) && (!entries.contains_key(cands[at].sub)
                ==> after[cands[at].sub].introducing_index == rank)
        }),
        forall|k: u64|
            introduced::<T, Estimate, Estimator, EstSys>(entries, est_sys, table, frequencies, rank, cands, j).contains_key(k)
                && !entries.contains_key(k) ==> (#[trigger] introduced::<
                T,
                Estimate,
                Estimator,
                EstSys,
            >(entries, est_sys, table, frequencies, rank, cands, j)[k]).introducing_index == rank,
    decreases cands.len() - j,
{
    let after = introduced::<T, Estimate, Estimator, EstSys>(entries, est_sys, table, frequencies, rank, cands, j);
    let next = if entries.contains_key(cands[j].sub) {
        entries
    } else {
        entries.insert(
            cands[j].sub,
            initial_entry::<T, Estimate, Estimator, EstSys>(est_sys, table, frequencies, rank, cands[j]),
        )
    };
    lemma_introduced::<T, Estimate, Estimator, EstSys>(next, est_sys, table, frequencies, rank, cands, j + 1, rank + 1);
    let rest = introduced::<T, Estimate, Estimator, EstSys>(next, est_sys, table, frequencies, rank, cands, j + 1);
    assert(after == rest);
    if j < at {
        lemma_introduced_holds::<T, Estimate, Estimator, EstSys>(next, est_sys, table, frequencies, rank, cands, j + 1, at);
    } else {
        lemma_submap_entry(next, rest, cands[at].sub);
    }
    if j + 1 < cands.len() {
        lemma_introduced_holds::<T, Estimate, Estimator, EstSys>(next, est_sys, table, frequencies, rank, cands, j + 1, cands.len() - 1);
    }
    assert forall|k: u64| after.contains_key(k) && !entries.contains_key(k) implies (
    #[trigger] after[k]).introducing_index == rank by {
        if next.contains_key(k) {
            lemma_submap_entry(next, rest, k);
        }
    }
}

/// Under sound systems introducing a word keeps, and gives to the
/// candidates of that word, a live candidate in its first entry whose
/// score is no worse.
pub proof fn lemma_introduce_keeps_dominated<
    'd,
    T: Table<Estimate, Estimator>,
    Estimate,
    Estimator,
    EstSys: EstimationSystem<T, Estimate, Estimator>,
    EditList,
    EditSys: EditSystem<EditList>,
>(
    before: Map<u64, WorkingEntry<Estimator>>,
    cursor: int,
    after: Map<u64, WorkingEntry<Estimator>>,
    est_sys: &EstSys,
    edit_sys: &EditSys,
    r: &ReferenceData<'d, T, EditList>,
    truth: spec_fn(u64) -> int,
)
    requires
        0 <= cursor < r.n,
        is_honest::<T, Estimate, Estimator, EstSys, EditList, EditSys>(before, est_sys, edit_sys, r),
        dominated(before, cursor, edit_sys, r, truth),
        is_introduced::<T, Estimate, Estimator, EstSys, EditList, EditSys>(before, cursor, after, est_sys, edit_sys, r),
    ensures
        dominated(after, cursor + 1, edit_sys, r, truth),
{
    let cands = improving_edits_at(edit_sys, r, cursor);
    lemma_introduced::<T, Estimate, Estimator, EstSys>(before, est_sys, &r.table, r.frequencies_in_introducing_order@, cursor, cands, 0, r.n as int);
    if cands.len() > 0 {
        lemma_introduced_holds::<T, Estimate, Estimator, EstSys>(before, est_sys, &r.table, r.frequencies_in_introducing_order@, cursor, cands, 0, cands.len() - 1);
    }
    assert forall|k: u64| #[trigger] after.contains_key(k) implies after[k].introducing_index
        < cursor + 1 by {
        if before.contains_key(k) {
            lemma_submap_entry(before, after, k);
        } else {
            assert(cands.len() > 0);
        }
    }
    assert forall|c: u64| #[trigger] found_before(edit_sys, r, c, cursor + 1) implies exists|k: u64|
        #[trigger] after.contains_key(k) && is_first_entry(k, after[k], edit_sys, r) && truth(k)
            <= truth(c) by {
        if found_before(edit_sys, r, c, cursor) {
            let k = choose|k: u64|
                #[trigger] before.contains_key(k) && is_first_entry(k, before[k], edit_sys, r)
                    && truth(k) <= truth(c);
            lemma_submap_entry(before, after, k);
        } else {
            let (rank, j) = choose|rank: int, j: int| #[trigger] found_at(edit_sys, r, c, rank, j) && rank < cursor + 1;
            assert(rank == cursor) by {
                if rank < cursor {
                    assert(found_at(edit_sys, r, c, rank, j) && rank < cursor);
                }
            }
            lemma_introduced_holds::<T, Estimate, Estimator, EstSys>(before, est_sys, &r.table, r.frequencies_in_introducing_order@, cursor, cands, 0, j);
            if before.contains_key(c) {
                lemma_live_is_found::<T, Estimate, Estimator, EstSys, EditList, EditSys>(before, c, est_sys, edit_sys, r);
                lemma_found_before_later(edit_sys, r, c, before[c].introducing_index + 1, cursor);
            }
            assert(after.contains_key(c) && is_first_entry(c, after[c], edit_sys, r));
        }
    }
}

/// Under sound systems a tick keeps, for each candidate found so far, a
/// live candidate in its first entry whose score is no worse; and the
/// candidate with which a tick ends the round has the least score of all
/// candidates that a word of the corpus gives rise to.
pub proof fn lemma_tick_is_sound<
    'd,
    T: Table<Estimate, Estimator>,
    Estimate,
    Estimator,
    EstSys: EstimationSystem<T, Estimate, Estimator>,
    EditList,
    EditSys: EditSystem<EditList>,
>(
    before: Map<u64, WorkingEntry<Estimator>>,
    cursor: int,
    after: Map<u64, WorkingEntry<Estimator>>,
    after_cursor: int,
    res: Option<Outcome>,
    est_sys: &EstSys,
    edit_sys: &EditSys,
    r: &ReferenceData<'d, T, EditList>,
    truth: spec_fn(u64) -> int,
)
    requires
        r.wf(),
        before.dom().finite(),
        0 <= cursor <= r.n,
        is_honest::<T, Estimate, Estimator, EstSys, EditList, EditSys>(before, est_sys, edit_sys, r),
        sound_system::<T, Estimate, Estimator, EstSys, EditList, EditSys>(est_sys, edit_sys, r, truth),
        dominated(before, cursor, edit_sys, r, truth),
        ticked::<T, Estimate, Estimator, EstSys, EditList, EditSys>(before, cursor, after, after_cursor, res, est_sys, edit_sys, r),
    ensures
        dominated(after, after_cursor, edit_sys, r, truth),
        res matches Some(outcome) ==> is_least(winner_of(outcome), edit_sys, r, truth),
{
    if before.dom().len() == 0 {
        if cursor < r.n {
            lemma_introduce_keeps_dominated::<T, Estimate, Estimator, EstSys, EditList, EditSys>(before, cursor, after, est_sys, edit_sys, r, truth);
        }
    } else {
        let (first, culled, top) = choose|
            first: u64,
            culled: Map<u64, WorkingEntry<Estimator>>,
            top: u64,
        |
            tick_parts::<T, Estimate, Estimator, EstSys, EditList, EditSys>(before, cursor, after, after_cursor, res, first, culled, top, est_sys, edit_sys, r);
        lemma_cull_keeps_dominated::<T, Estimate, Estimator, EstSys, EditList, EditSys>(before, first, culled, cursor, est_sys, edit_sys, r, truth);
        assert forall|k: u64| #[trigger] culled.contains_key(k) implies exists|j: int|
            honest_at::<T, Estimate, Estimator, EstSys, EditList, EditSys>(culled[k], k, j, est_sys, edit_sys, r) by {
            lemma_submap_entry(culled, before, k);
        }
        let b = from_introducing::<T, Estimate, Estimator, EstSys, EditList>(est_sys, r, cursor);
        match b {
            Some(bv) if bv < culled[top].best_possible => {
                lemma_introduce_keeps_dominated::<T, Estimate, Estimator, EstSys, EditList, EditSys>(culled, cursor, after, est_sys, edit_sys, r, truth);
            },
            _ => match verdict(top, culled[top], culled.dom().len(), b, r.n as nat) {
                Some(outcome) => {
                    assert(culled.dom().subset_of(before.dom())) by {
                        assert forall|k: u64| culled.dom().contains(k) implies before.dom().contains(k) by {
                            lemma_submap_entry(culled, before, k);
                        }
                    }
                    vstd::set_lib::lemma_set_subset_finite(before.dom(), culled.dom());
                    lemma_winner_is_least::<T, Estimate, Estimator, EstSys, EditList, EditSys>(culled, top, cursor, est_sys, edit_sys, r, truth);
                },
                None => {
                    let chunk = choose|chunk: Seq<u64>|
                        {
                            &&& #[trigger] is_chunk(culled, chunk)
                            &&& chunk.len() > 0
                            &&& chunk[0] == top
                            &&& is_worked::<T, Estimate, Estimator, EstSys, EditList, EditSys>(culled, chunk, after, est_sys, edit_sys, r)
                        };
                    assert forall|k: u64| #[trigger] after.contains_key(k) implies after[k].introducing_index
                        == culled[k].introducing_index by {
                        assert(culled.contains_key(k));
                    }
                    assert forall|c: u64| #[trigger] found_before(edit_sys, r, c, cursor) implies exists|
                        k: u64,
                    |
                        #[trigger] after.contains_key(k) && is_first_entry(k, after[k], edit_sys, r)
                            && truth(k) <= truth(c) by {
                        let k = choose|k: u64|
                            #[trigger] culled.contains_key(k) && is_first_entry(
                                k,
                                culled[k],
                                edit_sys,
                                r,
                            ) && truth(k) <= truth(c);
                        assert(after.contains_key(k));
                    }
                },
            },
        }
    }
}

/// Under sound systems the first candidate of a culled ledger, when it has
/// won, has the least score of all candidates that a word of the corpus
/// gives rise to.
pub proof fn lemma_winner_is_least<
    'd,
    T: Table<Estimate, Estimator>,
    Estimate,
    Estimator,
    EstSys: EstimationSystem<T, Estimate, Estimator>,
    EditList,
    EditSys: EditSystem<EditList>,
>(
    culled: Map<u64, WorkingEntry<Estimator>>,
    top: u64,
    cursor: int,
    est_sys: &EstSys,
    edit_sys: &EditSys,
    r: &ReferenceData<'d, T, EditList>,
    truth: spec_fn(u64) -> int,
)
    requires
        r.wf(),
        culled.dom().finite(),
        0 <= cursor <= r.n,
        is_honest::<T, Estimate, Estimator, EstSys, EditList, EditSys>(culled, est_sys, edit_sys, r),
        sound_system::<T, Estimate, Estimator, EstSys, EditList, EditSys>(est_sys, edit_sys, r, truth),
        dominated(culled, cursor, edit_sys, r, truth),
        is_best(culled, top),
        !(from_introducing::<T, Estimate, Estimator, EstSys, EditList>(est_sys, r, cursor) matches Some(b) && b
            < culled[top].best_possible),
        verdict(
            top,
            culled[top],
            culled.dom().len(),
            from_introducing::<T, Estimate, Estimator, EstSys, EditList>(est_sys, r, cursor),
            r.n as nat,
        ) is Some,
    ensures
        is_least(top, edit_sys, r, truth),
{
    let b = from_introducing::<T, Estimate, Estimator, EstSys, EditList>(est_sys, r, cursor);
    let entry = culled[top];
    lemma_live_is_found::<T, Estimate, Estimator, EstSys, EditList, EditSys>(culled, top, est_sys, edit_sys, r);
    let alone = culled.dom().len() == 1 && match b {
        Some(bv) => entry.worst_possible <= bv,
        None => true,
    };
    assert forall|c: u64, rank: int, j: int| #[trigger]
        found_at(edit_sys, r, c, rank, j) implies truth(top) <= truth(c) by {
        if found_before(edit_sys, r, c, cursor) {
            let k = choose|k: u64|
                #[trigger] culled.contains_key(k) && is_first_entry(k, culled[k], edit_sys, r)
                    && truth(k) <= truth(c);
            lemma_live_is_found::<T, Estimate, Estimator, EstSys, EditList, EditSys>(culled, k, est_sys, edit_sys, r);
            if alone {
                Set::lemma_is_singleton(culled.dom());
                assert(culled.dom().contains(k) && culled.dom().contains(top));
                assert(k == top);
            } else {
                assert(entry.best_possible == entry.worst_possible);
                assert(entry.best_possible <= culled[k].best_possible);
            }
        } else {
            assert(cursor <= rank) by {
                if rank < cursor {
                    assert(found_at(edit_sys, r, c, rank, j) && rank < cursor);
                }
            }
            assert(b matches Some(bv) && bv <= truth(c));
            if !alone {
                assert(entry.best_possible == entry.worst_possible);
            }
        }
    }
}

/// Whether no two live candidates have the same best possible score.
pub open spec fn bests_differ<Estimator>(entries: Map<u64, WorkingEntry<Estimator>>) -> bool {
    forall|a: u64, b: u64|
        #[trigger] entries.contains_key(a) && #[trigger] entries.contains_key(b) && a != b
            ==> entries[a].best_possible != entries[b].best_possible
}

/// Where no two live candidates have the same best possible score, each
/// candidate of one chunk of a ledger is in every other.
pub proof fn lemma_chunk_within<Estimator>(
    before: Map<u64, WorkingEntry<Estimator>>,
    one: Seq<u64>,
    other: Seq<u64>,
)
    requires
        bests_differ(before),
        is_chunk(before, one),
        is_chunk(before, other),
    ensures
        forall|k: u64| one.contains(k) ==> other.contains(k),
{
    assert forall|k: u64| one.contains(k) implies other.contains(k) by {
        if !other.contains(k) {
            let at = choose|i: int| 0 <= i < one.len() && one[i] == k;
            assert(before.contains_key(one[at]));
            assert forall|x: u64| other.contains(x) implies one.to_set().remove(k).contains(
                x,
            ) by {
                let i = choose|i: int| 0 <= i < other.len() && other[i] == x;
                assert(before.contains_key(other[i]));
                assert(before[other[i]].best_possible <= before[k].best_possible);
                if !one.contains(x) {
                    assert(before[one[at]].best_possible <= before[x].best_possible);
                }
            }
            one.unique_seq_to_set();
            other.unique_seq_to_set();
            assert(one.to_set().contains(k));
            assert(other.to_set().subset_of(one.to_set().remove(k)));
            lemma_len_subset(other.to_set(), one.to_set().remove(k));
        }
    }
}

/// Where no two live candidates have the same best possible score, a tick
/// can end in one way only: the ledger, the number of words introduced and
/// the answer after it are given by the ledger and the number before it,
/// in whatever order the candidates of its chunk are measured.
pub proof fn lemma_tick_is_one<
    'd,
    T: Table<Estimate, Estimator>,
    Estimate,
    Estimator,
    EstSys: EstimationSystem<T, Estimate, Estimator>,
    EditList,
    EditSys: EditSystem<EditList>,
>(
    before: Map<u64, WorkingEntry<Estimator>>,
    cursor: int,
    one: Map<u64, WorkingEntry<Estimator>>,
    one_cursor: int,
    one_res: Option<Outcome>,
    other: Map<u64, WorkingEntry<Estimator>>,
    other_cursor: int,
    other_res: Option<Outcome>,
    est_sys: &EstSys,
    edit_sys: &EditSys,
    r: &ReferenceData<'d, T, EditList>,
)
    requires
        bests_differ(before),
        ticked::<T, Estimate, Estimator, EstSys, EditList, EditSys>(before, cursor, one, one_cursor, one_res, est_sys, edit_sys, r),
        ticked::<T, Estimate, Estimator, EstSys, EditList, EditSys>(before, cursor, other, other_cursor, other_res, est_sys, edit_sys, r),
    ensures
        one == other,
        one_cursor == other_cursor,
        one_res == other_res,
{
    if before.dom().len() != 0 {
        let (first1, culled1, top1) = choose|
            first: u64,
            culled: Map<u64, WorkingEntry<Estimator>>,
            top: u64,
        |
            tick_parts::<T, Estimate, Estimator, EstSys, EditList, EditSys>(before, cursor, one, one_cursor, one_res, first, culled, top, est_sys, edit_sys, r);
        let (first2, culled2, top2) = choose|
            first: u64,
            culled: Map<u64, WorkingEntry<Estimator>>,
            top: u64,
        |
            tick_parts::<T, Estimate, Estimator, EstSys, EditList, EditSys>(before, cursor, other, other_cursor, other_res, first, culled, top, est_sys, edit_sys, r);
        assert(before[first1].best_possible <= before[first2].best_possible);
        assert(before[first2].best_possible <= before[first1].best_possible);
        assert(first1 == first2);
        let bound = before[first1].worst_possible;
        assert(culled1 =~= culled2) by {
            if before.dom().len() > 1 {
                if exists|k: u64| survives(before, k, bound) {
                } else {
                    let k1 = choose|k: u64| is_best(before, k) && culled1.dom() == set![k];
                    let k2 = choose|k: u64| is_best(before, k) && culled2.dom() == set![k];
                    assert(before[k1].best_possible <= before[k2].best_possible);
                    assert(before[k2].best_possible <= before[k1].best_possible);
                    assert(k1 == k2);
                }
            }
            assert forall|k: u64| culled1.contains_key(k) implies #[trigger] culled1[k]
                == culled2[k] by {
                lemma_submap_entry(culled1, before, k);
                lemma_submap_entry(culled2, before, k);
            }
        }
        assert(culled1[top1].best_possible <= culled1[top2].best_possible);
        assert(culled1[top2].best_possible <= culled1[top1].best_possible);
        assert(top1 == top2) by {
            lemma_submap_entry(culled1, before, top1);
            lemma_submap_entry(culled1, before, top2);
        }
        let b = from_introducing::<T, Estimate, Estimator, EstSys, EditList>(est_sys, r, cursor);
        match b {
            Some(bv) if bv < culled1[top1].best_possible => {},
            _ => match verdict(top1, culled1[top1], culled1.dom().len(), b, r.n as nat) {
                Some(outcome) => {},
                None => {
                    let chunk1 = choose|chunk: Seq<u64>|
                        {
                            &&& #[trigger] is_chunk(culled1, chunk)
                            &&& chunk.len() > 0
                            &&& chunk[0] == top1
                            &&& is_worked::<T, Estimate, Estimator, EstSys, EditList, EditSys>(culled1, chunk, one, est_sys, edit_sys, r)
                        };
                    let chunk2 = choose|chunk: Seq<u64>|
                        {
                            &&& #[trigger] is_chunk(culled1, chunk)
                            &&& chunk.len() > 0
                            &&& chunk[0] == top1
                            &&& is_worked::<T, Estimate, Estimator, EstSys, EditList, EditSys>(culled1, chunk, other, est_sys, edit_sys, r)
                        };
                    assert(bests_differ(culled1)) by {
                        assert forall|a: u64, b: u64|
                            #[trigger] culled1.contains_key(a) && #[trigger] culled1.contains_key(b)
                                && a != b implies culled1[a].best_possible
                            != culled1[b].best_possible by {
                            lemma_submap_entry(culled1, before, a);
                            lemma_submap_entry(culled1, before, b);
                        }
                    }
                    lemma_chunk_within(culled1, chunk1, chunk2);
                    lemma_chunk_within(culled1, chunk2, chunk1);
                    assert(one =~= other);
                },
            },
        }
    }
}

/// A tick that leaves the ledger empty began with it empty, and the word
/// that it introduced gave rise to nothing.
pub proof fn lemma_tick_empty<
    'd,
    T: Table<Estimate, Estimator>,
    Estimate,
    Estimator,
    EstSys: EstimationSystem<T, Estimate, Estimator>,
    EditList,
    EditSys: EditSystem<EditList>,
>(
    before: Map<u64, WorkingEntry<Estimator>>,
    cursor: int,
    after: Map<u64, WorkingEntry<Estimator>>,
    after_cursor: int,
    res: Option<Outcome>,
    est_sys: &EstSys,
    edit_sys: &EditSys,
    r: &ReferenceData<'d, T, EditList>,
)
    requires
        before.dom().finite(),
        0 <= cursor <= r.n,
        after.dom().len() == 0,
        after.dom().finite(),
        ticked::<T, Estimate, Estimator, EstSys, EditList, EditSys>(before, cursor, after, after_cursor, res, est_sys, edit_sys, r),
    ensures
        before.dom().len() == 0,
        cursor < r.n ==> improving_edits_at(edit_sys, r, cursor).len() == 0,
{
    assert(after.dom() =~= Set::<u64>::empty());
    if before.dom().len() == 0 {
        if cursor < r.n {
            let cands = improving_edits_at(edit_sys, r, cursor);
            if cands.len() > 0 {
                let next = if before.contains_key(cands[0].sub) {
                    before
                } else {
                    before.insert(
                        cands[0].sub,
                        initial_entry::<T, Estimate, Estimator, EstSys>(
                            est_sys,
                            &r.table,
                            r.frequencies_in_introducing_order@,
                            cursor,
                            cands[0],
                        ),
                    )
                };
                lemma_introduced::<T, Estimate, Estimator, EstSys>(
                    next,
                    est_sys,
                    &r.table,
                    r.frequencies_in_introducing_order@,
                    cursor,
                    cands,
                    1,
                    r.n as int,
                );
                assert(next.contains_key(cands[0].sub));
                lemma_submap_entry(next, after, cands[0].sub);
            }
        }
    } else {
        let (first, culled, top) = choose|
            first: u64,
            culled: Map<u64, WorkingEntry<Estimator>>,
            top: u64,
        |
            tick_parts::<T, Estimate, Estimator, EstSys, EditList, EditSys>(before, cursor, after, after_cursor, res, first, culled, top, est_sys, edit_sys, r);
        assert(culled.contains_key(top));
        match from_introducing::<T, Estimate, Estimator, EstSys, EditList>(est_sys, r, cursor) {
            Some(b) if b < culled[top].best_possible => {
                lemma_introduced::<T, Estimate, Estimator, EstSys>(
                    culled,
                    est_sys,
                    &r.table,
                    r.frequencies_in_introducing_order@,
                    cursor,
                    improving_edits_at(edit_sys, r, cursor),
                    0,
                    r.n as int,
                );
                lemma_submap_entry(culled, after, top);
            },
            b => {
                assert(after.dom().contains(top));
            },
        }
    }
}

} // verus!
