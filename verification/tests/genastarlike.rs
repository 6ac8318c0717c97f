use feature_refining::dictionary::{Dictionary, DictionaryWord};
use feature_refining::genastarlike::{
    check_for_winner, cull_working_table, init_ref_data, init_working_data, introduce,
    produce_outcome, search, step, EditSystem, EstimationSystem, Outcome, SubWithImprovement,
    Table, WorkingEntry,
};
use feature_refining::glyphs::{decode, Glyph};
use std::collections::HashMap;

#[derive(Clone)]
struct Test1Estimator {
    path: Vec<Test1Estimate>,
    index: usize,
}

#[derive(Clone, Copy)]
struct Test1Estimate {
    best_possible: i64,
    worst_possible: i64,
}

const FOO: u64 = 1;
const BAR: u64 = 2;

struct Test1EditList {}

#[derive(Clone)]
struct Test1Word {
    specific_paths: HashMap<u64, Vec<Test1Estimate>>,
    default_path: Vec<Test1Estimate>,
}

struct Test1Table {
    complete_table: Vec<Test1Word>,
}

impl Table<Test1Estimate, Test1Estimator> for Test1Table {
    fn introduce(
        &self,
        _frequencies_in_introducing_order: &Vec<i64>,
        introducing_i: usize,
        _change_at_introducing_i: i64,
        edit: u64,
    ) -> Test1Estimator {
        let word = &self.complete_table[introducing_i];
        let path = match word.specific_paths.get(&edit) {
            None => word.default_path.clone(),
            Some(path) => path.clone(),
        };
        Test1Estimator { path, index: introducing_i }
    }

    fn estimate_introduce(
        &self,
        _frequencies_in_introducing_order: &Vec<i64>,
        introducing_i: usize,
    ) -> Test1Estimate {
        self.complete_table[introducing_i].default_path[0]
    }

    fn update_edit(
        &self,
        _frequencies_in_introducing_order: &Vec<i64>,
        _current_distances_in_introducing_order: &Vec<u32>,
        _introduced_i: usize,
        updated_i: usize,
        _change_at_updated_i: i64,
        prev_estimate: Test1Estimator,
    ) -> Test1Estimator {
        Test1Estimator { path: prev_estimate.path, index: updated_i }
    }
}

struct Test1EstimationSystem {
    complete_table: Vec<Test1Word>,
}

impl EstimationSystem<Test1Table, Test1Estimate, Test1Estimator> for Test1EstimationSystem {
    fn build_table(
        &self,
        _frequencies_in_introducing_order: &Vec<i64>,
        _current_distances_in_introducing_order: &Vec<u32>,
    ) -> Test1Table {
        Test1Table { complete_table: self.complete_table.clone() }
    }

    fn introducing_key(&self, frequency: i64, distance: u32) -> i64 {
        -frequency * (distance as i64)
    }

    fn calc_estimate(&self, estimator: &Test1Estimator) -> Test1Estimate {
        estimator.path[estimator.index]
    }

    fn calc_best_possible(&self, e: &Test1Estimate, size_cost: i64) -> i64 {
        e.best_possible + size_cost
    }

    fn calc_worst_possible(&self, e: &Test1Estimate, size_cost: i64) -> i64 {
        e.worst_possible + size_cost
    }
}

struct Test1EditSystem {
    improving_edits: HashMap<(Vec<Glyph>, Vec<Glyph>), Vec<SubWithImprovement>>,
    old_distances: HashMap<(Vec<Glyph>, Vec<Glyph>), u32>,
    new_distances: HashMap<(Vec<Glyph>, Vec<Glyph>, u64), Option<u32>>,
}

impl EditSystem<Test1EditList> for Test1EditSystem {
    fn find_improving_edits(
        &self,
        spelling: &Vec<Glyph>,
        pronunciation: &Vec<Glyph>,
        _prior_rules: &Test1EditList,
    ) -> Vec<SubWithImprovement> {
        self.improving_edits.get(&(spelling.clone(), pronunciation.clone())).unwrap().clone()
    }

    fn distance(
        &self,
        _rules: &Test1EditList,
        spelling: &Vec<Glyph>,
        pronunciation: &Vec<Glyph>,
    ) -> u32 {
        self.old_distances.get(&(spelling.clone(), pronunciation.clone())).unwrap().clone()
    }

    fn new_distance(
        &self,
        _prior_rules: &Test1EditList,
        new_rule: u64,
        spelling: &Vec<Glyph>,
        pronunciation: &Vec<Glyph>,
    ) -> Option<u32> {
        self.new_distances.get(&(spelling.clone(), pronunciation.clone(), new_rule)).unwrap().clone()
    }
}

fn est(best_possible: i64, worst_possible: i64) -> Test1Estimate {
    Test1Estimate { best_possible, worst_possible }
}

fn test1_edit_system() -> Test1EditSystem {
    Test1EditSystem {
        improving_edits: vec![
            (
                (decode("to"), decode("tu")),
                vec![
                    SubWithImprovement { sub: FOO, improvement: 1, size_cost: 0 },
                    SubWithImprovement { sub: BAR, improvement: 1, size_cost: 0 },
                ],
            ),
            ((decode("who"), decode("hu")), vec![]),
        ]
        .into_iter()
        .collect(),
        old_distances: vec![((decode("to"), decode("tu")), 1), ((decode("who"), decode("hu")), 1)]
            .into_iter()
            .collect(),
        new_distances: vec![
            ((decode("to"), decode("tu"), FOO), Some(0)),
            ((decode("to"), decode("tu"), BAR), Some(0)),
            ((decode("who"), decode("hu"), FOO), Some(0)),
            ((decode("who"), decode("hu"), BAR), Some(1)),
        ]
        .into_iter()
        .collect(),
    }
}

// Scores are counted in tenths.
fn test1_estimation_system() -> Test1EstimationSystem {
    Test1EstimationSystem {
        complete_table: vec![
            Test1Word {
                specific_paths: [
                    (FOO, vec![est(-10, 10), est(-10, -10)]),
                    (BAR, vec![est(-10, 10), est(-5, -5)]),
                ]
                .iter()
                .cloned()
                .collect(),
                default_path: vec![est(50, 60), est(70, 80)],
            },
            Test1Word {
                specific_paths: [].iter().cloned().collect(),
                default_path: vec![est(50, 60), est(70, 80)],
            },
        ],
    }
}

fn test1_dictionary() -> Dictionary {
    Dictionary {
        words: vec![
            DictionaryWord { spelling: decode("to"), pronunciation: decode("tu"), frequency: 10 },
            DictionaryWord { spelling: decode("who"), pronunciation: decode("hu"), frequency: 10 },
        ],
    }
}

#[test]
fn genastarlike_test_1() {
    let edit_sys = test1_edit_system();
    let est_sys = test1_estimation_system();
    let dictionary = test1_dictionary();

    println!("Initializing ref data...");
    let rules = Test1EditList {};

    let r = init_ref_data(&est_sys, &edit_sys, &dictionary, &rules);

    println!("Initializing working data...");
    let mut w = init_working_data();

    println!("current_distances = {:?}", r.current_distances);
    println!("introducing_order = {:?}", r.introducing_order);
    println!("");

    let mut the_winner: Option<u64> = None;

    for _ in 0..10 {
        if let Some(outcome) = step(&est_sys, &edit_sys, &r, &mut w) {
            if let Outcome::FoundImprovement(winner, _) = outcome {
                the_winner = Some(winner);
                break;
            } else {
                panic!("Failed to find improvement");
            }
        }
        println!("");
    }

    assert_eq!(the_winner.unwrap(), FOO);
}

#[test]
fn search_runs_the_round_to_its_end() {
    let edit_sys = test1_edit_system();
    let est_sys = test1_estimation_system();
    let dictionary = test1_dictionary();
    let rules = Test1EditList {};
    assert_eq!(
        search(&est_sys, &edit_sys, &dictionary, &rules),
        Some(Outcome::FoundImprovement(FOO, -10))
    );
    // the same round again ends the same way
    assert_eq!(
        search(&est_sys, &edit_sys, &dictionary, &rules),
        Some(Outcome::FoundImprovement(FOO, -10))
    );
}

#[test]
fn search_without_candidates_has_no_answer() {
    let mut edit_sys = test1_edit_system();
    edit_sys.improving_edits.insert((decode("to"), decode("tu")), vec![]);
    let est_sys = test1_estimation_system();
    let dictionary = test1_dictionary();
    let rules = Test1EditList {};
    assert_eq!(search(&est_sys, &edit_sys, &dictionary, &rules), None);
    let empty = Dictionary { words: vec![] };
    let nothing = Test1EstimationSystem { complete_table: vec![] };
    assert_eq!(search(&nothing, &edit_sys, &empty, &rules), None);
}

#[test]
fn ticks_one_by_one() {
    let edit_sys = test1_edit_system();
    let est_sys = test1_estimation_system();
    let dictionary = test1_dictionary();
    let rules = Test1EditList {};
    let r = init_ref_data(&est_sys, &edit_sys, &dictionary, &rules);
    assert_eq!(r.n, 2);
    assert_eq!(r.introducing_order, vec![0, 1]);
    assert_eq!(r.introducing_order_rev, vec![0, 1]);
    assert_eq!(r.current_distances, vec![1, 1]);
    let mut w = init_working_data();
    assert!(w.is_empty());

    // the first tick introduces the first word
    assert_eq!(step(&est_sys, &edit_sys, &r, &mut w), None);
    assert_eq!(w.introduced(), 1);
    assert_eq!(w.len(), 2);
    let foo = w.get(FOO).unwrap();
    assert_eq!((foo.best_possible, foo.worst_possible), (-10, 10));
    assert_eq!((foo.introducing_index, foo.next_to_explore_index), (0, 0));

    // the second measures both candidates on every word
    assert_eq!(step(&est_sys, &edit_sys, &r, &mut w), None);
    assert_eq!(w.introduced(), 1);
    assert_eq!(w.len(), 2);
    let foo = w.get(FOO).unwrap();
    assert_eq!((foo.best_possible, foo.worst_possible, foo.next_to_explore_index), (-10, -10, 2));
    let bar = w.get(BAR).unwrap();
    assert_eq!((bar.best_possible, bar.worst_possible, bar.next_to_explore_index), (-5, -5, 2));
    assert_eq!(w.peek_best(), Some(FOO));
    assert_eq!(w.peek_weakest(), Some(BAR));

    // the third culls the weaker one and finds the winner
    assert_eq!(
        step(&est_sys, &edit_sys, &r, &mut w),
        Some(Outcome::FoundImprovement(FOO, -10))
    );
    assert_eq!(w.len(), 1);
    assert!(w.contains(FOO));
    assert!(!w.contains(BAR));
}

fn entry(best_possible: i64, worst_possible: i64, next: usize) -> WorkingEntry<Test1Estimator> {
    WorkingEntry {
        estimator: Test1Estimator { path: vec![], index: 0 },
        best_possible,
        worst_possible,
        size_cost: 0,
        introducing_index: 0,
        next_to_explore_index: next,
    }
}

#[test]
fn culling_twice_removes_nothing_the_second_time() {
    let mut w = init_working_data();
    w.insert(1, entry(-10, -4, 0));
    w.insert(2, entry(-6, 3, 0));
    w.insert(3, entry(-4, 0, 0));
    w.insert(4, entry(2, 9, 0));
    cull_working_table(&mut w);
    assert_eq!(w.len(), 2);
    assert!(w.contains(1) && w.contains(2));
    cull_working_table(&mut w);
    assert_eq!(w.len(), 2);
    assert!(w.contains(1) && w.contains(2));

    // against one bound, whatever the ledger
    let mut w = init_working_data();
    w.insert(1, entry(5, 5, 0));
    w.insert(2, entry(5, 9, 0));
    w.insert(3, entry(7, 8, 0));
    w.cull_against(5);
    assert_eq!(w.len(), 1);
    let left = w.peek_best().unwrap();
    assert_eq!(w.get(left).unwrap().best_possible, 5);
    w.cull_against(5);
    assert_eq!(w.len(), 1);
    assert!(w.contains(left));

    // one candidate is never culled, and an empty ledger stays empty
    let mut w = init_working_data();
    w.insert(9, entry(3, 3, 0));
    w.cull_against(-100);
    assert_eq!(w.len(), 1);
    assert_eq!(w.remove(9).map(|e| e.best_possible), Some(3));
    cull_working_table(&mut w);
    assert!(w.is_empty());
    assert_eq!(w.peek_best(), None);
    assert_eq!(w.peek_weakest(), None);
}

#[test]
fn winner_by_standing_alone_or_by_being_measured_out() {
    let edit_sys = test1_edit_system();
    let est_sys = test1_estimation_system();
    let dictionary = test1_dictionary();
    let rules = Test1EditList {};
    let r = init_ref_data(&est_sys, &edit_sys, &dictionary, &rules);

    let mut w = init_working_data();
    w.insert(7, entry(-3, 4, 0));
    // alone, and nothing to come can be better than its worst
    assert_eq!(check_for_winner(&r, &w, Some(4)), Some(Outcome::FoundImprovement(7, -3)));
    assert_eq!(check_for_winner(&r, &w, None), Some(Outcome::FoundImprovement(7, -3)));
    // alone, but something to come could be better
    assert_eq!(check_for_winner(&r, &w, Some(3)), None);
    // not alone
    w.insert(8, entry(-1, 9, 0));
    assert_eq!(check_for_winner(&r, &w, None), None);
    // measured on every word
    w.insert(7, entry(-3, -3, 2));
    assert_eq!(check_for_winner(&r, &w, Some(-50)), Some(Outcome::FoundImprovement(7, -3)));

    assert_eq!(produce_outcome(5, -1), Outcome::FoundImprovement(5, -1));
    assert_eq!(produce_outcome(5, 0), Outcome::FailedToFindImprovement(5, 0));
    assert_eq!(produce_outcome(5, 12), Outcome::FailedToFindImprovement(5, 12));
}

#[test]
fn introducing_skips_live_candidates_and_stops_at_the_end() {
    let edit_sys = test1_edit_system();
    let est_sys = test1_estimation_system();
    let dictionary = test1_dictionary();
    let rules = Test1EditList {};
    let r = init_ref_data(&est_sys, &edit_sys, &dictionary, &rules);
    let mut w = init_working_data();
    w.insert(FOO, entry(-99, 99, 1));
    introduce(&est_sys, &edit_sys, &r, &mut w);
    assert_eq!(w.introduced(), 1);
    assert_eq!(w.len(), 2);
    assert_eq!(w.get(FOO).unwrap().best_possible, -99);
    assert_eq!(w.get(BAR).unwrap().best_possible, -10);
    introduce(&est_sys, &edit_sys, &r, &mut w);
    assert_eq!(w.introduced(), 2);
    assert_eq!(w.len(), 2);
    introduce(&est_sys, &edit_sys, &r, &mut w);
    assert_eq!(w.introduced(), 2);
    assert_eq!(w.len(), 2);
}

#[test]
fn words_are_ranked_by_key_and_then_by_place() {
    let edit_sys = Test1EditSystem {
        improving_edits: HashMap::new(),
        old_distances: vec![
            ((decode("a"), decode("b")), 1),
            ((decode("c"), decode("d")), 3),
            ((decode("e"), decode("f")), 0),
            ((decode("g"), decode("h")), 3),
        ]
        .into_iter()
        .collect(),
        new_distances: HashMap::new(),
    };
    let word = |s: &str, p: &str, frequency: i64| DictionaryWord {
        spelling: decode(s),
        pronunciation: decode(p),
        frequency,
    };
    let dictionary = Dictionary {
        words: vec![word("a", "b", 10), word("c", "d", 2), word("e", "f", 100), word("g", "h", 2)],
    };
    let est_sys = Test1EstimationSystem { complete_table: vec![] };
    let rules = Test1EditList {};
    let r = init_ref_data(&est_sys, &edit_sys, &dictionary, &rules);
    // weighted distances 10, 6, 0, 6: the heaviest first, equal ones in the order of the corpus
    assert_eq!(r.introducing_order, vec![0, 1, 3, 2]);
    assert_eq!(r.introducing_order_rev, vec![0, 1, 3, 2]);
    assert_eq!(r.frequencies_in_introducing_order, vec![10, 2, 2, 100]);
    assert_eq!(r.current_distances_in_introducing_order, vec![1, 3, 3, 0]);
}

#[test]
fn the_two_orders_of_the_ledger_follow_every_change() {
    let mut model: std::collections::BTreeMap<u64, i64> = std::collections::BTreeMap::new();
    let mut w = init_working_data();
    let mut seed: u64 = 17;
    for _ in 0..2000 {
        seed = seed.wrapping_mul(6364136223846793005).wrapping_add(1442695040888963407);
        let key = (seed >> 33) % 12;
        let score = ((seed >> 40) % 41) as i64 - 20;
        if (seed >> 60) % 3 == 0 {
            let gone = w.remove(key).map(|e| e.best_possible);
            assert_eq!(gone, model.remove(&key));
        } else {
            w.insert(key, entry(score, score + 5, 0));
            model.insert(key, score);
        }
        assert_eq!(w.len(), model.len());
        assert_eq!(w.is_empty(), model.is_empty());
        for k in 0..12 {
            assert_eq!(w.contains(k), model.contains_key(&k));
            assert_eq!(w.get(k).map(|e| e.best_possible), model.get(&k).copied());
        }
        let least = model.values().min().copied();
        let greatest = model.values().max().copied();
        assert_eq!(w.peek_best().map(|k| model[&k]), least);
        assert_eq!(w.peek_weakest().map(|k| model[&k]), greatest);
    }
}

#[test]
fn the_ledger_at_the_ends_of_the_scores() {
    let mut w = init_working_data();
    w.insert(1, entry(i64::MAX, i64::MAX, 0));
    w.insert(2, entry(i64::MIN, i64::MIN, 0));
    w.insert(3, entry(0, 0, 0));
    assert_eq!(w.peek_best(), Some(2));
    assert_eq!(w.peek_weakest(), Some(1));
    w.cull_against(0);
    assert_eq!(w.len(), 1);
    assert!(w.contains(2));
}
