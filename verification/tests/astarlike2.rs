use feature_refining::astarlike2::{
    calc_change, edit_size, find_improving_edits, new_distance_if_new, AugDictionary,
    IterativeSystem, SubWithImprovement,
};
use feature_refining::dictionary::{Dictionary, DictionaryWord};
use feature_refining::edit_distance::distance;
use feature_refining::genastarlike as search;
use feature_refining::glyphs::Glyph::{self, Ae, A, S, T, Z};
use feature_refining::glyphs::{aug_decode, AugGlyph};
use feature_refining::high_level_substitutions2::{HLSubstitution, HLSubstitutionList};
use feature_refining::numbering::Numbering;
use std::cell::RefCell;
use std::collections::HashMap;
use std::rc::Rc;

#[test]
fn astarlike2_test_1() {
    let transformed_spelling: Vec<AugGlyph> = aug_decode("{0}at");
    let back_transformed_pronunciation: Vec<AugGlyph> = aug_decode("{0}\u{e6}t");
    let base_pronunciation: Vec<AugGlyph> = aug_decode("k\u{e6}t");
    let rules =
        HLSubstitutionList { substitutions: vec![HLSubstitution::decode("[c]\u{2192}0\u{2192}k").unwrap()] };
    let base_distance: u32 = distance(&aug_decode("kat"), &base_pronunciation);
    let mid: u32 = 1;

    let edits = find_improving_edits(
        &transformed_spelling,
        &back_transformed_pronunciation,
        &base_pronunciation,
        &rules,
        base_distance,
        mid,
    );

    println!("Improving edits:");
    for sw in &edits {
        println!("  {} {}", sw.sub.encode(), sw.improvement);
    }
    println!("");

    assert!(edits.contains(&SubWithImprovement {
        sub: HLSubstitution::decode("[a]\u{2192}1\u{2192}\u{e6}").unwrap(),
        improvement: 1
    }));
    assert!(edits.contains(&SubWithImprovement {
        sub: HLSubstitution::decode("[{0}a]\u{2192}1\u{2192}{0}\u{e6}").unwrap(),
        improvement: 1
    }));
    assert!(edits.contains(&SubWithImprovement {
        sub: HLSubstitution::decode("{0}[a]\u{2192}1\u{2192}\u{e6}").unwrap(),
        improvement: 1
    }));
    assert!(edits.contains(&SubWithImprovement {
        sub: HLSubstitution::decode("{0}[a]t\u{2192}1\u{2192}\u{e6}").unwrap(),
        improvement: 1
    }));
}

#[test]
fn astarlike2_with_new_test_1() {
    let spelling = aug_decode("something");
    let pronunciation = aug_decode("s\u{28c}m\u{3b8}\u{26a}\u{14b}");

    let sub = HLSubstitution::decode("[thi]\u{2192}0\u{2192}\u{3d1}\u{26a}s").unwrap();

    assert!(new_distance_if_new(
        &spelling,
        &pronunciation,
        &sub,
        &HLSubstitutionList { substitutions: vec![] }
    )
    .is_some());
}

#[test]
fn changes_and_sizes() {
    let none = HLSubstitutionList { substitutions: vec![] };
    let sub = HLSubstitution::decode("c[a]\u{2192}0\u{2192}o").unwrap();
    assert_eq!(new_distance_if_new(&aug_decode("cat"), &aug_decode("cot"), &sub, &none), Some(0));
    assert_eq!(new_distance_if_new(&aug_decode("bat"), &aug_decode("cot"), &sub, &none), None);
    assert_eq!(calc_change(&aug_decode("cat"), &aug_decode("cot"), &sub, &none, 1), -1);
    assert_eq!(calc_change(&aug_decode("cat"), &aug_decode("cat"), &sub, &none, 0), 1);
    assert_eq!(calc_change(&aug_decode("bat"), &aug_decode("cot"), &sub, &none, 2), 0);
    assert_eq!(edit_size(&sub), 2);
    assert_eq!(edit_size(&HLSubstitution::decode("^c[at]s$\u{2192}0\u{2192}o").unwrap()), 6);
}

#[test]
fn rules_may_be_bound_to_an_end_where_no_letter_stands_next() {
    let none = HLSubstitutionList { substitutions: vec![] };
    let found = find_improving_edits(
        &aug_decode("a-b"),
        &aug_decode("c"),
        &aug_decode("a-c"),
        &none,
        1,
        0,
    );
    let texts: Vec<String> = found.iter().map(|f| f.sub.encode()).collect();
    assert!(texts.contains(&"[b]\u{2192}0\u{2192}c".to_owned()));
    assert!(texts.contains(&"^[b]$\u{2192}0\u{2192}c".to_owned()));
    assert!(!texts.contains(&"^[-b]\u{2192}0\u{2192}c".to_owned()));
    for f in &found {
        assert_eq!(f.improvement, 1);
    }
}

struct HlEditSystem<'a> {
    words: &'a AugDictionary,
    place: HashMap<(Vec<Glyph>, Vec<Glyph>), usize>,
    mid: u32,
    numbering: Rc<RefCell<Numbering>>,
}

impl<'a> HlEditSystem<'a> {
    fn word(&self, spelling: &Vec<Glyph>, pronunciation: &Vec<Glyph>) -> usize {
        *self.place.get(&(spelling.clone(), pronunciation.clone())).unwrap()
    }
}

impl<'a> search::EditSystem<HLSubstitutionList> for HlEditSystem<'a> {
    fn find_improving_edits(
        &self,
        spelling: &Vec<Glyph>,
        pronunciation: &Vec<Glyph>,
        prior_rules: &HLSubstitutionList,
    ) -> Vec<search::SubWithImprovement> {
        let w = &self.words.words[self.word(spelling, pronunciation)];
        let base_distance = self.distance(prior_rules, spelling, pronunciation);
        let found = find_improving_edits(
            &w.transformed_spelling,
            &w.back_transformed_pronunciation,
            &w.base_pronunciation,
            prior_rules,
            base_distance,
            self.mid,
        );
        let mut numbering = self.numbering.borrow_mut();
        found
            .iter()
            .map(|f| search::SubWithImprovement {
                sub: numbering.number_of(&f.sub),
                improvement: f.improvement,
                size_cost: 0,
            })
            .collect()
    }

    fn distance(
        &self,
        rules: &HLSubstitutionList,
        spelling: &Vec<Glyph>,
        pronunciation: &Vec<Glyph>,
    ) -> u32 {
        let w = &self.words.words[self.word(spelling, pronunciation)];
        distance(&rules.apply_posterior_copied(&w.transformed_spelling), &w.base_pronunciation)
    }

    fn new_distance(
        &self,
        prior_rules: &HLSubstitutionList,
        new_rule: u64,
        spelling: &Vec<Glyph>,
        pronunciation: &Vec<Glyph>,
    ) -> Option<u32> {
        let w = &self.words.words[self.word(spelling, pronunciation)];
        let rule = self.numbering.borrow().rule(new_rule).unwrap();
        new_distance_if_new(&w.transformed_spelling, &w.base_pronunciation, &rule, prior_rules)
            .map(|d| d as u32)
    }
}

#[derive(Clone)]
struct Test1Estimator {
    path: Vec<Test1Estimate>,
    index: usize,
}

#[derive(Clone, Copy)]
struct Test1Estimate {
    best_possible: i64,
    worst_possible: i64,
}

#[derive(Clone)]
struct Test1Word {
    specific_paths: HashMap<HLSubstitution, Vec<Test1Estimate>>,
    default_path: Vec<Test1Estimate>,
}

struct Test1Table {
    complete_table: Vec<Test1Word>,
    numbering: Rc<RefCell<Numbering>>,
}

impl search::Table<Test1Estimate, Test1Estimator> for Test1Table {
    fn introduce(
        &self,
        _frequencies_in_introducing_order: &Vec<i64>,
        introducing_i: usize,
        _change_at_introducing_i: i64,
        edit: u64,
    ) -> Test1Estimator {
        let word = &self.complete_table[introducing_i];
        let rule = self.numbering.borrow().rule(edit).unwrap();
        let path = match word.specific_paths.get(&rule) {
            None => word.default_path.clone(),
            Some(path) => path.clone(),
        };
        Test1Estimator { path, index: introducing_i }
    }

    fn estimate_introduce(
        &self,
        _frequencies_in_introducing_order: &Vec<i64>,
        introducing_i: usize,
    ) -> Test1Estimate {
        self.complete_table[introducing_i].default_path[0]
    }

    fn update_edit(
        &self,
        _frequencies_in_introducing_order: &Vec<i64>,
        _current_distances_in_introducing_order: &Vec<u32>,
        _introduced_i: usize,
        updated_i: usize,
        _change_at_updated_i: i64,
        prev_estimate: Test1Estimator,
    ) -> Test1Estimator {
        Test1Estimator { path: prev_estimate.path, index: updated_i }
    }
}

struct Test1System {
    complete_table: Vec<Test1Word>,
    numbering: Rc<RefCell<Numbering>>,
}

impl search::EstimationSystem<Test1Table, Test1Estimate, Test1Estimator> for Test1System {
    fn build_table(
        &self,
        _frequencies_in_introducing_order: &Vec<i64>,
        _current_distances_in_introducing_order: &Vec<u32>,
    ) -> Test1Table {
        Test1Table { complete_table: self.complete_table.clone(), numbering: self.numbering.clone() }
    }

    fn introducing_key(&self, frequency: i64, distance: u32) -> i64 {
        -frequency * (distance as i64)
    }

    fn calc_estimate(&self, estimator: &Test1Estimator) -> Test1Estimate {
        estimator.path[estimator.index]
    }

    fn calc_best_possible(&self, e: &Test1Estimate, size_cost: i64) -> i64 {
        e.best_possible + size_cost
    }

    fn calc_worst_possible(&self, e: &Test1Estimate, size_cost: i64) -> i64 {
        e.worst_possible + size_cost
    }
}

/// How a round on rules in two halves ends.
#[derive(Debug)]
enum Outcome {
    FoundImprovement(HLSubstitution, i64),
    FailedToFindImprovement(HLSubstitution, i64),
}

fn find_next_rule(
    system: &mut IterativeSystem,
    dictionary: &Dictionary,
    sys: &Test1System,
) -> Outcome {
    let mid = system.rules.next_open_mid();
    let outcome = {
        let place = dictionary
            .words
            .iter()
            .enumerate()
            .map(|(i, w)| ((w.spelling.clone(), w.pronunciation.clone()), i))
            .collect();
        let edit_sys =
            HlEditSystem { words: &system.dictionary, place, mid, numbering: sys.numbering.clone() };
        let rule = |n: u64| sys.numbering.borrow().rule(n).unwrap();
        match search::search(sys, &edit_sys, dictionary, &system.rules).unwrap() {
            search::Outcome::FoundImprovement(n, score) => Outcome::FoundImprovement(rule(n), score),
            search::Outcome::FailedToFindImprovement(n, score) => {
                Outcome::FailedToFindImprovement(rule(n), score)
            }
        }
    };
    if let Outcome::FoundImprovement(sub, _) = &outcome {
        system.accept(sub.clone());
    }
    outcome
}

fn est(best_possible: i64, worst_possible: i64) -> Test1Estimate {
    Test1Estimate { best_possible, worst_possible }
}

// The corpus of two words, `at` and `as`, the first twice as heavy as the second; scores
// are counted in tenths.
#[test]
fn astarlike2_test_2() {
    let dictionary = Dictionary {
        words: vec![
            DictionaryWord { spelling: vec![A, T], pronunciation: vec![Ae, T], frequency: 10 },
            DictionaryWord { spelling: vec![A, S], pronunciation: vec![Ae, Z], frequency: 5 },
        ],
    };

    let system = Test1System {
        complete_table: vec![
            Test1Word {
                specific_paths: [(
                    HLSubstitution::decode("[a]\u{2192}0\u{2192}\u{e6}").unwrap(),
                    vec![est(-10, 10), est(-10, -10)],
                )]
                .iter()
                .cloned()
                .collect(),
                default_path: vec![est(50, 60), est(70, 80)],
            },
            Test1Word {
                specific_paths: [].iter().cloned().collect(),
                default_path: vec![est(50, 60), est(70, 80)],
            },
        ],
        numbering: Rc::new(RefCell::new(Numbering::new())),
    };

    let mut iter_system =
        IterativeSystem::setup(&dictionary, HLSubstitutionList { substitutions: vec![] });

    let outcome = find_next_rule(&mut iter_system, &dictionary, &system);
    match outcome {
        Outcome::FoundImprovement(sub, score) => {
            assert_eq!(sub, HLSubstitution::decode("[a]\u{2192}0\u{2192}\u{e6}").unwrap());
            assert!(score < 0);
        }
        _ => panic!("Failed to find improvement"),
    };
    assert_eq!(iter_system.dictionary.words[0].transformed_spelling, aug_decode("{0}t"));
    assert_eq!(iter_system.dictionary.words[0].back_transformed_pronunciation, aug_decode("{0}t"));
    assert_eq!(iter_system.dictionary.words[1].transformed_spelling, aug_decode("{0}s"));
    assert_eq!(iter_system.dictionary.words[1].back_transformed_pronunciation, aug_decode("{0}z"));
    assert_eq!(iter_system.rules.substitutions.len(), 1);
}

#[test]
fn setup_and_accept() {
    let dictionary = Dictionary {
        words: vec![DictionaryWord { spelling: vec![A, T], pronunciation: vec![Ae, T], frequency: 7 }],
    };
    let mut system = IterativeSystem::setup(&dictionary, HLSubstitutionList { substitutions: vec![] });
    assert_eq!(system.dictionary.words.len(), 1);
    assert_eq!(system.dictionary.words[0].transformed_spelling, aug_decode("at"));
    assert_eq!(system.dictionary.words[0].base_pronunciation, aug_decode("\u{e6}t"));
    assert_eq!(system.dictionary.words[0].back_transformed_pronunciation, aug_decode("\u{e6}t"));
    assert_eq!(system.dictionary.words[0].frequency, 7);
    system.accept(HLSubstitution::decode("[t]$\u{2192}3\u{2192}t").unwrap());
    assert_eq!(system.dictionary.words[0].transformed_spelling, aug_decode("a{3}"));
    assert_eq!(system.dictionary.words[0].base_pronunciation, aug_decode("\u{e6}t"));
    assert_eq!(system.dictionary.words[0].back_transformed_pronunciation, aug_decode("\u{e6}{3}"));
    assert_eq!(system.rules.substitutions.len(), 1);
    assert_eq!(system.rules.next_open_mid(), 0);
    let _ = (S, Z);
}
