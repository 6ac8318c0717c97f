use feature_refining::dictionary::{Dictionary, DictionaryWord};
use feature_refining::genastarlike::{
    init_ref_data, init_working_data, search, step, EditSystem, EstimationSystem, Outcome,
    SubWithImprovement, Table,
};
use feature_refining::glyphs::Glyph;

// A corpus whose words are told apart by their spelling, candidates whose effect on each word
// is written down, and an estimation system that reckons in whole numbers and is never wrong:
// a word not yet measured may gain no more than its distance, and lose no more than `SLACK`.
//
// Weights are whole hundreds and the size cost of a candidate is its number, below a hundred:
// so no two candidates ever have the same bound, and the size cost decides between candidates
// that are equal otherwise.

const SLACK: i64 = 2;

struct Rng(u64);

impl Rng {
    fn next(&mut self, below: u64) -> u64 {
        self.0 = self.0.wrapping_mul(6364136223846793005).wrapping_add(1442695040888963407);
        (self.0 >> 33) % below
    }
}

struct World {
    weights: Vec<i64>,
    distances: Vec<u32>,
    // for each candidate and each word, the distance of the word under the candidate
    new_distances: Vec<Vec<Option<u32>>>,
}

fn spelling_of(word: usize) -> Vec<Glyph> {
    let all = Glyph::all();
    vec![all[word / all.len()], all[word % all.len()]]
}

fn word_of(spelling: &Vec<Glyph>) -> usize {
    let all = Glyph::all();
    let place = |g: &Glyph| all.iter().position(|other| other == g).unwrap();
    place(&spelling[0]) * all.len() + place(&spelling[1])
}

impl World {
    fn random(seed: u64, words: usize, candidates: usize) -> World {
        let mut rng = Rng(seed);
        let weights: Vec<i64> = (0..words).map(|_| 100 * (1 + rng.next(9) as i64)).collect();
        let distances: Vec<u32> = (0..words).map(|_| rng.next(4) as u32).collect();
        let new_distances = (0..candidates)
            .map(|_| {
                (0..words)
                    .map(|i| {
                        if rng.next(4) == 0 {
                            None
                        } else {
                            Some(rng.next(distances[i] as u64 + SLACK as u64 + 1) as u32)
                        }
                    })
                    .collect()
            })
            .collect();
        World { weights, distances, new_distances }
    }

    fn dictionary(&self) -> Dictionary {
        Dictionary {
            words: (0..self.weights.len())
                .map(|i| DictionaryWord {
                    spelling: spelling_of(i),
                    pronunciation: vec![],
                    frequency: self.weights[i],
                })
                .collect(),
        }
    }

    fn change(&self, candidate: u64, word: usize) -> i64 {
        match self.new_distances[candidate as usize][word] {
            Some(d) => d as i64 - self.distances[word] as i64,
            None => 0,
        }
    }

    fn truth(&self, candidate: u64) -> i64 {
        let weighted: i64 =
            (0..self.weights.len()).map(|i| self.weights[i] * self.change(candidate, i)).sum();
        weighted + candidate as i64
    }

    fn improves_something(&self, candidate: u64) -> bool {
        (0..self.weights.len()).any(|i| self.change(candidate, i) < 0)
    }
}

impl EditSystem<()> for World {
    fn find_improving_edits(
        &self,
        spelling: &Vec<Glyph>,
        _pronunciation: &Vec<Glyph>,
        _prior_rules: &(),
    ) -> Vec<SubWithImprovement> {
        let word = word_of(spelling);
        (0..self.new_distances.len() as u64)
            .filter(|c| self.change(*c, word) < 0)
            .map(|c| SubWithImprovement {
                sub: c,
                improvement: (-self.change(c, word)) as u32,
                size_cost: c as i64,
            })
            .collect()
    }

    fn distance(&self, _rules: &(), spelling: &Vec<Glyph>, _pronunciation: &Vec<Glyph>) -> u32 {
        self.distances[word_of(spelling)]
    }

    fn new_distance(
        &self,
        _prior_rules: &(),
        new_rule: u64,
        spelling: &Vec<Glyph>,
        _pronunciation: &Vec<Glyph>,
    ) -> Option<u32> {
        self.new_distances[new_rule as usize][word_of(spelling)]
    }
}

#[derive(Clone, Copy, Debug)]
struct Bounds {
    lo: i64,
    hi: i64,
}

struct Sums {
    // the weighted distance of the words from each rank on
    gain_from: Vec<i64>,
    // the weight of all words
    total_weight: i64,
}

impl Table<Bounds, Bounds> for Sums {
    fn introduce(
        &self,
        frequencies_in_introducing_order: &Vec<i64>,
        introducing_i: usize,
        change_at_introducing_i: i64,
        _edit: u64,
    ) -> Bounds {
        let w = frequencies_in_introducing_order[introducing_i];
        let known = w * change_at_introducing_i;
        Bounds {
            lo: known - self.gain_from[introducing_i + 1],
            hi: known + SLACK * (self.total_weight - w),
        }
    }

    fn estimate_introduce(
        &self,
        _frequencies_in_introducing_order: &Vec<i64>,
        introducing_i: usize,
    ) -> Bounds {
        Bounds { lo: -self.gain_from[introducing_i], hi: SLACK * self.total_weight }
    }

    fn update_edit(
        &self,
        frequencies_in_introducing_order: &Vec<i64>,
        current_distances_in_introducing_order: &Vec<u32>,
        introduced_i: usize,
        updated_i: usize,
        change_at_updated_i: i64,
        prev_estimate: Bounds,
    ) -> Bounds {
        let w = frequencies_in_introducing_order[updated_i];
        let d = current_distances_in_introducing_order[updated_i] as i64;
        let known = w * change_at_updated_i;
        let assumed_lo = if updated_i > introduced_i { -w * d } else { 0 };
        Bounds {
            lo: prev_estimate.lo - assumed_lo + known,
            hi: prev_estimate.hi - SLACK * w + known,
        }
    }
}

struct Exact;

impl EstimationSystem<Sums, Bounds, Bounds> for Exact {
    fn build_table(
        &self,
        frequencies_in_introducing_order: &Vec<i64>,
        current_distances_in_introducing_order: &Vec<u32>,
    ) -> Sums {
        let n = frequencies_in_introducing_order.len();
        let mut gain_from = vec![0; n + 1];
        for i in (0..n).rev() {
            gain_from[i] = gain_from[i + 1]
                + frequencies_in_introducing_order[i]
                    * current_distances_in_introducing_order[i] as i64;
        }
        Sums { gain_from, total_weight: frequencies_in_introducing_order.iter().sum() }
    }

    fn introducing_key(&self, frequency: i64, distance: u32) -> i64 {
        -frequency * distance as i64
    }

    fn calc_estimate(&self, estimator: &Bounds) -> Bounds {
        *estimator
    }

    fn calc_best_possible(&self, e: &Bounds, size_cost: i64) -> i64 {
        e.lo + size_cost
    }

    fn calc_worst_possible(&self, e: &Bounds, size_cost: i64) -> i64 {
        e.hi + size_cost
    }
}

fn winner_of(outcome: Outcome) -> (u64, i64) {
    match outcome {
        Outcome::FoundImprovement(c, score) => (c, score),
        Outcome::FailedToFindImprovement(c, score) => (c, score),
    }
}

#[test]
fn the_winner_is_the_one_that_full_scoring_finds() {
    for seed in 0..300 {
        let world = World::random(seed, 2 + (seed as usize % 7), 1 + (seed as usize % 11));
        let dictionary = world.dictionary();
        let candidates: Vec<u64> = (0..world.new_distances.len() as u64)
            .filter(|c| world.improves_something(*c))
            .collect();
        let outcome = search(&Exact, &world, &dictionary, &());
        if candidates.is_empty() {
            assert_eq!(outcome, None);
            continue;
        }
        let (winner, _) = winner_of(outcome.unwrap());
        let best = *candidates.iter().min_by_key(|c| world.truth(**c)).unwrap();
        assert_eq!(winner, best, "seed {}", seed);
        match outcome.unwrap() {
            Outcome::FoundImprovement(_, score) => assert!(score < 0),
            Outcome::FailedToFindImprovement(_, score) => assert!(score >= 0),
        }
    }
}

#[test]
fn bounds_hold_the_true_score_at_every_tick() {
    for seed in 0..300 {
        let world = World::random(seed, 2 + (seed as usize % 7), 1 + (seed as usize % 11));
        let dictionary = world.dictionary();
        let r = init_ref_data(&Exact, &world, &dictionary, &());
        let mut w = init_working_data();
        let mut found_at: Vec<Option<usize>> = vec![None; world.new_distances.len()];
        for _ in 0..10_000 {
            if w.is_empty() && w.introduced() >= r.n {
                break;
            }
            let res = step(&Exact, &world, &r, &mut w);
            for c in 0..world.new_distances.len() as u64 {
                if let Some(entry) = w.get(c) {
                    let truth = world.truth(c);
                    let first = *found_at[c as usize].get_or_insert(entry.introducing_index);
                    assert!(truth <= entry.worst_possible, "seed {}", seed);
                    // a candidate that comes back after it was culled is reckoned anew from
                    // the word that brought it back
                    if entry.introducing_index == first {
                        assert!(entry.best_possible <= truth, "seed {}", seed);
                    }
                    if entry.next_to_explore_index >= r.n {
                        assert_eq!(entry.best_possible, entry.worst_possible);
                        assert_eq!(entry.best_possible, truth);
                    }
                }
            }
            if res.is_some() {
                break;
            }
        }
    }
}

#[test]
fn the_same_round_ends_the_same_way() {
    for seed in 0..50 {
        let world = World::random(seed, 6, 9);
        let dictionary = world.dictionary();
        let first = search(&Exact, &world, &dictionary, &());
        let second = search(&Exact, &world, &dictionary, &());
        assert_eq!(first, second);
    }
}

#[test]
fn each_tick_brings_the_round_on() {
    let world = World::random(7, 8, 10);
    let dictionary = world.dictionary();
    let r = init_ref_data(&Exact, &world, &dictionary, &());
    let mut w = init_working_data();
    let left = |w: &feature_refining::genastarlike::WorkingData<Bounds>| -> usize {
        (0..world.new_distances.len() as u64)
            .filter_map(|c| w.get(c).map(|e| r.n + 1 - e.next_to_explore_index))
            .sum()
    };
    let mut ticks = 0;
    loop {
        let introduced = w.introduced();
        let to_measure = left(&w);
        let res = step(&Exact, &world, &r, &mut w);
        ticks += 1;
        if res.is_some() {
            break;
        }
        assert!(w.introduced() > introduced || left(&w) < to_measure);
        assert!(ticks < 1000);
    }
}
