//! The edit distance between two words.

use vstd::prelude::*;
use crate::glyphs::{AugGlyph, Glyph, augment, augment_spec};

verus! {

/// The least of three numbers.
pub open spec fn min3(a: nat, b: nat, c: nat) -> nat {
    if a <= b && a <= c {
        a
    } else if b <= c {
        b
    } else {
        c
    }
}

/// The Levenshtein distance between `a` and `b`: the least number of
/// glyphs to take out, put in or exchange that makes `a` into `b`.
pub open spec fn levenshtein(a: Seq<AugGlyph>, b: Seq<AugGlyph>) -> nat
    decreases a.len() + b.len(),
{
    if a.len() == 0 {
        b.len()
    } else if b.len() == 0 {
        a.len()
    } else {
        min3(
            levenshtein(a.drop_last(), b) + 1,
            levenshtein(a, b.drop_last()) + 1,
            levenshtein(a.drop_last(), b.drop_last()) + if a.last() == b.last() {
                0nat
            } else {
                1nat
            },
        )
    }
}

/// The distance is no more than the longer of the two words.
pub proof fn lemma_levenshtein_bound(a: Seq<AugGlyph>, b: Seq<AugGlyph>)
    ensures
        levenshtein(a, b) <= if a.len() >= b.len() {
            a.len()
        } else {
            b.len()
        },
    decreases a.len() + b.len(),
{
    if a.len() > 0 && b.len() > 0 {
        lemma_levenshtein_bound(a.drop_last(), b.drop_last());
    }
}

/// The distance from a word to itself is zero.
pub proof fn lemma_levenshtein_same(a: Seq<AugGlyph>)
    ensures
        levenshtein(a, a) == 0,
    decreases a.len(),
{
    if a.len() > 0 {
        lemma_levenshtein_same(a.drop_last());
    }
}

/// The Levenshtein distance between two words, as
/// `levenshtein_diff::distance` computes it: the first part of its result,
/// which its memoized recursion fills from the same three cases as
/// [`levenshtein`], glyphs being compared by `==`.
#[verifier::external_body]
pub(crate) fn levenshtein_distance(from: &Vec<AugGlyph>, to: &Vec<AugGlyph>) -> (d: usize)
    ensures
        d == levenshtein(from@, to@),
{
    levenshtein_diff::distance(from, to).0
}

/// The distance between two words of augmented glyphs.
pub fn distance(from: &Vec<AugGlyph>, to: &Vec<AugGlyph>) -> (d: u32)
    requires
        from.len() <= u32::MAX,
        to.len() <= u32::MAX,
    ensures
        d == levenshtein(from@, to@),
{
    proof {
        lemma_levenshtein_bound(from@, to@);
    }
    levenshtein_distance(from, to) as u32
}

/// The distance between two words of real glyphs.
pub fn distanceg(from: &Vec<Glyph>, to: &Vec<Glyph>) -> (d: u32)
    requires
        from.len() <= u32::MAX,
        to.len() <= u32::MAX,
    ensures
        d == levenshtein(augment_spec(from@), augment_spec(to@)),
{
    distance(&augment(from), &augment(to))
}

} // verus!
