//! Which side of a candidate a word stands on.
//!
//! An estimator supposes one thing of the words ranked before the word that
//! a candidate was found at, and another of the words ranked behind it.
//! When a word has been measured, what was supposed of it is taken out of
//! the running summary, and so the side of each measured word decides what
//! is taken out.

use vstd::prelude::*;

verus! {

/// The side of the word that a candidate was found at.
#[derive(Clone, Copy, Debug, PartialEq, Eq, Structural)]
pub enum Side {
    /// Ranked before it: such a word was introduced without giving rise
    /// to the candidate.
    Before,
    /// Ranked behind it.
    Behind,
}

/// The side on which the word at rank `updated_i` stands of a candidate
/// found at rank `introduced_i`; none for the word that it was found at.
pub open spec fn side_spec(introduced_i: int, updated_i: int) -> Option<Side> {
    if updated_i < introduced_i {
        Some(Side::Before)
    } else if updated_i > introduced_i {
        Some(Side::Behind)
    } else {
        None
    }
}

/// The side on which the word at rank `updated_i` stands of a candidate
/// found at rank `introduced_i`.
pub fn side_of(introduced_i: usize, updated_i: usize) -> (res: Option<Side>)
    ensures
        res == side_spec(introduced_i as int, updated_i as int),
{
    if updated_i < introduced_i {
        Some(Side::Before)
    } else if updated_i > introduced_i {
        Some(Side::Behind)
    } else {
        None
    }
}

/// Of the words measured for a candidate, those that stand on `side`.
pub open spec fn measured_on(side: Side, introduced_i: int, next: int) -> Set<int> {
    Set::new(|i: int| 0 <= i < next && side_spec(introduced_i, i) == Some(side))
}

/// When a candidate found at rank `introduced_i` has been measured on the
/// words up to rank `n`, each word but the one that it was found at has
/// been measured on exactly one side: nothing that was supposed is left in
/// the summary, and nothing has been taken out twice.
pub proof fn lemma_every_word_on_one_side(introduced_i: int, n: int, i: int)
    requires
        0 <= introduced_i < n,
        0 <= i < n,
    ensures
        i != introduced_i ==> (measured_on(Side::Before, introduced_i, n).contains(i)
            != measured_on(Side::Behind, introduced_i, n).contains(i)),
        i == introduced_i ==> !measured_on(Side::Before, introduced_i, n).contains(i)
            && !measured_on(Side::Behind, introduced_i, n).contains(i),
        measured_on(Side::Before, introduced_i, n).contains(i) <==> i < introduced_i,
{
}

} // verus!
