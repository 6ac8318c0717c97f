//! Which glyphs of a word to set off when the word is shown beside
//! another: those that the comparison of the two finds in the word alone.

use vstd::prelude::*;
use crate::glyphs::Glyph;

verus! {

/// What one part of the comparison of two words holds: a glyph of the left
/// word only, a glyph of each word, or a glyph of the right word only.
#[derive(Clone, Copy, Debug, PartialEq, Eq)]
pub enum Mark {
    Left,
    Both,
    Right,
}

/// The parts of the comparison that `diff::slice` makes of two words, in
/// order, each by what it holds.
pub uninterp spec fn slice_diff(left: Seq<Glyph>, right: Seq<Glyph>) -> Seq<Mark>;

/// Compares two words: `diff::slice`, whose parts depend on the two words
/// alone. Each part is handed on by what it holds, without its glyphs.
#[verifier::external_body]
fn diff_marks(left: &Vec<Glyph>, right: &Vec<Glyph>) -> (res: Vec<Mark>)
    ensures
        res@ == slice_diff(left@, right@),
{
    diff::slice(left, right).iter().map(
        |part|
            match part {
                diff::Result::Left(_) => Mark::Left,
                diff::Result::Both(_, _) => Mark::Both,
                diff::Result::Right(_) => Mark::Right,
            },
    ).collect()
}

/// How many of the first `at` marks are about a glyph of the left word.
pub open spec fn left_glyphs(marks: Seq<Mark>, at: int) -> int
    decreases at,
{
    if at <= 0 {
        0
    } else {
        left_glyphs(marks, at - 1) + if marks[at - 1] is Right {
            0int
        } else {
            1int
        }
    }
}

/// Whether one of the first `upto` marks finds glyph `k` of the left word
/// in the left word only.
pub open spec fn left_only_before(marks: Seq<Mark>, k: int, upto: int) -> bool {
    exists|at: int| 0 <= at < upto && #[trigger] marks[at] is Left && left_glyphs(marks, at) == k
}

/// Whether the marks find glyph `k` of the left word in the left word
/// only.
pub open spec fn is_left_only(marks: Seq<Mark>, k: int) -> bool {
    left_only_before(marks, k, marks.len() as int)
}

/// Whether the comparison with another of `words` finds glyph `k` of word
/// `i` in word `i` only; `upto` is the number of words that are looked at.
pub open spec fn changes_before(words: Seq<Seq<Glyph>>, i: int, k: int, upto: int) -> bool {
    exists|j: int|
        0 <= j < upto && j != i && #[trigger] is_left_only(slice_diff(words[i], words[j]), k)
}

/// The words of `words`, each as the sequence of its glyphs.
pub open spec fn words_view(words: Seq<Vec<Glyph>>) -> Seq<Seq<Glyph>> {
    words.map_values(|w: Vec<Glyph>| w@)
}

/// For each of `n` glyphs of the left word, whether `marks` find it in the
/// left word only.
pub fn mark_flags(marks: &Vec<Mark>, n: usize) -> (res: Vec<bool>)
    ensures
        res.len() == n,
        forall|k: int| 0 <= k < n ==> #[trigger] res[k] == is_left_only(marks@, k),
{
    let mut res: Vec<bool> = Vec::new();
    let mut i: usize = 0;
    while i < n
        invariant
            i <= n,
            res.len() == i,
            forall|k: int| 0 <= k < i ==> !#[trigger] res[k],
        decreases n - i,
    {
        res.push(false);
        i += 1;
    }
    let mut k: usize = 0;
    let mut at: usize = 0;
    while at < marks.len()
        invariant
            at <= marks.len(),
            res.len() == n,
            k == left_glyphs(marks@, at as int),
            k <= at,
            forall|j: int| 0 <= j < n ==> #[trigger] res[j] == left_only_before(marks@, j, at as int),
        decreases marks.len() - at,
    {
        match marks[at] {
            Mark::Left => {
                if k < n {
                    res.set(k, true);
                }
                k += 1;
            },
            Mark::Both => {
                k += 1;
            },
            Mark::Right => {},
        }
        proof {
            assert forall|j: int| 0 <= j < n implies #[trigger] res[j] == left_only_before(
                marks@,
                j,
                at + 1,
            ) by {
                if left_only_before(marks@, j, at as int) {
                    let a = choose|a: int|
                        0 <= a < at && #[trigger] marks@[a] is Left && left_glyphs(marks@, a) == j;
                    assert(0 <= a < at + 1 && marks@[a] is Left && left_glyphs(marks@, a) == j);
                }
                if left_only_before(marks@, j, at + 1) && !left_only_before(marks@, j, at as int) {
                    let a = choose|a: int|
                        0 <= a < at + 1 && #[trigger] marks@[a] is Left && left_glyphs(marks@, a)
                            == j;
                    assert(a == at);
                }
                if marks@[at as int] is Left && left_glyphs(marks@, at as int) == j {
                    assert(left_only_before(marks@, j, at + 1));
                }
            }
        }
        at += 1;
    }
    res
}

/// For each glyph of `is`, whether the comparison with `should` finds it in
/// `is` only.
pub fn annotate_errors(is: &Vec<Glyph>, should: &Vec<Glyph>) -> (res: Vec<bool>)
    ensures
        res.len() == is.len(),
        forall|k: int|
            0 <= k < is.len() ==> #[trigger] res[k] == is_left_only(slice_diff(is@, should@), k),
{
    let marks = diff_marks(is, should);
    mark_flags(&marks, is.len())
}

/// For each glyph of each pronunciation, whether the comparison with
/// another of the pronunciations finds it in that one only.
pub fn annotate_changes(pronunciations: &Vec<Vec<Glyph>>) -> (res: Vec<Vec<bool>>)
    ensures
        res.len() == pronunciations.len(),
        forall|i: int|
            0 <= i < res.len() ==> (#[trigger] res[i]).len() == pronunciations[i].len(),
        forall|i: int, k: int|
            0 <= i < res.len() && 0 <= k < pronunciations[i].len() ==> #[trigger] res[i][k]
                == changes_before(
                words_view(pronunciations@),
                i,
                k,
                pronunciations.len() as int,
            ),
{
    let ghost words = words_view(pronunciations@);
    let count = pronunciations.len();
    let mut res: Vec<Vec<bool>> = Vec::new();
    let mut i: usize = 0;
    while i < count
        invariant
            i <= count,
            count == pronunciations.len(),
            words == words_view(pronunciations@),
            res.len() == i,
            forall|a: int| 0 <= a < i ==> (#[trigger] res[a]).len() == pronunciations[a].len(),
            forall|a: int, k: int|
                0 <= a < i && 0 <= k < pronunciations[a].len() ==> #[trigger] res[a][k]
                    == changes_before(words, a, k, count as int),
        decreases count - i,
    {
        let word = &pronunciations[i];
        let n = word.len();
        let mut flags: Vec<bool> = Vec::new();
        let mut k: usize = 0;
        while k < n
            invariant
                k <= n,
                flags.len() == k,
                forall|a: int| 0 <= a < k ==> !#[trigger] flags[a],
            decreases n - k,
        {
            flags.push(false);
            k += 1;
        }
        let mut j: usize = 0;
        while j < count
            invariant
                j <= count,
                i < count,
                count == pronunciations.len(),
                words == words_view(pronunciations@),
                word == pronunciations[i as int],
                n == word.len(),
                flags.len() == n,
                forall|a: int|
                    0 <= a < n ==> #[trigger] flags[a] == changes_before(
                        words,
                        i as int,
                        a,
                        j as int,
                    ),
            decreases count - j,
        {
            if j != i {
                let found = annotate_errors(word, &pronunciations[j]);
                let ghost old_flags = flags@;
                let mut k: usize = 0;
                while k < n
                    invariant
                        k <= n,
                        flags.len() == n,
                        found.len() == n,
                        old_flags.len() == n,
                        forall|a: int|
                            0 <= a < k ==> #[trigger] flags[a] == (old_flags[a] || found[a]),
                        forall|a: int| k <= a < n ==> #[trigger] flags[a] == old_flags[a],
                    decreases n - k,
                {
                    if found[k] {
                        flags.set(k, true);
                    }
                    k += 1;
                }
                proof {
                    assert(words[i as int] == word@);
                    assert(words[j as int] == pronunciations[j as int]@);
                }
            }
            proof {
                assert forall|a: int| 0 <= a < n implies #[trigger] flags[a] == changes_before(
                    words,
                    i as int,
                    a,
                    j + 1,
                ) by {
                    if changes_before(words, i as int, a, j as int) {
                        let w = choose|w: int|
                            0 <= w < j && w != i && #[trigger] is_left_only(
                                slice_diff(words[i as int], words[w]),
                                a,
                            );
                        assert(0 <= w < j + 1 && w != i && is_left_only(
                            slice_diff(words[i as int], words[w]),
                            a,
                        ));
                    }
                    if changes_before(words, i as int, a, j + 1) && !changes_before(
                        words,
                        i as int,
                        a,
                        j as int,
                    ) {
                        let w = choose|w: int|
                            0 <= w < j + 1 && w != i && #[trigger] is_left_only(
                                slice_diff(words[i as int], words[w]),
                                a,
                            );
                        assert(w == j);
                    }
                    if j != i && is_left_only(slice_diff(words[i as int], words[j as int]), a) {
                        assert(changes_before(words, i as int, a, j + 1));
                    }
                }
            }
            j += 1;
        }
        res.push(flags);
        i += 1;
    }
    res
}

} // verus!
