//! Small operations on vectors, with contracts over their views.

use vstd::prelude::*;

verus! {

/// A copy of the items of `v` from `from` up to `to`.
pub fn copy_range<T: Copy>(v: &Vec<T>, from: usize, to: usize) -> (res: Vec<T>)
    requires
        from <= to <= v.len(),
    ensures
        res@ == v@.subrange(from as int, to as int),
{
    let mut res: Vec<T> = Vec::new();
    let mut i: usize = from;
    while i < to
        invariant
            from <= i <= to <= v.len(),
            res@ == v@.subrange(from as int, i as int),
        decreases to - i,
    {
        res.push(v[i]);
        assert(res@ =~= v@.subrange(from as int, i + 1));
        i += 1;
    }
    res
}

/// A copy of `v`.
pub fn copy_vec<T: Copy>(v: &Vec<T>) -> (res: Vec<T>)
    ensures
        res@ == v@,
{
    let res = copy_range(v, 0, v.len());
    assert(v@.subrange(0, v.len() as int) =~= v@);
    res
}

/// What `s` becomes when the items from `from` up to `to` give way to
/// `content`.
pub open spec fn spliced<T>(s: Seq<T>, from: int, to: int, content: Seq<T>) -> Seq<T> {
    s.subrange(0, from) + content + s.subrange(to, s.len() as int)
}

/// Replaces the items of `v` from `from` up to `to` by `content`.
pub fn splice<T: Copy>(v: &mut Vec<T>, from: usize, to: usize, content: &Vec<T>)
    requires
        from <= to <= old(v).len(),
    ensures
        final(v)@ == spliced(old(v)@, from as int, to as int, content@),
{
    let mut tail = v.split_off(to);
    v.truncate(from);
    let mut middle = copy_vec(content);
    v.append(&mut middle);
    v.append(&mut tail);
    assert(v@ =~= spliced(old(v)@, from as int, to as int, content@));
}

/// Whether the items of `v` from `at` on begin with `key`.
pub open spec fn has_at<T>(s: Seq<T>, at: int, key: Seq<T>) -> bool {
    0 <= at && at + key.len() <= s.len() && s.subrange(at, at + key.len()) == key
}

/// A prefix that is one longer holds what the shorter one holds, and the
/// item that came in.
pub proof fn lemma_take_contains<T>(s: Seq<T>, k: int, x: T)
    requires
        0 <= k < s.len(),
    ensures
        s.take(k + 1).contains(x) == (s.take(k).contains(x) || s[k] == x),
{
    let short = s.take(k);
    let long = s.take(k + 1);
    if short.contains(x) {
        let i = choose|i: int| 0 <= i < short.len() && short[i] == x;
        assert(long[i] == x);
    }
    if s[k] == x {
        assert(long[k] == x);
    }
    if long.contains(x) {
        let i = choose|i: int| 0 <= i < long.len() && long[i] == x;
        if i < k {
            assert(short[i] == x);
        }
    }
}

/// What stands from place `k` on is the item at `k` and what stands
/// behind it.
pub proof fn lemma_skip_contains<T>(s: Seq<T>, k: int, x: T)
    requires
        0 <= k < s.len(),
    ensures
        s.skip(k).contains(x) == (s[k] == x || s.skip(k + 1).contains(x)),
{
    let long = s.skip(k);
    let short = s.skip(k + 1);
    if short.contains(x) {
        let i = choose|i: int| 0 <= i < short.len() && short[i] == x;
        assert(long[i + 1] == x);
    }
    if s[k] == x {
        assert(long[0] == x);
    }
    if long.contains(x) {
        let i = choose|i: int| 0 <= i < long.len() && long[i] == x;
        if i > 0 {
            assert(short[i - 1] == x);
        }
    }
}

/// A sequence with one more item holds what it held, and that item.
pub proof fn lemma_push_contains<T>(s: Seq<T>, x: T, y: T)
    ensures
        s.push(x).contains(y) == (s.contains(y) || x == y),
{
    let long = s.push(x);
    assert(long.take(s.len() as int) =~= s);
    assert(long.take(s.len() as int + 1) =~= long);
    lemma_take_contains(long, s.len() as int, y);
}

} // verus!
