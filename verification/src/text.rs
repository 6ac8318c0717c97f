//! Conversions between strings and sequences of characters.
//!
//! Every parser and renderer of this crate works on `Vec<char>`, whose view
//! is the `Seq<char>` that the contracts speak of; the functions here carry
//! a `&str` into that form and back.

use vstd::prelude::*;

verus! {

/// The characters of `s`, in order.
pub fn chars_of(s: &str) -> (v: Vec<char>)
    ensures
        v@ == s@,
{
    let mut v: Vec<char> = Vec::new();
    for c in it: s.chars()
        invariant
            it.seq() == s@,
            v@ == s@.take(it.index() as int),
    {
        v.push(c);
        assert(s@.take(it.index() + 1) == s@.take(it.index() as int).push(s@[it.index() as int]));
    }
    v
}

/// Appends one character to a string: `String::push`, which adds `c` at the
/// end of `s` and changes nothing else.
#[verifier::external_body]
fn push_char(s: &mut String, c: char)
    ensures
        final(s)@ == old(s)@.push(c),
{
    s.push(c)
}

/// What `regex` makes of `text` when matches of `pattern` give way to
/// `rep`: every match where `limit` is zero, else the first `limit` of
/// them; nothing where `pattern` is no regular expression.
pub uninterp spec fn regex_replaced(
    pattern: Seq<char>,
    text: Seq<char>,
    limit: usize,
    rep: Seq<char>,
) -> Option<Seq<char>>;

/// Replaces matches of a regular expression: `regex::Regex::new` on
/// `pattern`, then `Regex::replacen` on `text` with `limit` and `rep`. Both
/// depend on their arguments alone; a pattern that does not compile gives
/// nothing.
#[verifier::external_body]
pub(crate) fn replace_matches(pattern: &str, text: &str, limit: usize, rep: &str) -> (res: Option<
    String,
>)
    ensures
        match res {
            Some(s) => regex_replaced(pattern@, text@, limit, rep@) == Some(s@),
            None => regex_replaced(pattern@, text@, limit, rep@) is None,
        },
{
    match regex::Regex::new(pattern) {
        Ok(re) => Some(re.replacen(text, limit, rep).into_owned()),
        Err(_) => None,
    }
}

/// The string made of the characters of `v`, in order.
pub fn string_of(v: &Vec<char>) -> (s: String)
    ensures
        s@ == v@,
{
    let mut s = String::new();
    let mut i: usize = 0;
    while i < v.len()
        invariant
            i <= v.len(),
            s@ == v@.take(i as int),
        decreases v.len() - i,
    {
        push_char(&mut s, v[i]);
        assert(v@.take(i + 1) == v@.take(i as int).push(v@[i as int]));
        i += 1;
    }
    s
}

/// The character that writes the digit `d`.
pub open spec fn digit_char(d: nat) -> char {
    if d == 0 {
        '0'
    } else if d == 1 {
        '1'
    } else if d == 2 {
        '2'
    } else if d == 3 {
        '3'
    } else if d == 4 {
        '4'
    } else if d == 5 {
        '5'
    } else if d == 6 {
        '6'
    } else if d == 7 {
        '7'
    } else if d == 8 {
        '8'
    } else {
        '9'
    }
}

/// The digit that `c` writes, if it is one of `0` to `9`.
pub open spec fn digit_value(c: char) -> Option<nat> {
    if c == '0' {
        Some(0)
    } else if c == '1' {
        Some(1)
    } else if c == '2' {
        Some(2)
    } else if c == '3' {
        Some(3)
    } else if c == '4' {
        Some(4)
    } else if c == '5' {
        Some(5)
    } else if c == '6' {
        Some(6)
    } else if c == '7' {
        Some(7)
    } else if c == '8' {
        Some(8)
    } else if c == '9' {
        Some(9)
    } else {
        None
    }
}

/// The number `n` written in decimal, without leading zeros.
pub open spec fn decimal_digits(n: nat) -> Seq<char>
    decreases n,
{
    if n < 10 {
        seq![digit_char(n)]
    } else {
        decimal_digits(n / 10).push(digit_char(n % 10))
    }
}

/// Whether every character of `s` is a decimal digit.
pub open spec fn all_digits(s: Seq<char>) -> bool {
    forall|i: int| 0 <= i < s.len() ==> (#[trigger] digit_value(s[i])) is Some
}

/// The number that the digits `s` write in decimal.
pub open spec fn decimal_value(s: Seq<char>) -> nat
    decreases s.len(),
{
    if s.len() == 0 {
        0
    } else {
        decimal_value(s.drop_last()) * 10 + digit_value(s.last()).unwrap_or(0)
    }
}

/// What reading `s` as an unsigned 32-bit number gives: an optional `+`,
/// then one digit or more and nothing else, naming a number that fits.
pub open spec fn parse_u32_spec(s: Seq<char>) -> Option<u32> {
    if s.len() > 0 && s[0] == '+' {
        digits_to_u32(s.skip(1))
    } else {
        digits_to_u32(s)
    }
}

/// The number that `digits` write, if they are digits, at least one, and
/// the number fits in 32 bits.
pub open spec fn digits_to_u32(digits: Seq<char>) -> Option<u32> {
    if digits.len() > 0 && all_digits(digits) && decimal_value(digits) <= u32::MAX {
        Some(decimal_value(digits) as u32)
    } else {
        None
    }
}

/// The value of a run of digits is at least the value of each of its
/// prefixes.
pub proof fn lemma_decimal_value_prefix(s: Seq<char>, i: int)
    requires
        0 <= i <= s.len(),
    ensures
        decimal_value(s.take(i)) <= decimal_value(s),
    decreases s.len(),
{
    if i == s.len() {
        assert(s.take(i) =~= s);
    } else {
        assert(s.drop_last().take(i) =~= s.take(i));
        lemma_decimal_value_prefix(s.drop_last(), i);
    }
}

/// The decimal form of a number is made of digits, at least one, and
/// writes that number.
pub proof fn lemma_decimal_digits_value(n: nat)
    ensures
        decimal_digits(n).len() > 0,
        all_digits(decimal_digits(n)),
        decimal_value(decimal_digits(n)) == n,
    decreases n,
{
    let s = decimal_digits(n);
    if n < 10 {
        assert(s.drop_last() =~= Seq::<char>::empty());
        assert(decimal_value(s.drop_last()) == 0);
    } else {
        lemma_decimal_digits_value(n / 10);
        assert(s.drop_last() =~= decimal_digits(n / 10));
        assert forall|i: int| 0 <= i < s.len() implies (#[trigger] digit_value(s[i])) is Some by {
            if i < s.len() - 1 {
                assert(s[i] == decimal_digits(n / 10)[i]);
            }
        }
    }
}

/// A number is read back from its decimal form.
pub proof fn lemma_parse_decimal(n: u32)
    ensures
        parse_u32_spec(decimal_digits(n as nat)) == Some(n),
{
    lemma_decimal_digits_value(n as nat);
    let s = decimal_digits(n as nat);
    assert(digit_value(s[0]) is Some);
}

fn digit_to_char(d: u64) -> (c: char)
    requires
        d < 10,
    ensures
        c == digit_char(d as nat),
{
    if d == 0 {
        '0'
    } else if d == 1 {
        '1'
    } else if d == 2 {
        '2'
    } else if d == 3 {
        '3'
    } else if d == 4 {
        '4'
    } else if d == 5 {
        '5'
    } else if d == 6 {
        '6'
    } else if d == 7 {
        '7'
    } else if d == 8 {
        '8'
    } else {
        '9'
    }
}

fn char_to_digit(c: char) -> (d: Option<u64>)
    ensures
        match d {
            Some(x) => digit_value(c) == Some(x as nat),
            None => digit_value(c) is None,
        },
{
    if c == '0' {
        Some(0)
    } else if c == '1' {
        Some(1)
    } else if c == '2' {
        Some(2)
    } else if c == '3' {
        Some(3)
    } else if c == '4' {
        Some(4)
    } else if c == '5' {
        Some(5)
    } else if c == '6' {
        Some(6)
    } else if c == '7' {
        Some(7)
    } else if c == '8' {
        Some(8)
    } else if c == '9' {
        Some(9)
    } else {
        None
    }
}

/// Appends the decimal form of `n` to `out`.
pub fn push_decimal(out: &mut Vec<char>, n: u64)
    ensures
        final(out)@ == old(out)@ + decimal_digits(n as nat),
    decreases n,
{
    if n >= 10 {
        push_decimal(out, n / 10);
    }
    out.push(digit_to_char(n % 10));
    proof {
        if n >= 10 {
            assert(final(out)@ =~= old(out)@ + decimal_digits(n as nat));
        } else {
            assert(final(out)@ =~= old(out)@ + decimal_digits(n as nat));
        }
    }
}

/// Reads the characters of `v` from `from` up to `to` as an unsigned 32-bit
/// number.
pub fn parse_u32(v: &Vec<char>, from: usize, to: usize) -> (res: Option<u32>)
    requires
        from <= to <= v.len(),
    ensures
        res == parse_u32_spec(v@.subrange(from as int, to as int)),
{
    let ghost s = v@.subrange(from as int, to as int);
    let start: usize = if from < to && v[from] == '+' {
        from + 1
    } else {
        from
    };
    let ghost digits = v@.subrange(start as int, to as int);
    proof {
        if from < to && v[from as int] == '+' {
            assert(s[0] == '+');
            assert(s.skip(1) =~= digits);
        } else {
            if s.len() > 0 {
                assert(s[0] == v[from as int]);
            }
            assert(s =~= digits);
        }
        assert(parse_u32_spec(s) == digits_to_u32(digits));
    }
    if start == to {
        return None;
    }
    let mut acc: u64 = 0;
    let mut i: usize = start;
    while i < to
        invariant
            from <= start <= i <= to <= v.len(),
            start < to,
            digits == v@.subrange(start as int, to as int),
            parse_u32_spec(v@.subrange(from as int, to as int)) == digits_to_u32(digits),
            all_digits(digits.take(i - start)),
            acc == decimal_value(digits.take(i - start)),
            acc <= u32::MAX,
        decreases to - i,
    {
        let ghost before = digits.take(i - start);
        let ghost after = digits.take(i - start + 1);
        proof {
            assert(after.drop_last() =~= before);
            assert(after.last() == v[i as int]);
            assert(digits[i - start] == v[i as int]);
        }
        match char_to_digit(v[i]) {
            None => {
                assert(digit_value(digits[i - start]) is None);
                return None;
            },
            Some(d) => {
                let next: u64 = acc * 10 + d;
                if next > 0xffff_ffff {
                    proof {
                        lemma_decimal_value_prefix(digits, i - start + 1);
                    }
                    return None;
                }
                proof {
                    assert forall|k: int| 0 <= k < after.len() implies (#[trigger] digit_value(
                        after[k],
                    )) is Some by {
                        if k < after.len() - 1 {
                            assert(after[k] == before[k]);
                        }
                    }
                }
                acc = next;
            },
        }
        i += 1;
    }
    proof {
        assert(digits.take(to - start) =~= digits);
    }
    Some(acc as u32)
}

/// What reading `s` as a signed 32-bit number gives: an optional sign,
/// then one digit or more and nothing else, naming a number that fits.
pub open spec fn parse_i32_spec(s: Seq<char>) -> Option<i32> {
    if s.len() > 0 && s[0] == '-' {
        let digits = s.skip(1);
        if digits.len() > 0 && all_digits(digits) && decimal_value(digits) <= 0x8000_0000 {
            Some((-(decimal_value(digits) as int)) as i32)
        } else {
            None
        }
    } else {
        match parse_u32_spec(s) {
            Some(n) if n <= 0x7fff_ffff => Some(n as i32),
            _ => None,
        }
    }
}

/// Reads the characters of `v` from `from` up to `to` as a signed 32-bit
/// number.
pub fn parse_i32(v: &Vec<char>, from: usize, to: usize) -> (res: Option<i32>)
    requires
        from <= to <= v.len(),
    ensures
        res == parse_i32_spec(v@.subrange(from as int, to as int)),
{
    let ghost s = v@.subrange(from as int, to as int);
    if from < to && v[from] == '-' {
        let ghost digits = s.skip(1);
        proof {
            assert(s[0] == '-');
            assert(digits =~= v@.subrange(from + 1, to as int));
        }
        if from + 1 < to && v[from + 1] == '+' {
            proof {
                assert(digits[0] == '+');
                assert(digit_value(digits[0]) is None);
            }
            return None;
        }
        proof {
            if digits.len() > 0 {
                assert(digits[0] == v[from + 1]);
            }
            assert(parse_u32_spec(digits) == digits_to_u32(digits));
        }
        match parse_u32(v, from + 1, to) {
            Some(n) => {
                if n < 0x8000_0000 {
                    let m: i32 = n as i32;
                    Some(-m)
                } else if n == 0x8000_0000 {
                    Some(i32::MIN)
                } else {
                    None
                }
            },
            None => None,
        }
    } else {
        proof {
            if s.len() > 0 {
                assert(s[0] == v[from as int]);
            }
        }
        match parse_u32(v, from, to) {
            Some(n) => {
                if n <= 0x7fff_ffff {
                    Some(n as i32)
                } else {
                    None
                }
            },
            None => None,
        }
    }
}

/// Whether `a` and `b` hold the same characters.
pub fn chars_equal(a: &Vec<char>, b: &Vec<char>) -> (res: bool)
    ensures
        res == (a@ == b@),
{
    if a.len() != b.len() {
        return false;
    }
    let mut i: usize = 0;
    while i < a.len()
        invariant
            i <= a.len(),
            a.len() == b.len(),
            forall|j: int| 0 <= j < i ==> a@[j] == b@[j],
        decreases a.len() - i,
    {
        if a[i] != b[i] {
            return false;
        }
        i += 1;
    }
    assert(a@ =~= b@);
    true
}

/// Whether `v` holds the characters of `lit`.
pub fn chars_are(v: &Vec<char>, lit: &str) -> (res: bool)
    ensures
        res == (v@ == lit@),
{
    chars_equal(v, &chars_of(lit))
}

/// Appends the characters of `lit` to `out`.
pub fn push_lit(out: &mut Vec<char>, lit: &str)
    ensures
        final(out)@ == old(out)@ + lit@,
{
    let mut v = chars_of(lit);
    out.append(&mut v);
}

/// Appends the characters of `v` to `out`.
pub fn push_chars(out: &mut Vec<char>, v: &Vec<char>)
    ensures
        final(out)@ == old(out)@ + v@,
{
    let mut i: usize = 0;
    while i < v.len()
        invariant
            i <= v.len(),
            out@ == old(out)@ + v@.take(i as int),
        decreases v.len() - i,
    {
        out.push(v[i]);
        assert(out@ =~= old(out)@ + v@.take(i + 1));
        i += 1;
    }
    assert(v@.take(v.len() as int) =~= v@);
}

/// The pieces `parts`, with `sep` between each two.
pub open spec fn join_spec(parts: Seq<Seq<char>>, sep: Seq<char>) -> Seq<char>
    decreases parts.len(),
{
    if parts.len() == 0 {
        Seq::empty()
    } else if parts.len() == 1 {
        parts[0]
    } else {
        join_spec(parts.drop_last(), sep) + sep + parts.last()
    }
}

/// The values of a run of pieces of text.
pub open spec fn parts_view(parts: Seq<Vec<char>>) -> Seq<Seq<char>> {
    parts.map_values(|p: Vec<char>| p@)
}

/// Appends the pieces `parts` to `out`, with `sep` between each two.
pub fn push_joined(out: &mut Vec<char>, parts: &Vec<Vec<char>>, sep: &str)
    ensures
        final(out)@ == old(out)@ + join_spec(parts_view(parts@), sep@),
{
    let ghost pv = parts_view(parts@);
    let mut i: usize = 0;
    assert(pv.take(0) =~= Seq::<Seq<char>>::empty());
    assert(out@ =~= old(out)@ + join_spec(pv.take(0), sep@));
    while i < parts.len()
        invariant
            i <= parts.len(),
            pv == parts_view(parts@),
            out@ == old(out)@ + join_spec(pv.take(i as int), sep@),
        decreases parts.len() - i,
    {
        let ghost before = out@;
        let ghost next = pv.take(i + 1);
        assert(next.drop_last() =~= pv.take(i as int));
        assert(next.last() == parts@[i as int]@);
        if i > 0 {
            push_lit(out, sep);
        }
        push_chars(out, &parts[i]);
        proof {
            if i == 0 {
                assert(pv.take(0).len() == 0);
                assert(next[0] == parts@[0]@);
                assert(out@ =~= old(out)@ + join_spec(next, sep@));
            } else {
                assert(out@ =~= old(out)@ + join_spec(next, sep@));
            }
        }
        i += 1;
    }
    assert(pv.take(parts.len() as int) =~= pv);
}

/// How often `c` stands in `s`.
pub open spec fn count_char(s: Seq<char>, c: char) -> nat
    decreases s.len(),
{
    if s.len() == 0 {
        0
    } else {
        count_char(s.drop_last(), c) + if s.last() == c {
            1nat
        } else {
            0nat
        }
    }
}

/// The place of the first `c` of `s` at or behind `i`, or the length of `s`
/// if there is none.
pub open spec fn first_index_from(s: Seq<char>, c: char, i: int) -> int
    decreases s.len() - i,
{
    if i >= s.len() {
        s.len() as int
    } else if i >= 0 && s[i] == c {
        i
    } else {
        first_index_from(s, c, i + 1)
    }
}

/// The place of the first `c` of `s`, or the length of `s` if there is
/// none.
pub open spec fn first_index(s: Seq<char>, c: char) -> int {
    first_index_from(s, c, 0)
}

/// How often `c` stands in `v`.
pub fn count_of(v: &Vec<char>, c: char) -> (n: usize)
    ensures
        n == count_char(v@, c),
{
    let mut n: usize = 0;
    let mut i: usize = 0;
    while i < v.len()
        invariant
            i <= v.len(),
            n <= i,
            n == count_char(v@.take(i as int), c),
        decreases v.len() - i,
    {
        assert(v@.take(i + 1).drop_last() =~= v@.take(i as int));
        if v[i] == c {
            n += 1;
        }
        i += 1;
    }
    assert(v@.take(v.len() as int) =~= v@);
    n
}

/// The place of the first `c` of `v`, or the length of `v` if there is
/// none.
pub fn find_char(v: &Vec<char>, c: char) -> (i: usize)
    ensures
        i == first_index(v@, c),
        i <= v.len(),
        i < v.len() ==> v@[i as int] == c,
{
    let mut i: usize = 0;
    while i < v.len() && v[i] != c
        invariant
            i <= v.len(),
            first_index_from(v@, c, i as int) == first_index(v@, c),
        decreases v.len() - i,
    {
        i += 1;
    }
    i
}

/// Whether `c` is white space: one of the characters that trimming a
/// string takes off its ends.
pub open spec fn is_whitespace(c: char) -> bool {
    let n = c as u32;
    (0x9 <= n <= 0xd) || n == 0x20 || n == 0x85 || n == 0xa0 || n == 0x1680 || (0x2000 <= n
        <= 0x200a) || n == 0x2028 || n == 0x2029 || n == 0x202f || n == 0x205f || n == 0x3000
}

/// `s` without the white space at its start.
pub open spec fn trim_start_spec(s: Seq<char>) -> Seq<char>
    decreases s.len(),
{
    if s.len() > 0 && is_whitespace(s[0]) {
        trim_start_spec(s.skip(1))
    } else {
        s
    }
}

/// `s` without the white space at its end.
pub open spec fn trim_end_spec(s: Seq<char>) -> Seq<char>
    decreases s.len(),
{
    if s.len() > 0 && is_whitespace(s.last()) {
        trim_end_spec(s.drop_last())
    } else {
        s
    }
}

/// `s` without the white space at its two ends.
pub open spec fn trim_spec(s: Seq<char>) -> Seq<char> {
    trim_end_spec(trim_start_spec(s))
}

/// Whether `c` is white space.
pub fn char_is_whitespace(c: char) -> (res: bool)
    ensures
        res == is_whitespace(c),
{
    let n = c as u32;
    (0x9 <= n && n <= 0xd) || n == 0x20 || n == 0x85 || n == 0xa0 || n == 0x1680 || (0x2000 <= n
        && n <= 0x200a) || n == 0x2028 || n == 0x2029 || n == 0x202f || n == 0x205f || n
        == 0x3000
}

/// The characters of `v` without the white space at the two ends.
pub fn trim_chars(v: &Vec<char>) -> (res: Vec<char>)
    ensures
        res@ == trim_spec(v@),
{
    let mut start: usize = 0;
    assert(v@.skip(0) =~= v@);
    while start < v.len() && char_is_whitespace(v[start])
        invariant
            start <= v.len(),
            trim_start_spec(v@.skip(start as int)) == trim_start_spec(v@),
        decreases v.len() - start,
    {
        assert(v@.skip(start as int).skip(1) =~= v@.skip(start + 1));
        start += 1;
    }
    let mut end: usize = v.len();
    assert(v@.subrange(start as int, end as int) =~= v@.skip(start as int));
    while end > start && char_is_whitespace(v[end - 1])
        invariant
            start <= end <= v.len(),
            trim_end_spec(v@.subrange(start as int, end as int)) == trim_spec(v@),
        decreases end,
    {
        assert(v@.subrange(start as int, end as int).drop_last() =~= v@.subrange(
            start as int,
            end - 1,
        ));
        end -= 1;
    }
    crate::seqs::copy_range(v, start, end)
}

/// The pieces of `s` from place `i` on, behind the pieces `acc` and the
/// begun piece `cur`, when `s` is cut at each `sep`.
pub open spec fn pieces_from(
    s: Seq<char>,
    i: int,
    cur: Seq<char>,
    acc: Seq<Seq<char>>,
    sep: char,
) -> Seq<Seq<char>>
    decreases s.len() - i,
{
    if i < 0 || i >= s.len() {
        acc.push(cur)
    } else if s[i] == sep {
        pieces_from(s, i + 1, Seq::empty(), acc.push(cur), sep)
    } else {
        pieces_from(s, i + 1, cur.push(s[i]), acc, sep)
    }
}

/// The pieces that `s` falls into when it is cut at each `sep`: one more
/// than there are separators, some of them empty perhaps.
pub open spec fn split_spec(s: Seq<char>, sep: char) -> Seq<Seq<char>> {
    pieces_from(s, 0, Seq::empty(), Seq::empty(), sep)
}

/// Cutting leaves the pieces that were there, and one piece at least
/// beside them.
pub proof fn lemma_pieces_grow(s: Seq<char>, i: int, cur: Seq<char>, acc: Seq<Seq<char>>, sep: char)
    ensures
        pieces_from(s, i, cur, acc, sep).len() > acc.len(),
    decreases s.len() - i,
{
    if 0 <= i < s.len() {
        if s[i] == sep {
            lemma_pieces_grow(s, i + 1, Seq::empty(), acc.push(cur), sep);
        } else {
            lemma_pieces_grow(s, i + 1, cur.push(s[i]), acc, sep);
        }
    }
}

/// A text that is cut falls into one piece at least.
pub proof fn lemma_split_has_piece(s: Seq<char>, sep: char)
    ensures
        split_spec(s, sep).len() >= 1,
{
    lemma_pieces_grow(s, 0, Seq::empty(), Seq::empty(), sep);
}

/// Cuts `v` at each `sep`.
pub fn split_chars(v: &Vec<char>, sep: char) -> (res: Vec<Vec<char>>)
    ensures
        parts_view(res@) == split_spec(v@, sep),
{
    let mut acc: Vec<Vec<char>> = Vec::new();
    let mut cur: Vec<char> = Vec::new();
    let mut i: usize = 0;
    assert(parts_view(acc@) =~= Seq::<Seq<char>>::empty());
    while i < v.len()
        invariant
            i <= v.len(),
            pieces_from(v@, i as int, cur@, parts_view(acc@), sep) == split_spec(v@, sep),
        decreases v.len() - i,
    {
        if v[i] == sep {
            let ghost before = parts_view(acc@);
            let ghost piece = cur@;
            acc.push(cur);
            assert(parts_view(acc@) =~= before.push(piece));
            cur = Vec::new();
        } else {
            cur.push(v[i]);
        }
        i += 1;
    }
    let ghost before = parts_view(acc@);
    let ghost piece = cur@;
    acc.push(cur);
    assert(parts_view(acc@) =~= before.push(piece));
    acc
}

/// Whether `c` stands in `v`.
pub fn has_char(v: &Vec<char>, c: char) -> (res: bool)
    ensures
        res == v@.contains(c),
{
    let mut i: usize = 0;
    while i < v.len()
        invariant
            i <= v.len(),
            forall|j: int| 0 <= j < i ==> v@[j] != c,
        decreases v.len() - i,
    {
        if v[i] == c {
            return true;
        }
        i += 1;
    }
    false
}

} // verus!
