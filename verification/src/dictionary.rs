//! The corpus: words with their spelling, their pronunciation and their
//! weight.

use vstd::prelude::*;
use crate::glyphs::Glyph;
use crate::seqs::copy_range;
use crate::text::{chars_equal, chars_of, regex_replaced, replace_matches};

verus! {

/// A word of the corpus.
///
/// The weight is a number that the estimation system reads; the search
/// hands it on and never computes with it.
#[derive(Clone, Debug, PartialEq, Eq)]
pub struct DictionaryWord {
    pub spelling: Vec<Glyph>,
    pub pronunciation: Vec<Glyph>,
    pub frequency: i64,
}

/// The words of the corpus.
#[derive(Clone, Debug, PartialEq, Eq)]
pub struct Dictionary {
    pub words: Vec<DictionaryWord>,
}

/// The pattern of the digits that mark the stress of a sound.
pub open spec fn digits_pattern() -> Seq<char> {
    "\\d+"@
}

/// The glyph that the name of a sound stands for, if it is the name of a
/// sound.
pub open spec fn sound_glyph(t: Seq<char>) -> Option<Glyph> {
    if t == "AH"@ {
        Some(Glyph::Uh)
    } else if t == "EY"@ {
        Some(Glyph::Ei)
    } else if t == "AA"@ {
        Some(Glyph::Ah)
    } else if t == "OW"@ {
        Some(Glyph::O)
    } else if t == "UH"@ {
        Some(Glyph::Eu)
    } else if t == "AE"@ {
        Some(Glyph::Ae)
    } else if t == "EH"@ {
        Some(Glyph::Eh)
    } else if t == "ZH"@ {
        Some(Glyph::Jh)
    } else if t == "IY"@ {
        Some(Glyph::Ee)
    } else if t == "IH"@ {
        Some(Glyph::Ih)
    } else if t == "ER"@ {
        Some(Glyph::Er)
    } else if t == "DH"@ {
        Some(Glyph::Dh)
    } else if t == "JH"@ {
        Some(Glyph::J)
    } else if t == "UW"@ {
        Some(Glyph::U)
    } else if t == "HH"@ {
        Some(Glyph::H)
    } else if t == "AO"@ {
        Some(Glyph::Aw)
    } else if t == "AW"@ {
        Some(Glyph::Ow)
    } else if t == "AY"@ {
        Some(Glyph::I)
    } else if t == "OY"@ {
        Some(Glyph::Oi)
    } else if t == "TH"@ {
        Some(Glyph::Th)
    } else if t == "CH"@ {
        Some(Glyph::Ch)
    } else if t == "SH"@ {
        Some(Glyph::Sh)
    } else if t == "NG"@ {
        Some(Glyph::Ng)
    } else if t == "B"@ {
        Some(Glyph::B)
    } else if t == "D"@ {
        Some(Glyph::D)
    } else if t == "F"@ {
        Some(Glyph::F)
    } else if t == "G"@ {
        Some(Glyph::G)
    } else if t == "H"@ {
        Some(Glyph::H)
    } else if t == "J"@ {
        Some(Glyph::J)
    } else if t == "K"@ {
        Some(Glyph::K)
    } else if t == "L"@ {
        Some(Glyph::L)
    } else if t == "M"@ {
        Some(Glyph::M)
    } else if t == "N"@ {
        Some(Glyph::N)
    } else if t == "P"@ {
        Some(Glyph::P)
    } else if t == "R"@ {
        Some(Glyph::R)
    } else if t == "S"@ {
        Some(Glyph::S)
    } else if t == "T"@ {
        Some(Glyph::T)
    } else if t == "V"@ {
        Some(Glyph::V)
    } else if t == "W"@ {
        Some(Glyph::W)
    } else if t == "Y"@ {
        Some(Glyph::Y)
    } else if t == "Z"@ {
        Some(Glyph::Z)
    } else {
        None
    }
}

/// The glyph that a letter of a spelling stands for, if it is one.
pub open spec fn letter_glyph(letter: char) -> Option<Glyph> {
    if letter == 'a' {
        Some(Glyph::A)
    } else if letter == 'b' {
        Some(Glyph::B)
    } else if letter == 'c' {
        Some(Glyph::C)
    } else if letter == 'd' {
        Some(Glyph::D)
    } else if letter == 'e' {
        Some(Glyph::E)
    } else if letter == 'f' {
        Some(Glyph::F)
    } else if letter == 'g' {
        Some(Glyph::G)
    } else if letter == 'h' {
        Some(Glyph::H)
    } else if letter == 'i' {
        Some(Glyph::I)
    } else if letter == 'j' {
        Some(Glyph::J)
    } else if letter == 'k' {
        Some(Glyph::K)
    } else if letter == 'l' {
        Some(Glyph::L)
    } else if letter == 'm' {
        Some(Glyph::M)
    } else if letter == 'n' {
        Some(Glyph::N)
    } else if letter == 'o' {
        Some(Glyph::O)
    } else if letter == 'p' {
        Some(Glyph::P)
    } else if letter == 'q' {
        Some(Glyph::Q)
    } else if letter == 'r' {
        Some(Glyph::R)
    } else if letter == 's' {
        Some(Glyph::S)
    } else if letter == 't' {
        Some(Glyph::T)
    } else if letter == 'u' {
        Some(Glyph::U)
    } else if letter == 'v' {
        Some(Glyph::V)
    } else if letter == 'w' {
        Some(Glyph::W)
    } else if letter == 'x' {
        Some(Glyph::X)
    } else if letter == 'y' {
        Some(Glyph::Y)
    } else if letter == 'z' {
        Some(Glyph::Z)
    } else if letter == '-' {
        Some(Glyph::Hyphen)
    } else if letter == '\'' {
        Some(Glyph::Apos)
    } else {
        None
    }
}

fn is_sound(t: &Vec<char>, name: &str) -> (res: bool)
    ensures
        res == (t@ == name@),
{
    chars_equal(t, &chars_of(name))
}

/// The glyph that the characters `t` name as a sound.
pub fn name_to_sound(t: &Vec<char>) -> (res: Option<Glyph>)
    ensures
        res == sound_glyph(t@),
{
    if is_sound(t, "AH") {
        Some(Glyph::Uh)
    } else if is_sound(t, "EY") {
        Some(Glyph::Ei)
    } else if is_sound(t, "AA") {
        Some(Glyph::Ah)
    } else if is_sound(t, "OW") {
        Some(Glyph::O)
    } else if is_sound(t, "UH") {
        Some(Glyph::Eu)
    } else if is_sound(t, "AE") {
        Some(Glyph::Ae)
    } else if is_sound(t, "EH") {
        Some(Glyph::Eh)
    } else if is_sound(t, "ZH") {
        Some(Glyph::Jh)
    } else if is_sound(t, "IY") {
        Some(Glyph::Ee)
    } else if is_sound(t, "IH") {
        Some(Glyph::Ih)
    } else if is_sound(t, "ER") {
        Some(Glyph::Er)
    } else if is_sound(t, "DH") {
        Some(Glyph::Dh)
    } else if is_sound(t, "JH") {
        Some(Glyph::J)
    } else if is_sound(t, "UW") {
        Some(Glyph::U)
    } else if is_sound(t, "HH") {
        Some(Glyph::H)
    } else if is_sound(t, "AO") {
        Some(Glyph::Aw)
    } else if is_sound(t, "AW") {
        Some(Glyph::Ow)
    } else if is_sound(t, "AY") {
        Some(Glyph::I)
    } else if is_sound(t, "OY") {
        Some(Glyph::Oi)
    } else if is_sound(t, "TH") {
        Some(Glyph::Th)
    } else if is_sound(t, "CH") {
        Some(Glyph::Ch)
    } else if is_sound(t, "SH") {
        Some(Glyph::Sh)
    } else if is_sound(t, "NG") {
        Some(Glyph::Ng)
    } else if is_sound(t, "B") {
        Some(Glyph::B)
    } else if is_sound(t, "D") {
        Some(Glyph::D)
    } else if is_sound(t, "F") {
        Some(Glyph::F)
    } else if is_sound(t, "G") {
        Some(Glyph::G)
    } else if is_sound(t, "H") {
        Some(Glyph::H)
    } else if is_sound(t, "J") {
        Some(Glyph::J)
    } else if is_sound(t, "K") {
        Some(Glyph::K)
    } else if is_sound(t, "L") {
        Some(Glyph::L)
    } else if is_sound(t, "M") {
        Some(Glyph::M)
    } else if is_sound(t, "N") {
        Some(Glyph::N)
    } else if is_sound(t, "P") {
        Some(Glyph::P)
    } else if is_sound(t, "R") {
        Some(Glyph::R)
    } else if is_sound(t, "S") {
        Some(Glyph::S)
    } else if is_sound(t, "T") {
        Some(Glyph::T)
    } else if is_sound(t, "V") {
        Some(Glyph::V)
    } else if is_sound(t, "W") {
        Some(Glyph::W)
    } else if is_sound(t, "Y") {
        Some(Glyph::Y)
    } else if is_sound(t, "Z") {
        Some(Glyph::Z)
    } else {
        None
    }
}

/// The glyph that a token of a pronunciation stands for: the name of a
/// sound, with or without digits that mark its stress. There is none
/// where the token names no sound.
pub fn pronunciation_token_to_glyph(t: &str) -> (res: Option<Glyph>)
    ensures
        res == match regex_replaced(digits_pattern(), t@, 1, Seq::empty()) {
            Some(name) => sound_glyph(name),
            None => None,
        },
{
    let empty = String::new();
    match replace_matches("\\d+", t, 1, empty.as_str()) {
        Some(without_digits) => name_to_sound(&chars_of(without_digits.as_str())),
        None => None,
    }
}

/// The glyph that a letter of a spelling stands for.
pub fn letter_to_glyph(letter: char) -> (res: Option<Glyph>)
    ensures
        res == letter_glyph(letter),
{
    if letter == 'a' {
        Some(Glyph::A)
    } else if letter == 'b' {
        Some(Glyph::B)
    } else if letter == 'c' {
        Some(Glyph::C)
    } else if letter == 'd' {
        Some(Glyph::D)
    } else if letter == 'e' {
        Some(Glyph::E)
    } else if letter == 'f' {
        Some(Glyph::F)
    } else if letter == 'g' {
        Some(Glyph::G)
    } else if letter == 'h' {
        Some(Glyph::H)
    } else if letter == 'i' {
        Some(Glyph::I)
    } else if letter == 'j' {
        Some(Glyph::J)
    } else if letter == 'k' {
        Some(Glyph::K)
    } else if letter == 'l' {
        Some(Glyph::L)
    } else if letter == 'm' {
        Some(Glyph::M)
    } else if letter == 'n' {
        Some(Glyph::N)
    } else if letter == 'o' {
        Some(Glyph::O)
    } else if letter == 'p' {
        Some(Glyph::P)
    } else if letter == 'q' {
        Some(Glyph::Q)
    } else if letter == 'r' {
        Some(Glyph::R)
    } else if letter == 's' {
        Some(Glyph::S)
    } else if letter == 't' {
        Some(Glyph::T)
    } else if letter == 'u' {
        Some(Glyph::U)
    } else if letter == 'v' {
        Some(Glyph::V)
    } else if letter == 'w' {
        Some(Glyph::W)
    } else if letter == 'x' {
        Some(Glyph::X)
    } else if letter == 'y' {
        Some(Glyph::Y)
    } else if letter == 'z' {
        Some(Glyph::Z)
    } else if letter == '-' {
        Some(Glyph::Hyphen)
    } else if letter == '\'' {
        Some(Glyph::Apos)
    } else {
        None
    }
}

/// The values of a run of words.
pub open spec fn runs_view(runs: Seq<Vec<Glyph>>) -> Seq<Seq<Glyph>> {
    runs.map_values(|r: Vec<Glyph>| r@)
}

/// The stretches of `n` glyphs of `s` that begin at `start` or behind it,
/// from left to right.
pub open spec fn stretches_at(s: Seq<Glyph>, n: int, start: int) -> Seq<Seq<Glyph>>
    decreases s.len() - start,
{
    if n <= 0 || start < 0 || start + n > s.len() {
        Seq::empty()
    } else {
        seq![s.subrange(start, start + n)] + stretches_at(s, n, start + 1)
    }
}

/// The stretches of `s` that have `n` glyphs or more, up to `longest`: the
/// shorter ones first.
pub open spec fn stretches_from(s: Seq<Glyph>, n: int, longest: int) -> Seq<Seq<Glyph>>
    decreases longest + 1 - n,
{
    if n <= 0 || n > longest || n > s.len() {
        Seq::empty()
    } else {
        stretches_at(s, n, 0) + stretches_from(s, n + 1, longest)
    }
}

/// The stretches of a spelling that have no more than `longest` glyphs:
/// what a table of the stretches of the corpus has an entry for.
pub fn stretches(spelling: &Vec<Glyph>, longest: usize) -> (res: Vec<Vec<Glyph>>)
    ensures
        runs_view(res@) == stretches_from(spelling@, 1, longest as int),
{
    let len = spelling.len();
    let max_n = if len > longest {
        longest
    } else {
        len
    };
    let ghost goal = stretches_from(spelling@, 1, longest as int);
    let mut res: Vec<Vec<Glyph>> = Vec::new();
    let mut done: usize = 0;
    assert(runs_view(res@) =~= Seq::<Seq<Glyph>>::empty());
    while done < max_n
        invariant
            len == spelling.len(),
            max_n <= len,
            max_n <= longest,
            max_n == len || max_n == longest,
            done <= max_n,
            runs_view(res@) + stretches_from(spelling@, done + 1, longest as int) == goal,
        decreases max_n - done,
    {
        let n: usize = done + 1;
        let ghost rest = stretches_from(spelling@, n + 1, longest as int);
        let mut start: usize = 0;
        while start <= len - n
            invariant
                len == spelling.len(),
                1 <= n <= len,
                start + n <= len + 1,
                runs_view(res@) + stretches_at(spelling@, n as int, start as int) + rest == goal,
            decreases len + 1 - start - n,
        {
            let ghost before = runs_view(res@);
            let ghost left = stretches_at(spelling@, n as int, start + 1);
            let piece = copy_range(spelling, start, start + n);
            res.push(piece);
            assert(runs_view(res@) =~= before.push(spelling@.subrange(start as int, start + n)));
            assert(runs_view(res@) + left + rest =~= before + stretches_at(
                spelling@,
                n as int,
                start as int,
            ) + rest);
            start += 1;
        }
        assert(runs_view(res@) + rest =~= runs_view(res@) + stretches_at(
            spelling@,
            n as int,
            start as int,
        ) + rest);
        done += 1;
    }
    assert(runs_view(res@) + stretches_from(spelling@, done + 1, longest as int) =~= runs_view(
        res@,
    ));
    res
}

} // verus!
