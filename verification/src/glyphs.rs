//! The glyphs that spellings and pronunciations are written in, and the
//! text forms they are read from and written to.

use vstd::prelude::*;
use crate::text::{chars_of, string_of, decimal_digits, parse_u32_spec, push_decimal, parse_u32};

verus! {

/// The largest number of synthetic glyphs a rule list may introduce.
pub const MAX_SYN: usize = 1000;

/// A letter of the Latin alphabet, a phonetic symbol, or one of the two
/// marks that may stand inside a word.
#[derive(Clone, Copy, PartialEq, Eq, Debug, Hash, PartialOrd, Ord, Structural)]
pub enum Glyph {
    A, B, C, D, E, F, G, H, I, J, K, L, M, N, O, P, Q, R, S, T, U, V, W, X, Y, Z,
    Ch, Th, Sh, Jh, Ng, Er, Eh, Ah, Oi, Ow, Aw, Eu, Uh, Ee, Ei, Yu, Dh, Ae, Ih, Schwa, Apos, Hyphen,
}

/// A glyph of a word under rewriting: a real glyph, or a numbered
/// placeholder that a rule has put in its place.
#[derive(Clone, Copy, PartialEq, Eq, Debug, Hash, PartialOrd, Ord, Structural)]
pub enum AugGlyph {
    Real(Glyph),
    Synthetic(u32),
}

/// The name of a glyph in a feature file.
pub open spec fn glyph_name(g: Glyph) -> Seq<char> {
    match g {
        Glyph::A => seq!['a'],
        Glyph::B => seq!['b'],
        Glyph::C => seq!['c'],
        Glyph::D => seq!['d'],
        Glyph::E => seq!['e'],
        Glyph::F => seq!['f'],
        Glyph::G => seq!['g'],
        Glyph::H => seq!['h'],
        Glyph::I => seq!['i'],
        Glyph::J => seq!['j'],
        Glyph::K => seq!['k'],
        Glyph::L => seq!['l'],
        Glyph::M => seq!['m'],
        Glyph::N => seq!['n'],
        Glyph::O => seq!['o'],
        Glyph::P => seq!['p'],
        Glyph::Q => seq!['q'],
        Glyph::R => seq!['r'],
        Glyph::S => seq!['s'],
        Glyph::T => seq!['t'],
        Glyph::U => seq!['u'],
        Glyph::V => seq!['v'],
        Glyph::W => seq!['w'],
        Glyph::X => seq!['x'],
        Glyph::Y => seq!['y'],
        Glyph::Z => seq!['z'],
        Glyph::Ch => seq!['c', 'h'],
        Glyph::Th => seq!['t', 'h'],
        Glyph::Sh => seq!['s', 'h'],
        Glyph::Jh => seq!['j', 'u'],
        Glyph::Ng => seq!['n', 'g'],
        Glyph::Er => seq!['e', 'r'],
        Glyph::Eh => seq!['e', 'h'],
        Glyph::Ah => seq!['a', 'h'],
        Glyph::Oi => seq!['o', 'i'],
        Glyph::Ow => seq!['o', 'w'],
        Glyph::Aw => seq!['a', 'w'],
        Glyph::Eu => seq!['e', 'u'],
        Glyph::Uh => seq!['u', 'h'],
        Glyph::Ee => seq!['e', 'e'],
        Glyph::Ei => seq!['e', 'i'],
        Glyph::Yu => seq!['y', 'u'],
        Glyph::Dh => seq!['d', 'h'],
        Glyph::Ae => seq!['a', 'e'],
        Glyph::Ih => seq!['i', 'h'],
        Glyph::Schwa => seq!['*'],
        Glyph::Apos => seq!['a', 'p', 'o', 's'],
        Glyph::Hyphen => seq!['h', 'y', 'p', 'h', 'e', 'n'],
    }
}

/// The glyph that a feature-file name stands for. Two names stand for
/// `Eh`, and no name stands for `Eu`.
pub open spec fn glyph_of_name(t: Seq<char>) -> Option<Glyph> {
    if t == seq!['a'] {
        Some(Glyph::A)
    } else if t == seq!['b'] {
        Some(Glyph::B)
    } else if t == seq!['c'] {
        Some(Glyph::C)
    } else if t == seq!['d'] {
        Some(Glyph::D)
    } else if t == seq!['e'] {
        Some(Glyph::E)
    } else if t == seq!['f'] {
        Some(Glyph::F)
    } else if t == seq!['g'] {
        Some(Glyph::G)
    } else if t == seq!['h'] {
        Some(Glyph::H)
    } else if t == seq!['i'] {
        Some(Glyph::I)
    } else if t == seq!['j'] {
        Some(Glyph::J)
    } else if t == seq!['k'] {
        Some(Glyph::K)
    } else if t == seq!['l'] {
        Some(Glyph::L)
    } else if t == seq!['m'] {
        Some(Glyph::M)
    } else if t == seq!['n'] {
        Some(Glyph::N)
    } else if t == seq!['o'] {
        Some(Glyph::O)
    } else if t == seq!['p'] {
        Some(Glyph::P)
    } else if t == seq!['q'] {
        Some(Glyph::Q)
    } else if t == seq!['r'] {
        Some(Glyph::R)
    } else if t == seq!['s'] {
        Some(Glyph::S)
    } else if t == seq!['t'] {
        Some(Glyph::T)
    } else if t == seq!['u'] {
        Some(Glyph::U)
    } else if t == seq!['v'] {
        Some(Glyph::V)
    } else if t == seq!['w'] {
        Some(Glyph::W)
    } else if t == seq!['x'] {
        Some(Glyph::X)
    } else if t == seq!['y'] {
        Some(Glyph::Y)
    } else if t == seq!['z'] {
        Some(Glyph::Z)
    } else if t == seq!['c', 'h'] {
        Some(Glyph::Ch)
    } else if t == seq!['t', 'h'] {
        Some(Glyph::Th)
    } else if t == seq!['s', 'h'] {
        Some(Glyph::Sh)
    } else if t == seq!['j', 'u'] {
        Some(Glyph::Jh)
    } else if t == seq!['e', 'h'] {
        Some(Glyph::Eh)
    } else if t == seq!['a', 'h'] {
        Some(Glyph::Ah)
    } else if t == seq!['o', 'i'] {
        Some(Glyph::Oi)
    } else if t == seq!['o', 'w'] {
        Some(Glyph::Ow)
    } else if t == seq!['a', 'w'] {
        Some(Glyph::Aw)
    } else if t == seq!['e', 'u'] {
        Some(Glyph::Eh)
    } else if t == seq!['u', 'h'] {
        Some(Glyph::Uh)
    } else if t == seq!['e', 'e'] {
        Some(Glyph::Ee)
    } else if t == seq!['e', 'i'] {
        Some(Glyph::Ei)
    } else if t == seq!['y', 'u'] {
        Some(Glyph::Yu)
    } else if t == seq!['d', 'h'] {
        Some(Glyph::Dh)
    } else if t == seq!['n', 'g'] {
        Some(Glyph::Ng)
    } else if t == seq!['a', 'e'] {
        Some(Glyph::Ae)
    } else if t == seq!['i', 'h'] {
        Some(Glyph::Ih)
    } else if t == seq!['*'] {
        Some(Glyph::Schwa)
    } else if t == seq!['h', 'y', 'p', 'h', 'e', 'n'] {
        Some(Glyph::Hyphen)
    } else if t == seq!['e', 'r'] {
        Some(Glyph::Er)
    } else if t == seq!['a', 'p', 'o', 's'] {
        Some(Glyph::Apos)
    } else {
        None
    }
}

/// The single character that writes a glyph in running text.
pub open spec fn glyph_char(g: Glyph) -> char {
    match g {
        Glyph::A => 'a',
        Glyph::B => 'b',
        Glyph::C => 'c',
        Glyph::D => 'd',
        Glyph::E => 'e',
        Glyph::F => 'f',
        Glyph::G => 'g',
        Glyph::H => 'h',
        Glyph::I => 'i',
        Glyph::J => 'j',
        Glyph::K => 'k',
        Glyph::L => 'l',
        Glyph::M => 'm',
        Glyph::N => 'n',
        Glyph::O => 'o',
        Glyph::P => 'p',
        Glyph::Q => 'q',
        Glyph::R => 'r',
        Glyph::S => 's',
        Glyph::T => 't',
        Glyph::U => 'u',
        Glyph::V => 'v',
        Glyph::W => 'w',
        Glyph::X => 'x',
        Glyph::Y => 'y',
        Glyph::Z => 'z',
        Glyph::Ch => '\u{2a7}',
        Glyph::Th => '\u{3b8}',
        Glyph::Sh => '\u{283}',
        Glyph::Jh => '\u{292}',
        Glyph::Ng => '\u{14b}',
        Glyph::Er => '\u{2b3}',
        Glyph::Eh => '\u{3b5}',
        Glyph::Ah => '\u{251}',
        Glyph::Oi => '\u{ab62}',
        Glyph::Ow => '\u{28a}',
        Glyph::Aw => '\u{254}',
        Glyph::Eu => '\u{25c}',
        Glyph::Uh => '\u{28c}',
        Glyph::Ee => '\u{269}',
        Glyph::Ei => '\u{3f5}',
        Glyph::Yu => '\u{16b}',
        Glyph::Dh => '\u{3d1}',
        Glyph::Ae => '\u{e6}',
        Glyph::Ih => '\u{26a}',
        Glyph::Schwa => '\u{259}',
        Glyph::Apos => '\'',
        Glyph::Hyphen => '-',
    }
}

/// The glyph that a character of running text writes, if it writes one.
pub open spec fn glyph_of_char(c: char) -> Option<Glyph> {
    if c == 'a' {
        Some(Glyph::A)
    } else if c == 'b' {
        Some(Glyph::B)
    } else if c == 'c' {
        Some(Glyph::C)
    } else if c == 'd' {
        Some(Glyph::D)
    } else if c == 'e' {
        Some(Glyph::E)
    } else if c == 'f' {
        Some(Glyph::F)
    } else if c == 'g' {
        Some(Glyph::G)
    } else if c == 'h' {
        Some(Glyph::H)
    } else if c == 'i' {
        Some(Glyph::I)
    } else if c == 'j' {
        Some(Glyph::J)
    } else if c == 'k' {
        Some(Glyph::K)
    } else if c == 'l' {
        Some(Glyph::L)
    } else if c == 'm' {
        Some(Glyph::M)
    } else if c == 'n' {
        Some(Glyph::N)
    } else if c == 'o' {
        Some(Glyph::O)
    } else if c == 'p' {
        Some(Glyph::P)
    } else if c == 'q' {
        Some(Glyph::Q)
    } else if c == 'r' {
        Some(Glyph::R)
    } else if c == 's' {
        Some(Glyph::S)
    } else if c == 't' {
        Some(Glyph::T)
    } else if c == 'u' {
        Some(Glyph::U)
    } else if c == 'v' {
        Some(Glyph::V)
    } else if c == 'w' {
        Some(Glyph::W)
    } else if c == 'x' {
        Some(Glyph::X)
    } else if c == 'y' {
        Some(Glyph::Y)
    } else if c == 'z' {
        Some(Glyph::Z)
    } else if c == '\u{2a7}' {
        Some(Glyph::Ch)
    } else if c == '\u{3b8}' {
        Some(Glyph::Th)
    } else if c == '\u{283}' {
        Some(Glyph::Sh)
    } else if c == '\u{292}' {
        Some(Glyph::Jh)
    } else if c == '\u{14b}' {
        Some(Glyph::Ng)
    } else if c == '\u{2b3}' {
        Some(Glyph::Er)
    } else if c == '\u{3b5}' {
        Some(Glyph::Eh)
    } else if c == '\u{251}' {
        Some(Glyph::Ah)
    } else if c == '\u{ab62}' {
        Some(Glyph::Oi)
    } else if c == '\u{28a}' {
        Some(Glyph::Ow)
    } else if c == '\u{254}' {
        Some(Glyph::Aw)
    } else if c == '\u{25c}' {
        Some(Glyph::Eu)
    } else if c == '\u{28c}' {
        Some(Glyph::Uh)
    } else if c == '\u{269}' {
        Some(Glyph::Ee)
    } else if c == '\u{3f5}' {
        Some(Glyph::Ei)
    } else if c == '\u{16b}' {
        Some(Glyph::Yu)
    } else if c == '\u{3d1}' {
        Some(Glyph::Dh)
    } else if c == '\u{e6}' {
        Some(Glyph::Ae)
    } else if c == '\u{26a}' {
        Some(Glyph::Ih)
    } else if c == '\u{259}' {
        Some(Glyph::Schwa)
    } else if c == '\'' {
        Some(Glyph::Apos)
    } else if c == '-' {
        Some(Glyph::Hyphen)
    } else {
        None
    }
}

/// Whether a glyph writes a vowel.
pub open spec fn glyph_is_vowel(g: Glyph) -> bool {
    match g {
        Glyph::A => true,
        Glyph::B => false,
        Glyph::C => false,
        Glyph::D => false,
        Glyph::E => true,
        Glyph::F => false,
        Glyph::G => false,
        Glyph::H => false,
        Glyph::I => true,
        Glyph::J => false,
        Glyph::K => false,
        Glyph::L => false,
        Glyph::M => false,
        Glyph::N => false,
        Glyph::O => true,
        Glyph::P => false,
        Glyph::Q => false,
        Glyph::R => false,
        Glyph::S => false,
        Glyph::T => false,
        Glyph::U => true,
        Glyph::V => false,
        Glyph::W => false,
        Glyph::X => false,
        Glyph::Y => false,
        Glyph::Z => false,
        Glyph::Ch => false,
        Glyph::Th => false,
        Glyph::Sh => false,
        Glyph::Jh => false,
        Glyph::Ng => false,
        Glyph::Er => false,
        Glyph::Eh => true,
        Glyph::Ah => true,
        Glyph::Oi => true,
        Glyph::Ow => true,
        Glyph::Aw => true,
        Glyph::Eu => true,
        Glyph::Uh => true,
        Glyph::Ee => true,
        Glyph::Ei => true,
        Glyph::Yu => true,
        Glyph::Dh => false,
        Glyph::Ae => true,
        Glyph::Ih => true,
        Glyph::Schwa => true,
        Glyph::Apos => false,
        Glyph::Hyphen => false,
    }
}

/// Whether a glyph is a letter or a phonetic symbol, that is, anything but
/// the apostrophe and the hyphen.
pub open spec fn glyph_is_letter_or_phonetic(g: Glyph) -> bool {
    g != Glyph::Apos && g != Glyph::Hyphen
}

/// Every glyph, in the order of the declaration.
pub open spec fn all_glyphs() -> Seq<Glyph> {
    seq![
        Glyph::A, Glyph::B, Glyph::C, Glyph::D, Glyph::E, Glyph::F, Glyph::G, Glyph::H, Glyph::I, Glyph::J, Glyph::K, Glyph::L,
        Glyph::M, Glyph::N, Glyph::O, Glyph::P, Glyph::Q, Glyph::R, Glyph::S, Glyph::T, Glyph::U, Glyph::V, Glyph::W, Glyph::X,
        Glyph::Y, Glyph::Z, Glyph::Ch, Glyph::Th, Glyph::Sh, Glyph::Jh, Glyph::Ng, Glyph::Er, Glyph::Eh, Glyph::Ah, Glyph::Oi, Glyph::Ow,
        Glyph::Aw, Glyph::Eu, Glyph::Uh, Glyph::Ee, Glyph::Ei, Glyph::Yu, Glyph::Dh, Glyph::Ae, Glyph::Ih, Glyph::Schwa, Glyph::Apos, Glyph::Hyphen,
    ]
}

/// Every glyph has a character of its own, and is read back from it.
pub proof fn lemma_glyph_char_round_trip(g: Glyph)
    ensures
        glyph_of_char(glyph_char(g)) == Some(g),
{
}

/// A character that writes a glyph is the character of that glyph.
pub proof fn lemma_glyph_of_char_sound(c: char)
    ensures
        glyph_of_char(c) matches Some(g) ==> glyph_char(g) == c,
{
}

pub(crate) fn char_of_glyph(g: Glyph) -> (c: char)
    ensures
        c == glyph_char(g),
{
    match g {
        Glyph::A => 'a',
        Glyph::B => 'b',
        Glyph::C => 'c',
        Glyph::D => 'd',
        Glyph::E => 'e',
        Glyph::F => 'f',
        Glyph::G => 'g',
        Glyph::H => 'h',
        Glyph::I => 'i',
        Glyph::J => 'j',
        Glyph::K => 'k',
        Glyph::L => 'l',
        Glyph::M => 'm',
        Glyph::N => 'n',
        Glyph::O => 'o',
        Glyph::P => 'p',
        Glyph::Q => 'q',
        Glyph::R => 'r',
        Glyph::S => 's',
        Glyph::T => 't',
        Glyph::U => 'u',
        Glyph::V => 'v',
        Glyph::W => 'w',
        Glyph::X => 'x',
        Glyph::Y => 'y',
        Glyph::Z => 'z',
        Glyph::Ch => '\u{2a7}',
        Glyph::Th => '\u{3b8}',
        Glyph::Sh => '\u{283}',
        Glyph::Jh => '\u{292}',
        Glyph::Ng => '\u{14b}',
        Glyph::Er => '\u{2b3}',
        Glyph::Eh => '\u{3b5}',
        Glyph::Ah => '\u{251}',
        Glyph::Oi => '\u{ab62}',
        Glyph::Ow => '\u{28a}',
        Glyph::Aw => '\u{254}',
        Glyph::Eu => '\u{25c}',
        Glyph::Uh => '\u{28c}',
        Glyph::Ee => '\u{269}',
        Glyph::Ei => '\u{3f5}',
        Glyph::Yu => '\u{16b}',
        Glyph::Dh => '\u{3d1}',
        Glyph::Ae => '\u{e6}',
        Glyph::Ih => '\u{26a}',
        Glyph::Schwa => '\u{259}',
        Glyph::Apos => '\'',
        Glyph::Hyphen => '-',
    }
}

/// The glyph that `c` writes, if it writes one.
pub fn char_to_glyph(c: char) -> (res: Option<Glyph>)
    ensures
        res == glyph_of_char(c),
{
    if c == 'a' {
        Some(Glyph::A)
    } else if c == 'b' {
        Some(Glyph::B)
    } else if c == 'c' {
        Some(Glyph::C)
    } else if c == 'd' {
        Some(Glyph::D)
    } else if c == 'e' {
        Some(Glyph::E)
    } else if c == 'f' {
        Some(Glyph::F)
    } else if c == 'g' {
        Some(Glyph::G)
    } else if c == 'h' {
        Some(Glyph::H)
    } else if c == 'i' {
        Some(Glyph::I)
    } else if c == 'j' {
        Some(Glyph::J)
    } else if c == 'k' {
        Some(Glyph::K)
    } else if c == 'l' {
        Some(Glyph::L)
    } else if c == 'm' {
        Some(Glyph::M)
    } else if c == 'n' {
        Some(Glyph::N)
    } else if c == 'o' {
        Some(Glyph::O)
    } else if c == 'p' {
        Some(Glyph::P)
    } else if c == 'q' {
        Some(Glyph::Q)
    } else if c == 'r' {
        Some(Glyph::R)
    } else if c == 's' {
        Some(Glyph::S)
    } else if c == 't' {
        Some(Glyph::T)
    } else if c == 'u' {
        Some(Glyph::U)
    } else if c == 'v' {
        Some(Glyph::V)
    } else if c == 'w' {
        Some(Glyph::W)
    } else if c == 'x' {
        Some(Glyph::X)
    } else if c == 'y' {
        Some(Glyph::Y)
    } else if c == 'z' {
        Some(Glyph::Z)
    } else if c == '\u{2a7}' {
        Some(Glyph::Ch)
    } else if c == '\u{3b8}' {
        Some(Glyph::Th)
    } else if c == '\u{283}' {
        Some(Glyph::Sh)
    } else if c == '\u{292}' {
        Some(Glyph::Jh)
    } else if c == '\u{14b}' {
        Some(Glyph::Ng)
    } else if c == '\u{2b3}' {
        Some(Glyph::Er)
    } else if c == '\u{3b5}' {
        Some(Glyph::Eh)
    } else if c == '\u{251}' {
        Some(Glyph::Ah)
    } else if c == '\u{ab62}' {
        Some(Glyph::Oi)
    } else if c == '\u{28a}' {
        Some(Glyph::Ow)
    } else if c == '\u{254}' {
        Some(Glyph::Aw)
    } else if c == '\u{25c}' {
        Some(Glyph::Eu)
    } else if c == '\u{28c}' {
        Some(Glyph::Uh)
    } else if c == '\u{269}' {
        Some(Glyph::Ee)
    } else if c == '\u{3f5}' {
        Some(Glyph::Ei)
    } else if c == '\u{16b}' {
        Some(Glyph::Yu)
    } else if c == '\u{3d1}' {
        Some(Glyph::Dh)
    } else if c == '\u{e6}' {
        Some(Glyph::Ae)
    } else if c == '\u{26a}' {
        Some(Glyph::Ih)
    } else if c == '\u{259}' {
        Some(Glyph::Schwa)
    } else if c == '\'' {
        Some(Glyph::Apos)
    } else if c == '-' {
        Some(Glyph::Hyphen)
    } else {
        None
    }
}

fn name_chars(g: Glyph) -> (v: Vec<char>)
    ensures
        v@ == glyph_name(g),
{
    match g {
        Glyph::A => vec!['a'],
        Glyph::B => vec!['b'],
        Glyph::C => vec!['c'],
        Glyph::D => vec!['d'],
        Glyph::E => vec!['e'],
        Glyph::F => vec!['f'],
        Glyph::G => vec!['g'],
        Glyph::H => vec!['h'],
        Glyph::I => vec!['i'],
        Glyph::J => vec!['j'],
        Glyph::K => vec!['k'],
        Glyph::L => vec!['l'],
        Glyph::M => vec!['m'],
        Glyph::N => vec!['n'],
        Glyph::O => vec!['o'],
        Glyph::P => vec!['p'],
        Glyph::Q => vec!['q'],
        Glyph::R => vec!['r'],
        Glyph::S => vec!['s'],
        Glyph::T => vec!['t'],
        Glyph::U => vec!['u'],
        Glyph::V => vec!['v'],
        Glyph::W => vec!['w'],
        Glyph::X => vec!['x'],
        Glyph::Y => vec!['y'],
        Glyph::Z => vec!['z'],
        Glyph::Ch => vec!['c', 'h'],
        Glyph::Th => vec!['t', 'h'],
        Glyph::Sh => vec!['s', 'h'],
        Glyph::Jh => vec!['j', 'u'],
        Glyph::Ng => vec!['n', 'g'],
        Glyph::Er => vec!['e', 'r'],
        Glyph::Eh => vec!['e', 'h'],
        Glyph::Ah => vec!['a', 'h'],
        Glyph::Oi => vec!['o', 'i'],
        Glyph::Ow => vec!['o', 'w'],
        Glyph::Aw => vec!['a', 'w'],
        Glyph::Eu => vec!['e', 'u'],
        Glyph::Uh => vec!['u', 'h'],
        Glyph::Ee => vec!['e', 'e'],
        Glyph::Ei => vec!['e', 'i'],
        Glyph::Yu => vec!['y', 'u'],
        Glyph::Dh => vec!['d', 'h'],
        Glyph::Ae => vec!['a', 'e'],
        Glyph::Ih => vec!['i', 'h'],
        Glyph::Schwa => vec!['*'],
        Glyph::Apos => vec!['a', 'p', 'o', 's'],
        Glyph::Hyphen => vec!['h', 'y', 'p', 'h', 'e', 'n'],
    }
}

/// The glyph that the characters `v` name, if they name one.
pub fn name_to_glyph(v: &Vec<char>) -> (res: Option<Glyph>)
    ensures
        res == glyph_of_name(v@),
{
    let n = v.len();
    if n == 1 {
        let c0 = v[0];
        if c0 == 'a' {
            assert(v@ =~= seq!['a']);
            return Some(Glyph::A);
        }
        if c0 == 'b' {
            assert(v@ =~= seq!['b']);
            return Some(Glyph::B);
        }
        if c0 == 'c' {
            assert(v@ =~= seq!['c']);
            return Some(Glyph::C);
        }
        if c0 == 'd' {
            assert(v@ =~= seq!['d']);
            return Some(Glyph::D);
        }
        if c0 == 'e' {
            assert(v@ =~= seq!['e']);
            return Some(Glyph::E);
        }
        if c0 == 'f' {
            assert(v@ =~= seq!['f']);
            return Some(Glyph::F);
        }
        if c0 == 'g' {
            assert(v@ =~= seq!['g']);
            return Some(Glyph::G);
        }
        if c0 == 'h' {
            assert(v@ =~= seq!['h']);
            return Some(Glyph::H);
        }
        if c0 == 'i' {
            assert(v@ =~= seq!['i']);
            return Some(Glyph::I);
        }
        if c0 == 'j' {
            assert(v@ =~= seq!['j']);
            return Some(Glyph::J);
        }
        if c0 == 'k' {
            assert(v@ =~= seq!['k']);
            return Some(Glyph::K);
        }
        if c0 == 'l' {
            assert(v@ =~= seq!['l']);
            return Some(Glyph::L);
        }
        if c0 == 'm' {
            assert(v@ =~= seq!['m']);
            return Some(Glyph::M);
        }
        if c0 == 'n' {
            assert(v@ =~= seq!['n']);
            return Some(Glyph::N);
        }
        if c0 == 'o' {
            assert(v@ =~= seq!['o']);
            return Some(Glyph::O);
        }
        if c0 == 'p' {
            assert(v@ =~= seq!['p']);
            return Some(Glyph::P);
        }
        if c0 == 'q' {
            assert(v@ =~= seq!['q']);
            return Some(Glyph::Q);
        }
        if c0 == 'r' {
            assert(v@ =~= seq!['r']);
            return Some(Glyph::R);
        }
        if c0 == 's' {
            assert(v@ =~= seq!['s']);
            return Some(Glyph::S);
        }
        if c0 == 't' {
            assert(v@ =~= seq!['t']);
            return Some(Glyph::T);
        }
        if c0 == 'u' {
            assert(v@ =~= seq!['u']);
            return Some(Glyph::U);
        }
        if c0 == 'v' {
            assert(v@ =~= seq!['v']);
            return Some(Glyph::V);
        }
        if c0 == 'w' {
            assert(v@ =~= seq!['w']);
            return Some(Glyph::W);
        }
        if c0 == 'x' {
            assert(v@ =~= seq!['x']);
            return Some(Glyph::X);
        }
        if c0 == 'y' {
            assert(v@ =~= seq!['y']);
            return Some(Glyph::Y);
        }
        if c0 == 'z' {
            assert(v@ =~= seq!['z']);
            return Some(Glyph::Z);
        }
        if c0 == '*' {
            assert(v@ =~= seq!['*']);
            return Some(Glyph::Schwa);
        }
        None
    } else if n == 2 {
        let c0 = v[0];
        let c1 = v[1];
        if c0 == 'c' && c1 == 'h' {
            assert(v@ =~= seq!['c', 'h']);
            return Some(Glyph::Ch);
        }
        if c0 == 't' && c1 == 'h' {
            assert(v@ =~= seq!['t', 'h']);
            return Some(Glyph::Th);
        }
        if c0 == 's' && c1 == 'h' {
            assert(v@ =~= seq!['s', 'h']);
            return Some(Glyph::Sh);
        }
        if c0 == 'j' && c1 == 'u' {
            assert(v@ =~= seq!['j', 'u']);
            return Some(Glyph::Jh);
        }
        if c0 == 'e' && c1 == 'h' {
            assert(v@ =~= seq!['e', 'h']);
            return Some(Glyph::Eh);
        }
        if c0 == 'a' && c1 == 'h' {
            assert(v@ =~= seq!['a', 'h']);
            return Some(Glyph::Ah);
        }
        if c0 == 'o' && c1 == 'i' {
            assert(v@ =~= seq!['o', 'i']);
            return Some(Glyph::Oi);
        }
        if c0 == 'o' && c1 == 'w' {
            assert(v@ =~= seq!['o', 'w']);
            return Some(Glyph::Ow);
        }
        if c0 == 'a' && c1 == 'w' {
            assert(v@ =~= seq!['a', 'w']);
            return Some(Glyph::Aw);
        }
        if c0 == 'e' && c1 == 'u' {
            assert(v@ =~= seq!['e', 'u']);
            return Some(Glyph::Eh);
        }
        if c0 == 'u' && c1 == 'h' {
            assert(v@ =~= seq!['u', 'h']);
            return Some(Glyph::Uh);
        }
        if c0 == 'e' && c1 == 'e' {
            assert(v@ =~= seq!['e', 'e']);
            return Some(Glyph::Ee);
        }
        if c0 == 'e' && c1 == 'i' {
            assert(v@ =~= seq!['e', 'i']);
            return Some(Glyph::Ei);
        }
        if c0 == 'y' && c1 == 'u' {
            assert(v@ =~= seq!['y', 'u']);
            return Some(Glyph::Yu);
        }
        if c0 == 'd' && c1 == 'h' {
            assert(v@ =~= seq!['d', 'h']);
            return Some(Glyph::Dh);
        }
        if c0 == 'n' && c1 == 'g' {
            assert(v@ =~= seq!['n', 'g']);
            return Some(Glyph::Ng);
        }
        if c0 == 'a' && c1 == 'e' {
            assert(v@ =~= seq!['a', 'e']);
            return Some(Glyph::Ae);
        }
        if c0 == 'i' && c1 == 'h' {
            assert(v@ =~= seq!['i', 'h']);
            return Some(Glyph::Ih);
        }
        if c0 == 'e' && c1 == 'r' {
            assert(v@ =~= seq!['e', 'r']);
            return Some(Glyph::Er);
        }
        None
    } else if n == 4 {
        let c0 = v[0];
        let c1 = v[1];
        let c2 = v[2];
        let c3 = v[3];
        if c0 == 'a' && c1 == 'p' && c2 == 'o' && c3 == 's' {
            assert(v@ =~= seq!['a', 'p', 'o', 's']);
            return Some(Glyph::Apos);
        }
        None
    } else if n == 6 {
        let c0 = v[0];
        let c1 = v[1];
        let c2 = v[2];
        let c3 = v[3];
        let c4 = v[4];
        let c5 = v[5];
        if c0 == 'h' && c1 == 'y' && c2 == 'p' && c3 == 'h' && c4 == 'e' && c5 == 'n' {
            assert(v@ =~= seq!['h', 'y', 'p', 'h', 'e', 'n']);
            return Some(Glyph::Hyphen);
        }
        None
    } else {
        None
    }
}

impl Glyph {
    /// The name of the glyph in a feature file.
    pub fn name(&self) -> (res: String)
        ensures
            res@ == glyph_name(*self),
    {
        string_of(&name_chars(*self))
    }

    /// The glyph that `text` names in a feature file.
    pub fn from_name(text: &str) -> (res: Option<Glyph>)
        ensures
            res == glyph_of_name(text@),
    {
        let v = chars_of(text);
        name_to_glyph(&v)
    }

    /// The glyph as running text: its one character.
    pub fn char(&self) -> (res: String)
        ensures
            res@ == seq![glyph_char(*self)],
    {
        let mut v: Vec<char> = Vec::new();
        v.push(char_of_glyph(*self));
        string_of(&v)
    }

    /// Reads one glyph off the front of `ch`: the glyph that the first
    /// character writes, with the text behind it.
    pub fn from_char<'a>(ch: &'a str) -> (res: Option<(Glyph, &'a str)>)
        ensures
            match res {
                Some((g, rest)) => ch@.len() > 0 && glyph_of_char(ch@[0]) == Some(g) && rest@
                    == ch@.skip(1),
                None => ch@.len() == 0 || glyph_of_char(ch@[0]) is None,
            },
    {
        let n = ch.unicode_len();
        if n == 0 {
            return None;
        }
        match char_to_glyph(ch.get_char(0)) {
            Some(g) => {
                let rest = ch.substring_char(1, n);
                assert(ch@.subrange(1, n as int) =~= ch@.skip(1));
                Some((g, rest))
            },
            None => None,
        }
    }

    /// Whether the glyph writes a vowel.
    pub fn is_vowel(&self) -> (res: bool)
        ensures
            res == glyph_is_vowel(*self),
    {
        match self {
            Glyph::A | Glyph::E | Glyph::I | Glyph::O | Glyph::U | Glyph::Eh | Glyph::Ah
            | Glyph::Oi | Glyph::Ow | Glyph::Aw | Glyph::Eu | Glyph::Uh | Glyph::Ee | Glyph::Ei
            | Glyph::Yu | Glyph::Ae | Glyph::Ih | Glyph::Schwa => true,
            _ => false,
        }
    }

    /// Whether the glyph is a letter or a phonetic symbol.
    pub fn is_letter_or_phonetic(&self) -> (res: bool)
        ensures
            res == glyph_is_letter_or_phonetic(*self),
    {
        match self {
            Glyph::Apos | Glyph::Hyphen => false,
            _ => true,
        }
    }

    /// Every glyph, in the order of the declaration.
    pub fn all() -> (res: Vec<Glyph>)
        ensures
            res@ == all_glyphs(),
    {
        let res = vec![
            Glyph::A, Glyph::B, Glyph::C, Glyph::D, Glyph::E, Glyph::F, Glyph::G, Glyph::H,
            Glyph::I, Glyph::J, Glyph::K, Glyph::L, Glyph::M, Glyph::N, Glyph::O, Glyph::P,
            Glyph::Q, Glyph::R, Glyph::S, Glyph::T, Glyph::U, Glyph::V, Glyph::W, Glyph::X,
            Glyph::Y, Glyph::Z, Glyph::Ch, Glyph::Th, Glyph::Sh, Glyph::Jh, Glyph::Ng, Glyph::Er,
            Glyph::Eh, Glyph::Ah, Glyph::Oi, Glyph::Ow, Glyph::Aw, Glyph::Eu, Glyph::Uh,
            Glyph::Ee, Glyph::Ei, Glyph::Yu, Glyph::Dh, Glyph::Ae, Glyph::Ih, Glyph::Schwa,
            Glyph::Apos, Glyph::Hyphen,
        ];
        assert(res@ =~= all_glyphs());
        res
    }
}

/// Appends the feature-file name of `g` to `out`.
pub fn push_glyph_name(out: &mut Vec<char>, g: Glyph)
    ensures
        final(out)@ == old(out)@ + glyph_name(g),
{
    let mut name = name_chars(g);
    out.append(&mut name);
}

/// The name of an augmented glyph in a feature file: the glyph's own name,
/// or `syn` and the placeholder's number.
pub open spec fn aug_glyph_name(g: AugGlyph) -> Seq<char> {
    match g {
        AugGlyph::Real(g) => glyph_name(g),
        AugGlyph::Synthetic(n) => seq!['s', 'y', 'n'] + decimal_digits(n as nat),
    }
}

/// Whether `t` begins with `syn`.
pub open spec fn has_syn_prefix(t: Seq<char>) -> bool {
    t.len() >= 3 && t[0] == 's' && t[1] == 'y' && t[2] == 'n'
}

/// The augmented glyph that a feature-file name stands for: after `syn` a
/// number is owed, and any other name is that of a real glyph.
pub open spec fn aug_glyph_of_name(t: Seq<char>) -> Option<AugGlyph> {
    if has_syn_prefix(t) {
        match parse_u32_spec(t.skip(3)) {
            Some(n) => Some(AugGlyph::Synthetic(n)),
            None => None,
        }
    } else {
        match glyph_of_name(t) {
            Some(g) => Some(AugGlyph::Real(g)),
            None => None,
        }
    }
}

/// Whether an augmented glyph counts as a letter: every placeholder does.
pub open spec fn aug_is_letter_or_phonetic(g: AugGlyph) -> bool {
    match g {
        AugGlyph::Real(g) => glyph_is_letter_or_phonetic(g),
        AugGlyph::Synthetic(_) => true,
    }
}

/// Appends the feature-file name of `g` to `out`.
pub fn push_aug_name(out: &mut Vec<char>, g: &AugGlyph)
    ensures
        final(out)@ == old(out)@ + aug_glyph_name(*g),
{
    match g {
        AugGlyph::Real(r) => {
            let mut name = name_chars(*r);
            out.append(&mut name);
        },
        AugGlyph::Synthetic(n) => {
            out.push('s');
            out.push('y');
            out.push('n');
            assert(out@ =~= old(out)@ + seq!['s', 'y', 'n']);
            push_decimal(out, *n as u64);
            assert(out@ =~= old(out)@ + (seq!['s', 'y', 'n'] + decimal_digits(*n as nat)));
        },
    }
}

/// The augmented glyph that the characters `v` name, if they name one.
pub fn name_to_aug_glyph(v: &Vec<char>) -> (res: Option<AugGlyph>)
    ensures
        res == aug_glyph_of_name(v@),
{
    if v.len() >= 3 && v[0] == 's' && v[1] == 'y' && v[2] == 'n' {
        assert(v@.subrange(3, v.len() as int) =~= v@.skip(3));
        match parse_u32(v, 3, v.len()) {
            Some(n) => Some(AugGlyph::Synthetic(n)),
            None => None,
        }
    } else {
        match name_to_glyph(v) {
            Some(g) => Some(AugGlyph::Real(g)),
            None => None,
        }
    }
}

impl AugGlyph {
    /// The name of the glyph in a feature file.
    pub fn name(&self) -> (res: String)
        ensures
            res@ == aug_glyph_name(*self),
    {
        let mut v: Vec<char> = Vec::new();
        push_aug_name(&mut v, self);
        assert(v@ =~= aug_glyph_name(*self));
        string_of(&v)
    }

    /// The augmented glyph that `text` names in a feature file.
    pub fn from_name(text: &str) -> (res: Option<AugGlyph>)
        ensures
            res == aug_glyph_of_name(text@),
    {
        let v = chars_of(text);
        name_to_aug_glyph(&v)
    }

    /// Whether the glyph counts as a letter or a phonetic symbol.
    pub fn is_letter_or_phonetic(&self) -> (res: bool)
        ensures
            res == aug_is_letter_or_phonetic(*self),
    {
        match self {
            AugGlyph::Real(g) => g.is_letter_or_phonetic(),
            AugGlyph::Synthetic(_) => true,
        }
    }
}

/// Glyphs as running text: one character for each.
pub open spec fn encode_spec(gs: Seq<Glyph>) -> Seq<char> {
    gs.map_values(|g: Glyph| glyph_char(g))
}

/// The glyphs that running text writes: each character that writes a glyph
/// gives that glyph, and every other character is passed over.
pub open spec fn decode_spec(s: Seq<char>) -> Seq<Glyph>
    decreases s.len(),
{
    if s.len() == 0 {
        Seq::empty()
    } else {
        match glyph_of_char(s.last()) {
            Some(g) => decode_spec(s.drop_last()).push(g),
            None => decode_spec(s.drop_last()),
        }
    }
}

/// One augmented glyph as running text: the glyph's character, or the
/// placeholder's number in braces.
pub open spec fn aug_glyph_text(g: AugGlyph) -> Seq<char> {
    match g {
        AugGlyph::Real(g) => seq![glyph_char(g)],
        AugGlyph::Synthetic(n) => seq!['{'] + decimal_digits(n as nat) + seq!['}'],
    }
}

/// Augmented glyphs as running text.
pub open spec fn aug_encode_spec(gs: Seq<AugGlyph>) -> Seq<char>
    decreases gs.len(),
{
    if gs.len() == 0 {
        Seq::empty()
    } else {
        aug_encode_spec(gs.drop_last()) + aug_glyph_text(gs.last())
    }
}

/// The place of the first `}` of `s` at or behind `i`, or the length of `s`
/// if there is none.
pub open spec fn brace_end(s: Seq<char>, i: int) -> int
    decreases s.len() - i,
{
    if i >= s.len() {
        s.len() as int
    } else if s[i] == '}' {
        i
    } else {
        brace_end(s, i + 1)
    }
}

/// The first `}` at or behind `i` is not before `i`, nor behind the end.
pub proof fn lemma_brace_end_bounds(s: Seq<char>, i: int)
    requires
        0 <= i <= s.len(),
    ensures
        i <= brace_end(s, i) <= s.len(),
        brace_end(s, i) < s.len() ==> s[brace_end(s, i)] == '}',
        forall|k: int| i <= k < brace_end(s, i) ==> s[k] != '}',
    decreases s.len() - i,
{
    if i < s.len() && s[i] != '}' {
        lemma_brace_end_bounds(s, i + 1);
    }
}

/// The augmented glyphs that the text `s` writes from place `i` on.
///
/// A `{` opens a placeholder: the characters up to the next `}`, or to the
/// end where there is none, are read as its number, and give nothing where
/// they are no number. Elsewhere a character that writes a glyph gives that
/// glyph, and every other character is passed over.
pub open spec fn aug_decode_from(s: Seq<char>, i: int) -> Seq<AugGlyph>
    decreases s.len() - i,
{
    if i < 0 || i >= s.len() {
        Seq::empty()
    } else if s[i] == '{' {
        proof {
            lemma_brace_end_bounds(s, i + 1);
        }
        let j = brace_end(s, i + 1);
        let head = match parse_u32_spec(s.subrange(i + 1, j)) {
            Some(k) => seq![AugGlyph::Synthetic(k)],
            None => Seq::empty(),
        };
        if j < s.len() {
            head + aug_decode_from(s, j + 1)
        } else {
            head
        }
    } else {
        let head = match glyph_of_char(s[i]) {
            Some(g) => seq![AugGlyph::Real(g)],
            None => Seq::empty(),
        };
        head + aug_decode_from(s, i + 1)
    }
}

/// The augmented glyphs that running text writes.
pub open spec fn aug_decode_spec(s: Seq<char>) -> Seq<AugGlyph> {
    aug_decode_from(s, 0)
}

/// Real glyphs as augmented glyphs.
pub open spec fn augment_spec(v: Seq<Glyph>) -> Seq<AugGlyph> {
    v.map_values(|g: Glyph| AugGlyph::Real(g))
}

/// The real glyphs among augmented glyphs, in order.
pub open spec fn strip_aug_spec(v: Seq<AugGlyph>) -> Seq<Glyph>
    decreases v.len(),
{
    if v.len() == 0 {
        Seq::empty()
    } else {
        match v.last() {
            AugGlyph::Real(g) => strip_aug_spec(v.drop_last()).push(g),
            AugGlyph::Synthetic(_) => strip_aug_spec(v.drop_last()),
        }
    }
}

/// The characters of `gs` as running text.
pub fn encode_chars(gs: &Vec<Glyph>) -> (res: Vec<char>)
    ensures
        res@ == encode_spec(gs@),
{
    let mut res: Vec<char> = Vec::new();
    let mut i: usize = 0;
    while i < gs.len()
        invariant
            i <= gs.len(),
            res@ == encode_spec(gs@.take(i as int)),
        decreases gs.len() - i,
    {
        res.push(char_of_glyph(gs[i]));
        assert(res@ =~= encode_spec(gs@.take(i + 1)));
        i += 1;
    }
    assert(gs@.take(gs.len() as int) =~= gs@);
    res
}

/// Writes glyphs as running text.
pub fn encode(gs: &Vec<Glyph>) -> (res: String)
    ensures
        res@ == encode_spec(gs@),
{
    string_of(&encode_chars(gs))
}

/// The glyphs that the characters `v` write.
pub fn decode_chars(v: &Vec<char>) -> (res: Vec<Glyph>)
    ensures
        res@ == decode_spec(v@),
{
    let mut res: Vec<Glyph> = Vec::new();
    let mut i: usize = 0;
    while i < v.len()
        invariant
            i <= v.len(),
            res@ == decode_spec(v@.take(i as int)),
        decreases v.len() - i,
    {
        assert(v@.take(i + 1).drop_last() =~= v@.take(i as int));
        match char_to_glyph(v[i]) {
            Some(g) => {
                res.push(g);
            },
            None => {},
        }
        i += 1;
    }
    assert(v@.take(v.len() as int) =~= v@);
    res
}

/// Reads running text as glyphs.
pub fn decode(text: &str) -> (res: Vec<Glyph>)
    ensures
        res@ == decode_spec(text@),
{
    decode_chars(&chars_of(text))
}

/// The characters of `gs` as running text.
pub fn aug_encode_chars(gs: &Vec<AugGlyph>) -> (res: Vec<char>)
    ensures
        res@ == aug_encode_spec(gs@),
{
    let mut res: Vec<char> = Vec::new();
    let mut i: usize = 0;
    while i < gs.len()
        invariant
            i <= gs.len(),
            res@ == aug_encode_spec(gs@.take(i as int)),
        decreases gs.len() - i,
    {
        let ghost before = res@;
        assert(gs@.take(i + 1).drop_last() =~= gs@.take(i as int));
        match gs[i] {
            AugGlyph::Real(g) => {
                res.push(char_of_glyph(g));
                assert(res@ =~= before + seq![glyph_char(g)]);
            },
            AugGlyph::Synthetic(n) => {
                res.push('{');
                push_decimal(&mut res, n as u64);
                res.push('}');
                assert(res@ =~= before + (seq!['{'] + decimal_digits(n as nat) + seq!['}']));
            },
        }
        i += 1;
    }
    assert(gs@.take(gs.len() as int) =~= gs@);
    res
}

/// Writes augmented glyphs as running text.
pub fn aug_encode(gs: &Vec<AugGlyph>) -> (res: String)
    ensures
        res@ == aug_encode_spec(gs@),
{
    string_of(&aug_encode_chars(gs))
}

/// The augmented glyphs that the characters `v` write.
pub fn aug_decode_chars(v: &Vec<char>) -> (res: Vec<AugGlyph>)
    ensures
        res@ == aug_decode_spec(v@),
{
    let mut res: Vec<AugGlyph> = Vec::new();
    let mut i: usize = 0;
    while i < v.len()
        invariant
            i <= v.len(),
            res@ + aug_decode_from(v@, i as int) == aug_decode_from(v@, 0),
        decreases v.len() - i,
    {
        let ghost before = res@;
        if v[i] == '{' {
            let mut j: usize = i + 1;
            while j < v.len() && v[j] != '}'
                invariant
                    i < j <= v.len(),
                    brace_end(v@, i + 1) == brace_end(v@, j as int),
                decreases v.len() - j,
            {
                j += 1;
            }
            match parse_u32(v, i + 1, j) {
                Some(k) => {
                    res.push(AugGlyph::Synthetic(k));
                },
                None => {},
            }
            if j < v.len() {
                assert(res@ + aug_decode_from(v@, j + 1) =~= before + aug_decode_from(
                    v@,
                    i as int,
                ));
                i = j + 1;
            } else {
                assert(res@ + aug_decode_from(v@, j as int) =~= before + aug_decode_from(
                    v@,
                    i as int,
                ));
                i = j;
            }
        } else {
            match char_to_glyph(v[i]) {
                Some(g) => {
                    res.push(AugGlyph::Real(g));
                },
                None => {},
            }
            assert(res@ + aug_decode_from(v@, i + 1) =~= before + aug_decode_from(v@, i as int));
            i += 1;
        }
    }
    assert(res@ + Seq::<AugGlyph>::empty() =~= res@);
    res
}

/// Reads running text as augmented glyphs.
pub fn aug_decode(text: &str) -> (res: Vec<AugGlyph>)
    ensures
        res@ == aug_decode_spec(text@),
{
    aug_decode_chars(&chars_of(text))
}

/// Real glyphs as augmented glyphs.
pub fn augment(v: &Vec<Glyph>) -> (res: Vec<AugGlyph>)
    ensures
        res@ == augment_spec(v@),
{
    let mut res: Vec<AugGlyph> = Vec::new();
    let mut i: usize = 0;
    while i < v.len()
        invariant
            i <= v.len(),
            res@ == augment_spec(v@.take(i as int)),
        decreases v.len() - i,
    {
        res.push(AugGlyph::Real(v[i]));
        assert(res@ =~= augment_spec(v@.take(i + 1)));
        i += 1;
    }
    assert(v@.take(v.len() as int) =~= v@);
    res
}

/// The real glyphs among `v`, in order.
pub fn strip_aug(v: &Vec<AugGlyph>) -> (res: Vec<Glyph>)
    ensures
        res@ == strip_aug_spec(v@),
{
    let mut res: Vec<Glyph> = Vec::new();
    let mut i: usize = 0;
    while i < v.len()
        invariant
            i <= v.len(),
            res@ == strip_aug_spec(v@.take(i as int)),
        decreases v.len() - i,
    {
        assert(v@.take(i + 1).drop_last() =~= v@.take(i as int));
        match v[i] {
            AugGlyph::Real(g) => {
                res.push(g);
            },
            AugGlyph::Synthetic(_) => {},
        }
        i += 1;
    }
    assert(v@.take(v.len() as int) =~= v@);
    res
}

/// Glyphs written as running text are read back unchanged.
pub proof fn lemma_decode_encode(gs: Seq<Glyph>)
    ensures
        decode_spec(encode_spec(gs)) == gs,
    decreases gs.len(),
{
    if gs.len() == 0 {
        assert(decode_spec(encode_spec(gs)) =~= gs);
    } else {
        lemma_decode_encode(gs.drop_last());
        lemma_glyph_char_round_trip(gs.last());
        assert(encode_spec(gs).drop_last() =~= encode_spec(gs.drop_last()));
        assert(encode_spec(gs).last() == glyph_char(gs.last()));
        assert(gs.drop_last().push(gs.last()) =~= gs);
    }
}

/// Stripping the placeholders from augmented real glyphs gives the glyphs
/// back.
pub proof fn lemma_strip_augment(v: Seq<Glyph>)
    ensures
        strip_aug_spec(augment_spec(v)) == v,
    decreases v.len(),
{
    if v.len() == 0 {
        assert(strip_aug_spec(augment_spec(v)) =~= v);
    } else {
        lemma_strip_augment(v.drop_last());
        assert(augment_spec(v).drop_last() =~= augment_spec(v.drop_last()));
        assert(v.drop_last().push(v.last()) =~= v);
    }
}

} // verus!
