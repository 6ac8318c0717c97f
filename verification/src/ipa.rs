//! Pronunciations in the phonetic alphabet: vowels, consonants and
//! stress marks, gathered into syllables.

use vstd::prelude::*;
use crate::seqs::{copy_range, copy_vec, has_at};
use crate::text::{chars_of, push_chars, string_of};

verus! {

/// A vowel sound.
#[derive(Debug, PartialEq, PartialOrd, Ord, Eq, Copy, Clone, Structural)]
pub enum Vowel {
    VE, VSchwa, VEIh, VSchwaOo, VAe, VAOo, VSchwaR, VI, VILong, VIh, VUh, VAIh, VOd,
    VULong, VAhLongR, VCapAhLong, VAwLongR, VErLongR, VAwLong, VOo, VAwIh, VU, VCapI,
    VCapSchwa, VAhLong, VErLong, VIhSchwa, VIhSchwaR, VESchwa, VOoSchwa, VESchwaR,
    VOoSchwaR,
}

/// A consonant sound.
#[derive(Debug, PartialEq, PartialOrd, Ord, Eq, Copy, Clone, Structural)]
pub enum Consonant {
    Ck, Cs, Cp, Cl, Cn, CSh, Cm, CZh, Ct, Ch, Cz, Cw, CDh, Cj, Cb, CTh, Cv, Cd, Cf, Cr,
    CWh, CTSh, CG, CNg,
}

/// How strongly a syllable is stressed.
#[derive(Debug, PartialEq, PartialOrd, Ord, Eq, Copy, Clone, Structural)]
pub enum Stress {
    Primary,
    Secondary,
    Unstressed,
}

/// A syllable: a vowel between consonants, with its stress.
#[derive(Debug, PartialEq, PartialOrd, Ord, Eq, Clone)]
pub struct Syllable {
    pub initial_consonants: Vec<Consonant>,
    pub vowel: Vowel,
    pub final_consonants: Vec<Consonant>,
    pub stress: Stress,
}

/// The mathematical value of a [`Syllable`].
pub struct SyllableView {
    pub initial_consonants: Seq<Consonant>,
    pub vowel: Vowel,
    pub final_consonants: Seq<Consonant>,
    pub stress: Stress,
}

impl View for Syllable {
    type V = SyllableView;

    open spec fn view(&self) -> SyllableView {
        SyllableView {
            initial_consonants: self.initial_consonants@,
            vowel: self.vowel,
            final_consonants: self.final_consonants@,
            stress: self.stress,
        }
    }
}

/// The values of a run of syllables.
pub open spec fn syllables_view(s: Seq<Syllable>) -> Seq<SyllableView> {
    s.map_values(|x: Syllable| x@)
}

/// How a vowel is written.
pub open spec fn vowel_ipa(v: Vowel) -> Seq<char> {
    match v {
        Vowel::VE => seq!['e'],
        Vowel::VSchwa => seq!['\u{259}'],
        Vowel::VEIh => seq!['e', '\u{26a}'],
        Vowel::VSchwaOo => seq!['\u{259}', '\u{28a}'],
        Vowel::VAe => seq!['\u{e6}'],
        Vowel::VAOo => seq!['a', '\u{28a}'],
        Vowel::VSchwaR => seq!['\u{259}', 'R'],
        Vowel::VI => seq!['i'],
        Vowel::VILong => seq!['i', '\u{2d0}'],
        Vowel::VIh => seq!['\u{26a}'],
        Vowel::VUh => seq!['\u{28c}'],
        Vowel::VAIh => seq!['a', '\u{26a}'],
        Vowel::VOd => seq!['\u{252}'],
        Vowel::VULong => seq!['u', '\u{2d0}'],
        Vowel::VAhLongR => seq!['\u{251}', '\u{2d0}', 'R'],
        Vowel::VCapAhLong => seq!['\u{2c6d}', '\u{2d0}'],
        Vowel::VAwLongR => seq!['\u{254}', '\u{2d0}', 'R'],
        Vowel::VErLongR => seq!['\u{25c}', '\u{2d0}', 'R'],
        Vowel::VAwLong => seq!['\u{254}', '\u{2d0}'],
        Vowel::VOo => seq!['\u{28a}'],
        Vowel::VAwIh => seq!['\u{254}', '\u{26a}'],
        Vowel::VU => seq!['u'],
        Vowel::VCapI => seq!['I'],
        Vowel::VCapSchwa => seq!['\u{18f}'],
        Vowel::VAhLong => seq!['\u{251}', '\u{2d0}'],
        Vowel::VErLong => seq!['\u{25c}', '\u{2d0}'],
        Vowel::VIhSchwa => seq!['\u{26a}', '\u{259}'],
        Vowel::VIhSchwaR => seq!['\u{26a}', '\u{259}', 'R'],
        Vowel::VESchwa => seq!['e', '\u{259}'],
        Vowel::VOoSchwa => seq!['\u{28a}', '\u{259}'],
        Vowel::VESchwaR => seq!['e', '\u{259}', 'R'],
        Vowel::VOoSchwaR => seq!['\u{28a}', '\u{259}', 'R'],
    }
}

/// How a consonant is written.
pub open spec fn consonant_ipa(c: Consonant) -> Seq<char> {
    match c {
        Consonant::Ck => seq!['k'],
        Consonant::Cs => seq!['s'],
        Consonant::Cp => seq!['p'],
        Consonant::Cl => seq!['l'],
        Consonant::Cn => seq!['n'],
        Consonant::CSh => seq!['\u{283}'],
        Consonant::Cm => seq!['m'],
        Consonant::CZh => seq!['\u{292}'],
        Consonant::Ct => seq!['t'],
        Consonant::Ch => seq!['h'],
        Consonant::Cz => seq!['z'],
        Consonant::Cw => seq!['w'],
        Consonant::CDh => seq!['\u{f0}'],
        Consonant::Cj => seq!['j'],
        Consonant::Cb => seq!['b'],
        Consonant::CTh => seq!['\u{3b8}'],
        Consonant::Cv => seq!['v'],
        Consonant::Cd => seq!['d'],
        Consonant::Cf => seq!['f'],
        Consonant::Cr => seq!['r'],
        Consonant::CWh => seq!['\u{28d}'],
        Consonant::CTSh => seq!['t', '\u{283}'],
        Consonant::CG => seq!['\u{261}'],
        Consonant::CNg => seq!['\u{14b}'],
    }
}

/// How a stress is written: a mark, or nothing.
pub open spec fn stress_ipa(s: Stress) -> Seq<char> {
    match s {
        Stress::Primary => seq!['\u{2c8}'],
        Stress::Secondary => seq!['\u{2cc}'],
        Stress::Unstressed => Seq::empty(),
    }
}

/// How consonants are written one behind the other.
pub open spec fn consonants_ipa(cs: Seq<Consonant>) -> Seq<char>
    decreases cs.len(),
{
    if cs.len() == 0 {
        Seq::empty()
    } else {
        consonants_ipa(cs.drop_last()) + consonant_ipa(cs.last())
    }
}

/// How a syllable is written: the stress mark, the consonants before the
/// vowel, the vowel, and the consonants behind it.
pub open spec fn syllable_ipa(s: SyllableView) -> Seq<char> {
    stress_ipa(s.stress) + consonants_ipa(s.initial_consonants) + vowel_ipa(s.vowel)
        + consonants_ipa(s.final_consonants)
}

/// The vowels in the order in which a reader tries them: those written
/// with more characters before those that they begin with.
pub open spec fn vowel_order() -> Seq<Vowel> {
    seq![
        Vowel::VSchwaR, Vowel::VAwLongR, Vowel::VErLongR, Vowel::VAhLongR,
        Vowel::VIhSchwaR, Vowel::VESchwaR, Vowel::VOoSchwaR, Vowel::VEIh,
        Vowel::VSchwaOo, Vowel::VAOo, Vowel::VAIh, Vowel::VULong, Vowel::VILong,
        Vowel::VAwLong, Vowel::VCapAhLong, Vowel::VAwIh, Vowel::VAhLong, Vowel::VErLong,
        Vowel::VIhSchwa, Vowel::VESchwa, Vowel::VOoSchwa, Vowel::VI, Vowel::VE,
        Vowel::VSchwa, Vowel::VIh, Vowel::VUh, Vowel::VAe, Vowel::VOd, Vowel::VOo,
        Vowel::VU, Vowel::VCapI, Vowel::VCapSchwa,
    ]
}

/// The consonants in the order in which a reader tries them.
pub open spec fn consonant_order() -> Seq<Consonant> {
    seq![
        Consonant::CTSh, Consonant::Ck, Consonant::Cs, Consonant::Cp, Consonant::Cl,
        Consonant::Cn, Consonant::CSh, Consonant::Cm, Consonant::CZh, Consonant::Ct,
        Consonant::Ch, Consonant::Cz, Consonant::Cw, Consonant::CDh, Consonant::Cj,
        Consonant::Cb, Consonant::CTh, Consonant::Cv, Consonant::Cd, Consonant::Cf,
        Consonant::Cr, Consonant::CWh, Consonant::CG, Consonant::CNg,
    ]
}

fn vowel_chars(v: Vowel) -> (res: Vec<char>)
    ensures
        res@ == vowel_ipa(v),
{
    match v {
        Vowel::VE => {
            let r = vec!['e'];
            assert(r@ =~= seq!['e']);
            r
        },
        Vowel::VSchwa => {
            let r = vec!['\u{259}'];
            assert(r@ =~= seq!['\u{259}']);
            r
        },
        Vowel::VEIh => {
            let r = vec!['e', '\u{26a}'];
            assert(r@ =~= seq!['e', '\u{26a}']);
            r
        },
        Vowel::VSchwaOo => {
            let r = vec!['\u{259}', '\u{28a}'];
            assert(r@ =~= seq!['\u{259}', '\u{28a}']);
            r
        },
        Vowel::VAe => {
            let r = vec!['\u{e6}'];
            assert(r@ =~= seq!['\u{e6}']);
            r
        },
        Vowel::VAOo => {
            let r = vec!['a', '\u{28a}'];
            assert(r@ =~= seq!['a', '\u{28a}']);
            r
        },
        Vowel::VSchwaR => {
            let r = vec!['\u{259}', 'R'];
            assert(r@ =~= seq!['\u{259}', 'R']);
            r
        },
        Vowel::VI => {
            let r = vec!['i'];
            assert(r@ =~= seq!['i']);
            r
        },
        Vowel::VILong => {
            let r = vec!['i', '\u{2d0}'];
            assert(r@ =~= seq!['i', '\u{2d0}']);
            r
        },
        Vowel::VIh => {
            let r = vec!['\u{26a}'];
            assert(r@ =~= seq!['\u{26a}']);
            r
        },
        Vowel::VUh => {
            let r = vec!['\u{28c}'];
            assert(r@ =~= seq!['\u{28c}']);
            r
        },
        Vowel::VAIh => {
            let r = vec!['a', '\u{26a}'];
            assert(r@ =~= seq!['a', '\u{26a}']);
            r
        },
        Vowel::VOd => {
            let r = vec!['\u{252}'];
            assert(r@ =~= seq!['\u{252}']);
            r
        },
        Vowel::VULong => {
            let r = vec!['u', '\u{2d0}'];
            assert(r@ =~= seq!['u', '\u{2d0}']);
            r
        },
        Vowel::VAhLongR => {
            let r = vec!['\u{251}', '\u{2d0}', 'R'];
            assert(r@ =~= seq!['\u{251}', '\u{2d0}', 'R']);
            r
        },
        Vowel::VCapAhLong => {
            let r = vec!['\u{2c6d}', '\u{2d0}'];
            assert(r@ =~= seq!['\u{2c6d}', '\u{2d0}']);
            r
        },
        Vowel::VAwLongR => {
            let r = vec!['\u{254}', '\u{2d0}', 'R'];
            assert(r@ =~= seq!['\u{254}', '\u{2d0}', 'R']);
            r
        },
        Vowel::VErLongR => {
            let r = vec!['\u{25c}', '\u{2d0}', 'R'];
            assert(r@ =~= seq!['\u{25c}', '\u{2d0}', 'R']);
            r
        },
        Vowel::VAwLong => {
            let r = vec!['\u{254}', '\u{2d0}'];
            assert(r@ =~= seq!['\u{254}', '\u{2d0}']);
            r
        },
        Vowel::VOo => {
            let r = vec!['\u{28a}'];
            assert(r@ =~= seq!['\u{28a}']);
            r
        },
        Vowel::VAwIh => {
            let r = vec!['\u{254}', '\u{26a}'];
            assert(r@ =~= seq!['\u{254}', '\u{26a}']);
            r
        },
        Vowel::VU => {
            let r = vec!['u'];
            assert(r@ =~= seq!['u']);
            r
        },
        Vowel::VCapI => {
            let r = vec!['I'];
            assert(r@ =~= seq!['I']);
            r
        },
        Vowel::VCapSchwa => {
            let r = vec!['\u{18f}'];
            assert(r@ =~= seq!['\u{18f}']);
            r
        },
        Vowel::VAhLong => {
            let r = vec!['\u{251}', '\u{2d0}'];
            assert(r@ =~= seq!['\u{251}', '\u{2d0}']);
            r
        },
        Vowel::VErLong => {
            let r = vec!['\u{25c}', '\u{2d0}'];
            assert(r@ =~= seq!['\u{25c}', '\u{2d0}']);
            r
        },
        Vowel::VIhSchwa => {
            let r = vec!['\u{26a}', '\u{259}'];
            assert(r@ =~= seq!['\u{26a}', '\u{259}']);
            r
        },
        Vowel::VIhSchwaR => {
            let r = vec!['\u{26a}', '\u{259}', 'R'];
            assert(r@ =~= seq!['\u{26a}', '\u{259}', 'R']);
            r
        },
        Vowel::VESchwa => {
            let r = vec!['e', '\u{259}'];
            assert(r@ =~= seq!['e', '\u{259}']);
            r
        },
        Vowel::VOoSchwa => {
            let r = vec!['\u{28a}', '\u{259}'];
            assert(r@ =~= seq!['\u{28a}', '\u{259}']);
            r
        },
        Vowel::VESchwaR => {
            let r = vec!['e', '\u{259}', 'R'];
            assert(r@ =~= seq!['e', '\u{259}', 'R']);
            r
        },
        Vowel::VOoSchwaR => {
            let r = vec!['\u{28a}', '\u{259}', 'R'];
            assert(r@ =~= seq!['\u{28a}', '\u{259}', 'R']);
            r
        },
    }
}

fn consonant_chars(c: Consonant) -> (res: Vec<char>)
    ensures
        res@ == consonant_ipa(c),
{
    match c {
        Consonant::Ck => {
            let r = vec!['k'];
            assert(r@ =~= seq!['k']);
            r
        },
        Consonant::Cs => {
            let r = vec!['s'];
            assert(r@ =~= seq!['s']);
            r
        },
        Consonant::Cp => {
            let r = vec!['p'];
            assert(r@ =~= seq!['p']);
            r
        },
        Consonant::Cl => {
            let r = vec!['l'];
            assert(r@ =~= seq!['l']);
            r
        },
        Consonant::Cn => {
            let r = vec!['n'];
            assert(r@ =~= seq!['n']);
            r
        },
        Consonant::CSh => {
            let r = vec!['\u{283}'];
            assert(r@ =~= seq!['\u{283}']);
            r
        },
        Consonant::Cm => {
            let r = vec!['m'];
            assert(r@ =~= seq!['m']);
            r
        },
        Consonant::CZh => {
            let r = vec!['\u{292}'];
            assert(r@ =~= seq!['\u{292}']);
            r
        },
        Consonant::Ct => {
            let r = vec!['t'];
            assert(r@ =~= seq!['t']);
            r
        },
        Consonant::Ch => {
            let r = vec!['h'];
            assert(r@ =~= seq!['h']);
            r
        },
        Consonant::Cz => {
            let r = vec!['z'];
            assert(r@ =~= seq!['z']);
            r
        },
        Consonant::Cw => {
            let r = vec!['w'];
            assert(r@ =~= seq!['w']);
            r
        },
        Consonant::CDh => {
            let r = vec!['\u{f0}'];
            assert(r@ =~= seq!['\u{f0}']);
            r
        },
        Consonant::Cj => {
            let r = vec!['j'];
            assert(r@ =~= seq!['j']);
            r
        },
        Consonant::Cb => {
            let r = vec!['b'];
            assert(r@ =~= seq!['b']);
            r
        },
        Consonant::CTh => {
            let r = vec!['\u{3b8}'];
            assert(r@ =~= seq!['\u{3b8}']);
            r
        },
        Consonant::Cv => {
            let r = vec!['v'];
            assert(r@ =~= seq!['v']);
            r
        },
        Consonant::Cd => {
            let r = vec!['d'];
            assert(r@ =~= seq!['d']);
            r
        },
        Consonant::Cf => {
            let r = vec!['f'];
            assert(r@ =~= seq!['f']);
            r
        },
        Consonant::Cr => {
            let r = vec!['r'];
            assert(r@ =~= seq!['r']);
            r
        },
        Consonant::CWh => {
            let r = vec!['\u{28d}'];
            assert(r@ =~= seq!['\u{28d}']);
            r
        },
        Consonant::CTSh => {
            let r = vec!['t', '\u{283}'];
            assert(r@ =~= seq!['t', '\u{283}']);
            r
        },
        Consonant::CG => {
            let r = vec!['\u{261}'];
            assert(r@ =~= seq!['\u{261}']);
            r
        },
        Consonant::CNg => {
            let r = vec!['\u{14b}'];
            assert(r@ =~= seq!['\u{14b}']);
            r
        },
    }
}

fn vowels_in_order() -> (res: Vec<Vowel>)
    ensures
        res@ == vowel_order(),
{
    let res = vec![
        Vowel::VSchwaR, Vowel::VAwLongR, Vowel::VErLongR, Vowel::VAhLongR,
        Vowel::VIhSchwaR, Vowel::VESchwaR, Vowel::VOoSchwaR, Vowel::VEIh,
        Vowel::VSchwaOo, Vowel::VAOo, Vowel::VAIh, Vowel::VULong, Vowel::VILong,
        Vowel::VAwLong, Vowel::VCapAhLong, Vowel::VAwIh, Vowel::VAhLong, Vowel::VErLong,
        Vowel::VIhSchwa, Vowel::VESchwa, Vowel::VOoSchwa, Vowel::VI, Vowel::VE,
        Vowel::VSchwa, Vowel::VIh, Vowel::VUh, Vowel::VAe, Vowel::VOd, Vowel::VOo,
        Vowel::VU, Vowel::VCapI, Vowel::VCapSchwa,
    ];
    assert(res@ =~= vowel_order());
    res
}

fn consonants_in_order() -> (res: Vec<Consonant>)
    ensures
        res@ == consonant_order(),
{
    let res = vec![
        Consonant::CTSh, Consonant::Ck, Consonant::Cs, Consonant::Cp, Consonant::Cl,
        Consonant::Cn, Consonant::CSh, Consonant::Cm, Consonant::CZh, Consonant::Ct,
        Consonant::Ch, Consonant::Cz, Consonant::Cw, Consonant::CDh, Consonant::Cj,
        Consonant::Cb, Consonant::CTh, Consonant::Cv, Consonant::Cd, Consonant::Cf,
        Consonant::Cr, Consonant::CWh, Consonant::CG, Consonant::CNg,
    ];
    assert(res@ =~= consonant_order());
    res
}

impl Vowel {
    /// Writes the vowel.
    pub fn to_ipa(&self) -> (res: String)
        ensures
            res@ == vowel_ipa(*self),
    {
        string_of(&vowel_chars(*self))
    }
}

impl Consonant {
    /// Writes the consonant.
    pub fn to_ipa(&self) -> (res: String)
        ensures
            res@ == consonant_ipa(*self),
    {
        string_of(&consonant_chars(*self))
    }
}

fn stress_chars(s: Stress) -> (res: Vec<char>)
    ensures
        res@ == stress_ipa(s),
{
    match s {
        Stress::Primary => {
            let r = vec!['\u{2c8}'];
            assert(r@ =~= seq!['\u{2c8}']);
            r
        },
        Stress::Secondary => {
            let r = vec!['\u{2cc}'];
            assert(r@ =~= seq!['\u{2cc}']);
            r
        },
        Stress::Unstressed => Vec::new(),
    }
}

impl Stress {
    /// Writes the stress mark.
    pub fn to_ipa(&self) -> (res: String)
        ensures
            res@ == stress_ipa(*self),
    {
        string_of(&stress_chars(*self))
    }
}

fn consonants_chars(cs: &Vec<Consonant>) -> (res: Vec<char>)
    ensures
        res@ == consonants_ipa(cs@),
{
    let mut res: Vec<char> = Vec::new();
    let mut i: usize = 0;
    while i < cs.len()
        invariant
            i <= cs.len(),
            res@ == consonants_ipa(cs@.take(i as int)),
        decreases cs.len() - i,
    {
        assert(cs@.take(i + 1).drop_last() =~= cs@.take(i as int));
        push_chars(&mut res, &consonant_chars(cs[i]));
        i += 1;
    }
    assert(cs@.take(cs.len() as int) =~= cs@);
    res
}

impl Syllable {
    /// Writes the syllable.
    pub fn to_ipa(&self) -> (res: String)
        ensures
            res@ == syllable_ipa(self@),
    {
        let mut out = stress_chars(self.stress);
        push_chars(&mut out, &consonants_chars(&self.initial_consonants));
        push_chars(&mut out, &vowel_chars(self.vowel));
        push_chars(&mut out, &consonants_chars(&self.final_consonants));
        string_of(&out)
    }

    /// Writes the four parts of the syllable, each by itself.
    pub fn parts_to_ipa(&self) -> (res: (String, String, String, String))
        ensures
            res.0@ == stress_ipa(self.stress),
            res.1@ == consonants_ipa(self.initial_consonants@),
            res.2@ == vowel_ipa(self.vowel),
            res.3@ == consonants_ipa(self.final_consonants@),
    {
        (
            string_of(&stress_chars(self.stress)),
            string_of(&consonants_chars(&self.initial_consonants)),
            string_of(&vowel_chars(self.vowel)),
            string_of(&consonants_chars(&self.final_consonants)),
        )
    }
}

/// How many of its last consonants syllable `i` keeps: all of them before
/// a stressed syllable and at the end of the word; before an unstressed
/// syllable one, or none where the two syllables have one consonant between
/// them.
pub open spec fn kept(syls: Seq<SyllableView>, i: int) -> int {
    let own = syls[i].final_consonants.len() as int;
    if i + 1 < syls.len() && syls[i + 1].stress == Stress::Unstressed {
        let most: int = if own + syls[i + 1].initial_consonants.len() >= 2 {
            1
        } else {
            0
        };
        if own > most {
            most
        } else {
            own
        }
    } else {
        own
    }
}

/// Syllable `i` after the consonants between the syllables have been
/// handed on: it takes over what the syllable before it does not keep, and
/// keeps of its own last consonants what `kept` says.
pub open spec fn distributed_at(syls: Seq<SyllableView>, i: int) -> SyllableView {
    let taken = if i > 0 {
        syls[i - 1].final_consonants.skip(kept(syls, i - 1))
    } else {
        Seq::empty()
    };
    SyllableView {
        initial_consonants: taken + syls[i].initial_consonants,
        vowel: syls[i].vowel,
        final_consonants: syls[i].final_consonants.take(kept(syls, i)),
        stress: syls[i].stress,
    }
}

/// The syllables of a word after the consonants between them have been
/// handed on to the unstressed syllables behind them.
pub open spec fn distribute_spec(syls: Seq<SyllableView>) -> Seq<SyllableView> {
    Seq::new(syls.len(), |i: int| distributed_at(syls, i))
}

fn kept_of(syllables: &Vec<Syllable>, i: usize) -> (res: usize)
    requires
        i < syllables.len(),
    ensures
        res == kept(syllables_view(syllables@), i as int),
        res <= syllables[i as int].final_consonants.len(),
{
    let own = syllables[i].final_consonants.len();
    if i + 1 < syllables.len() && syllables[i + 1].stress == Stress::Unstressed {
        let next = syllables[i + 1].initial_consonants.len();
        let most: usize = if own >= 2 || (own >= 1 && next >= 1) {
            1
        } else {
            0
        };
        if own > most {
            most
        } else {
            own
        }
    } else {
        own
    }
}

/// Hands the consonants between the syllables on to the unstressed
/// syllables behind them.
pub fn distribute_consonants(syllables: &mut Vec<Syllable>)
    requires
        old(syllables).len() > 0,
    ensures
        syllables_view(final(syllables)@) == distribute_spec(syllables_view(old(syllables)@)),
{
    let ghost from = syllables_view(syllables@);
    let mut res: Vec<Syllable> = Vec::new();
    let mut i: usize = 0;
    while i < syllables.len()
        invariant
            i <= syllables.len(),
            from == syllables_view(syllables@),
            res.len() == i,
            forall|j: int| 0 <= j < i ==> (#[trigger] syllables_view(res@)[j]) == distributed_at(
                from,
                j,
            ),
        decreases syllables.len() - i,
    {
        let s = &syllables[i];
        assert(from[i as int] == s@);
        let mut initial: Vec<Consonant> = Vec::new();
        if i > 0 {
            let before = &syllables[i - 1];
            assert(from[i - 1] == before@);
            let k = kept_of(syllables, i - 1);
            initial = copy_range(&before.final_consonants, k, before.final_consonants.len());
            assert(initial@ =~= from[i - 1].final_consonants.skip(k as int));
        }
        let mut own = copy_vec(&s.initial_consonants);
        initial.append(&mut own);
        let k = kept_of(syllables, i);
        let last = copy_range(&s.final_consonants, 0, k);
        assert(last@ =~= from[i as int].final_consonants.take(k as int));
        let next = Syllable {
            initial_consonants: initial,
            vowel: s.vowel,
            final_consonants: last,
            stress: s.stress,
        };
        let ghost done = syllables_view(res@);
        let ghost nv = next@;
        res.push(next);
        assert(syllables_view(res@) =~= done.push(nv));
        i += 1;
    }
    assert(syllables_view(res@) =~= distribute_spec(from));
    *syllables = res;
}

/// The first of `order`, from number `k` on, whose writing stands in `s`
/// at `i`.
pub open spec fn first_vowel(s: Seq<char>, i: int, order: Seq<Vowel>, k: int) -> Option<Vowel>
    decreases order.len() - k,
{
    if k < 0 || k >= order.len() {
        None
    } else if has_at(s, i, vowel_ipa(order[k])) {
        Some(order[k])
    } else {
        first_vowel(s, i, order, k + 1)
    }
}

/// The first of `order`, from number `k` on, whose writing stands in `s`
/// at `i`.
pub open spec fn first_consonant(s: Seq<char>, i: int, order: Seq<Consonant>, k: int) -> Option<
    Consonant,
>
    decreases order.len() - k,
{
    if k < 0 || k >= order.len() {
        None
    } else if has_at(s, i, consonant_ipa(order[k])) {
        Some(order[k])
    } else {
        first_consonant(s, i, order, k + 1)
    }
}

/// The vowel that stands in `s` at `i`, if one does.
pub open spec fn vowel_at(s: Seq<char>, i: int) -> Option<Vowel> {
    first_vowel(s, i, vowel_order(), 0)
}

/// The consonant that stands in `s` at `i`, if one does.
pub open spec fn consonant_at(s: Seq<char>, i: int) -> Option<Consonant> {
    first_consonant(s, i, consonant_order(), 0)
}

/// The stress that is marked in `s` at `i`; no mark is no stress.
pub open spec fn stress_at(s: Seq<char>, i: int) -> Stress {
    if has_at(s, i, stress_ipa(Stress::Primary)) {
        Stress::Primary
    } else if has_at(s, i, stress_ipa(Stress::Secondary)) {
        Stress::Secondary
    } else {
        Stress::Unstressed
    }
}

/// The consonants that stand in `s` from `i` on, behind `acc`, and the
/// place behind them.
pub open spec fn consonants_from(s: Seq<char>, i: int, acc: Seq<Consonant>) -> (
    Seq<Consonant>,
    int,
)
    decreases s.len() - i,
{
    match consonant_at(s, i) {
        Some(c) => if 0 <= i && i < i + consonant_ipa(c).len() <= s.len() {
            consonants_from(s, i + consonant_ipa(c).len(), acc.push(c))
        } else {
            (acc, i)
        },
        None => (acc, i),
    }
}

/// The syllable that stands in `s` at `i`, and the place behind it: a `+`
/// or none, a stress mark or none, consonants, a vowel, and all the
/// consonants that follow.
pub open spec fn syllable_at(s: Seq<char>, i: int) -> Option<(SyllableView, int)> {
    let i1 = if has_at(s, i, seq!['+']) {
        i + 1
    } else {
        i
    };
    let stress = stress_at(s, i1);
    let i2 = i1 + stress_ipa(stress).len();
    let (initial, i3) = consonants_from(s, i2, Seq::empty());
    match vowel_at(s, i3) {
        Some(v) => {
            let (last, i4) = consonants_from(s, i3 + vowel_ipa(v).len(), Seq::empty());
            Some(
                (
                    SyllableView {
                        initial_consonants: initial,
                        vowel: v,
                        final_consonants: last,
                        stress,
                    },
                    i4,
                ),
            )
        },
        None => None,
    }
}

/// The syllables that stand in `s` from `i` on, behind `acc`, and the
/// place behind them.
pub open spec fn syllables_from(s: Seq<char>, i: int, acc: Seq<SyllableView>) -> (
    Seq<SyllableView>,
    int,
)
    decreases s.len() - i,
{
    match syllable_at(s, i) {
        Some((syl, j)) => if 0 <= i < j <= s.len() {
            syllables_from(s, j, acc.push(syl))
        } else {
            (acc, i)
        },
        None => (acc, i),
    }
}

/// The pronunciation that `s` begins with, and the place behind it: one
/// syllable or more, with the consonants between them handed on.
pub open spec fn parse_ipa_spec(s: Seq<char>) -> Option<(Seq<SyllableView>, int)> {
    let (syls, j) = syllables_from(s, 0, Seq::empty());
    if syls.len() > 0 {
        Some((distribute_spec(syls), j))
    } else {
        None
    }
}

fn stands_at(s: &Vec<char>, i: usize, tag: &Vec<char>) -> (res: bool)
    ensures
        res == has_at(s@, i as int, tag@),
{
    let n = s.len();
    if i > n || n - i < tag.len() {
        return false;
    }
    let mut k: usize = 0;
    while k < tag.len()
        invariant
            k <= tag.len(),
            i + tag.len() <= s.len(),
            forall|j: int| 0 <= j < k ==> s@[i + j] == tag@[j],
        decreases tag.len() - k,
    {
        if s[i + k] != tag[k] {
            assert(s@.subrange(i as int, i + tag.len())[k as int] != tag@[k as int]);
            return false;
        }
        k += 1;
    }
    assert(s@.subrange(i as int, i + tag.len()) =~= tag@);
    true
}

/// Reads a vowel at place `i` of `s`: the vowel, and the place behind it.
pub fn read_vowel(s: &Vec<char>, i: usize) -> (res: Option<(Vowel, usize)>)
    ensures
        match res {
            Some((v, j)) => vowel_at(s@, i as int) == Some(v) && j == i + vowel_ipa(v).len() && i
                < j <= s.len(),
            None => vowel_at(s@, i as int) is None,
        },
{
    let order = vowels_in_order();
    let mut k: usize = 0;
    while k < order.len()
        invariant
            k <= order.len(),
            order@ == vowel_order(),
            first_vowel(s@, i as int, order@, k as int) == vowel_at(s@, i as int),
        decreases order.len() - k,
    {
        let tag = vowel_chars(order[k]);
        if stands_at(s, i, &tag) {
            let n = s.len();
            assert(tag.len() > 0 && i + tag.len() <= n);
            return Some((order[k], i + tag.len()));
        }
        k += 1;
    }
    None
}

/// Reads a consonant at place `i` of `s`: the consonant, and the place
/// behind it.
pub fn read_consonant(s: &Vec<char>, i: usize) -> (res: Option<(Consonant, usize)>)
    ensures
        match res {
            Some((c, j)) => consonant_at(s@, i as int) == Some(c) && j == i + consonant_ipa(
                c,
            ).len() && i < j <= s.len(),
            None => consonant_at(s@, i as int) is None,
        },
{
    let order = consonants_in_order();
    let mut k: usize = 0;
    while k < order.len()
        invariant
            k <= order.len(),
            order@ == consonant_order(),
            first_consonant(s@, i as int, order@, k as int) == consonant_at(s@, i as int),
        decreases order.len() - k,
    {
        let tag = consonant_chars(order[k]);
        if stands_at(s, i, &tag) {
            let n = s.len();
            assert(tag.len() > 0 && i + tag.len() <= n);
            return Some((order[k], i + tag.len()));
        }
        k += 1;
    }
    None
}

/// Reads a stress mark at place `i` of `s`: the stress, and the place
/// behind the mark.
pub fn read_stress(s: &Vec<char>, i: usize) -> (res: (Stress, usize))
    ensures
        res.0 == stress_at(s@, i as int),
        res.1 == i + stress_ipa(res.0).len(),
        res.1 <= s.len() || res.1 == i,
{
    let n = s.len();
    if stands_at(s, i, &stress_chars(Stress::Primary)) {
        assert(i + 1 <= n);
        (Stress::Primary, i + 1)
    } else if stands_at(s, i, &stress_chars(Stress::Secondary)) {
        assert(i + 1 <= n);
        (Stress::Secondary, i + 1)
    } else {
        (Stress::Unstressed, i)
    }
}

fn read_consonants(s: &Vec<char>, start: usize) -> (res: (Vec<Consonant>, usize))
    ensures
        (res.0@, res.1 as int) == consonants_from(s@, start as int, Seq::empty()),
        start <= res.1,
        res.1 <= s.len() || res.1 == start,
{
    let mut cs: Vec<Consonant> = Vec::new();
    let mut i: usize = start;
    loop
        invariant
            start <= i,
            i <= s.len() || i == start,
            consonants_from(s@, i as int, cs@) == consonants_from(s@, start as int, Seq::empty()),
        ensures
            start <= i,
            i <= s.len() || i == start,
            (cs@, i as int) == consonants_from(s@, start as int, Seq::empty()),
        decreases s.len() - i,
    {
        match read_consonant(s, i) {
            Some((c, j)) => {
                cs.push(c);
                i = j;
            },
            None => {
                break ;
            },
        }
    }
    (cs, i)
}

/// Reads a syllable at place `i` of `s`: the syllable, and the place
/// behind it.
pub fn read_syllable(s: &Vec<char>, i: usize) -> (res: Option<(Syllable, usize)>)
    requires
        i <= s.len(),
    ensures
        match res {
            Some((syl, j)) => syllable_at(s@, i as int) == Some((syl@, j as int)) && i < j
                <= s.len(),
            None => syllable_at(s@, i as int) is None,
        },
{
    let plus = vec!['+'];
    assert(plus@ =~= seq!['+']);
    let n = s.len();
    let i1 = if stands_at(s, i, &plus) {
        assert(i + 1 <= n);
        i + 1
    } else {
        i
    };
    let (stress, i2) = read_stress(s, i1);
    let (initial, i3) = read_consonants(s, i2);
    match read_vowel(s, i3) {
        Some((v, after)) => {
            let (last, i4) = read_consonants(s, after);
            Some(
                (
                    Syllable {
                        initial_consonants: initial,
                        vowel: v,
                        final_consonants: last,
                        stress,
                    },
                    i4,
                ),
            )
        },
        None => None,
    }
}

/// Reads the pronunciation that `s` begins with: its syllables, and the
/// place behind them.
pub fn read_ipa(s: &Vec<char>) -> (res: Option<(Vec<Syllable>, usize)>)
    ensures
        match res {
            Some((syls, j)) => parse_ipa_spec(s@) == Some((syllables_view(syls@), j as int)) && j
                <= s.len(),
            None => parse_ipa_spec(s@) is None,
        },
{
    let mut syls: Vec<Syllable> = Vec::new();
    let mut i: usize = 0;
    assert(syllables_view(syls@) =~= Seq::<SyllableView>::empty());
    loop
        invariant
            i <= s.len(),
            syllables_from(s@, i as int, syllables_view(syls@)) == syllables_from(
                s@,
                0,
                Seq::empty(),
            ),
        ensures
            i <= s.len(),
            (syllables_view(syls@), i as int) == syllables_from(s@, 0, Seq::empty()),
        decreases s.len() - i,
    {
        match read_syllable(s, i) {
            Some((syl, j)) => {
                let ghost done = syllables_view(syls@);
                let ghost sv = syl@;
                syls.push(syl);
                assert(syllables_view(syls@) =~= done.push(sv));
                i = j;
            },
            None => {
                break ;
            },
        }
    }
    if syls.len() == 0 {
        return None;
    }
    distribute_consonants(&mut syls);
    Some((syls, i))
}

/// Reads the pronunciation that the text begins with: what is left of the
/// text behind it, and its syllables.
pub fn parse_ipa(i: &str) -> (res: Option<(String, Vec<Syllable>)>)
    ensures
        match res {
            Some((rest, syls)) => parse_ipa_spec(i@) matches Some((sv, j)) && sv
                == syllables_view(syls@) && rest@ == i@.skip(j),
            None => parse_ipa_spec(i@) is None,
        },
{
    let s = chars_of(i);
    match read_ipa(&s) {
        Some((syls, j)) => {
            let rest = copy_range(&s, j, s.len());
            assert(s@.subrange(j as int, s.len() as int) =~= s@.skip(j as int));
            Some((string_of(&rest), syls))
        },
        None => None,
    }
}

/// Reads a consonant at the start of the text: what is left of the text,
/// and the consonant.
pub fn parse_consonant(i: &str) -> (res: Option<(String, Consonant)>)
    ensures
        match res {
            Some((rest, c)) => consonant_at(i@, 0) == Some(c) && rest@ == i@.skip(
                consonant_ipa(c).len() as int,
            ),
            None => consonant_at(i@, 0) is None,
        },
{
    let s = chars_of(i);
    match read_consonant(&s, 0) {
        Some((c, j)) => {
            let rest = copy_range(&s, j, s.len());
            assert(s@.subrange(j as int, s.len() as int) =~= s@.skip(j as int));
            Some((string_of(&rest), c))
        },
        None => None,
    }
}

/// Reads a vowel at the start of the text: what is left of the text, and
/// the vowel.
pub fn parse_vowel(i: &str) -> (res: Option<(String, Vowel)>)
    ensures
        match res {
            Some((rest, v)) => vowel_at(i@, 0) == Some(v) && rest@ == i@.skip(
                vowel_ipa(v).len() as int,
            ),
            None => vowel_at(i@, 0) is None,
        },
{
    let s = chars_of(i);
    match read_vowel(&s, 0) {
        Some((v, j)) => {
            let rest = copy_range(&s, j, s.len());
            assert(s@.subrange(j as int, s.len() as int) =~= s@.skip(j as int));
            Some((string_of(&rest), v))
        },
        None => None,
    }
}

/// Reads a stress mark at the start of the text, if one stands there: what
/// is left of the text, and the stress.
pub fn parse_stress(i: &str) -> (res: (String, Stress))
    ensures
        res.1 == stress_at(i@, 0),
        res.0@ == i@.skip(stress_ipa(res.1).len() as int),
{
    let s = chars_of(i);
    let (stress, j) = read_stress(&s, 0);
    let rest = copy_range(&s, j, s.len());
    assert(s@.subrange(j as int, s.len() as int) =~= s@.skip(j as int));
    (string_of(&rest), stress)
}

/// Reads a `+` at the start of the text, if one stands there: what is left
/// of the text, and what was read.
pub fn parse_double_split(i: &str) -> (res: (String, String))
    ensures
        has_at(i@, 0, seq!['+']) ==> res.0@ == i@.skip(1) && res.1@ == seq!['+'],
        !has_at(i@, 0, seq!['+']) ==> res.0@ == i@ && res.1@ == Seq::<char>::empty(),
{
    let s = chars_of(i);
    let plus = vec!['+'];
    assert(plus@ =~= seq!['+']);
    if stands_at(&s, 0, &plus) {
        let rest = copy_range(&s, 1, s.len());
        assert(s@.subrange(1, s.len() as int) =~= s@.skip(1));
        (string_of(&rest), string_of(&plus))
    } else {
        (string_of(&s), String::new())
    }
}

/// Reads a syllable at the start of the text: what is left of the text,
/// and the syllable.
pub fn parse_syllable(i: &str) -> (res: Option<(String, Syllable)>)
    ensures
        match res {
            Some((rest, syl)) => syllable_at(i@, 0) matches Some((sv, j)) && sv == syl@ && rest@
                == i@.skip(j),
            None => syllable_at(i@, 0) is None,
        },
{
    let s = chars_of(i);
    match read_syllable(&s, 0) {
        Some((syl, j)) => {
            let rest = copy_range(&s, j, s.len());
            assert(s@.subrange(j as int, s.len() as int) =~= s@.skip(j as int));
            Some((string_of(&rest), syl))
        },
        None => None,
    }
}

} // verus!
