//! Words of a lexicon that gives each word in Latin letters and in Shavian
//! letters, and the glyphs that the Shavian letters stand for.

use vstd::prelude::*;
use crate::glyphs::{Glyph, decode_spec, decode};
use crate::seqs::copy_vec;
use crate::text::chars_of;

verus! {

/// A word of the lexicon.
#[derive(Debug)]
pub struct ReadlexEntry {
    pub latin: String,
    pub shaw: String,
    pub ipa: String,
    pub freq: u32,
}

/// The glyphs that a Shavian letter stands for: one for most letters, two
/// for a letter that writes a vowel with an `r` or another vowel behind it.
pub open spec fn shaw_glyphs(sh: char) -> Option<Seq<Glyph>> {
    if sh == '\u{10451}' {
        Some(seq![Glyph::T])
    } else if sh == '\u{10454}' {
        Some(seq![Glyph::Th])
    } else if sh == '\u{10469}' {
        Some(seq![Glyph::Schwa])
    } else if sh == '\u{10474}' {
        Some(seq![Glyph::O])
    } else if sh == '\u{1045f}' {
        Some(seq![Glyph::Z])
    } else if sh == '\u{1046a}' {
        Some(seq![Glyph::Ah])
    } else if sh == '\u{10465}' {
        Some(seq![Glyph::M])
    } else if sh == '\u{10459}' {
        Some(seq![Glyph::Ng])
    } else if sh == '\u{10473}' {
        Some(seq![Glyph::Uh])
    } else if sh == '\u{10450}' {
        Some(seq![Glyph::P])
    } else if sh == '\u{1045a}' {
        Some(seq![Glyph::B])
    } else if sh == '\u{10453}' {
        Some(seq![Glyph::F])
    } else if sh == '\u{1045d}' {
        Some(seq![Glyph::V])
    } else if sh == '\u{1046f}' {
        Some(seq![Glyph::N])
    } else if sh == '\u{1045b}' {
        Some(seq![Glyph::D])
    } else if sh == '\u{10464}' {
        Some(seq![Glyph::L])
    } else if sh == '\u{10476}' {
        Some(seq![Glyph::Oi])
    } else if sh == '\u{10466}' {
        Some(seq![Glyph::Ih])
    } else if sh == '\u{10472}' {
        Some(seq![Glyph::I])
    } else if sh == '\u{10455}' {
        Some(seq![Glyph::S])
    } else if sh == '\u{10452}' {
        Some(seq![Glyph::K])
    } else if sh == '\u{1047f}' {
        Some(seq![Glyph::Yu])
    } else if sh == '\u{10477}' {
        Some(seq![Glyph::Aw])
    } else if sh == '\u{1047c}' {
        Some(seq![Glyph::Er])
    } else if sh == '\u{10456}' {
        Some(seq![Glyph::Sh])
    } else if sh == '\u{10460}' {
        Some(seq![Glyph::Jh])
    } else if sh == '\u{10457}' {
        Some(seq![Glyph::Ch])
    } else if sh == '\u{10461}' {
        Some(seq![Glyph::J])
    } else if sh == '\u{10458}' {
        Some(seq![Glyph::Y])
    } else if sh == '\u{10462}' {
        Some(seq![Glyph::W])
    } else if sh == '\u{10463}' {
        Some(seq![Glyph::H])
    } else if sh == '\u{1046e}' {
        Some(seq![Glyph::R])
    } else if sh == '\u{10470}' {
        Some(seq![Glyph::Ee])
    } else if sh == '\u{10467}' {
        Some(seq![Glyph::Eh])
    } else if sh == '\u{10471}' {
        Some(seq![Glyph::Ei])
    } else if sh == '\u{10468}' {
        Some(seq![Glyph::Ae])
    } else if sh == '\u{1046b}' {
        Some(seq![Glyph::Eu])
    } else if sh == '\u{10475}' {
        Some(seq![Glyph::U])
    } else if sh == '\u{1046c}' {
        Some(seq![Glyph::Ow])
    } else if sh == '\u{10478}' {
        Some(seq![Glyph::Ah, Glyph::R])
    } else if sh == '\u{1047a}' {
        Some(seq![Glyph::Ei, Glyph::R])
    } else if sh == '\u{1047b}' {
        Some(seq![Glyph::Eh, Glyph::R])
    } else if sh == '\u{1047d}' {
        Some(seq![Glyph::Ee, Glyph::R])
    } else if sh == '\u{10479}' {
        Some(seq![Glyph::Aw, Glyph::R])
    } else if sh == '\u{1047e}' {
        Some(seq![Glyph::Ee, Glyph::Eh])
    } else {
        None
    }
}

/// The glyphs that the Shavian letters of `s` stand for, in order; what is
/// no Shavian letter is passed over.
pub open spec fn shaw_word_spec(s: Seq<char>) -> Seq<Glyph>
    decreases s.len(),
{
    if s.len() == 0 {
        Seq::empty()
    } else {
        match shaw_glyphs(s.last()) {
            Some(gs) => shaw_word_spec(s.drop_last()) + gs,
            None => shaw_word_spec(s.drop_last()),
        }
    }
}

/// `gs` with `Ee` for a last `Ih`.
pub open spec fn fix_final_ih_spec(gs: Seq<Glyph>) -> Seq<Glyph> {
    if gs.len() > 0 && gs.last() == Glyph::Ih {
        gs.update(gs.len() - 1, Glyph::Ee)
    } else {
        gs
    }
}

/// `gs` with a schwa for a first `Ih`, where the word begins with `e` in
/// Latin letters.
pub open spec fn fix_initial_ih_spec(gs: Seq<Glyph>, latin: Seq<Glyph>) -> Seq<Glyph> {
    if gs.len() > 0 && gs[0] == Glyph::Ih && latin.len() > 0 && latin[0] == Glyph::E {
        gs.update(0, Glyph::Schwa)
    } else {
        gs
    }
}

/// The glyphs that a Shavian letter stands for.
pub fn shaw_char_to_glyphs(sh: char) -> (res: Option<Vec<Glyph>>)
    ensures
        match res {
            Some(v) => shaw_glyphs(sh) == Some(v@),
            None => shaw_glyphs(sh) is None,
        },
{
    if sh == '\u{10451}' {
        let v = vec![Glyph::T];
        assert(v@ =~= seq![Glyph::T]);
        Some(v)
    } else if sh == '\u{10454}' {
        let v = vec![Glyph::Th];
        assert(v@ =~= seq![Glyph::Th]);
        Some(v)
    } else if sh == '\u{10469}' {
        let v = vec![Glyph::Schwa];
        assert(v@ =~= seq![Glyph::Schwa]);
        Some(v)
    } else if sh == '\u{10474}' {
        let v = vec![Glyph::O];
        assert(v@ =~= seq![Glyph::O]);
        Some(v)
    } else if sh == '\u{1045f}' {
        let v = vec![Glyph::Z];
        assert(v@ =~= seq![Glyph::Z]);
        Some(v)
    } else if sh == '\u{1046a}' {
        let v = vec![Glyph::Ah];
        assert(v@ =~= seq![Glyph::Ah]);
        Some(v)
    } else if sh == '\u{10465}' {
        let v = vec![Glyph::M];
        assert(v@ =~= seq![Glyph::M]);
        Some(v)
    } else if sh == '\u{10459}' {
        let v = vec![Glyph::Ng];
        assert(v@ =~= seq![Glyph::Ng]);
        Some(v)
    } else if sh == '\u{10473}' {
        let v = vec![Glyph::Uh];
        assert(v@ =~= seq![Glyph::Uh]);
        Some(v)
    } else if sh == '\u{10450}' {
        let v = vec![Glyph::P];
        assert(v@ =~= seq![Glyph::P]);
        Some(v)
    } else if sh == '\u{1045a}' {
        let v = vec![Glyph::B];
        assert(v@ =~= seq![Glyph::B]);
        Some(v)
    } else if sh == '\u{10453}' {
        let v = vec![Glyph::F];
        assert(v@ =~= seq![Glyph::F]);
        Some(v)
    } else if sh == '\u{1045d}' {
        let v = vec![Glyph::V];
        assert(v@ =~= seq![Glyph::V]);
        Some(v)
    } else if sh == '\u{1046f}' {
        let v = vec![Glyph::N];
        assert(v@ =~= seq![Glyph::N]);
        Some(v)
    } else if sh == '\u{1045b}' {
        let v = vec![Glyph::D];
        assert(v@ =~= seq![Glyph::D]);
        Some(v)
    } else if sh == '\u{10464}' {
        let v = vec![Glyph::L];
        assert(v@ =~= seq![Glyph::L]);
        Some(v)
    } else if sh == '\u{10476}' {
        let v = vec![Glyph::Oi];
        assert(v@ =~= seq![Glyph::Oi]);
        Some(v)
    } else if sh == '\u{10466}' {
        let v = vec![Glyph::Ih];
        assert(v@ =~= seq![Glyph::Ih]);
        Some(v)
    } else if sh == '\u{10472}' {
        let v = vec![Glyph::I];
        assert(v@ =~= seq![Glyph::I]);
        Some(v)
    } else if sh == '\u{10455}' {
        let v = vec![Glyph::S];
        assert(v@ =~= seq![Glyph::S]);
        Some(v)
    } else if sh == '\u{10452}' {
        let v = vec![Glyph::K];
        assert(v@ =~= seq![Glyph::K]);
        Some(v)
    } else if sh == '\u{1047f}' {
        let v = vec![Glyph::Yu];
        assert(v@ =~= seq![Glyph::Yu]);
        Some(v)
    } else if sh == '\u{10477}' {
        let v = vec![Glyph::Aw];
        assert(v@ =~= seq![Glyph::Aw]);
        Some(v)
    } else if sh == '\u{1047c}' {
        let v = vec![Glyph::Er];
        assert(v@ =~= seq![Glyph::Er]);
        Some(v)
    } else if sh == '\u{10456}' {
        let v = vec![Glyph::Sh];
        assert(v@ =~= seq![Glyph::Sh]);
        Some(v)
    } else if sh == '\u{10460}' {
        let v = vec![Glyph::Jh];
        assert(v@ =~= seq![Glyph::Jh]);
        Some(v)
    } else if sh == '\u{10457}' {
        let v = vec![Glyph::Ch];
        assert(v@ =~= seq![Glyph::Ch]);
        Some(v)
    } else if sh == '\u{10461}' {
        let v = vec![Glyph::J];
        assert(v@ =~= seq![Glyph::J]);
        Some(v)
    } else if sh == '\u{10458}' {
        let v = vec![Glyph::Y];
        assert(v@ =~= seq![Glyph::Y]);
        Some(v)
    } else if sh == '\u{10462}' {
        let v = vec![Glyph::W];
        assert(v@ =~= seq![Glyph::W]);
        Some(v)
    } else if sh == '\u{10463}' {
        let v = vec![Glyph::H];
        assert(v@ =~= seq![Glyph::H]);
        Some(v)
    } else if sh == '\u{1046e}' {
        let v = vec![Glyph::R];
        assert(v@ =~= seq![Glyph::R]);
        Some(v)
    } else if sh == '\u{10470}' {
        let v = vec![Glyph::Ee];
        assert(v@ =~= seq![Glyph::Ee]);
        Some(v)
    } else if sh == '\u{10467}' {
        let v = vec![Glyph::Eh];
        assert(v@ =~= seq![Glyph::Eh]);
        Some(v)
    } else if sh == '\u{10471}' {
        let v = vec![Glyph::Ei];
        assert(v@ =~= seq![Glyph::Ei]);
        Some(v)
    } else if sh == '\u{10468}' {
        let v = vec![Glyph::Ae];
        assert(v@ =~= seq![Glyph::Ae]);
        Some(v)
    } else if sh == '\u{1046b}' {
        let v = vec![Glyph::Eu];
        assert(v@ =~= seq![Glyph::Eu]);
        Some(v)
    } else if sh == '\u{10475}' {
        let v = vec![Glyph::U];
        assert(v@ =~= seq![Glyph::U]);
        Some(v)
    } else if sh == '\u{1046c}' {
        let v = vec![Glyph::Ow];
        assert(v@ =~= seq![Glyph::Ow]);
        Some(v)
    } else if sh == '\u{10478}' {
        let v = vec![Glyph::Ah, Glyph::R];
        assert(v@ =~= seq![Glyph::Ah, Glyph::R]);
        Some(v)
    } else if sh == '\u{1047a}' {
        let v = vec![Glyph::Ei, Glyph::R];
        assert(v@ =~= seq![Glyph::Ei, Glyph::R]);
        Some(v)
    } else if sh == '\u{1047b}' {
        let v = vec![Glyph::Eh, Glyph::R];
        assert(v@ =~= seq![Glyph::Eh, Glyph::R]);
        Some(v)
    } else if sh == '\u{1047d}' {
        let v = vec![Glyph::Ee, Glyph::R];
        assert(v@ =~= seq![Glyph::Ee, Glyph::R]);
        Some(v)
    } else if sh == '\u{10479}' {
        let v = vec![Glyph::Aw, Glyph::R];
        assert(v@ =~= seq![Glyph::Aw, Glyph::R]);
        Some(v)
    } else if sh == '\u{1047e}' {
        let v = vec![Glyph::Ee, Glyph::Eh];
        assert(v@ =~= seq![Glyph::Ee, Glyph::Eh]);
        Some(v)
    } else {
        None
    }
}

/// The glyphs that the Shavian letters of `v` stand for.
pub fn shaw_chars_to_glyphs(v: &Vec<char>) -> (res: Vec<Glyph>)
    ensures
        res@ == shaw_word_spec(v@),
{
    let mut res: Vec<Glyph> = Vec::new();
    let mut i: usize = 0;
    while i < v.len()
        invariant
            i <= v.len(),
            res@ == shaw_word_spec(v@.take(i as int)),
        decreases v.len() - i,
    {
        assert(v@.take(i + 1).drop_last() =~= v@.take(i as int));
        match shaw_char_to_glyphs(v[i]) {
            Some(gs) => {
                let mut gs = gs;
                res.append(&mut gs);
            },
            None => {},
        }
        i += 1;
    }
    assert(v@.take(v.len() as int) =~= v@);
    res
}

/// The glyphs that a word in Shavian letters stands for.
pub fn shaw_word_to_glyphs(sh: &str) -> (res: Vec<Glyph>)
    ensures
        res@ == shaw_word_spec(sh@),
{
    shaw_chars_to_glyphs(&chars_of(sh))
}

/// The glyphs that a word in Shavian letters stands for, with `Ee` for a
/// last `Ih` and then a schwa for a first `Ih` where the word begins with
/// `e` in Latin letters.
pub fn shaw_word_to_glyphs_with_fixes(sh: &str, latin: &str) -> (res: Vec<Glyph>)
    ensures
        res@ == fix_initial_ih_spec(fix_final_ih_spec(shaw_word_spec(sh@)), decode_spec(latin@)),
{
    let mut res = shaw_chars_to_glyphs(&chars_of(sh));
    let n = res.len();
    if n > 0 && res[n - 1] == Glyph::Ih {
        res.set(n - 1, Glyph::Ee);
    }
    if n > 0 && res[0] == Glyph::Ih {
        let latin_glyphs = decode(latin);
        if latin_glyphs.len() > 0 && latin_glyphs[0] == Glyph::E {
            res.set(0, Glyph::Schwa);
        }
    }
    res
}

/// `gs` with `Ee` for a last `Ih`.
pub fn fix_final_ih(gs: &Vec<Glyph>) -> (res: Vec<Glyph>)
    ensures
        res@ == fix_final_ih_spec(gs@),
{
    let mut res = copy_vec(gs);
    let n = res.len();
    if n > 0 && res[n - 1] == Glyph::Ih {
        res.set(n - 1, Glyph::Ee);
    }
    res
}

} // verus!
