//! Feature bodies as text: how a substitution list is written out, and how
//! it is read back.

use vstd::prelude::*;
use crate::glyphs::{AugGlyph, aug_glyph_name, aug_glyph_of_name, name_to_aug_glyph, push_aug_name};
use crate::substitutions2::{
    KeyElem, Lookup, SubContent, SubContentView, Substitution, SubstitutionList, SubstitutionView,
};
use crate::text::{
    chars_are, chars_of, decimal_digits, join_spec, parts_view, push_chars, push_decimal,
    push_joined, push_lit, string_of,
};

pub mod mid;

use mid::{Feature, Ignore, LHSElement, LHSElementView, LookupEntry, LookupEntryView, Sub};

verus! {

/// The name of a place of a context in a feature file: the glyph's name,
/// or the class of all letters.
pub open spec fn key_elem_name_spec(k: KeyElem) -> Seq<char> {
    match k {
        KeyElem::Glyph(g) => aug_glyph_name(g),
        KeyElem::AnyLetter => "@lc"@,
    }
}

/// The name of a glyph that a substitution replaces: the glyph's name and
/// the mark `'`.
pub open spec fn primed_name_spec(g: AugGlyph) -> Seq<char> {
    aug_glyph_name(g) + "'"@
}

/// The names on the left of a substitution, in order: the context before,
/// the marked glyphs, the context behind.
pub open spec fn lhs_names(sub: SubstitutionView) -> Seq<Seq<char>> {
    sub.pre_key.map_values(|k: KeyElem| key_elem_name_spec(k)) + sub.at_key.map_values(
        |g: AugGlyph| primed_name_spec(g),
    ) + sub.post_key.map_values(|k: KeyElem| key_elem_name_spec(k))
}

/// The names on the right of a substitution.
pub open spec fn rhs_names(sc: Seq<AugGlyph>) -> Seq<Seq<char>> {
    sc.map_values(|g: AugGlyph| aug_glyph_name(g))
}

/// One substitution as a line of a feature file.
pub open spec fn render_sub_spec(sub: SubstitutionView) -> Seq<char> {
    match sub.sub_content {
        SubContentView::Ignore => "ignore sub "@ + join_spec(lhs_names(sub), " "@) + ";"@,
        SubContentView::Sub(sc) => "sub "@ + join_spec(lhs_names(sub), " "@) + " by "@ + join_spec(
            rhs_names(sc),
            " "@,
        ) + ";"@,
    }
}

/// The substitutions of a lookup as lines, each indented and ended.
pub open spec fn render_subs_spec(subs: Seq<SubstitutionView>) -> Seq<char>
    decreases subs.len(),
{
    if subs.len() == 0 {
        Seq::empty()
    } else {
        render_subs_spec(subs.drop_last()) + "  "@ + render_sub_spec(subs.last()) + "\n"@
    }
}

/// Lookup number `i` as a block of a feature file, under the name `l` and
/// its number.
pub open spec fn render_lookup_spec(i: nat, subs: Seq<SubstitutionView>) -> Seq<char> {
    "lookup l"@ + decimal_digits(i) + " {\n"@ + render_subs_spec(subs) + "} l"@ + decimal_digits(i)
        + ";\n"@
}

/// A substitution list as the body of a feature: its lookups as blocks,
/// numbered from zero.
pub open spec fn render_body_spec(lookups: Seq<Seq<SubstitutionView>>) -> Seq<char>
    decreases lookups.len(),
{
    if lookups.len() == 0 {
        Seq::empty()
    } else {
        render_body_spec(lookups.drop_last()) + render_lookup_spec(
            (lookups.len() - 1) as nat,
            lookups.last(),
        )
    }
}

fn key_elem_chars(k: &KeyElem) -> (res: Vec<char>)
    ensures
        res@ == key_elem_name_spec(*k),
{
    let mut out: Vec<char> = Vec::new();
    match k {
        KeyElem::Glyph(g) => {
            push_aug_name(&mut out, g);
            assert(out@ =~= aug_glyph_name(*g));
        },
        KeyElem::AnyLetter => {
            push_lit(&mut out, "@lc");
            assert(out@ =~= "@lc"@);
        },
    }
    out
}

/// The name of a place of a context in a feature file.
pub fn key_elem_name(k: &KeyElem) -> (res: String)
    ensures
        res@ == key_elem_name_spec(*k),
{
    string_of(&key_elem_chars(k))
}

fn push_key_names(names: &mut Vec<Vec<char>>, key: &Vec<KeyElem>)
    ensures
        parts_view(final(names)@) == parts_view(old(names)@) + key@.map_values(
            |k: KeyElem| key_elem_name_spec(k),
        ),
{
    let mut i: usize = 0;
    let ghost target = key@.map_values(|k: KeyElem| key_elem_name_spec(k));
    assert(parts_view(names@) =~= parts_view(old(names)@) + target.take(0));
    while i < key.len()
        invariant
            i <= key.len(),
            target == key@.map_values(|k: KeyElem| key_elem_name_spec(k)),
            parts_view(names@) == parts_view(old(names)@) + target.take(i as int),
        decreases key.len() - i,
    {
        let ghost before = names@;
        names.push(key_elem_chars(&key[i]));
        assert(parts_view(names@) =~= parts_view(before).push(key_elem_name_spec(key@[i as int])));
        assert(parts_view(names@) =~= parts_view(old(names)@) + target.take(i + 1));
        i += 1;
    }
    assert(target.take(key.len() as int) =~= target);
}

fn push_glyph_names(names: &mut Vec<Vec<char>>, key: &Vec<AugGlyph>, primed: bool)
    ensures
        primed ==> parts_view(final(names)@) == parts_view(old(names)@) + key@.map_values(
            |g: AugGlyph| primed_name_spec(g),
        ),
        !primed ==> parts_view(final(names)@) == parts_view(old(names)@) + rhs_names(key@),
{
    let mut i: usize = 0;
    let ghost target = if primed {
        key@.map_values(|g: AugGlyph| primed_name_spec(g))
    } else {
        rhs_names(key@)
    };
    assert(parts_view(names@) =~= parts_view(old(names)@) + target.take(0));
    while i < key.len()
        invariant
            i <= key.len(),
            target == if primed {
                key@.map_values(|g: AugGlyph| primed_name_spec(g))
            } else {
                rhs_names(key@)
            },
            parts_view(names@) == parts_view(old(names)@) + target.take(i as int),
        decreases key.len() - i,
    {
        let ghost before = names@;
        let mut name: Vec<char> = Vec::new();
        push_aug_name(&mut name, &key[i]);
        if primed {
            push_lit(&mut name, "'");
        }
        assert(name@ =~= target[i as int]);
        names.push(name);
        assert(parts_view(names@) =~= parts_view(before).push(target[i as int]));
        assert(parts_view(names@) =~= parts_view(old(names)@) + target.take(i + 1));
        i += 1;
    }
    assert(target.take(key.len() as int) =~= target);
}

fn push_sub(out: &mut Vec<char>, s: &Substitution)
    ensures
        final(out)@ == old(out)@ + render_sub_spec(s@),
{
    let mut lhs: Vec<Vec<char>> = Vec::new();
    push_key_names(&mut lhs, &s.pre_key);
    push_glyph_names(&mut lhs, &s.at_key, true);
    push_key_names(&mut lhs, &s.post_key);
    assert(parts_view(lhs@) =~= lhs_names(s@));
    match &s.sub_content {
        SubContent::Ignore => {
            push_lit(out, "ignore sub ");
            push_joined(out, &lhs, " ");
            push_lit(out, ";");
            assert(out@ =~= old(out)@ + render_sub_spec(s@));
        },
        SubContent::Sub(sc) => {
            let mut rhs: Vec<Vec<char>> = Vec::new();
            push_glyph_names(&mut rhs, sc, false);
            assert(parts_view(rhs@) =~= rhs_names(sc@));
            push_lit(out, "sub ");
            push_joined(out, &lhs, " ");
            push_lit(out, " by ");
            push_joined(out, &rhs, " ");
            push_lit(out, ";");
            assert(out@ =~= old(out)@ + render_sub_spec(s@));
        },
    }
}

/// Writes one substitution as a line of a feature file.
pub fn render_fea_sub(s: &Substitution) -> (res: String)
    ensures
        res@ == render_sub_spec(s@),
{
    let mut out: Vec<char> = Vec::new();
    push_sub(&mut out, s);
    assert(out@ =~= render_sub_spec(s@));
    string_of(&out)
}

fn push_lookup(out: &mut Vec<char>, i: usize, lookup: &Lookup)
    ensures
        final(out)@ == old(out)@ + render_lookup_spec(i as nat, lookup@),
{
    push_lit(out, "lookup l");
    push_decimal(out, i as u64);
    push_lit(out, " {\n");
    let ghost head = out@;
    let mut k: usize = 0;
    assert(lookup@.take(0) =~= Seq::<SubstitutionView>::empty());
    assert(out@ =~= head + render_subs_spec(lookup@.take(0)));
    while k < lookup.substitutions.len()
        invariant
            k <= lookup.substitutions.len(),
            out@ == head + render_subs_spec(lookup@.take(k as int)),
        decreases lookup.substitutions.len() - k,
    {
        let ghost next = lookup@.take(k + 1);
        assert(next.drop_last() =~= lookup@.take(k as int));
        assert(next.last() == lookup.substitutions@[k as int]@);
        push_lit(out, "  ");
        push_sub(out, &lookup.substitutions[k]);
        push_lit(out, "\n");
        assert(out@ =~= head + render_subs_spec(next));
        k += 1;
    }
    assert(lookup@.take(lookup.substitutions.len() as int) =~= lookup@);
    push_lit(out, "} l");
    push_decimal(out, i as u64);
    push_lit(out, ";\n");
    assert(out@ =~= old(out)@ + render_lookup_spec(i as nat, lookup@));
}

/// Writes a substitution list as the body of a feature.
pub fn render_fea_feature_body(slist: &SubstitutionList) -> (res: String)
    ensures
        res@ == render_body_spec(slist@),
{
    let mut out: Vec<char> = Vec::new();
    let mut i: usize = 0;
    assert(slist@.take(0) =~= Seq::<Seq<SubstitutionView>>::empty());
    while i < slist.lookups.len()
        invariant
            i <= slist.lookups.len(),
            out@ == render_body_spec(slist@.take(i as int)),
        decreases slist.lookups.len() - i,
    {
        let ghost next = slist@.take(i + 1);
        assert(next.drop_last() =~= slist@.take(i as int));
        assert(next.last() == slist.lookups@[i as int]@);
        push_lookup(&mut out, i, &slist.lookups[i]);
        i += 1;
    }
    assert(slist@.take(slist.lookups.len() as int) =~= slist@);
    string_of(&out)
}

/// A piece of the text of a feature body.
pub enum Token {
    Word(Vec<char>),
    LBrace,
    RBrace,
    Semi,
    Prime,
}

/// The mathematical value of a [`Token`].
pub enum TokenView {
    Word(Seq<char>),
    LBrace,
    RBrace,
    Semi,
    Prime,
}

impl View for Token {
    type V = TokenView;

    open spec fn view(&self) -> TokenView {
        match self {
            Token::Word(w) => TokenView::Word(w@),
            Token::LBrace => TokenView::LBrace,
            Token::RBrace => TokenView::RBrace,
            Token::Semi => TokenView::Semi,
            Token::Prime => TokenView::Prime,
        }
    }
}

/// The values of a run of tokens.
pub open spec fn tokens_view(toks: Seq<Token>) -> Seq<TokenView> {
    toks.map_values(|t: Token| t@)
}

/// Whether `c` is white space between tokens.
pub open spec fn is_space(c: char) -> bool {
    c == ' ' || c == '\t' || c == '\n' || c == '\r'
}

/// The token that `c` is by itself, if it is one.
pub open spec fn punct(c: char) -> Option<TokenView> {
    if c == '{' {
        Some(TokenView::LBrace)
    } else if c == '}' {
        Some(TokenView::RBrace)
    } else if c == ';' {
        Some(TokenView::Semi)
    } else if c == '\'' {
        Some(TokenView::Prime)
    } else {
        None
    }
}

/// The tokens `acc` with the word `cur` behind them, where it is not empty.
pub open spec fn flush(acc: Seq<TokenView>, cur: Seq<char>) -> Seq<TokenView> {
    if cur.len() > 0 {
        acc.push(TokenView::Word(cur))
    } else {
        acc
    }
}

/// The tokens of `s` from place `i` on, behind the tokens `acc` and the
/// begun word `cur`. White space ends a word; each of `{`, `}`, `;` and `'`
/// ends a word and is a token by itself; every other character goes on
/// with the word.
pub open spec fn tokens_from(s: Seq<char>, i: int, cur: Seq<char>, acc: Seq<TokenView>) -> Seq<
    TokenView,
>
    decreases s.len() - i,
{
    if i < 0 || i >= s.len() {
        flush(acc, cur)
    } else if is_space(s[i]) {
        tokens_from(s, i + 1, Seq::empty(), flush(acc, cur))
    } else {
        match punct(s[i]) {
            Some(t) => tokens_from(s, i + 1, Seq::empty(), flush(acc, cur).push(t)),
            None => tokens_from(s, i + 1, cur.push(s[i]), acc),
        }
    }
}

/// The tokens of the text `s`.
pub open spec fn tokens_of(s: Seq<char>) -> Seq<TokenView> {
    tokens_from(s, 0, Seq::empty(), Seq::empty())
}

/// The word that token `i` is, if there is such a token and it is a word.
pub open spec fn word_at(toks: Seq<TokenView>, i: int) -> Option<Seq<char>> {
    if 0 <= i < toks.len() {
        match toks[i] {
            TokenView::Word(w) => Some(w),
            _ => None,
        }
    } else {
        None
    }
}

/// Whether token `i` is there and is `t`.
pub open spec fn tok_is(toks: Seq<TokenView>, i: int, t: TokenView) -> bool {
    0 <= i < toks.len() && toks[i] == t
}

/// The left-hand elements that stand from token `i` on, behind `acc`, and
/// the place behind them: each is a word other than `by`, with or without
/// a `'` behind it.
pub open spec fn elems_from(toks: Seq<TokenView>, i: int, acc: Seq<LHSElementView>) -> (
    Seq<LHSElementView>,
    int,
)
    decreases toks.len() - i,
{
    match word_at(toks, i) {
        Some(w) => if w == "by"@ {
            (acc, i)
        } else if tok_is(toks, i + 1, TokenView::Prime) {
            elems_from(toks, i + 2, acc.push(LHSElementView { glyph: w, prime: true }))
        } else {
            elems_from(toks, i + 1, acc.push(LHSElementView { glyph: w, prime: false }))
        },
        None => (acc, i),
    }
}

/// The words that stand from token `i` on, behind `acc`, and the place
/// behind them.
pub open spec fn words_from(toks: Seq<TokenView>, i: int, acc: Seq<Seq<char>>) -> (
    Seq<Seq<char>>,
    int,
)
    decreases toks.len() - i,
{
    match word_at(toks, i) {
        Some(w) => words_from(toks, i + 1, acc.push(w)),
        None => (acc, i),
    }
}

/// The entry that begins at token `i`, and the place behind it:
/// `sub`, elements, `by`, names and `;`, or `ignore sub`, elements and `;`,
/// with one element at least and one name at least.
pub open spec fn entry_at(toks: Seq<TokenView>, i: int) -> Option<(LookupEntryView, int)> {
    if word_at(toks, i) == Some("sub"@) {
        let (lhs, j) = elems_from(toks, i + 1, Seq::empty());
        let (rhs, k) = words_from(toks, j + 1, Seq::empty());
        if lhs.len() > 0 && word_at(toks, j) == Some("by"@) && rhs.len() > 0 && tok_is(
            toks,
            k,
            TokenView::Semi,
        ) {
            Some((LookupEntryView::Sub { lhs, rhs }, k + 1))
        } else {
            None
        }
    } else if word_at(toks, i) == Some("ignore"@) && word_at(toks, i + 1) == Some("sub"@) {
        let (lhs, j) = elems_from(toks, i + 2, Seq::empty());
        if lhs.len() > 0 && tok_is(toks, j, TokenView::Semi) {
            Some((LookupEntryView::Ignore { lhs }, j + 1))
        } else {
            None
        }
    } else {
        None
    }
}

/// The entries that stand from token `i` on, behind `acc`, up to a `}` or
/// the end, and the place where they stop; nothing where something stands
/// there that is no entry.
pub open spec fn entries_from(toks: Seq<TokenView>, i: int, acc: Seq<LookupEntryView>) -> Option<
    (Seq<LookupEntryView>, int),
>
    decreases toks.len() - i,
{
    if i < 0 || i >= toks.len() || toks[i] == TokenView::RBrace {
        Some((acc, i))
    } else {
        match entry_at(toks, i) {
            Some((e, j)) => if i < j <= toks.len() {
                entries_from(toks, j, acc.push(e))
            } else {
                None
            },
            None => None,
        }
    }
}

/// The lookup that begins at token `i`, and the place behind it: `lookup`,
/// a name, `{`, entries, `}`, a name and `;`.
pub open spec fn lookup_at(toks: Seq<TokenView>, i: int) -> Option<(Seq<LookupEntryView>, int)> {
    if word_at(toks, i) == Some("lookup"@) && word_at(toks, i + 1) is Some && tok_is(
        toks,
        i + 2,
        TokenView::LBrace,
    ) {
        match entries_from(toks, i + 3, Seq::empty()) {
            Some((es, j)) => if tok_is(toks, j, TokenView::RBrace) && word_at(toks, j + 1) is Some
                && tok_is(toks, j + 2, TokenView::Semi) {
                Some((es, j + 3))
            } else {
                None
            },
            None => None,
        }
    } else {
        None
    }
}

/// The lookups that stand from token `i` on, behind `acc`, up to the end;
/// nothing where something stands there that is no lookup.
pub open spec fn lookups_from(
    toks: Seq<TokenView>,
    i: int,
    acc: Seq<Seq<LookupEntryView>>,
) -> Option<Seq<Seq<LookupEntryView>>>
    decreases toks.len() - i,
{
    if i < 0 || i >= toks.len() {
        Some(acc)
    } else {
        match lookup_at(toks, i) {
            Some((l, j)) => if i < j <= toks.len() {
                lookups_from(toks, j, acc.push(l))
            } else {
                None
            },
            None => None,
        }
    }
}

/// The feature body that the text `s` writes, if it writes one.
pub open spec fn parse_feature_spec(s: Seq<char>) -> Option<Seq<Seq<LookupEntryView>>> {
    lookups_from(tokens_of(s), 0, Seq::empty())
}

/// The place where a run of elements stops is not before its start, and
/// not behind the end.
pub proof fn lemma_elems_from_bounds(toks: Seq<TokenView>, i: int, acc: Seq<LHSElementView>)
    requires
        0 <= i <= toks.len(),
    ensures
        i <= elems_from(toks, i, acc).1 <= toks.len(),
    decreases toks.len() - i,
{
    match word_at(toks, i) {
        Some(w) => {
            if w == "by"@ {
            } else if tok_is(toks, i + 1, TokenView::Prime) {
                lemma_elems_from_bounds(
                    toks,
                    i + 2,
                    acc.push(LHSElementView { glyph: w, prime: true }),
                );
            } else {
                lemma_elems_from_bounds(
                    toks,
                    i + 1,
                    acc.push(LHSElementView { glyph: w, prime: false }),
                );
            }
        },
        None => {},
    }
}

/// The place where a run of words stops is not before its start, and not
/// behind the end.
pub proof fn lemma_words_from_bounds(toks: Seq<TokenView>, i: int, acc: Seq<Seq<char>>)
    requires
        0 <= i <= toks.len(),
    ensures
        i <= words_from(toks, i, acc).1 <= toks.len(),
    decreases toks.len() - i,
{
    match word_at(toks, i) {
        Some(w) => {
            lemma_words_from_bounds(toks, i + 1, acc.push(w));
        },
        None => {},
    }
}

/// The place where a run of entries stops is not before its start, and not
/// behind the end.
pub proof fn lemma_entries_from_bounds(toks: Seq<TokenView>, i: int, acc: Seq<LookupEntryView>)
    requires
        0 <= i <= toks.len(),
    ensures
        entries_from(toks, i, acc) matches Some((_, j)) ==> i <= j <= toks.len(),
    decreases toks.len() - i,
{
    if i >= toks.len() || toks[i] == TokenView::RBrace {
    } else {
        match entry_at(toks, i) {
            Some((e, j)) => {
                if i < j <= toks.len() {
                    lemma_entries_from_bounds(toks, j, acc.push(e));
                }
            },
            None => {},
        }
    }
}

fn is_space_char(c: char) -> (res: bool)
    ensures
        res == is_space(c),
{
    c == ' ' || c == '\t' || c == '\n' || c == '\r'
}

fn punct_of(c: char) -> (res: Option<Token>)
    ensures
        match res {
            Some(t) => punct(c) == Some(t@),
            None => punct(c) is None,
        },
{
    if c == '{' {
        Some(Token::LBrace)
    } else if c == '}' {
        Some(Token::RBrace)
    } else if c == ';' {
        Some(Token::Semi)
    } else if c == '\'' {
        Some(Token::Prime)
    } else {
        None
    }
}

fn flush_word(toks: &mut Vec<Token>, cur: Vec<char>)
    ensures
        tokens_view(final(toks)@) == flush(tokens_view(old(toks)@), cur@),
{
    if cur.len() > 0 {
        let ghost w = cur@;
        toks.push(Token::Word(cur));
        assert(tokens_view(toks@) =~= tokens_view(old(toks)@).push(TokenView::Word(w)));
    }
}

/// Cuts the characters `v` into tokens.
pub fn tokenize(v: &Vec<char>) -> (toks: Vec<Token>)
    ensures
        tokens_view(toks@) == tokens_of(v@),
{
    let mut toks: Vec<Token> = Vec::new();
    let mut cur: Vec<char> = Vec::new();
    let mut i: usize = 0;
    assert(tokens_view(toks@) =~= Seq::<TokenView>::empty());
    while i < v.len()
        invariant
            i <= v.len(),
            tokens_from(v@, i as int, cur@, tokens_view(toks@)) == tokens_of(v@),
        decreases v.len() - i,
    {
        let c = v[i];
        if is_space_char(c) {
            flush_word(&mut toks, cur);
            cur = Vec::new();
        } else {
            match punct_of(c) {
                Some(t) => {
                    flush_word(&mut toks, cur);
                    cur = Vec::new();
                    let ghost before = toks@;
                    let ghost tv = t@;
                    toks.push(t);
                    assert(tokens_view(toks@) =~= tokens_view(before).push(tv));
                },
                None => {
                    cur.push(c);
                },
            }
        }
        i += 1;
    }
    flush_word(&mut toks, cur);
    toks
}

fn word_of(toks: &Vec<Token>, i: usize) -> (res: Option<&Vec<char>>)
    ensures
        match res {
            Some(w) => word_at(tokens_view(toks@), i as int) == Some(w@),
            None => word_at(tokens_view(toks@), i as int) is None,
        },
{
    if i < toks.len() {
        match &toks[i] {
            Token::Word(w) => Some(w),
            _ => None,
        }
    } else {
        None
    }
}

fn word_is(toks: &Vec<Token>, i: usize, lit: &str) -> (res: bool)
    ensures
        res == (word_at(tokens_view(toks@), i as int) == Some(lit@)),
{
    match word_of(toks, i) {
        Some(w) => chars_are(w, lit),
        None => false,
    }
}

fn is_prime(toks: &Vec<Token>, i: usize) -> (res: bool)
    ensures
        res == tok_is(tokens_view(toks@), i as int, TokenView::Prime),
{
    if i < toks.len() {
        match &toks[i] {
            Token::Prime => true,
            _ => false,
        }
    } else {
        false
    }
}

fn is_semi(toks: &Vec<Token>, i: usize) -> (res: bool)
    ensures
        res == tok_is(tokens_view(toks@), i as int, TokenView::Semi),
{
    if i < toks.len() {
        match &toks[i] {
            Token::Semi => true,
            _ => false,
        }
    } else {
        false
    }
}

fn is_lbrace(toks: &Vec<Token>, i: usize) -> (res: bool)
    ensures
        res == tok_is(tokens_view(toks@), i as int, TokenView::LBrace),
{
    if i < toks.len() {
        match &toks[i] {
            Token::LBrace => true,
            _ => false,
        }
    } else {
        false
    }
}

fn is_rbrace(toks: &Vec<Token>, i: usize) -> (res: bool)
    ensures
        res == tok_is(tokens_view(toks@), i as int, TokenView::RBrace),
{
    if i < toks.len() {
        match &toks[i] {
            Token::RBrace => true,
            _ => false,
        }
    } else {
        false
    }
}

fn read_elems(toks: &Vec<Token>, start: usize) -> (res: (Vec<LHSElement>, usize))
    requires
        start <= toks.len(),
    ensures
        (mid::lhs_view(res.0@), res.1 as int) == elems_from(
            tokens_view(toks@),
            start as int,
            Seq::empty(),
        ),
        start <= res.1 <= toks.len(),
{
    let ghost tv = tokens_view(toks@);
    let mut elems: Vec<LHSElement> = Vec::new();
    let mut i: usize = start;
    assert(mid::lhs_view(elems@) =~= Seq::<LHSElementView>::empty());
    loop
        invariant
            tv == tokens_view(toks@),
            start <= i <= toks.len(),
            elems_from(tv, i as int, mid::lhs_view(elems@)) == elems_from(
                tv,
                start as int,
                Seq::empty(),
            ),
        ensures
            start <= i <= toks.len(),
            (mid::lhs_view(elems@), i as int) == elems_from(tv, start as int, Seq::empty()),
        decreases toks.len() - i,
    {
        match word_of(toks, i) {
            None => {
                break ;
            },
            Some(w) => {
                if chars_are(w, "by") {
                    break ;
                }
                let prime = is_prime(toks, i + 1);
                let ghost before = elems@;
                let elem = LHSElement { glyph: string_of(w), prime };
                let ghost ev = elem@;
                elems.push(elem);
                assert(mid::lhs_view(elems@) =~= mid::lhs_view(before).push(ev));
                if prime {
                    i += 2;
                } else {
                    i += 1;
                }
            },
        }
    }
    (elems, i)
}

fn read_words(toks: &Vec<Token>, start: usize) -> (res: (Vec<String>, usize))
    requires
        start <= toks.len(),
    ensures
        (mid::names_view(res.0@), res.1 as int) == words_from(
            tokens_view(toks@),
            start as int,
            Seq::empty(),
        ),
        start <= res.1 <= toks.len(),
{
    let ghost tv = tokens_view(toks@);
    let mut words: Vec<String> = Vec::new();
    let mut i: usize = start;
    assert(mid::names_view(words@) =~= Seq::<Seq<char>>::empty());
    loop
        invariant
            tv == tokens_view(toks@),
            start <= i <= toks.len(),
            words_from(tv, i as int, mid::names_view(words@)) == words_from(
                tv,
                start as int,
                Seq::empty(),
            ),
        ensures
            start <= i <= toks.len(),
            (mid::names_view(words@), i as int) == words_from(tv, start as int, Seq::empty()),
        decreases toks.len() - i,
    {
        match word_of(toks, i) {
            None => {
                break ;
            },
            Some(w) => {
                let ghost before = words@;
                let word = string_of(w);
                let ghost wv = word@;
                words.push(word);
                assert(mid::names_view(words@) =~= mid::names_view(before).push(wv));
                i += 1;
            },
        }
    }
    (words, i)
}

fn read_entry(toks: &Vec<Token>, i: usize) -> (res: Option<(LookupEntry, usize)>)
    requires
        i < toks.len(),
    ensures
        match res {
            Some((e, j)) => entry_at(tokens_view(toks@), i as int) == Some((e@, j as int)) && i < j
                <= toks.len(),
            None => entry_at(tokens_view(toks@), i as int) is None,
        },
{
    if word_is(toks, i, "sub") {
        let (lhs, j) = read_elems(toks, i + 1);
        if lhs.len() == 0 || !word_is(toks, j, "by") {
            return None;
        }
        let (rhs, k) = read_words(toks, j + 1);
        if rhs.len() == 0 || !is_semi(toks, k) {
            return None;
        }
        Some((LookupEntry::Sub(Sub { lhs, rhs }), k + 1))
    } else if word_is(toks, i, "ignore") && word_is(toks, i + 1, "sub") {
        let (lhs, j) = read_elems(toks, i + 2);
        if lhs.len() == 0 || !is_semi(toks, j) {
            return None;
        }
        Some((LookupEntry::Ignore(Ignore { lhs }), j + 1))
    } else {
        None
    }
}

fn read_entries(toks: &Vec<Token>, start: usize) -> (res: Option<(Vec<LookupEntry>, usize)>)
    requires
        start <= toks.len(),
    ensures
        match res {
            Some((es, j)) => entries_from(tokens_view(toks@), start as int, Seq::empty()) == Some(
                (mid::Lookup { entries: es }@, j as int),
            ) && start <= j <= toks.len(),
            None => entries_from(tokens_view(toks@), start as int, Seq::empty()) is None,
        },
{
    let ghost tv = tokens_view(toks@);
    let mut entries: Vec<LookupEntry> = Vec::new();
    let mut i: usize = start;
    assert(mid::Lookup { entries }@ =~= Seq::<LookupEntryView>::empty());
    while i < toks.len() && !is_rbrace(toks, i)
        invariant
            tv == tokens_view(toks@),
            start <= i <= toks.len(),
            entries_from(tv, i as int, mid::Lookup { entries }@) == entries_from(
                tv,
                start as int,
                Seq::empty(),
            ),
        decreases toks.len() - i,
    {
        match read_entry(toks, i) {
            None => {
                return None;
            },
            Some((e, j)) => {
                let ghost before = mid::Lookup { entries }@;
                let ghost ev = e@;
                entries.push(e);
                assert(mid::Lookup { entries }@ =~= before.push(ev));
                i = j;
            },
        }
    }
    Some((entries, i))
}

fn read_lookup(toks: &Vec<Token>, i: usize) -> (res: Option<(mid::Lookup, usize)>)
    requires
        i < toks.len(),
    ensures
        match res {
            Some((l, j)) => lookup_at(tokens_view(toks@), i as int) == Some((l@, j as int)) && i < j
                <= toks.len(),
            None => lookup_at(tokens_view(toks@), i as int) is None,
        },
{
    if !word_is(toks, i, "lookup") {
        return None;
    }
    if word_of(toks, i + 1).is_none() || !is_lbrace(toks, i + 2) {
        return None;
    }
    match read_entries(toks, i + 3) {
        None => None,
        Some((entries, j)) => {
            if !is_rbrace(toks, j) {
                return None;
            }
            if word_of(toks, j + 1).is_none() || !is_semi(toks, j + 2) {
                return None;
            }
            Some((mid::Lookup { entries }, j + 3))
        },
    }
}

/// Reads the characters `v` as a feature body.
pub fn read_feature(v: &Vec<char>) -> (res: Option<Feature>)
    ensures
        match res {
            Some(f) => parse_feature_spec(v@) == Some(f@),
            None => parse_feature_spec(v@) is None,
        },
{
    let toks = tokenize(v);
    let ghost tv = tokens_view(toks@);
    let mut lookups: Vec<mid::Lookup> = Vec::new();
    let mut i: usize = 0;
    assert(Feature { lookups }@ =~= Seq::<Seq<LookupEntryView>>::empty());
    while i < toks.len()
        invariant
            tv == tokens_view(toks@),
            tv == tokens_of(v@),
            i <= toks.len(),
            lookups_from(tv, i as int, Feature { lookups }@) == parse_feature_spec(v@),
        decreases toks.len() - i,
    {
        match read_lookup(&toks, i) {
            None => {
                return None;
            },
            Some((l, j)) => {
                let ghost before = Feature { lookups }@;
                let ghost lv = l@;
                lookups.push(l);
                assert(Feature { lookups }@ =~= before.push(lv));
                i = j;
            },
        }
    }
    Some(Feature { lookups })
}

/// Reads a feature body with its glyphs still names.
///
/// The text is cut into tokens at white space and around `{`, `}`, `;` and
/// `'`; it is a feature body where the tokens are lookups one after the
/// other and nothing else.
pub fn parse_fea_feature_body_1(text: &str) -> (res: Result<Feature, String>)
    ensures
        match res {
            Ok(f) => parse_feature_spec(text@) == Some(f@),
            Err(_) => parse_feature_spec(text@) is None,
        },
{
    match read_feature(&chars_of(text)) {
        Some(f) => Ok(f),
        None => Err("the text is no feature body".to_owned()),
    }
}

/// The place of a context that a name stands for: the class of all letters,
/// or a glyph.
pub open spec fn key_elem_of_name(t: Seq<char>) -> Option<KeyElem> {
    if t == "@lc"@ {
        Some(KeyElem::AnyLetter)
    } else {
        match aug_glyph_of_name(t) {
            Some(g) => Some(KeyElem::Glyph(g)),
            None => None,
        }
    }
}

/// The glyphs that the names from number `i` on stand for, behind `acc`;
/// nothing where one of them is no glyph's name.
pub open spec fn glyphs_of_names(names: Seq<Seq<char>>, i: int, acc: Seq<AugGlyph>) -> Option<
    Seq<AugGlyph>,
>
    decreases names.len() - i,
{
    if i < 0 || i >= names.len() {
        Some(acc)
    } else {
        match aug_glyph_of_name(names[i]) {
            Some(g) => glyphs_of_names(names, i + 1, acc.push(g)),
            None => None,
        }
    }
}

/// The left-hand side of an entry, cut in three.
pub struct ParsedLHS {
    pub pre_key: Vec<KeyElem>,
    pub at_key: Vec<AugGlyph>,
    pub post_key: Vec<KeyElem>,
}

/// The mathematical value of a [`ParsedLHS`].
pub struct ParsedLHSView {
    pub pre_key: Seq<KeyElem>,
    pub at_key: Seq<AugGlyph>,
    pub post_key: Seq<KeyElem>,
}

impl View for ParsedLHS {
    type V = ParsedLHSView;

    open spec fn view(&self) -> ParsedLHSView {
        ParsedLHSView { pre_key: self.pre_key@, at_key: self.at_key@, post_key: self.post_key@ }
    }
}

/// Which part of the left-hand side an element falls in, from the part of
/// the element before it: the context before (0) lasts up to the first
/// marked element, the marked glyphs (1) up to the first unmarked one, and
/// the context behind (2) takes all the rest.
pub open spec fn lhs_part(before: int, prime: bool) -> int {
    if before == 0 {
        if prime {
            1
        } else {
            0
        }
    } else if before == 1 {
        if prime {
            1
        } else {
            2
        }
    } else {
        2
    }
}

/// The left-hand side that the elements from number `i` on make, behind
/// `acc`, when the element before them fell in part `before`; nothing where
/// a name stands for nothing. A marked glyph cannot be the class of all
/// letters.
pub open spec fn lhs_from(
    elems: Seq<LHSElementView>,
    i: int,
    before: int,
    acc: ParsedLHSView,
) -> Option<ParsedLHSView>
    decreases elems.len() - i,
{
    if i < 0 || i >= elems.len() {
        Some(acc)
    } else {
        let part = lhs_part(before, elems[i].prime);
        if part == 1 {
            match aug_glyph_of_name(elems[i].glyph) {
                Some(g) => lhs_from(
                    elems,
                    i + 1,
                    part,
                    ParsedLHSView {
                        pre_key: acc.pre_key,
                        at_key: acc.at_key.push(g),
                        post_key: acc.post_key,
                    },
                ),
                None => None,
            }
        } else {
            match key_elem_of_name(elems[i].glyph) {
                Some(k) => if part == 0 {
                    lhs_from(
                        elems,
                        i + 1,
                        part,
                        ParsedLHSView {
                            pre_key: acc.pre_key.push(k),
                            at_key: acc.at_key,
                            post_key: acc.post_key,
                        },
                    )
                } else {
                    lhs_from(
                        elems,
                        i + 1,
                        part,
                        ParsedLHSView {
                            pre_key: acc.pre_key,
                            at_key: acc.at_key,
                            post_key: acc.post_key.push(k),
                        },
                    )
                },
                None => None,
            }
        }
    }
}

/// The left-hand side that the elements `elems` make.
pub open spec fn lhs_spec(elems: Seq<LHSElementView>) -> Option<ParsedLHSView> {
    lhs_from(
        elems,
        0,
        0,
        ParsedLHSView { pre_key: Seq::empty(), at_key: Seq::empty(), post_key: Seq::empty() },
    )
}

/// The substitution that an entry stands for; nothing where one of its
/// names stands for nothing.
pub open spec fn entry_to_sub(e: LookupEntryView) -> Option<SubstitutionView> {
    match e {
        LookupEntryView::Ignore { lhs } => match lhs_spec(lhs) {
            Some(p) => Some(
                SubstitutionView {
                    pre_key: p.pre_key,
                    at_key: p.at_key,
                    post_key: p.post_key,
                    sub_content: SubContentView::Ignore,
                },
            ),
            None => None,
        },
        LookupEntryView::Sub { lhs, rhs } => match lhs_spec(lhs) {
            Some(p) => match glyphs_of_names(rhs, 0, Seq::empty()) {
                Some(gs) => Some(
                    SubstitutionView {
                        pre_key: p.pre_key,
                        at_key: p.at_key,
                        post_key: p.post_key,
                        sub_content: SubContentView::Sub(gs),
                    },
                ),
                None => None,
            },
            None => None,
        },
    }
}

/// The substitutions that the entries from number `i` on stand for, behind
/// `acc`.
pub open spec fn subs_of_entries(
    entries: Seq<LookupEntryView>,
    i: int,
    acc: Seq<SubstitutionView>,
) -> Option<Seq<SubstitutionView>>
    decreases entries.len() - i,
{
    if i < 0 || i >= entries.len() {
        Some(acc)
    } else {
        match entry_to_sub(entries[i]) {
            Some(sub) => subs_of_entries(entries, i + 1, acc.push(sub)),
            None => None,
        }
    }
}

/// The substitution list that the lookups from number `i` on stand for,
/// behind `acc`.
pub open spec fn list_of_feature(
    lookups: Seq<Seq<LookupEntryView>>,
    i: int,
    acc: Seq<Seq<SubstitutionView>>,
) -> Option<Seq<Seq<SubstitutionView>>>
    decreases lookups.len() - i,
{
    if i < 0 || i >= lookups.len() {
        Some(acc)
    } else {
        match subs_of_entries(lookups[i], 0, Seq::empty()) {
            Some(subs) => list_of_feature(lookups, i + 1, acc.push(subs)),
            None => None,
        }
    }
}

/// The substitution list that the text `s` writes, if it writes one: `s`
/// is a feature body, and each name in it stands for something.
pub open spec fn parse_body_spec(s: Seq<char>) -> Option<Seq<Seq<SubstitutionView>>> {
    match parse_feature_spec(s) {
        Some(f) => list_of_feature(f, 0, Seq::empty()),
        None => None,
    }
}

fn glyph_name_error(name: &Vec<char>) -> (res: String)
    ensures
        res@ == glyph_name_error_spec(name@),
{
    let mut msg = chars_of("Can't parse glyph name ");
    push_chars(&mut msg, name);
    string_of(&msg)
}

/// What is said of a name of a left-hand side that stands for nothing.
pub open spec fn glyph_name_error_spec(name: Seq<char>) -> Seq<char> {
    "Can't parse glyph name "@ + name
}

/// The first name from element `i` on that stands for nothing where it
/// stands, when the element before fell in part `before`; none where each
/// name stands for something.
pub open spec fn lhs_bad_name(elems: Seq<LHSElementView>, i: int, before: int) -> Option<Seq<char>>
    decreases elems.len() - i,
{
    if i < 0 || i >= elems.len() {
        None
    } else {
        let part = lhs_part(before, elems[i].prime);
        let known = if part == 1 {
            aug_glyph_of_name(elems[i].glyph) is Some
        } else {
            key_elem_of_name(elems[i].glyph) is Some
        };
        if known {
            lhs_bad_name(elems, i + 1, part)
        } else {
            Some(elems[i].glyph)
        }
    }
}

fn key_elem_of_chars(name: &Vec<char>) -> (res: Option<KeyElem>)
    ensures
        res == key_elem_of_name(name@),
{
    if chars_are(name, "@lc") {
        Some(KeyElem::AnyLetter)
    } else {
        match name_to_aug_glyph(name) {
            Some(g) => Some(KeyElem::Glyph(g)),
            None => None,
        }
    }
}

/// The place of a context that `name` stands for; where it stands for
/// none, the answer says so of the name.
pub fn parse_key_elem(name: &str) -> (res: Result<KeyElem, String>)
    ensures
        match res {
            Ok(k) => key_elem_of_name(name@) == Some(k),
            Err(msg) => key_elem_of_name(name@) is None && msg@ == glyph_name_error_spec(name@),
        },
{
    let v = chars_of(name);
    match key_elem_of_chars(&v) {
        Some(k) => Ok(k),
        None => Err(glyph_name_error(&v)),
    }
}

/// Cuts the left-hand side of an entry in three and reads its names.
/// Where a name stands for nothing, the answer says so of the first such
/// name.
pub fn parse_lhs(lhs: &Vec<LHSElement>) -> (res: Result<ParsedLHS, String>)
    ensures
        match res {
            Ok(p) => lhs_spec(mid::lhs_view(lhs@)) == Some(p@),
            Err(msg) => lhs_spec(mid::lhs_view(lhs@)) is None && (lhs_bad_name(
                mid::lhs_view(lhs@),
                0,
                0,
            ) matches Some(name) && msg@ == glyph_name_error_spec(name)),
        },
{
    let ghost elems = mid::lhs_view(lhs@);
    let mut pre_key: Vec<KeyElem> = Vec::new();
    let mut at_key: Vec<AugGlyph> = Vec::new();
    let mut post_key: Vec<KeyElem> = Vec::new();
    let mut state: u8 = 0;
    let mut i: usize = 0;
    while i < lhs.len()
        invariant
            i <= lhs.len(),
            elems == mid::lhs_view(lhs@),
            state <= 2,
            lhs_from(
                elems,
                i as int,
                state as int,
                ParsedLHSView { pre_key: pre_key@, at_key: at_key@, post_key: post_key@ },
            ) == lhs_spec(elems),
            lhs_bad_name(elems, i as int, state as int) == lhs_bad_name(elems, 0, 0),
        decreases lhs.len() - i,
    {
        let elem = &lhs[i];
        assert(elems[i as int] == elem@);
        if state == 0 {
            if elem.prime {
                state = 1;
            }
        } else if state == 1 {
            if !elem.prime {
                state = 2;
            }
        }
        let name = chars_of(elem.glyph.as_str());
        if state == 1 {
            match name_to_aug_glyph(&name) {
                Some(g) => {
                    at_key.push(g);
                },
                None => {
                    return Err(glyph_name_error(&name));
                },
            }
        } else {
            match key_elem_of_chars(&name) {
                Some(k) => {
                    if state == 0 {
                        pre_key.push(k);
                    } else {
                        post_key.push(k);
                    }
                },
                None => {
                    return Err(glyph_name_error(&name));
                },
            }
        }
        i += 1;
    }
    Ok(ParsedLHS { pre_key, at_key, post_key })
}

fn parse_rhs(rhs: &Vec<String>) -> (res: Result<Vec<AugGlyph>, String>)
    ensures
        match res {
            Ok(gs) => glyphs_of_names(mid::names_view(rhs@), 0, Seq::empty()) == Some(gs@),
            Err(_) => glyphs_of_names(mid::names_view(rhs@), 0, Seq::empty()) is None,
        },
{
    let ghost names = mid::names_view(rhs@);
    let mut gs: Vec<AugGlyph> = Vec::new();
    let mut i: usize = 0;
    while i < rhs.len()
        invariant
            i <= rhs.len(),
            names == mid::names_view(rhs@),
            glyphs_of_names(names, i as int, gs@) == glyphs_of_names(names, 0, Seq::empty()),
        decreases rhs.len() - i,
    {
        let name = chars_of(rhs[i].as_str());
        assert(names[i as int] == name@);
        match name_to_aug_glyph(&name) {
            Some(g) => {
                gs.push(g);
            },
            None => {
                let mut msg = chars_of("Cannot parse glyph ");
                push_chars(&mut msg, &name);
                return Err(string_of(&msg));
            },
        }
        i += 1;
    }
    Ok(gs)
}

fn entry_to_substitution(entry: &LookupEntry) -> (res: Result<Substitution, String>)
    ensures
        match res {
            Ok(sub) => entry_to_sub(entry@) == Some(sub@),
            Err(_) => entry_to_sub(entry@) is None,
        },
{
    match entry {
        LookupEntry::Ignore(ignore) => {
            match parse_lhs(&ignore.lhs) {
                Ok(p) => Ok(
                    Substitution {
                        pre_key: p.pre_key,
                        at_key: p.at_key,
                        post_key: p.post_key,
                        sub_content: SubContent::Ignore,
                    },
                ),
                Err(e) => Err(e),
            }
        },
        LookupEntry::Sub(sub) => {
            match parse_lhs(&sub.lhs) {
                Ok(p) => match parse_rhs(&sub.rhs) {
                    Ok(gs) => Ok(
                        Substitution {
                            pre_key: p.pre_key,
                            at_key: p.at_key,
                            post_key: p.post_key,
                            sub_content: SubContent::Sub(gs),
                        },
                    ),
                    Err(e) => Err(e),
                },
                Err(e) => Err(e),
            }
        },
    }
}

fn lookup_to_subs(lookup: &mid::Lookup) -> (res: Result<Lookup, String>)
    ensures
        match res {
            Ok(l) => subs_of_entries(lookup@, 0, Seq::empty()) == Some(l@),
            Err(_) => subs_of_entries(lookup@, 0, Seq::empty()) is None,
        },
{
    let mut substitutions: Vec<Substitution> = Vec::new();
    let mut i: usize = 0;
    assert(Lookup { substitutions }@ =~= Seq::<SubstitutionView>::empty());
    while i < lookup.entries.len()
        invariant
            i <= lookup.entries.len(),
            subs_of_entries(lookup@, i as int, Lookup { substitutions }@) == subs_of_entries(
                lookup@,
                0,
                Seq::empty(),
            ),
        decreases lookup.entries.len() - i,
    {
        assert(lookup@[i as int] == lookup.entries[i as int]@);
        match entry_to_substitution(&lookup.entries[i]) {
            Ok(sub) => {
                let ghost before = Lookup { substitutions }@;
                let ghost sv = sub@;
                substitutions.push(sub);
                assert(Lookup { substitutions }@ =~= before.push(sv));
            },
            Err(e) => {
                return Err(e);
            },
        }
        i += 1;
    }
    Ok(Lookup { substitutions })
}

/// Reads a substitution list from the body of a feature.
pub fn parse_fea_feature_body(text: &str) -> (res: Result<SubstitutionList, String>)
    ensures
        match res {
            Ok(l) => parse_body_spec(text@) == Some(l@),
            Err(_) => parse_body_spec(text@) is None,
        },
{
    let f1 = match parse_fea_feature_body_1(text) {
        Ok(f) => f,
        Err(e) => {
            return Err(e);
        },
    };
    let mut lookups: Vec<Lookup> = Vec::new();
    let mut i: usize = 0;
    assert(SubstitutionList { lookups }@ =~= Seq::<Seq<SubstitutionView>>::empty());
    while i < f1.lookups.len()
        invariant
            i <= f1.lookups.len(),
            parse_feature_spec(text@) == Some(f1@),
            list_of_feature(f1@, i as int, SubstitutionList { lookups }@) == list_of_feature(
                f1@,
                0,
                Seq::empty(),
            ),
        decreases f1.lookups.len() - i,
    {
        assert(f1@[i as int] == f1.lookups[i as int]@);
        match lookup_to_subs(&f1.lookups[i]) {
            Ok(l) => {
                let ghost before = SubstitutionList { lookups }@;
                let ghost lv = l@;
                lookups.push(l);
                assert(SubstitutionList { lookups }@ =~= before.push(lv));
            },
            Err(e) => {
                return Err(e);
            },
        }
        i += 1;
    }
    Ok(SubstitutionList { lookups })
}

} // verus!
