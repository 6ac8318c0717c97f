//! Rewrite rules in two halves: the anterior half puts a numbered
//! placeholder where its key stands, and the posterior half puts its
//! content where the placeholder stands.

use vstd::prelude::*;
use crate::glyphs::{
    AugGlyph, aug_decode_chars, aug_decode_spec, aug_encode_chars, aug_encode_spec,
    aug_is_letter_or_phonetic,
};
use crate::seqs::{copy_range, copy_vec, has_at, lemma_take_contains, splice, spliced};
use crate::substitutions2::{
    KeyElem, Lookup, SubContent, SubContentView, Substitution, SubstitutionList, SubstitutionView,
    lookups_view, subs_view,
};
use crate::text::{
    chars_of, count_char, count_of, decimal_digits, find_char, first_index, parse_u32,
    parse_u32_spec, push_decimal, push_lit, string_of, trim_chars, trim_spec,
};

verus! {

/// The posterior half of a rule: what stands in the end where the rule's
/// placeholder stood.
#[derive(Clone, Debug, Hash, PartialEq, Eq, PartialOrd, Ord)]
pub struct Posterior {
    pub content: Vec<AugGlyph>,
}

/// The anterior half of a rule: the glyphs `at_key`, between the contexts
/// `pre_key` and `post_key`, and whether the whole key must begin or end a
/// word.
#[derive(Clone, Debug, Hash, PartialEq, Eq, PartialOrd, Ord)]
pub struct Anterior {
    pub pre_key: Vec<AugGlyph>,
    pub at_key: Vec<AugGlyph>,
    pub post_key: Vec<AugGlyph>,
    pub at_start: bool,
    pub at_end: bool,
}

/// A rule: its two halves, and the number of the placeholder that joins
/// them.
#[derive(Clone, Debug, Hash, PartialEq, Eq, PartialOrd, Ord)]
pub struct HLSubstitution {
    pub anterior: Anterior,
    pub mid: u32,
    pub posterior: Posterior,
}

/// Rules in the order in which they were found.
pub struct HLSubstitutionList {
    pub substitutions: Vec<HLSubstitution>,
}

/// The mathematical value of an [`Anterior`].
pub struct AnteriorView {
    pub pre_key: Seq<AugGlyph>,
    pub at_key: Seq<AugGlyph>,
    pub post_key: Seq<AugGlyph>,
    pub at_start: bool,
    pub at_end: bool,
}

/// The mathematical value of an [`HLSubstitution`].
pub struct HLSubstitutionView {
    pub anterior: AnteriorView,
    pub mid: u32,
    pub posterior: Seq<AugGlyph>,
}

impl View for Posterior {
    type V = Seq<AugGlyph>;

    open spec fn view(&self) -> Seq<AugGlyph> {
        self.content@
    }
}

impl View for Anterior {
    type V = AnteriorView;

    open spec fn view(&self) -> AnteriorView {
        AnteriorView {
            pre_key: self.pre_key@,
            at_key: self.at_key@,
            post_key: self.post_key@,
            at_start: self.at_start,
            at_end: self.at_end,
        }
    }
}

impl View for HLSubstitution {
    type V = HLSubstitutionView;

    open spec fn view(&self) -> HLSubstitutionView {
        HLSubstitutionView { anterior: self.anterior@, mid: self.mid, posterior: self.posterior@ }
    }
}

impl View for HLSubstitutionList {
    type V = Seq<HLSubstitutionView>;

    open spec fn view(&self) -> Seq<HLSubstitutionView> {
        hl_view(self.substitutions@)
    }
}

/// What one glyph becomes when placeholder `mid` gives way to `content`.
pub open spec fn expand_one(g: AugGlyph, mid: u32, content: Seq<AugGlyph>) -> Seq<AugGlyph> {
    if g == AugGlyph::Synthetic(mid) {
        content
    } else {
        seq![g]
    }
}

/// What a word becomes when each placeholder `mid` in it gives way to
/// `content`. What came in with `content` is not looked at again.
pub open spec fn expand(w: Seq<AugGlyph>, mid: u32, content: Seq<AugGlyph>) -> Seq<AugGlyph>
    decreases w.len(),
{
    if w.len() == 0 {
        Seq::empty()
    } else {
        expand(w.drop_last(), mid, content) + expand_one(w.last(), mid, content)
    }
}

/// What a word becomes, and whether it changed, when from place `i` on each
/// stretch that reads `content` gives way to placeholder `mid`. The places
/// are tried from left to right, and the place behind a placeholder just
/// put in is the next one tried.
pub open spec fn deapply_from(w: Seq<AugGlyph>, i: int, content: Seq<AugGlyph>, mid: u32) -> (
    Seq<AugGlyph>,
    bool,
)
    decreases w.len() - i,
    when content.len() > 0 && i >= 0
{
    if i + content.len() > w.len() {
        (w, false)
    } else if has_at(w, i, content) {
        (
            deapply_from(
                spliced(w, i, i + content.len(), seq![AugGlyph::Synthetic(mid)]),
                i + 1,
                content,
                mid,
            ).0,
            true,
        )
    } else {
        deapply_from(w, i + 1, content, mid)
    }
}

/// Whether the anterior `a` matches in `w` with its `at_key` at `pos`: the
/// three keys stand there, and where the rule is bound to the start or the
/// end of a word, no letter stands next to the key on that side.
pub open spec fn anterior_matches_at(w: Seq<AugGlyph>, pos: int, a: AnteriorView) -> bool {
    let start = pos - a.pre_key.len();
    let end = pos + a.at_key.len() + a.post_key.len();
    &&& 0 <= start
    &&& end <= w.len()
    &&& !(a.at_start && 0 < start && aug_is_letter_or_phonetic(w[start - 1]))
    &&& !(a.at_end && end < w.len() && aug_is_letter_or_phonetic(w[end]))
    &&& has_at(w, start, a.pre_key)
    &&& has_at(w, pos, a.at_key)
    &&& has_at(w, pos + a.at_key.len(), a.post_key)
}

/// What a word becomes, and whether it changed, when from place `pos` on
/// the `at_key` of `a` gives way to placeholder `mid` wherever `a` matches.
/// The places are tried from left to right, and the place behind a
/// placeholder just put in is the next one tried.
pub open spec fn anterior_apply_from(w: Seq<AugGlyph>, pos: int, a: AnteriorView, mid: u32) -> (
    Seq<AugGlyph>,
    bool,
)
    decreases w.len() - pos,
    when a.at_key.len() > 0 && pos >= 0
{
    if pos >= w.len() {
        (w, false)
    } else if anterior_matches_at(w, pos, a) {
        (
            anterior_apply_from(
                spliced(w, pos, pos + a.at_key.len(), seq![AugGlyph::Synthetic(mid)]),
                pos + 1,
                a,
                mid,
            ).0,
            true,
        )
    } else {
        anterior_apply_from(w, pos + 1, a, mid)
    }
}

/// Whether the glyphs of `word` from `at` on read `key`.
pub fn glyphs_at(word: &Vec<AugGlyph>, at: usize, key: &Vec<AugGlyph>) -> (res: bool)
    ensures
        res == has_at(word@, at as int, key@),
{
    let n = word.len();
    if at > n || n - at < key.len() {
        return false;
    }
    let mut i: usize = 0;
    while i < key.len()
        invariant
            i <= key.len(),
            at + key.len() <= word.len(),
            forall|j: int| 0 <= j < i ==> word@[at + j] == key@[j],
        decreases key.len() - i,
    {
        if word[at + i] != key[i] {
            assert(word@.subrange(at as int, at + key.len())[i as int] != key@[i as int]);
            return false;
        }
        i += 1;
    }
    assert(word@.subrange(at as int, at + key.len()) =~= key@);
    true
}

impl Posterior {
    /// Puts placeholder `mid` wherever the content stands in `word`, and
    /// says whether it stood anywhere.
    pub fn deapply(&self, word: &mut Vec<AugGlyph>, mid: u32) -> (res: bool)
        requires
            self.content.len() > 0,
        ensures
            (final(word)@, res) == deapply_from(old(word)@, 0, self.content@, mid),
    {
        let k = self.content.len();
        let mut i: usize = 0;
        let mut any_mod = false;
        let marker = vec![AugGlyph::Synthetic(mid)];
        assert(marker@ =~= seq![AugGlyph::Synthetic(mid)]);
        while k <= word.len() && i <= word.len() - k
            invariant
                k == self.content.len(),
                k > 0,
                marker@ == seq![AugGlyph::Synthetic(mid)],
                deapply_from(word@, i as int, self.content@, mid).0 == deapply_from(
                    old(word)@,
                    0,
                    self.content@,
                    mid,
                ).0,
                (any_mod || deapply_from(word@, i as int, self.content@, mid).1) == deapply_from(
                    old(word)@,
                    0,
                    self.content@,
                    mid,
                ).1,
            decreases word.len() - i,
        {
            if glyphs_at(word, i, &self.content) {
                splice(word, i, i + k, &marker);
                any_mod = true;
            }
            i += 1;
        }
        any_mod
    }

    /// Puts the content wherever placeholder `mid` stands in `word`, and
    /// says whether it stood anywhere.
    pub fn apply(&self, word: &mut Vec<AugGlyph>, mid: u32) -> (res: bool)
        ensures
            final(word)@ == expand(old(word)@, mid, self.content@),
            res == old(word)@.contains(AugGlyph::Synthetic(mid)),
    {
        let mut i: usize = 0;
        let mut any_mod = false;
        let ghost from = old(word)@;
        let ghost mut k: int = 0;
        assert(from.take(0) =~= Seq::<AugGlyph>::empty());
        assert(word@ =~= expand(from.take(0), mid, self.content@) + from.skip(0));
        while i < word.len()
            invariant
                from == old(word)@,
                0 <= k <= from.len(),
                i == expand(from.take(k), mid, self.content@).len(),
                word@ == expand(from.take(k), mid, self.content@) + from.skip(k),
                any_mod == from.take(k).contains(AugGlyph::Synthetic(mid)),
            decreases from.len() - k,
        {
            let ghost done = expand(from.take(k), mid, self.content@);
            proof {
                assert(from.take(k + 1).drop_last() =~= from.take(k));
                assert(word@[i as int] == from[k]);
                lemma_take_contains(from, k, AugGlyph::Synthetic(mid));
            }
            if word[i] == AugGlyph::Synthetic(mid) {
                splice(word, i, i + 1, &self.content);
                any_mod = true;
                let n = word.len();
                proof {
                    assert(word@ =~= done + self.content@ + from.skip(k + 1));
                    assert(word@ =~= expand(from.take(k + 1), mid, self.content@) + from.skip(
                        k + 1,
                    ));
                    assert(i + self.content.len() <= n);
                }
                i += self.content.len();
            } else {
                proof {
                    assert(word@ =~= expand(from.take(k + 1), mid, self.content@) + from.skip(
                        k + 1,
                    ));
                }
                i += 1;
            }
            proof {
                k = k + 1;
            }
        }
        proof {
            assert(from.take(k) =~= from);
            assert(word@ =~= expand(from, mid, self.content@));
        }
        any_mod
    }

    /// The posterior as a substitution on placeholder `mid`.
    pub fn low_level(&self, mid: u32) -> (res: Substitution)
        ensures
            res@ == posterior_low_level_spec(self.content@, mid),
    {
        let at_key = vec![AugGlyph::Synthetic(mid)];
        assert(at_key@ =~= seq![AugGlyph::Synthetic(mid)]);
        Substitution {
            pre_key: Vec::new(),
            at_key,
            post_key: Vec::new(),
            sub_content: SubContent::Sub(copy_vec(&self.content)),
        }
    }
}

/// The posterior `content` as a substitution on placeholder `mid`.
pub open spec fn posterior_low_level_spec(content: Seq<AugGlyph>, mid: u32) -> SubstitutionView {
    SubstitutionView {
        pre_key: Seq::empty(),
        at_key: seq![AugGlyph::Synthetic(mid)],
        post_key: Seq::empty(),
        sub_content: SubContentView::Sub(content),
    }
}

/// Glyphs as places of a context, each asking for itself.
pub open spec fn as_key(gs: Seq<AugGlyph>) -> Seq<KeyElem> {
    gs.map_values(|g: AugGlyph| KeyElem::Glyph(g))
}

/// The anterior `a` as substitutions of one lookup, on placeholder `mid`.
///
/// Where the rule is bound to the start of a word, a first substitution
/// keeps the place where a letter stands before the key; where it is bound
/// to the end, a second keeps the place where a letter stands behind it.
/// The last one puts the placeholder.
pub open spec fn anterior_low_level_spec(a: AnteriorView, mid: u32) -> Seq<SubstitutionView> {
    let guard_post = as_key(a.at_key.skip(1)) + as_key(a.post_key);
    let start_guard = SubstitutionView {
        pre_key: seq![KeyElem::AnyLetter] + as_key(a.pre_key),
        at_key: seq![a.at_key[0]],
        post_key: guard_post,
        sub_content: SubContentView::Ignore,
    };
    let end_guard = SubstitutionView {
        pre_key: as_key(a.pre_key),
        at_key: seq![a.at_key[0]],
        post_key: guard_post.push(KeyElem::AnyLetter),
        sub_content: SubContentView::Ignore,
    };
    let main = SubstitutionView {
        pre_key: as_key(a.pre_key),
        at_key: a.at_key,
        post_key: as_key(a.post_key),
        sub_content: SubContentView::Sub(seq![AugGlyph::Synthetic(mid)]),
    };
    (if a.at_start {
        seq![start_guard]
    } else {
        Seq::empty()
    }) + (if a.at_end {
        seq![end_guard]
    } else {
        Seq::empty()
    }) + seq![main]
}

fn push_as_key(out: &mut Vec<KeyElem>, gs: &Vec<AugGlyph>, from: usize)
    requires
        from <= gs.len(),
    ensures
        final(out)@ == old(out)@ + as_key(gs@.skip(from as int)),
{
    let mut i: usize = from;
    assert(out@ =~= old(out)@ + as_key(gs@.subrange(from as int, from as int)));
    while i < gs.len()
        invariant
            from <= i <= gs.len(),
            out@ == old(out)@ + as_key(gs@.subrange(from as int, i as int)),
        decreases gs.len() - i,
    {
        out.push(KeyElem::Glyph(gs[i]));
        assert(out@ =~= old(out)@ + as_key(gs@.subrange(from as int, i + 1)));
        i += 1;
    }
    assert(gs@.subrange(from as int, gs.len() as int) =~= gs@.skip(from as int));
}

/// The anterior `a` as running text.
pub open spec fn anterior_encode_spec(a: AnteriorView) -> Seq<char> {
    (if a.at_start {
        "^"@
    } else {
        Seq::empty()
    }) + aug_encode_spec(a.pre_key) + "["@ + aug_encode_spec(a.at_key) + "]"@ + aug_encode_spec(
        a.post_key,
    ) + (if a.at_end {
        "$"@
    } else {
        Seq::empty()
    })
}

/// What reading `s` as an anterior gives.
///
/// A single `^` must stand first and binds the rule to the start of a word;
/// a single `$` must stand last and binds it to the end. In what is left,
/// one `[` is owed, and behind it one `]`; they cut the text into the context
/// before, the key, and the context behind, each of which is read as
/// running text.
pub open spec fn anterior_decode_spec(s: Seq<char>) -> Result<AnteriorView, Seq<char>> {
    let at_start = count_char(s, '^') == 1;
    let s1 = if at_start {
        s.skip(1)
    } else {
        s
    };
    let at_end = count_char(s1, '$') == 1;
    let s2 = if at_end {
        s1.drop_last()
    } else {
        s1
    };
    let open = first_index(s2, '[');
    let rest = s2.skip(open + 1);
    let close = first_index(rest, ']');
    if at_start && s[0] != '^' {
        Err("^ not at start"@)
    } else if at_end && s1.last() != '$' {
        Err("$ not at end"@)
    } else if count_char(s2, '[') != 1 {
        Err("No ["@)
    } else if count_char(rest, ']') != 1 {
        Err("No ]"@)
    } else {
        Ok(
            AnteriorView {
                pre_key: aug_decode_spec(s2.take(open)),
                at_key: aug_decode_spec(rest.take(close)),
                post_key: aug_decode_spec(rest.skip(close + 1)),
                at_start,
                at_end,
            },
        )
    }
}

/// A character that stands in `s` once at least stands at a place of it.
pub proof fn lemma_count_positive(s: Seq<char>, c: char)
    requires
        count_char(s, c) > 0,
    ensures
        s.len() > 0,
        first_index(s, c) < s.len(),
{
    lemma_first_index_none(s, c, 0);
    assert(s.skip(0) =~= s);
}

/// Where no `c` stands from `i` on, none is counted there.
pub proof fn lemma_first_index_none(s: Seq<char>, c: char, i: int)
    requires
        0 <= i <= s.len(),
    ensures
        crate::text::first_index_from(s, c, i) >= s.len() ==> count_char(s.skip(i), c) == 0,
        i <= crate::text::first_index_from(s, c, i) <= s.len(),
    decreases s.len() - i,
{
    if i < s.len() {
        lemma_first_index_none(s, c, i + 1);
        if s[i] != c {
            lemma_count_skip(s, c, i);
        }
    } else {
        assert(s.skip(i) =~= Seq::<char>::empty());
    }
}

/// What is counted from `i` on is the first `c` found there and what is
/// counted behind it.
pub proof fn lemma_count_from_first(s: Seq<char>, c: char, i: int)
    requires
        0 <= i <= s.len(),
    ensures
        count_char(s.skip(i), c) == if crate::text::first_index_from(s, c, i) < s.len() {
            1 + count_char(s.skip(crate::text::first_index_from(s, c, i) + 1), c)
        } else {
            0
        },
    decreases s.len() - i,
{
    if i < s.len() {
        lemma_count_skip(s, c, i);
        if s[i] != c {
            lemma_count_from_first(s, c, i + 1);
        }
    } else {
        assert(s.skip(i) =~= Seq::<char>::empty());
    }
}

/// Counting from `i` on is counting the character at `i` and then from
/// `i + 1` on.
pub proof fn lemma_count_skip(s: Seq<char>, c: char, i: int)
    requires
        0 <= i < s.len(),
    ensures
        count_char(s.skip(i), c) == count_char(s.skip(i + 1), c) + if s[i] == c {
            1nat
        } else {
            0nat
        },
    decreases s.len() - i,
{
    let t = s.skip(i);
    if t.len() == 1 {
        assert(t.drop_last() =~= Seq::<char>::empty());
        assert(s.skip(i + 1) =~= Seq::<char>::empty());
        assert(count_char(t.drop_last(), c) == 0);
    } else {
        assert(t.drop_last() =~= s.drop_last().skip(i));
        assert(s.skip(i + 1).drop_last() =~= s.drop_last().skip(i + 1));
        lemma_count_skip(s.drop_last(), c, i);
        assert(s.drop_last()[i] == s[i]);
        assert(t.last() == s.last());
        assert(s.skip(i + 1).last() == s.last());
    }
}

impl Anterior {
    /// Puts placeholder `mid` wherever the anterior matches in `word`, and
    /// says whether it matched anywhere.
    pub fn apply(&self, word: &mut Vec<AugGlyph>, mid: u32) -> (res: bool)
        requires
            self.at_key.len() > 0,
        ensures
            (final(word)@, res) == anterior_apply_from(old(word)@, 0, self@, mid),
    {
        let mut pos: usize = 0;
        let mut any_mod = false;
        let marker = vec![AugGlyph::Synthetic(mid)];
        assert(marker@ =~= seq![AugGlyph::Synthetic(mid)]);
        while pos < word.len()
            invariant
                self.at_key.len() > 0,
                marker@ == seq![AugGlyph::Synthetic(mid)],
                anterior_apply_from(word@, pos as int, self@, mid).0 == anterior_apply_from(
                    old(word)@,
                    0,
                    self@,
                    mid,
                ).0,
                (any_mod || anterior_apply_from(word@, pos as int, self@, mid).1)
                    == anterior_apply_from(old(word)@, 0, self@, mid).1,
            decreases word.len() - pos,
        {
            if self.matches_at(word, pos) {
                splice(word, pos, pos + self.at_key.len(), &marker);
                any_mod = true;
            }
            pos += 1;
        }
        any_mod
    }

    /// Whether the anterior matches in `word` with its `at_key` at `pos`.
    pub fn matches_at(&self, word: &Vec<AugGlyph>, pos: usize) -> (res: bool)
        ensures
            res == anterior_matches_at(word@, pos as int, self@),
    {
        let n = word.len();
        if pos < self.pre_key.len() {
            return false;
        }
        if pos > n || n - pos < self.at_key.len() || n - pos - self.at_key.len()
            < self.post_key.len() {
            return false;
        }
        let start = pos - self.pre_key.len();
        let end = pos + self.at_key.len() + self.post_key.len();
        if self.at_start && start > 0 && word[start - 1].is_letter_or_phonetic() {
            return false;
        }
        if self.at_end && end < n && word[end].is_letter_or_phonetic() {
            return false;
        }
        glyphs_at(word, start, &self.pre_key) && glyphs_at(word, pos, &self.at_key) && glyphs_at(
            word,
            pos + self.at_key.len(),
            &self.post_key,
        )
    }

    /// Reads an anterior from running text.
    pub fn decode(anterior_str: &str) -> (res: Result<Anterior, String>)
        ensures
            match res {
                Ok(a) => anterior_decode_spec(anterior_str@) == Ok::<AnteriorView, Seq<char>>(a@),
                Err(e) => anterior_decode_spec(anterior_str@) == Err::<AnteriorView, Seq<char>>(e@),
            },
    {
        Self::decode_chars(&chars_of(anterior_str))
    }

    /// Reads an anterior from the characters of running text.
    pub fn decode_chars(s: &Vec<char>) -> (res: Result<Anterior, String>)
        ensures
            match res {
                Ok(a) => anterior_decode_spec(s@) == Ok::<AnteriorView, Seq<char>>(a@),
                Err(e) => anterior_decode_spec(s@) == Err::<AnteriorView, Seq<char>>(e@),
            },
    {
        let at_start = count_of(s, '^') == 1;
        proof {
            if at_start {
                lemma_count_positive(s@, '^');
            }
        }
        if at_start && s[0] != '^' {
            return Err("^ not at start".to_owned());
        }
        let s1 = if at_start {
            let t = copy_range(s, 1, s.len());
            assert(s@.subrange(1, s.len() as int) =~= s@.skip(1));
            t
        } else {
            copy_vec(s)
        };
        let at_end = count_of(&s1, '$') == 1;
        proof {
            if at_end {
                lemma_count_positive(s1@, '$');
            }
        }
        if at_end && s1[s1.len() - 1] != '$' {
            return Err("$ not at end".to_owned());
        }
        let s2 = if at_end {
            let t = copy_range(&s1, 0, s1.len() - 1);
            assert(s1@.subrange(0, s1.len() - 1) =~= s1@.drop_last());
            t
        } else {
            s1
        };
        if count_of(&s2, '[') != 1 {
            return Err("No [".to_owned());
        }
        proof {
            lemma_count_positive(s2@, '[');
        }
        let open = find_char(&s2, '[');
        let rest = copy_range(&s2, open + 1, s2.len());
        assert(s2@.subrange(open + 1, s2.len() as int) =~= s2@.skip(open + 1));
        if count_of(&rest, ']') != 1 {
            return Err("No ]".to_owned());
        }
        proof {
            lemma_count_positive(rest@, ']');
        }
        let close = find_char(&rest, ']');
        let pre = copy_range(&s2, 0, open);
        let at = copy_range(&rest, 0, close);
        let post = copy_range(&rest, close + 1, rest.len());
        proof {
            assert(s2@.subrange(0, open as int) =~= s2@.take(open as int));
            assert(rest@.subrange(0, close as int) =~= rest@.take(close as int));
            assert(rest@.subrange(close + 1, rest.len() as int) =~= rest@.skip(close + 1));
        }
        Ok(
            Anterior {
                at_start,
                at_end,
                pre_key: aug_decode_chars(&pre),
                at_key: aug_decode_chars(&at),
                post_key: aug_decode_chars(&post),
            },
        )
    }

    /// The anterior as substitutions of one lookup, on placeholder `mid`.
    pub fn low_level(&self, mid: u32) -> (res: Vec<Substitution>)
        requires
            self.at_start || self.at_end ==> self.at_key.len() > 0,
        ensures
            subs_view(res@) == anterior_low_level_spec(self@, mid),
    {
        let mut working: Vec<Substitution> = Vec::new();
        let ghost mut done: Seq<SubstitutionView> = Seq::empty();
        if self.at_start {
            let mut pre_key: Vec<KeyElem> = Vec::new();
            pre_key.push(KeyElem::AnyLetter);
            push_as_key(&mut pre_key, &self.pre_key, 0);
            let mut post_key: Vec<KeyElem> = Vec::new();
            push_as_key(&mut post_key, &self.at_key, 1);
            push_as_key(&mut post_key, &self.post_key, 0);
            let at_key = vec![self.at_key[0]];
            proof {
                assert(self.pre_key@.skip(0) =~= self.pre_key@);
                assert(self.post_key@.skip(0) =~= self.post_key@);
                assert(pre_key@ =~= seq![KeyElem::AnyLetter] + as_key(self.pre_key@));
                assert(post_key@ =~= as_key(self.at_key@.skip(1)) + as_key(self.post_key@));
                assert(at_key@ =~= seq![self.at_key@[0]]);
            }
            let sub = Substitution { pre_key, at_key, post_key, sub_content: SubContent::Ignore };
            proof {
                done = done.push(sub@);
            }
            working.push(sub);
        }
        if self.at_end {
            let mut pre_key: Vec<KeyElem> = Vec::new();
            push_as_key(&mut pre_key, &self.pre_key, 0);
            let mut post_key: Vec<KeyElem> = Vec::new();
            push_as_key(&mut post_key, &self.at_key, 1);
            push_as_key(&mut post_key, &self.post_key, 0);
            post_key.push(KeyElem::AnyLetter);
            let at_key = vec![self.at_key[0]];
            proof {
                assert(self.pre_key@.skip(0) =~= self.pre_key@);
                assert(self.post_key@.skip(0) =~= self.post_key@);
                assert(pre_key@ =~= as_key(self.pre_key@));
                assert(post_key@ =~= (as_key(self.at_key@.skip(1)) + as_key(self.post_key@)).push(
                    KeyElem::AnyLetter,
                ));
                assert(at_key@ =~= seq![self.at_key@[0]]);
            }
            let sub = Substitution { pre_key, at_key, post_key, sub_content: SubContent::Ignore };
            proof {
                done = done.push(sub@);
            }
            working.push(sub);
        }
        let mut pre_key: Vec<KeyElem> = Vec::new();
        push_as_key(&mut pre_key, &self.pre_key, 0);
        let mut post_key: Vec<KeyElem> = Vec::new();
        push_as_key(&mut post_key, &self.post_key, 0);
        let marker = vec![AugGlyph::Synthetic(mid)];
        proof {
            assert(self.pre_key@.skip(0) =~= self.pre_key@);
            assert(self.post_key@.skip(0) =~= self.post_key@);
            assert(pre_key@ =~= as_key(self.pre_key@));
            assert(post_key@ =~= as_key(self.post_key@));
            assert(marker@ =~= seq![AugGlyph::Synthetic(mid)]);
        }
        let sub = Substitution {
            pre_key,
            at_key: copy_vec(&self.at_key),
            post_key,
            sub_content: SubContent::Sub(marker),
        };
        proof {
            done = done.push(sub@);
        }
        working.push(sub);
        proof {
            assert(subs_view(working@) =~= done);
            assert(done =~= anterior_low_level_spec(self@, mid));
        }
        working
    }

    /// The characters of the anterior as running text.
    pub fn encode_chars(&self) -> (res: Vec<char>)
        ensures
            res@ == anterior_encode_spec(self@),
    {
        let mut out: Vec<char> = Vec::new();
        if self.at_start {
            push_lit(&mut out, "^");
        }
        let mut pre = aug_encode_chars(&self.pre_key);
        out.append(&mut pre);
        push_lit(&mut out, "[");
        let mut at = aug_encode_chars(&self.at_key);
        out.append(&mut at);
        push_lit(&mut out, "]");
        let mut post = aug_encode_chars(&self.post_key);
        out.append(&mut post);
        if self.at_end {
            push_lit(&mut out, "$");
        }
        assert(out@ =~= anterior_encode_spec(self@));
        out
    }

    /// Writes the anterior as running text.
    pub fn encode(&self) -> (res: String)
        ensures
            res@ == anterior_encode_spec(self@),
    {
        string_of(&self.encode_chars())
    }
}

/// What one rule makes of a word, and whether it changed it: the anterior
/// half is applied, and the posterior half only where the anterior half
/// matched somewhere.
pub open spec fn hl_apply_spec(w: Seq<AugGlyph>, s: HLSubstitutionView) -> (Seq<AugGlyph>, bool) {
    let first = anterior_apply_from(w, 0, s.anterior, s.mid);
    if first.1 {
        (expand(first.0, s.mid, s.posterior), first.0.contains(AugGlyph::Synthetic(s.mid)))
    } else {
        (w, false)
    }
}

/// An anterior that matches nowhere leaves the word as it is.
pub proof fn lemma_anterior_no_hit(w: Seq<AugGlyph>, pos: int, a: AnteriorView, mid: u32)
    requires
        a.at_key.len() > 0,
        0 <= pos,
    ensures
        !anterior_apply_from(w, pos, a, mid).1 ==> anterior_apply_from(w, pos, a, mid).0 == w,
    decreases w.len() - pos,
{
    if pos < w.len() && !anterior_matches_at(w, pos, a) {
        lemma_anterior_no_hit(w, pos + 1, a, mid);
    }
}

/// A rule as running text: the anterior, the number of the placeholder and
/// the posterior, with arrows between them.
pub open spec fn hl_encode_spec(s: HLSubstitutionView) -> Seq<char> {
    anterior_encode_spec(s.anterior) + "\u{2192}"@ + decimal_digits(s.mid as nat) + "\u{2192}"@
        + aug_encode_spec(s.posterior)
}

/// What reading `s` as a rule gives: two arrows are owed, which cut the
/// text into the anterior, the number of the placeholder, and the
/// posterior.
pub open spec fn hl_decode_spec(s: Seq<char>) -> Result<HLSubstitutionView, Seq<char>> {
    let first = first_index(s, '\u{2192}');
    let rest = s.skip(first + 1);
    let second = first_index(rest, '\u{2192}');
    if count_char(s, '\u{2192}') != 2 {
        Err("Doesn't have 3 parts separated by \u{2192}"@)
    } else {
        match anterior_decode_spec(s.take(first)) {
            Err(e) => Err(e),
            Ok(anterior) => match parse_u32_spec(rest.take(second)) {
                None => Err("The placeholder's number is no number"@),
                Some(mid) => Ok(
                    HLSubstitutionView {
                        anterior,
                        mid,
                        posterior: aug_decode_spec(rest.skip(second + 1)),
                    },
                ),
            },
        }
    }
}

impl HLSubstitution {
    /// The anterior half as substitutions of one lookup.
    pub fn anterior_low_level(&self) -> (res: Vec<Substitution>)
        requires
            self.anterior.at_start || self.anterior.at_end ==> self.anterior.at_key.len() > 0,
        ensures
            subs_view(res@) == anterior_low_level_spec(self@.anterior, self.mid),
    {
        self.anterior.low_level(self.mid)
    }

    /// The posterior half as a substitution.
    pub fn posterior_low_level(&self) -> (res: Substitution)
        ensures
            res@ == posterior_low_level_spec(self@.posterior, self.mid),
    {
        self.posterior.low_level(self.mid)
    }

    /// Applies the anterior half to `word`, and says whether it matched.
    pub fn apply_anterior(&self, word: &mut Vec<AugGlyph>) -> (res: bool)
        requires
            self.anterior.at_key.len() > 0,
        ensures
            (final(word)@, res) == anterior_apply_from(old(word)@, 0, self@.anterior, self.mid),
    {
        self.anterior.apply(word, self.mid)
    }

    /// Applies the posterior half to `word`, and says whether the
    /// placeholder stood in it.
    pub fn apply_posterior(&self, word: &mut Vec<AugGlyph>) -> (res: bool)
        ensures
            final(word)@ == expand(old(word)@, self.mid, self@.posterior),
            res == old(word)@.contains(AugGlyph::Synthetic(self.mid)),
    {
        self.posterior.apply(word, self.mid)
    }

    /// Puts the placeholder wherever the posterior's content stands in
    /// `word`, and says whether it stood anywhere.
    pub fn deapply_posterior(&self, word: &mut Vec<AugGlyph>) -> (res: bool)
        requires
            self.posterior.content.len() > 0,
        ensures
            (final(word)@, res) == deapply_from(old(word)@, 0, self@.posterior, self.mid),
    {
        self.posterior.deapply(word, self.mid)
    }

    /// Applies the rule to `word`, and says whether it changed it.
    pub fn apply(&self, word: &mut Vec<AugGlyph>) -> (res: bool)
        requires
            self.anterior.at_key.len() > 0,
        ensures
            (final(word)@, res) == hl_apply_spec(old(word)@, self@),
    {
        proof {
            lemma_anterior_no_hit(old(word)@, 0, self@.anterior, self.mid);
        }
        if self.apply_anterior(word) {
            self.apply_posterior(word)
        } else {
            false
        }
    }

    /// What the rule makes of `word`, where it changes it.
    pub fn apply_copied(&self, word: &Vec<AugGlyph>) -> (res: Option<Vec<AugGlyph>>)
        requires
            self.anterior.at_key.len() > 0,
        ensures
            match res {
                Some(w) => hl_apply_spec(word@, self@) == (w@, true),
                None => !hl_apply_spec(word@, self@).1,
            },
    {
        let mut word = copy_vec(word);
        if self.apply_anterior(&mut word) && self.apply_posterior(&mut word) {
            Some(word)
        } else {
            None
        }
    }

    /// The characters of the rule as running text.
    pub fn encode_chars(&self) -> (res: Vec<char>)
        ensures
            res@ == hl_encode_spec(self@),
    {
        let mut out = self.anterior.encode_chars();
        push_lit(&mut out, "\u{2192}");
        push_decimal(&mut out, self.mid as u64);
        push_lit(&mut out, "\u{2192}");
        let mut post = aug_encode_chars(&self.posterior.content);
        out.append(&mut post);
        assert(out@ =~= hl_encode_spec(self@));
        out
    }

    /// Writes the rule as running text.
    pub fn encode(&self) -> (res: String)
        ensures
            res@ == hl_encode_spec(self@),
    {
        string_of(&self.encode_chars())
    }

    /// Reads a rule from running text.
    pub fn decode(text: &str) -> (res: Result<HLSubstitution, String>)
        ensures
            match res {
                Ok(s) => hl_decode_spec(text@) == Ok::<HLSubstitutionView, Seq<char>>(s@),
                Err(e) => hl_decode_spec(text@) == Err::<HLSubstitutionView, Seq<char>>(e@),
            },
    {
        Self::decode_chars(&chars_of(text))
    }

    /// Reads a rule from the characters of running text.
    pub fn decode_chars(s: &Vec<char>) -> (res: Result<HLSubstitution, String>)
        ensures
            match res {
                Ok(r) => hl_decode_spec(s@) == Ok::<HLSubstitutionView, Seq<char>>(r@),
                Err(e) => hl_decode_spec(s@) == Err::<HLSubstitutionView, Seq<char>>(e@),
            },
    {
        if count_of(s, '\u{2192}') != 2 {
            return Err("Doesn't have 3 parts separated by \u{2192}".to_owned());
        }
        proof {
            lemma_count_positive(s@, '\u{2192}');
        }
        let first = find_char(s, '\u{2192}');
        let rest = copy_range(s, first + 1, s.len());
        let second = find_char(&rest, '\u{2192}');
        let anterior_str = copy_range(s, 0, first);
        let mid_str_end = second;
        proof {
            assert(s@.subrange(first + 1, s.len() as int) =~= s@.skip(first + 1));
            assert(s@.subrange(0, first as int) =~= s@.take(first as int));
            assert(rest@.subrange(0, second as int) =~= rest@.take(second as int));
        }
        let anterior = match Anterior::decode_chars(&anterior_str) {
            Ok(a) => a,
            Err(e) => {
                return Err(e);
            },
        };
        let mid = match parse_u32(&rest, 0, mid_str_end) {
            Some(m) => m,
            None => {
                return Err("The placeholder's number is no number".to_owned());
            },
        };
        proof {
            lemma_count_from_first(s@, '\u{2192}', 0);
            assert(s@.skip(0) =~= s@);
            lemma_count_positive(rest@, '\u{2192}');
        }
        let post = copy_range(&rest, second + 1, rest.len());
        assert(rest@.subrange(second + 1, rest.len() as int) =~= rest@.skip(second + 1));
        Ok(HLSubstitution { anterior, mid, posterior: Posterior { content: aug_decode_chars(&post) } })
    }
}

/// The placeholder numbers of the rules `subs`, in order.
pub open spec fn mids(subs: Seq<HLSubstitutionView>) -> Seq<u32> {
    subs.map_values(|s: HLSubstitutionView| s.mid)
}

/// Whether every placeholder among `gs` has its number in `seen`.
pub open spec fn refs_known(gs: Seq<AugGlyph>, seen: Seq<u32>) -> bool {
    forall|k: int|
        0 <= k < gs.len() ==> match #[trigger] gs[k] {
            AugGlyph::Synthetic(n) => seen.contains(n),
            AugGlyph::Real(_) => true,
        }
}

/// What is wrong with the rule `s` behind rules whose placeholders are
/// `seen`, if anything is: its own placeholder is taken, or it speaks of a
/// placeholder that no earlier rule has.
pub open spec fn back_ref_error(s: HLSubstitutionView, seen: Seq<u32>) -> Option<Seq<char>> {
    if seen.contains(s.mid) {
        Some("Already contains mid"@)
    } else if !(refs_known(s.anterior.pre_key, seen) && refs_known(s.anterior.at_key, seen)
        && refs_known(s.anterior.post_key, seen) && refs_known(s.posterior, seen)) {
        Some("Missing back-ref"@)
    } else {
        None
    }
}

/// What checking the rules from number `i` on gives: the first thing wrong
/// with one of them, or nothing.
pub open spec fn check_back_refs_from(subs: Seq<HLSubstitutionView>, i: int) -> Result<
    (),
    Seq<char>,
>
    decreases subs.len() - i,
{
    if i < 0 || i >= subs.len() {
        Ok(())
    } else {
        match back_ref_error(subs[i], mids(subs.take(i))) {
            Some(e) => Err(e),
            None => check_back_refs_from(subs, i + 1),
        }
    }
}

/// Whether each rule of a list has something to match.
pub open spec fn hl_list_wf(subs: Seq<HLSubstitutionView>) -> bool {
    forall|i: int| 0 <= i < subs.len() ==> (#[trigger] subs[i]).anterior.at_key.len() > 0
}

/// What the anterior halves of the rules from number `i` on make of a
/// word, one after the other, and whether one of them matched.
pub open spec fn anteriors_from(w: Seq<AugGlyph>, subs: Seq<HLSubstitutionView>, i: int) -> (
    Seq<AugGlyph>,
    bool,
)
    decreases subs.len() - i,
{
    if i < 0 || i >= subs.len() {
        (w, false)
    } else {
        let here = anterior_apply_from(w, 0, subs[i].anterior, subs[i].mid);
        let rest = anteriors_from(here.0, subs, i + 1);
        (rest.0, here.1 || rest.1)
    }
}

/// What the posterior halves of the first `i` rules make of a word, the
/// last of them first, and whether one of their placeholders stood in it.
pub open spec fn posteriors_down(w: Seq<AugGlyph>, subs: Seq<HLSubstitutionView>, i: int) -> (
    Seq<AugGlyph>,
    bool,
)
    decreases i,
{
    if i <= 0 || i > subs.len() {
        (w, false)
    } else {
        let s = subs[i - 1];
        let rest = posteriors_down(expand(w, s.mid, s.posterior), subs, i - 1);
        (rest.0, w.contains(AugGlyph::Synthetic(s.mid)) || rest.1)
    }
}

/// What a list of rules makes of a word, and whether it changed it: all
/// the anterior halves in order, then all the posterior halves in reverse.
pub open spec fn list_apply_spec(w: Seq<AugGlyph>, subs: Seq<HLSubstitutionView>) -> (
    Seq<AugGlyph>,
    bool,
) {
    let first = anteriors_from(w, subs, 0);
    let second = posteriors_down(first.0, subs, subs.len() as int);
    (second.0, first.1 || second.1)
}

/// Whether one of `gs` stands in `pool`.
pub open spec fn any_in(gs: Seq<AugGlyph>, pool: Seq<AugGlyph>) -> bool {
    exists|k: int| 0 <= k < gs.len() && pool.contains(#[trigger] gs[k])
}

/// Whether one of `gs` is a placeholder whose number stands in `pool`.
pub open spec fn any_placeholder_in(gs: Seq<AugGlyph>, pool: Seq<u32>) -> bool {
    exists|k: int|
        0 <= k < gs.len() && match #[trigger] gs[k] {
            AugGlyph::Synthetic(n) => pool.contains(n),
            AugGlyph::Real(_) => false,
        }
}

/// Whether one of `gs` is no letter.
pub open spec fn any_non_letter(gs: Seq<AugGlyph>) -> bool {
    exists|k: int| 0 <= k < gs.len() && !aug_is_letter_or_phonetic(#[trigger] gs[k])
}

/// Whether the rule `s` replaces or puts a glyph that is no letter.
pub open spec fn has_non_letters(s: HLSubstitutionView) -> bool {
    any_non_letter(s.anterior.at_key) || any_non_letter(s.posterior)
}

/// The lookup of anterior halves that is being filled, the lookups that are
/// full, and what is known of the rules in the one being filled.
pub struct Grouping {
    /// The lookups that are full.
    pub done: Seq<Seq<SubstitutionView>>,
    /// The lookup that is being filled.
    pub cur: Seq<SubstitutionView>,
    /// The glyphs of the keys and contexts of its rules.
    pub problem: Seq<AugGlyph>,
    /// The glyphs of the keys of its rules.
    pub at_problem: Seq<AugGlyph>,
    /// Whether one of its rules replaces or puts a glyph that is no letter.
    pub non_letters: bool,
    /// Whether one of its rules is bound to the start or end of a word.
    pub start_or_end: bool,
    /// The placeholders of its rules.
    pub produced: Seq<u32>,
}

/// Whether the anterior half of `s` cannot stand in the lookup that is
/// being filled, because within one lookup it would not see what the rules
/// before it have done, or they would be kept from what they should see.
pub open spec fn must_break(s: HLSubstitutionView, g: Grouping) -> bool {
    let a = s.anterior;
    ||| any_in(a.at_key, g.problem)
    ||| any_in(a.pre_key, g.at_problem)
    ||| any_in(a.post_key, g.at_problem)
    ||| any_placeholder_in(a.at_key, g.produced)
    ||| any_placeholder_in(a.pre_key, g.produced)
    ||| any_placeholder_in(a.post_key, g.produced)
    ||| (g.non_letters && (a.at_start || a.at_end))
    ||| (g.start_or_end && has_non_letters(s))
}

/// The lookups `done` with the lookup `cur` behind them, where it is not
/// empty.
pub open spec fn flush_group(done: Seq<Seq<SubstitutionView>>, cur: Seq<SubstitutionView>) -> Seq<
    Seq<SubstitutionView>,
> {
    if cur.len() > 0 {
        done.push(cur)
    } else {
        done
    }
}

/// A grouping with an empty lookup to fill behind the lookups `done`.
pub open spec fn fresh_group(done: Seq<Seq<SubstitutionView>>) -> Grouping {
    Grouping {
        done,
        cur: Seq::empty(),
        problem: Seq::empty(),
        at_problem: Seq::empty(),
        non_letters: false,
        start_or_end: false,
        produced: Seq::empty(),
    }
}

/// The grouping after the anterior half of `s` has been put in: into a
/// fresh lookup where it cannot stand in the one being filled.
pub open spec fn anterior_step(g: Grouping, s: HLSubstitutionView) -> Grouping {
    let g1 = if must_break(s, g) {
        fresh_group(flush_group(g.done, g.cur))
    } else {
        g
    };
    let a = s.anterior;
    Grouping {
        done: g1.done,
        cur: g1.cur + anterior_low_level_spec(a, s.mid),
        problem: g1.problem + a.at_key + a.pre_key + a.post_key,
        at_problem: g1.at_problem + a.at_key,
        non_letters: g1.non_letters || has_non_letters(s),
        start_or_end: g1.start_or_end || a.at_start || a.at_end,
        produced: g1.produced.push(s.mid),
    }
}

/// The lookups that the anterior halves of the rules from number `i` on
/// fill, from the grouping `g` on.
pub open spec fn anterior_groups(subs: Seq<HLSubstitutionView>, i: int, g: Grouping) -> Seq<
    Seq<SubstitutionView>,
>
    decreases subs.len() - i,
{
    if i < 0 || i >= subs.len() {
        flush_group(g.done, g.cur)
    } else {
        anterior_groups(subs, i + 1, anterior_step(g, subs[i]))
    }
}

/// The numbers of the placeholders among `gs`, in order.
pub open spec fn placeholders(gs: Seq<AugGlyph>) -> Seq<u32>
    decreases gs.len(),
{
    if gs.len() == 0 {
        Seq::empty()
    } else {
        match gs.last() {
            AugGlyph::Synthetic(n) => placeholders(gs.drop_last()).push(n),
            AugGlyph::Real(_) => placeholders(gs.drop_last()),
        }
    }
}

/// The lookup of posterior halves that is being filled, the lookups that
/// are full, and the placeholders that the rules in the one being filled
/// put.
pub struct PostGrouping {
    pub done: Seq<Seq<SubstitutionView>>,
    pub cur: Seq<SubstitutionView>,
    pub problem: Seq<u32>,
}

/// The grouping after the posterior half of `s` has been put in: into a
/// fresh lookup where a rule of the one being filled puts the placeholder
/// of `s`.
pub open spec fn posterior_step(g: PostGrouping, s: HLSubstitutionView) -> PostGrouping {
    let g1 = if g.problem.contains(s.mid) {
        PostGrouping {
            done: flush_group(g.done, g.cur),
            cur: Seq::empty(),
            problem: Seq::empty(),
        }
    } else {
        g
    };
    PostGrouping {
        done: g1.done,
        cur: g1.cur.push(posterior_low_level_spec(s.posterior, s.mid)),
        problem: g1.problem + placeholders(s.posterior),
    }
}

/// The lookups that the posterior halves of the first `i` rules fill, the
/// last of them first, from the grouping `g` on.
pub open spec fn posterior_groups(subs: Seq<HLSubstitutionView>, i: int, g: PostGrouping) -> Seq<
    Seq<SubstitutionView>,
>
    decreases i,
{
    if i <= 0 || i > subs.len() {
        flush_group(g.done, g.cur)
    } else {
        posterior_groups(subs, i - 1, posterior_step(g, subs[i - 1]))
    }
}

/// A list of rules as lookups of substitutions: the anterior halves in
/// order, then the posterior halves in reverse, each run cut into lookups
/// wherever a rule cannot stand in one lookup with those before it.
pub open spec fn low_level_spec(subs: Seq<HLSubstitutionView>) -> Seq<Seq<SubstitutionView>> {
    anterior_groups(subs, 0, fresh_group(Seq::empty())) + posterior_groups(
        subs,
        subs.len() as int,
        PostGrouping { done: Seq::empty(), cur: Seq::empty(), problem: Seq::empty() },
    )
}

/// Whether the anterior half of each rule can be written as substitutions:
/// one that is bound to the start or the end of a word has a key.
pub open spec fn low_level_ready(subs: Seq<HLSubstitutionView>) -> bool {
    forall|i: int|
        0 <= i < subs.len() ==> ((#[trigger] subs[i]).anterior.at_start || subs[i].anterior.at_end
            ==> subs[i].anterior.at_key.len() > 0)
}

/// What reading one line gives behind the rules `acc`: nothing new where
/// the line is blank, and else the rule that it writes.
pub open spec fn line_step(line: Seq<char>, acc: Seq<HLSubstitutionView>) -> Result<
    Seq<HLSubstitutionView>,
    Seq<char>,
> {
    let t = trim_spec(line);
    if t.len() == 0 {
        Ok(acc)
    } else {
        match hl_decode_spec(t) {
            Ok(r) => Ok(acc.push(r)),
            Err(e) => Err(e),
        }
    }
}

/// What reading the text `s` from place `i` on gives, line by line, behind
/// the rules `acc` and the begun line `cur`.
pub open spec fn lines_from(
    s: Seq<char>,
    i: int,
    cur: Seq<char>,
    acc: Seq<HLSubstitutionView>,
) -> Result<Seq<HLSubstitutionView>, Seq<char>>
    decreases s.len() - i,
{
    if i < 0 || i >= s.len() {
        line_step(cur, acc)
    } else if s[i] == '\n' {
        match line_step(cur, acc) {
            Ok(next) => lines_from(s, i + 1, Seq::empty(), next),
            Err(e) => Err(e),
        }
    } else {
        lines_from(s, i + 1, cur.push(s[i]), acc)
    }
}

/// What reading the text `s` as a list of rules gives: one rule on each
/// line that is not blank, and the list checked for its back references.
pub open spec fn list_decode_spec(s: Seq<char>) -> Result<Seq<HLSubstitutionView>, Seq<char>> {
    match lines_from(s, 0, Seq::empty(), Seq::empty()) {
        Ok(subs) => match check_back_refs_from(subs, 0) {
            Ok(_) => Ok(subs),
            Err(e) => Err(e),
        },
        Err(e) => Err(e),
    }
}

fn has_number(pool: &Vec<u32>, x: u32) -> (res: bool)
    ensures
        res == pool@.contains(x),
{
    let mut i: usize = 0;
    while i < pool.len()
        invariant
            i <= pool.len(),
            forall|j: int| 0 <= j < i ==> pool@[j] != x,
        decreases pool.len() - i,
    {
        if pool[i] == x {
            return true;
        }
        i += 1;
    }
    false
}

fn has_glyph(pool: &Vec<AugGlyph>, x: AugGlyph) -> (res: bool)
    ensures
        res == pool@.contains(x),
{
    let mut i: usize = 0;
    while i < pool.len()
        invariant
            i <= pool.len(),
            forall|j: int| 0 <= j < i ==> pool@[j] != x,
        decreases pool.len() - i,
    {
        if pool[i] == x {
            return true;
        }
        i += 1;
    }
    false
}

fn all_refs_known(gs: &Vec<AugGlyph>, seen: &Vec<u32>) -> (res: bool)
    ensures
        res == refs_known(gs@, seen@),
{
    let mut i: usize = 0;
    while i < gs.len()
        invariant
            i <= gs.len(),
            refs_known(gs@.take(i as int), seen@),
        decreases gs.len() - i,
    {
        match gs[i] {
            AugGlyph::Synthetic(n) => {
                if !has_number(seen, n) {
                    return false;
                }
            },
            AugGlyph::Real(_) => {},
        }
        assert forall|k: int| 0 <= k < i + 1 implies match #[trigger] gs@.take(i + 1)[k] {
            AugGlyph::Synthetic(n) => seen@.contains(n),
            AugGlyph::Real(_) => true,
        } by {
            if k < i {
                assert(gs@.take(i as int)[k] == gs@.take(i + 1)[k]);
            }
        }
        i += 1;
    }
    assert(gs@.take(gs.len() as int) =~= gs@);
    true
}

fn some_in(gs: &Vec<AugGlyph>, pool: &Vec<AugGlyph>) -> (res: bool)
    ensures
        res == any_in(gs@, pool@),
{
    let mut i: usize = 0;
    while i < gs.len()
        invariant
            i <= gs.len(),
            forall|k: int| 0 <= k < i ==> !pool@.contains(#[trigger] gs@[k]),
        decreases gs.len() - i,
    {
        if has_glyph(pool, gs[i]) {
            return true;
        }
        i += 1;
    }
    false
}

fn some_placeholder_in(gs: &Vec<AugGlyph>, pool: &Vec<u32>) -> (res: bool)
    ensures
        res == any_placeholder_in(gs@, pool@),
{
    let mut i: usize = 0;
    while i < gs.len()
        invariant
            i <= gs.len(),
            forall|k: int|
                0 <= k < i ==> !(match #[trigger] gs@[k] {
                    AugGlyph::Synthetic(n) => pool@.contains(n),
                    AugGlyph::Real(_) => false,
                }),
        decreases gs.len() - i,
    {
        match gs[i] {
            AugGlyph::Synthetic(n) => {
                if has_number(pool, n) {
                    return true;
                }
            },
            AugGlyph::Real(_) => {},
        }
        i += 1;
    }
    false
}

fn some_non_letter(gs: &Vec<AugGlyph>) -> (res: bool)
    ensures
        res == any_non_letter(gs@),
{
    let mut i: usize = 0;
    while i < gs.len()
        invariant
            i <= gs.len(),
            forall|k: int| 0 <= k < i ==> aug_is_letter_or_phonetic(#[trigger] gs@[k]),
        decreases gs.len() - i,
    {
        if !gs[i].is_letter_or_phonetic() {
            return true;
        }
        i += 1;
    }
    false
}

fn push_glyphs(out: &mut Vec<AugGlyph>, gs: &Vec<AugGlyph>)
    ensures
        final(out)@ == old(out)@ + gs@,
{
    let mut copy = copy_vec(gs);
    out.append(&mut copy);
}

fn push_placeholders(out: &mut Vec<u32>, gs: &Vec<AugGlyph>)
    ensures
        final(out)@ == old(out)@ + placeholders(gs@),
{
    let mut i: usize = 0;
    assert(gs@.take(0) =~= Seq::<AugGlyph>::empty());
    assert(out@ =~= old(out)@ + placeholders(gs@.take(0)));
    while i < gs.len()
        invariant
            i <= gs.len(),
            out@ == old(out)@ + placeholders(gs@.take(i as int)),
        decreases gs.len() - i,
    {
        assert(gs@.take(i + 1).drop_last() =~= gs@.take(i as int));
        match gs[i] {
            AugGlyph::Synthetic(n) => {
                out.push(n);
                assert(out@ =~= old(out)@ + placeholders(gs@.take(i + 1)));
            },
            AugGlyph::Real(_) => {},
        }
        i += 1;
    }
    assert(gs@.take(gs.len() as int) =~= gs@);
}

fn flush_lookup(done: &mut Vec<Lookup>, cur: Vec<Substitution>)
    ensures
        lookups_view(final(done)@) == flush_group(lookups_view(old(done)@), subs_view(cur@)),
{
    if cur.len() > 0 {
        let ghost cv = subs_view(cur@);
        done.push(Lookup { substitutions: cur });
        assert(lookups_view(done@) =~= lookups_view(old(done)@).push(cv));
    }
}

impl HLSubstitutionList {
    /// A list of the rules `substitutions`, which must pass the check of
    /// back references.
    pub fn new(substitutions: Vec<HLSubstitution>) -> (res: HLSubstitutionList)
        requires
            check_back_refs_from(hl_view(substitutions@), 0) is Ok,
        ensures
            res.substitutions == substitutions,
    {
        HLSubstitutionList { substitutions }
    }

    /// Checks that no two rules share a placeholder and that each rule
    /// speaks only of placeholders of rules before it.
    pub fn check_back_refs(&self) -> (res: Result<(), String>)
        ensures
            match res {
                Ok(_) => check_back_refs_from(self@, 0) is Ok,
                Err(e) => check_back_refs_from(self@, 0) == Err::<(), Seq<char>>(e@),
            },
    {
        let mut seen: Vec<u32> = Vec::new();
        let mut i: usize = 0;
        assert(seen@ =~= mids(self@.take(0)));
        while i < self.substitutions.len()
            invariant
                i <= self.substitutions.len(),
                seen@ == mids(self@.take(i as int)),
                check_back_refs_from(self@, i as int) == check_back_refs_from(self@, 0),
            decreases self.substitutions.len() - i,
        {
            let sub = &self.substitutions[i];
            assert(self@[i as int] == sub@);
            if has_number(&seen, sub.mid) {
                return Err("Already contains mid".to_owned());
            }
            if !(all_refs_known(&sub.anterior.pre_key, &seen) && all_refs_known(
                &sub.anterior.at_key,
                &seen,
            ) && all_refs_known(&sub.anterior.post_key, &seen) && all_refs_known(
                &sub.posterior.content,
                &seen,
            )) {
                return Err("Missing back-ref".to_owned());
            }
            seen.push(sub.mid);
            assert(seen@ =~= mids(self@.take(i + 1)));
            i += 1;
        }
        Ok(())
    }

    /// Whether a rule of the list has the placeholder `m`.
    pub fn has_mid(&self, m: u32) -> (res: bool)
        ensures
            res == mids(self@).contains(m),
    {
        let mut i: usize = 0;
        while i < self.substitutions.len()
            invariant
                i <= self.substitutions.len(),
                forall|j: int| 0 <= j < i ==> mids(self@)[j] != m,
            decreases self.substitutions.len() - i,
        {
            assert(mids(self@)[i as int] == self.substitutions[i as int].mid);
            if self.substitutions[i].mid == m {
                return true;
            }
            i += 1;
        }
        false
    }

    /// The least number that is no rule's placeholder.
    pub fn next_open_mid(&self) -> (res: u32)
        requires
            forall|i: int| 0 <= i < self@.len() ==> (#[trigger] self@[i]).mid < u32::MAX,
        ensures
            !mids(self@).contains(res),
            forall|m: u32| m < res ==> mids(self@).contains(m),
    {
        let mut upper: u32 = 0;
        let mut i: usize = 0;
        while i < self.substitutions.len()
            invariant
                i <= self.substitutions.len(),
                forall|j: int| 0 <= j < self@.len() ==> (#[trigger] self@[j]).mid < u32::MAX,
                forall|j: int| 0 <= j < i ==> (#[trigger] self@[j]).mid < upper,
            decreases self.substitutions.len() - i,
        {
            let mid = self.substitutions[i].mid;
            assert(self@[i as int].mid == mid);
            if mid + 1 > upper {
                upper = mid + 1;
            }
            i += 1;
        }
        let mut c: u32 = 0;
        while c < upper
            invariant
                c <= upper,
                forall|m: u32| m < c ==> mids(self@).contains(m),
            decreases upper - c,
        {
            if !self.has_mid(c) {
                return c;
            }
            c += 1;
        }
        proof {
            if mids(self@).contains(upper) {
                let j = choose|j: int| 0 <= j < mids(self@).len() && mids(self@)[j] == upper;
                assert(self@[j].mid == upper);
            }
        }
        upper
    }

    /// Applies the list to `word`, and says whether it changed it.
    pub fn apply(&self, word: &mut Vec<AugGlyph>) -> (res: bool)
        requires
            hl_list_wf(self@),
        ensures
            (final(word)@, res) == list_apply_spec(old(word)@, self@),
    {
        let mut any_mod = false;
        let mut i: usize = 0;
        while i < self.substitutions.len()
            invariant
                hl_list_wf(self@),
                i <= self.substitutions.len(),
                anteriors_from(word@, self@, i as int).0 == anteriors_from(old(word)@, self@, 0).0,
                (any_mod || anteriors_from(word@, self@, i as int).1) == anteriors_from(
                    old(word)@,
                    self@,
                    0,
                ).1,
            decreases self.substitutions.len() - i,
        {
            let s = &self.substitutions[i];
            assert(self@[i as int] == s@);
            if s.apply_anterior(word) {
                any_mod = true;
            }
            i += 1;
        }
        let ghost middle = word@;
        let ghost first_hit = any_mod;
        let mut later = false;
        let mut j: usize = self.substitutions.len();
        while j > 0
            invariant
                j <= self.substitutions.len(),
                posteriors_down(word@, self@, j as int).0 == posteriors_down(
                    middle,
                    self@,
                    self@.len() as int,
                ).0,
                (later || posteriors_down(word@, self@, j as int).1) == posteriors_down(
                    middle,
                    self@,
                    self@.len() as int,
                ).1,
            decreases j,
        {
            let s = &self.substitutions[j - 1];
            assert(self@[j - 1] == s@);
            if s.apply_posterior(word) {
                later = true;
            }
            j -= 1;
        }
        any_mod || later
    }

    /// What the list makes of `word`, where it changes it.
    pub fn apply_copied(&self, word: &Vec<AugGlyph>) -> (res: Option<Vec<AugGlyph>>)
        requires
            hl_list_wf(self@),
        ensures
            match res {
                Some(w) => list_apply_spec(word@, self@) == (w@, true),
                None => !list_apply_spec(word@, self@).1,
            },
    {
        let mut word = copy_vec(word);
        if self.apply(&mut word) {
            Some(word)
        } else {
            None
        }
    }

    /// What the list makes of `word`.
    pub fn apply_copied_always(&self, word: &Vec<AugGlyph>) -> (res: Vec<AugGlyph>)
        requires
            hl_list_wf(self@),
        ensures
            res@ == list_apply_spec(word@, self@).0,
    {
        let mut word = copy_vec(word);
        let _ = self.apply(&mut word);
        word
    }

    /// What the posterior halves of the list make of `word`, the last rule
    /// first.
    pub fn apply_posterior_copied(&self, word: &Vec<AugGlyph>) -> (res: Vec<AugGlyph>)
        ensures
            res@ == posteriors_down(word@, self@, self@.len() as int).0,
    {
        let mut working = copy_vec(word);
        let mut j: usize = self.substitutions.len();
        while j > 0
            invariant
                j <= self.substitutions.len(),
                posteriors_down(working@, self@, j as int).0 == posteriors_down(
                    word@,
                    self@,
                    self@.len() as int,
                ).0,
            decreases j,
        {
            let s = &self.substitutions[j - 1];
            assert(self@[j - 1] == s@);
            let _ = s.apply_posterior(&mut working);
            j -= 1;
        }
        working
    }

    /// The list as lookups of substitutions.
    pub fn low_level(&self) -> (res: SubstitutionList)
        requires
            low_level_ready(self@),
        ensures
            res@ == low_level_spec(self@),
    {
        let mut done: Vec<Lookup> = Vec::new();
        let mut cur: Vec<Substitution> = Vec::new();
        let mut problem: Vec<AugGlyph> = Vec::new();
        let mut at_problem: Vec<AugGlyph> = Vec::new();
        let mut non_letters = false;
        let mut start_or_end = false;
        let mut produced: Vec<u32> = Vec::new();
        let mut i: usize = 0;
        proof {
            assert(lookups_view(done@) =~= Seq::<Seq<SubstitutionView>>::empty());
            assert(subs_view(cur@) =~= Seq::<SubstitutionView>::empty());
        }
        while i < self.substitutions.len()
            invariant
                low_level_ready(self@),
                i <= self.substitutions.len(),
                anterior_groups(
                    self@,
                    i as int,
                    Grouping {
                        done: lookups_view(done@),
                        cur: subs_view(cur@),
                        problem: problem@,
                        at_problem: at_problem@,
                        non_letters,
                        start_or_end,
                        produced: produced@,
                    },
                ) == anterior_groups(self@, 0, fresh_group(Seq::empty())),
            decreases self.substitutions.len() - i,
        {
            let s = &self.substitutions[i];
            assert(self@[i as int] == s@);
            let ghost g = Grouping {
                done: lookups_view(done@),
                cur: subs_view(cur@),
                problem: problem@,
                at_problem: at_problem@,
                non_letters,
                start_or_end,
                produced: produced@,
            };
            let here = some_non_letter(&s.anterior.at_key) || some_non_letter(
                &s.posterior.content,
            );
            let bound = s.anterior.at_start || s.anterior.at_end;
            let conflict = some_in(&s.anterior.at_key, &problem) || some_in(
                &s.anterior.pre_key,
                &at_problem,
            ) || some_in(&s.anterior.post_key, &at_problem) || some_placeholder_in(
                &s.anterior.at_key,
                &produced,
            ) || some_placeholder_in(&s.anterior.pre_key, &produced) || some_placeholder_in(
                &s.anterior.post_key,
                &produced,
            ) || (non_letters && bound) || (start_or_end && here);
            assert(conflict == must_break(s@, g));
            if conflict {
                flush_lookup(&mut done, cur);
                cur = Vec::new();
                problem = Vec::new();
                at_problem = Vec::new();
                non_letters = false;
                start_or_end = false;
                produced = Vec::new();
                assert(subs_view(cur@) =~= Seq::<SubstitutionView>::empty());
            }
            let mut subs = s.anterior_low_level();
            let ghost before = subs_view(cur@);
            let ghost added = subs_view(subs@);
            cur.append(&mut subs);
            assert(subs_view(cur@) =~= before + added);
            push_glyphs(&mut problem, &s.anterior.at_key);
            push_glyphs(&mut problem, &s.anterior.pre_key);
            push_glyphs(&mut problem, &s.anterior.post_key);
            push_glyphs(&mut at_problem, &s.anterior.at_key);
            non_letters = non_letters || here;
            start_or_end = start_or_end || bound;
            produced.push(s.mid);
            assert(Grouping {
                done: lookups_view(done@),
                cur: subs_view(cur@),
                problem: problem@,
                at_problem: at_problem@,
                non_letters,
                start_or_end,
                produced: produced@,
            } == anterior_step(g, s@));
            i += 1;
        }
        flush_lookup(&mut done, cur);
        let ghost anterior_part = lookups_view(done@);
        let mut post_done: Vec<Lookup> = Vec::new();
        let mut post_cur: Vec<Substitution> = Vec::new();
        let mut post_problem: Vec<u32> = Vec::new();
        let mut j: usize = self.substitutions.len();
        proof {
            assert(lookups_view(post_done@) =~= Seq::<Seq<SubstitutionView>>::empty());
            assert(subs_view(post_cur@) =~= Seq::<SubstitutionView>::empty());
        }
        while j > 0
            invariant
                j <= self.substitutions.len(),
                posterior_groups(
                    self@,
                    j as int,
                    PostGrouping {
                        done: lookups_view(post_done@),
                        cur: subs_view(post_cur@),
                        problem: post_problem@,
                    },
                ) == posterior_groups(
                    self@,
                    self@.len() as int,
                    PostGrouping { done: Seq::empty(), cur: Seq::empty(), problem: Seq::empty() },
                ),
            decreases j,
        {
            let s = &self.substitutions[j - 1];
            assert(self@[j - 1] == s@);
            let ghost g = PostGrouping {
                done: lookups_view(post_done@),
                cur: subs_view(post_cur@),
                problem: post_problem@,
            };
            if has_number(&post_problem, s.mid) {
                flush_lookup(&mut post_done, post_cur);
                post_cur = Vec::new();
                post_problem = Vec::new();
                assert(subs_view(post_cur@) =~= Seq::<SubstitutionView>::empty());
            }
            let sub = s.posterior_low_level();
            let ghost before = subs_view(post_cur@);
            let ghost sv = sub@;
            post_cur.push(sub);
            assert(subs_view(post_cur@) =~= before.push(sv));
            push_placeholders(&mut post_problem, &s.posterior.content);
            assert(PostGrouping {
                done: lookups_view(post_done@),
                cur: subs_view(post_cur@),
                problem: post_problem@,
            } == posterior_step(g, s@));
            j -= 1;
        }
        flush_lookup(&mut post_done, post_cur);
        let ghost posterior_part = lookups_view(post_done@);
        done.append(&mut post_done);
        assert(lookups_view(done@) =~= anterior_part + posterior_part);
        SubstitutionList { lookups: done }
    }

    /// The rules that a long run of the search has found, read from their
    /// text.
    pub fn set_1() -> (res: Result<HLSubstitutionList, String>)
        ensures
            match res {
                Ok(l) => list_decode_spec(set_1_text()) == Ok::<Seq<HLSubstitutionView>, Seq<char>>(
                    l@,
                ),
                Err(e) => list_decode_spec(set_1_text()) == Err::<
                    Seq<HLSubstitutionView>,
                    Seq<char>,
                >(e@),
            },
    {
        Self::decode(
            "[th]\u{2192}0\u{2192}\u{3d1}\n\
[i]\u{2192}1\u{2192}\u{26a}\n\
[a]\u{2192}2\u{2192}\u{e6}\n\
[e]\u{2192}3\u{2192}\u{28c}\n\
[{3}r]\u{2192}4\u{2192}\u{2b3}\n\
^[of]\u{2192}5\u{2192}{3}v\n\
[ng]\u{2192}6\u{2192}\u{14b}\n\
[s]$\u{2192}7\u{2192}z\n\
[c]\u{2192}8\u{2192}k\n\
[ou]\u{2192}9\u{2192}u\n\
[{3}{2}]\u{2192}10\u{2192}\u{269}\n\
[to]\u{2192}11\u{2192}t{9}\n\
[y]$\u{2192}12\u{2192}{10}\n\
[o]r\u{2192}13\u{2192}\u{254}\n\
[{2}]$\u{2192}14\u{2192}a\n\
[{8}h]\u{2192}15\u{2192}\u{2a7}\n\
[u]\u{2192}16\u{2192}{3}\n\
[{3}{3}]\u{2192}17\u{2192}{12}\n\
[{8}{3}]\u{2192}18\u{2192}s\n\
[o]n\u{2192}19\u{2192}{16}\n\
[ll]\u{2192}20\u{2192}l\n\
[sh]\u{2192}21\u{2192}\u{283}\n\
[{1}]$\u{2192}22\u{2192}i\n\
[t{1}]{19}\u{2192}23\u{2192}{21}\n\
[r{3}]\u{2192}24\u{2192}r\n\
[{2}{12}]\u{2192}25\u{2192}\u{3f5}\n\
[{1}gh]\u{2192}26\u{2192}{22}\n\
[{2}{1}]\u{2192}27\u{2192}{25}\n\
[ow]\u{2192}28\u{2192}o\n\
[v{3}]\u{2192}29\u{2192}v\n\
[wh]\u{2192}30\u{2192}w\n\
[s{3}]$\u{2192}31\u{2192}{7}\n\
[l{3}]$\u{2192}32\u{2192}{19}{20}\n\
[n{3}]\u{2192}33\u{2192}n\n\
[o]m\u{2192}34\u{2192}{19}\n\
[{3}{12}]\u{2192}35\u{2192}{27}\n\
[{9}l]d$\u{2192}36\u{2192}\u{25c}\n\
[{0}]$\u{2192}37\u{2192}\u{3b8}\n\
[oo]\u{2192}38\u{2192}{36}\n\
[{1}{3}]\u{2192}39\u{2192}{17}\n\
[x]\u{2192}40\u{2192}{8}{18}\n\
[m{3}]\u{2192}41\u{2192}m\n\
[{4}{3}]$\u{2192}42\u{2192}\u{3b5}{24}\n\
b[{3}]\u{2192}43\u{2192}{39}\n\
[{2}l]\u{2192}44\u{2192}{32}\n\
t[{7}]\u{2192}45\u{2192}{18}\n\
[{2}r]\u{2192}46\u{2192}\u{251}{24}\n\
w[{2}]\u{2192}47\u{2192}{34}\n\
^[{19}]n$\u{2192}48\u{2192}\u{251}\n\
[k{3}]\u{2192}49\u{2192}{8}\n\
[ot]$\u{2192}50\u{2192}{48}t\n\
[h{3}]$\u{2192}51\u{2192}h{43}\n\
w[{13}r]\u{2192}52\u{2192}{4}\n\
^[{3}]\u{2192}53\u{2192}\u{3b5}\n\
[{9}]t\u{2192}54\u{2192}\u{28a}\n\
[{2}t{3}]\u{2192}55\u{2192}{35}t\n\
[{16}r]\u{2192}56\u{2192}{52}\n\
{0}[{1}{7}]\u{2192}57\u{2192}{1}{45}\n\
[{3}d]\u{2192}58\u{2192}d\n\
[{0}{1}]\u{2192}59\u{2192}{37}{1}\n\
[{9}gh]\u{2192}60\u{2192}{9}\n\
[{30}o]\u{2192}61\u{2192}h{60}\n\
w[{3}]\u{2192}62\u{2192}{43}\n\
[{2}{24}]\u{2192}63\u{2192}{46}\n\
^d[o]\u{2192}64\u{2192}{60}\n\
[g{3}]$\u{2192}65\u{2192}j\n\
[{3}{1}r]\u{2192}66\u{2192}{42}\n\
[w{42}]\u{2192}67\u{2192}{30}{56}\n\
[{2}]{20}\u{2192}68\u{2192}{13}\n\
[{2}y]\u{2192}69\u{2192}{35}\n\
[{8}k]\u{2192}70\u{2192}{49}\n\
[q{16}]\u{2192}71\u{2192}{70}{30}\n\
[{9}r]\u{2192}72\u{2192}{68}{24}\n\
[{3}t]\u{2192}73\u{2192}{53}t\n\
^[{24}]\u{2192}74\u{2192}{24}{1}\n\
[{30}{2}]\u{2192}75\u{2192}{30}{47}\n\
[{2}]b\u{2192}76\u{2192}{47}\n\
[{1}r]\u{2192}77\u{2192}{56}\n\
[{3}o]\u{2192}78\u{2192}{62}\n\
[{3}{8}]\u{2192}79\u{2192}{53}{70}\n\
[s{7}]\u{2192}80\u{2192}{45}\n\
[t{16}{24}]\u{2192}81\u{2192}{15}{77}\n\
[ss]\u{2192}82\u{2192}{80}\n\
^[b{12}]\u{2192}83\u{2192}b{26}\n\
[pp]\u{2192}84\u{2192}p\n\
{21}[{3}]\u{2192}85\u{2192}{78}\n\
[{3}]n\u{2192}86\u{2192}{53}\n\
[{1}d{3}]\u{2192}87\u{2192}{26}{58}\n\
[tt]\u{2192}88\u{2192}t\n\
[{2}]{23}\u{2192}89\u{2192}{69}\n\
^[{16}s]\u{2192}90\u{2192}y{64}{31}\n\
[{41}n]\u{2192}91\u{2192}{41}{76}{33}\n\
^[m{12}]\u{2192}92\u{2192}{41}{26}\n\
^[{41}]\u{2192}93\u{2192}{41}{85}\n\
^[{2}n]$\u{2192}94\u{2192}{76}{33}\n\
[nk]\u{2192}95\u{2192}{6}{70}\n\
[{1}{49}]\u{2192}96\u{2192}{26}{70}\n\
[o]{0}{4}\u{2192}97\u{2192}{76}\n\
^[{19}{33}]\u{2192}98\u{2192}{75}{33}\n\
[{5}]f\u{2192}99\u{2192}{68}\n\
[{2}]{49}\u{2192}100\u{2192}{89}\n\
[{43}{8}{2}]\u{2192}101\u{2192}{1}{70}\n\
[w]$\u{2192}102\u{2192}{64}\n\
[t]{58}\u{2192}103\u{2192}{88}{1}\n\
[{9}n]\u{2192}104\u{2192}{54}{33}\n\
[kn]\u{2192}105\u{2192}{33}\n\
[{2}{16}]\u{2192}106\u{2192}{99}\n\
[ph]\u{2192}107\u{2192}f\n\
[{16}{3}]\u{2192}108\u{2192}{102}\n\
[{1}]{41}\u{2192}109\u{2192}{26}\n\
[{1}t{3}]\u{2192}110\u{2192}{109}{88}\n\
^[{2}m{4}]\u{2192}111\u{2192}{97}{41}{66}\n\
[{16}n{1}]\u{2192}112\u{2192}y{108}{105}{97}\n\
[{10}r]\u{2192}113\u{2192}{1}{24}\n\
[{53}{29}]\u{2192}114\u{2192}{85}{29}{1}\n\
[two]\u{2192}115\u{2192}{11}\n\
[ff]\u{2192}116\u{2192}{107}\n\
[{2}{41}]\u{2192}117\u{2192}{100}{41}\n\
m[r]\u{2192}118\u{2192}{57}{88}{77}\n\
^[d{3}]\u{2192}119\u{2192}{58}{1}\n\
[{11}r]\u{2192}120\u{2192}{88}{77}\n\
h[{28}]\u{2192}121\u{2192}{54}\n\
[{2}{6}{3}]\u{2192}122\u{2192}{100}{105}{65}\n\
[{3}{7}]\u{2192}123\u{2192}{31}\n\
[s{27}]\u{2192}124\u{2192}{82}{86}\n\
[{53}{40}]\u{2192}125\u{2192}{1}{40}\n\
^v[{4}]{12}\u{2192}126\u{2192}{66}\n\
[p{24}s]\u{2192}127\u{2192}{84}{24}{86}{123}\n\
^[{44}]\u{2192}128\u{2192}{106}{20}\n\
[{2}g{27}]\u{2192}129\u{2192}{97}g{86}\n\
[{1}f{3}]\u{2192}130\u{2192}{109}{116}\n\
[{3}l]\u{2192}131\u{2192}{86}{20}\n\
b[{17}]\u{2192}132\u{2192}{1}\n\
[{2}]n{12}\u{2192}133\u{2192}{86}\n\
[{0}]r\u{2192}134\u{2192}{37}\n\
[{44}]k\u{2192}135\u{2192}{106}\n\
{0}[{3}m]\u{2192}136\u{2192}{133}{41}\n\
{16}[{7}]\u{2192}137\u{2192}{82}\n\
[{1}{32}]\u{2192}138\u{2192}{109}{20}\n\
[{2}ny]\u{2192}139\u{2192}{133}{105}{85}\n\
[{8}]{1}\u{2192}140\u{2192}{137}\n\
[{2}d{3}]$\u{2192}141\u{2192}{100}{58}\n\
^[{8}{14}]\u{2192}142\u{2192}{140}{85}{100}\n\
[{9}{7}]\u{2192}143\u{2192}{97}{140}\n\
[o{6}]\u{2192}144\u{2192}{135}{6}\n\
[o{1}]n\u{2192}145\u{2192}\u{ab62}\n\
^n[{28}]\u{2192}146\u{2192}{121}\n\
[t{3}]\u{2192}147\u{2192}{88}{133}\n\
[{2}]{18}\u{2192}148\u{2192}{100}\n\
[{4}y]\u{2192}149\u{2192}{24}{85}\n\
^[{72}]\u{2192}150\u{2192}{146}{24}\n\
[{140}{1}]{44}\u{2192}151\u{2192}{23}\n\
[{10}h]\u{2192}152\u{2192}{2}\n\
[{62}{20}]\u{2192}153\u{2192}{131}\n\
[mm]\u{2192}154\u{2192}{41}\n\
[h{42}]\u{2192}155\u{2192}{51}{24}\n\
[{47}n]\u{2192}156\u{2192}{48}{105}\n\
[{47}y]\u{2192}157\u{2192}{148}\n\
[{11}o]\u{2192}158\u{2192}{115}\n\
[{15}{38}]\u{2192}159\u{2192}{70}{108}\n\
^l[{3}]\u{2192}160\u{2192}{133}\n\
[{1}{19}]\u{2192}161\u{2192}{97}\n\
[{1}nd]$\u{2192}162\u{2192}{109}{105}{58}\n\
[{46}{104}]\u{2192}163\u{2192}{77}{104}\n\
[{1}{24}]\u{2192}164\u{2192}{109}{77}\n\
[ob]\u{2192}165\u{2192}{48}b\n\
[{56}{1}]\u{2192}166\u{2192}{38}{74}\n\
[{3}{31}]\u{2192}167\u{2192}{85}{123}\n\
[{1}{14}]\u{2192}168\u{2192}{85}{161}\n\
[{2}{102}]\u{2192}169\u{2192}{135}\n\
[o]d\u{2192}170\u{2192}{48}\n\
[{16}l{46}]\u{2192}171\u{2192}y{44}{77}\n\
[{19}nl]\u{2192}172\u{2192}{28}{105}{20}\n\
[{16}s{1}{33}{80}]\u{2192}173\u{2192}{132}{123}{105}{57}\n\
[{53}n{60}]\u{2192}174\u{2192}{132}{105}{161}{116}\n\
^[{113}]\u{2192}175\u{2192}{77}\n\
[{49}d]\u{2192}176\u{2192}{70}{88}\n\
^[{16}{31}]\u{2192}177\u{2192}{90}\n\
[{68}{20}{12}]\u{2192}178\u{2192}{20}{85}\n\
[{1}]{33}\u{2192}179\u{2192}{109}\n\
[{5}t{86}n]\u{2192}180\u{2192}{169}{116}{94}\n\
[{125}]{2}\u{2192}181\u{2192}{132}g{123}\n\
[{46}r]\u{2192}182\u{2192}{126}\n\
[{18}]{7}\u{2192}183\u{2192}{140}{132}\n\
{1}{8}[{2}]\u{2192}184\u{2192}{161}\n\
d[{58}]\u{2192}185\u{2192}{132}{58}\n\
[dd]\u{2192}186\u{2192}{58}\n\
[{9}{31}]\u{2192}187\u{2192}{146}{140}\n\
^[y{123}]\u{2192}188\u{2192}y{160}{140}\n\
[g{86}]\u{2192}189\u{2192}{65}{160}\n\
[s{16}]{24}\u{2192}190\u{2192}{151}{38}\n\
[{147}]$\u{2192}191\u{2192}{88}\n\
[h{10}]\u{2192}192\u{2192}h{160}\n\
[{0}{60}]t\u{2192}193\u{2192}{134}{169}\n\
[{2}{31}]\u{2192}194\u{2192}{157}{140}\n\
k[{7}]\u{2192}195\u{2192}{140}\n\
[o{34}]\u{2192}196\u{2192}{108}\n\
[oh]\u{2192}197\u{2192}{28}\n\
[h{72}]\u{2192}198\u{2192}{146}{175}\n\
^s[{120}]\u{2192}199\u{2192}{191}{72}\n\
[{3}s{23}]\u{2192}200\u{2192}{160}{195}{15}\n\
[{64}]{123}\u{2192}201\u{2192}{184}\n\
[nn]\u{2192}202\u{2192}{105}\n\
[{8}{39}]\u{2192}203\u{2192}{179}{201}\n\
[{74}s{113}]\u{2192}204\u{2192}{149}{195}{175}\n\
[oy]\u{2192}205\u{2192}{145}\n\
{53}[d{16}]\u{2192}206\u{2192}{65}y{196}\n\
[t{16}d{86}n]\u{2192}207\u{2192}{158}{186}{94}\n\
[{4}{39}]\u{2192}208\u{2192}{113}{85}\n\
d[{28}n]\u{2192}209\u{2192}{104}\n\
[{1}{2}]\u{2192}210\u{2192}{201}\n\
[wr]\u{2192}211\u{2192}{24}\n\
[{18}n]\u{2192}212\u{2192}{124}{202}\n\
^[s{3}]\u{2192}213\u{2192}{124}\n\
[{46}]{12}\u{2192}214\u{2192}{182}\n\
p[{7}]\u{2192}215\u{2192}{195}\n\
w[{46}]\u{2192}216\u{2192}{72}\n\
[o{2}]\u{2192}217\u{2192}{197}\n\
[r{10}]{20}\u{2192}218\u{2192}{74}\n\
[{8}{4}]\u{2192}219\u{2192}{215}{175}\n\
[{16}m{2}n]\u{2192}220\u{2192}y{196}{91}\n\
[{30}{12}]\u{2192}221\u{2192}{30}{179}\n\
[{27}r]\u{2192}222\u{2192}{214}\n\
[{1}d{86}]\u{2192}223\u{2192}{210}{186}{160}\n\
[{33}v]\u{2192}224\u{2192}{202}{160}{29}\n\
[ys{147}]\u{2192}225\u{2192}{57}{191}{210}\n\
[{16}{12}]\u{2192}226\u{2192}{179}\n\
[{2}]{65}\u{2192}227\u{2192}{132}\n\
[s{69}]{7}\u{2192}228\u{2192}{213}\n\
[{16}{24}]\u{2192}229\u{2192}y{175}\n\
[{164}{8}]\u{2192}230\u{2192}{113}{79}\n\
[{4}{1}]\u{2192}231\u{2192}{208}\n\
[lo]p\u{2192}232\u{2192}{153}{210}\n\
[o{29}]\u{2192}233\u{2192}{196}{29}\n\
d[r]$\u{2192}234\u{2192}{170}{70}{120}\n\
[o{82}{1}]\u{2192}235\u{2192}{170}{215}{210}\n\
[{63}n]\u{2192}236\u{2192}{222}{94}\n\
[{4}{86}n]\u{2192}237\u{2192}{175}{94}\n\
[{11}w]\u{2192}238\u{2192}{191}\n\
[{10}{190}{24}]\u{2192}239\u{2192}{160}\u{292}{175}\n\
^l[{113}]\u{2192}240\u{2192}{175}\n\
[{53}y]\u{2192}241\u{2192}{226}\n\
[{82}]{161}\u{2192}242\u{2192}{151}\n\
[{2}{8}]{8}\u{2192}243\u{2192}{210}\n\
[{1}{13}r]\u{2192}244\u{2192}{229}\n\
[o{19}]\u{2192}245\u{2192}{196}\n\
[{43}l]\u{2192}246\u{2192}{227}{20}\n\
[s]{161}\u{2192}247\u{2192}\u{292}\n\
[{106}gh]\u{2192}248\u{2192}{169}\n\
[{55}{7}]\u{2192}249\u{2192}{55}{215}\n\
m[{16}s]{1}\u{2192}250\u{2192}{177}\n\
^[{2}]{84}\u{2192}251\u{2192}{243}\n\
[{1}d{10}]\u{2192}252\u{2192}{87}{168}\n\
[{46}{10}]\u{2192}253\u{2192}{222}{168}\n\
h[{34}]\u{2192}254\u{2192}{217}\n\
[o{12}]\u{2192}255\u{2192}{205}\n\
[g]{123}\u{2192}256\u{2192}{65}{227}\n\
[g{3}]\u{2192}257\u{2192}{189}\n\
[{16}{1}]\u{2192}258\u{2192}{227}\n\
[{2}w]\u{2192}259\u{2192}{251}{30}\n\
[w{7}]\u{2192}260\u{2192}{250}\n\
[l{233}]\u{2192}261\u{2192}{20}{5}\n\
l[{16}]\u{2192}262\u{2192}{245}\n\
[{231}]{6}\u{2192}263\u{2192}{240}{258}\n\
[{8}]{12}\u{2192}264\u{2192}{215}\n\
[t{15}]\u{2192}265\u{2192}{15}\n\
[{73}t]\u{2192}266\u{2192}{73}\n\
[{13}rr]\u{2192}267\u{2192}{63}\n\
[olog]\u{2192}268\u{2192}{170}{20}{251}{65}\n\
[p{3}]$\u{2192}269\u{2192}{84}\n\
[{11}]p\u{2192}270\u{2192}{238}{170}\n\
[{11}n]\u{2192}271\u{2192}{238}{94}\n\
{0}[{60}]\u{2192}272\u{2192}{254}\n\
[{11}{257}]\u{2192}273\u{2192}{238}{129}\n\
[{165}{2}m{14}]\u{2192}274\u{2192}{272}b{170}{154}{251}\n\
[{2}{32}]\u{2192}275\u{2192}{157}{20}\n\
{18}[d]\u{2192}276\u{2192}{238}\n\
[h{88}p]\u{2192}277\u{2192}{157}{265}{276}{85}{276}{85}{269}{85}\n\
d[{79}{1}]\u{2192}278\u{2192}{57}{258}\n\
[{77}{2}]\u{2192}279\u{2192}{113}{170}\n\
gr[{10}t]\u{2192}280\u{2192}{55}\n\
{8}[o]\u{2192}281\u{2192}{251}\n\
[{79}{166}]\u{2192}282\u{2192}{101}y{38}{211}{281}\n\
[o{1}{18}]\u{2192}283\u{2192}{255}{264}\n\
[{2}k]\u{2192}284\u{2192}{157}{70}\n\
[{119}s{1}g]\u{2192}285\u{2192}{119}{123}{241}\n\
[{1}l{12}]\u{2192}286\u{2192}{44}{85}\n\
[{74}{212}]\u{2192}287\u{2192}{149}{264}{94}\n\
[y{1}]\u{2192}288\u{2192}{241}{258}\n\
[{43}]t\u{2192}289\u{2192}{258}\n\
^[{91}]\u{2192}290\u{2192}{154}{160}{202}\n\
{8}[{63}]\u{2192}291\u{2192}{222}\n\
[{34}m{91}]\u{2192}292\u{2192}{170}{290}\n\
[{2}]n{97}\u{2192}293\u{2192}{281}\n\
[{61}{32}]\u{2192}294\u{2192}h{272}{20}\n\
[n{31}]\u{2192}295\u{2192}{202}{264}\n\
[os]{1}\u{2192}296\u{2192}{293}{123}\n\
[{53}{56}o]\u{2192}297\u{2192}y{38}{211}{293}\n\
[{34}m{2}n]\u{2192}298\u{2192}{38}{91}\n\
[t{1}{44}]\u{2192}299\u{2192}{242}{44}\n\
[{68}{20}{28}]\u{2192}300\u{2192}{44}{146}\n\
[{13}rm{89}]\u{2192}301\u{2192}{240}{154}{157}\n\
[ol{1}]\u{2192}302\u{2192}{44}{289}\n\
[{0}{7}]\u{2192}303\u{2192}{134}{264}\n\
[{20}]{161}\u{2192}304\u{2192}{20}y\n\
f[{3}]\u{2192}305\u{2192}y\n\
{10}[s]{19}\u{2192}306\u{2192}{123}\n\
[{114}nt]\u{2192}307\u{2192}{289}{29}{160}{202}{276}\n\
^[{2}]{88}\u{2192}308\u{2192}{293}\n\
[{1}v{1}d{16}]\u{2192}309\u{2192}{5}{289}{65}{259}\n\
[{43}{88}]\u{2192}310\u{2192}{266}\n\
[p{16}]t\u{2192}311\u{2192}{269}{38}\n\
[{0}{2}{95}]\u{2192}312\u{2192}{134}{152}{95}\n\
[{43}g]\u{2192}313\u{2192}{289}g\n\
[o{18}]\u{2192}314\u{2192}{170}{228}\n\
[{1}z{3}]\u{2192}315\u{2192}{241}{306}\n\
[{33}{40}]\u{2192}316\u{2192}{202}{160}{40}\n\
^[{2}g]\u{2192}317\u{2192}{308}g\n\
[{2}m{144}]\u{2192}318\u{2192}{308}{154}{308}{6}\n\
r[{39}]n\u{2192}319\u{2192}{160}\n\
[{8}{18}]\u{2192}320\u{2192}{40}{319}\n\
[{44}]f\u{2192}321\u{2192}{152}\n\
[gov]\u{2192}322\u{2192}g{5}\n\
[p{28}]\u{2192}323\u{2192}{269}{146}\n\
[{53}v{4}{12}]\u{2192}324\u{2192}{319}{29}{149}\n\
[{15}{2}{6}]\u{2192}325\u{2192}{265}{122}\n\
[p{24}]\u{2192}326\u{2192}{269}{211}{319}\n\
[{24}n]\u{2192}327\u{2192}{211}{94}\n\
[{113}d]\u{2192}328\u{2192}{240}{186}\n\
[{49}{7}]\u{2192}329\u{2192}{40}\n\
[{53}{1}]\u{2192}330\u{2192}{85}\n\
^[{7}]\u{2192}331\u{2192}{319}{264}\n\
{1}[t{16}]\u{2192}332\u{2192}{158}\n\
[l{259}]\u{2192}333\u{2192}{20}{248}\n\
^[{2}]{82}\u{2192}334\u{2192}{308}\n\
s[{123}]\u{2192}335\u{2192}{289}{306}\n\
[{43}s]\u{2192}336\u{2192}{331}\n\
[{55}d]\u{2192}337\u{2192}{280}{185}\n\
[{11}]l\u{2192}338\u{2192}{276}{272}\n\
[{104}]tr\u{2192}339\u{2192}{94}\n\
[{10}d{12}]\u{2192}340\u{2192}{319}{186}{330}\n\
[{0}{54}]\u{2192}341\u{2192}{134}{146}\n\
[w{34}]\u{2192}342\u{2192}{30}{289}\n\
[{2}j{13}r]$\u{2192}343\u{2192}{157}{65}{240}\n\
n[{14}]\u{2192}344\u{2192}{170}\n\
[o]{80}\u{2192}345\u{2192}{248}\n\
[{16}{81}]\u{2192}346\u{2192}{305}{262}{81}\n\
[{16}]{20}\u{2192}347\u{2192}{38}\n\
[{2}t{39}n]\u{2192}348\u{2192}{157}{242}{339}\n\
t[{2}n]t\u{2192}349\u{2192}{339}\n\
[{2}t{14}]\u{2192}350\u{2192}{280}{334}\n\
[{1}l{46}]\u{2192}351\u{2192}{44}{240}\n\
[{43}]h\u{2192}352\u{2192}{289}\n\
[{62}]n\u{2192}353\u{2192}{319}\n\
[{93}m]\u{2192}354\u{2192}{154}{136}\n\
[{125}]{1}\u{2192}355\u{2192}{181}\n\
[{44}{108}]\u{2192}356\u{2192}{321}{304}{262}\n\
[o{84}{13}rt{112}]\u{2192}357\u{2192}{344}{269}{240}{332}{202}{334}\n\
[{55}g]\u{2192}358\u{2192}{321}{276}{334}{65}\n\
[{43}]{8}\u{2192}359\u{2192}{352}\n\
[{16}y{7}]\u{2192}360\u{2192}{315}\n\
{4}[{3}]\u{2192}361\u{2192}{359}\n\
[{281}{20}{3}]\u{2192}362\u{2192}{344}{20}{361}\n\
[{82}{108}]\u{2192}363\u{2192}{242}{262}\n\
[{1}{55}]\u{2192}364\u{2192}{168}{276}\n\
r[ov]\u{2192}365\u{2192}{5}\n\
[{79}{1}]\u{2192}366\u{2192}{353}{242}\n\
[{366}f]\u{2192}367\u{2192}{278}{116}\n\
^[{102}]\u{2192}368\u{2192}{186}{334}b{44}{305}{262}\n\
[{0}{9}s{2}n]\u{2192}369\u{2192}{341}{306}{349}\n\
[{74}{127}]\u{2192}370\u{2192}{211}{353}{269}{218}{306}\n\
[{46}{1}]\u{2192}371\u{2192}{291}{361}\n\
[of{305}]\u{2192}372\u{2192}{334}{116}{353}\n\
[{72}{31}]\u{2192}373\u{2192}{216}{264}\n\
[{2}{131}]\u{2192}374\u{2192}{44}\n\
[{112}t]\u{2192}375\u{2192}{305}{262}{202}{361}{276}\n\
b[{2}s]\u{2192}376\u{2192}{194}\n\
[y]s\u{2192}377\u{2192}{361}\n\
[{2}v{13}r]\u{2192}378\u{2192}{157}{29}{240}\n\
{1}[g{1}]\u{2192}379\u{2192}{65}{334}\n\
[s]{58}\u{2192}380\u{2192}{306}\n\
[o{59}]\u{2192}381\u{2192}{334}{59}\n\
[{59}r]\u{2192}382\u{2192}{134}{240}\n\
[{86}n]{18}\u{2192}383\u{2192}{349}\n\
[{15}r]\u{2192}384\u{2192}{70}{211}\n\
[{2}{189}n]\u{2192}385\u{2192}{157}{65}{383}\n\
[{4}r{13}r]\u{2192}386\u{2192}{291}{240}\n\
[{9}{6}]\u{2192}387\u{2192}{334}{6}\n\
[{302}{264}]\u{2192}388\u{2192}{344}{20}{143}\n\
[{47}]t\u{2192}389\u{2192}{345}\n\
{8}[{144}]\u{2192}390\u{2192}{344}{6}g\n\
[{158}]k\u{2192}391\u{2192}{276}{347}\n\
[{82}{58}]\u{2192}392\u{2192}{264}{276}\n\
[{15}{46}{2}]\u{2192}393\u{2192}{70}{291}{334}\n\
[{39}d]\u{2192}394\u{2192}{87}\n\
[{47}]{265}\u{2192}395\u{2192}{344}\n\
[{119}mo]\u{2192}396\u{2192}{186}{136}{334}\n\
[{39}{102}]\u{2192}397\u{2192}{305}{262}\n\
[{10}{16}]\u{2192}398\u{2192}{397}\n\
[o{203}]\u{2192}399\u{2192}{143}{203}\n",
        )
    }

    /// Reads a list of rules, one on each line that is not blank, and
    /// checks its back references.
    pub fn decode(text: &str) -> (res: Result<HLSubstitutionList, String>)
        ensures
            match res {
                Ok(l) => list_decode_spec(text@) == Ok::<Seq<HLSubstitutionView>, Seq<char>>(l@),
                Err(e) => list_decode_spec(text@) == Err::<Seq<HLSubstitutionView>, Seq<char>>(
                    e@,
                ),
            },
    {
        let s = chars_of(text);
        let mut substitutions: Vec<HLSubstitution> = Vec::new();
        let mut cur: Vec<char> = Vec::new();
        let mut i: usize = 0;
        assert(hl_view(substitutions@) =~= Seq::<HLSubstitutionView>::empty());
        while i < s.len()
            invariant
                i <= s.len(),
                s@ == text@,
                lines_from(s@, i as int, cur@, hl_view(substitutions@)) == lines_from(
                    s@,
                    0,
                    Seq::empty(),
                    Seq::empty(),
                ),
            decreases s.len() - i,
        {
            if s[i] == '\n' {
                match read_line(&cur, &mut substitutions) {
                    Ok(_) => {},
                    Err(e) => {
                        return Err(e);
                    },
                }
                cur = Vec::new();
            } else {
                cur.push(s[i]);
            }
            i += 1;
        }
        match read_line(&cur, &mut substitutions) {
            Ok(_) => {},
            Err(e) => {
                return Err(e);
            },
        }
        let hlist = HLSubstitutionList { substitutions };
        match hlist.check_back_refs() {
            Ok(_) => Ok(hlist),
            Err(e) => Err(e),
        }
    }
}

/// The text of the rules that a long run of the search has found.
pub open spec fn set_1_text() -> Seq<char> {
    "[th]\u{2192}0\u{2192}\u{3d1}\n\
[i]\u{2192}1\u{2192}\u{26a}\n\
[a]\u{2192}2\u{2192}\u{e6}\n\
[e]\u{2192}3\u{2192}\u{28c}\n\
[{3}r]\u{2192}4\u{2192}\u{2b3}\n\
^[of]\u{2192}5\u{2192}{3}v\n\
[ng]\u{2192}6\u{2192}\u{14b}\n\
[s]$\u{2192}7\u{2192}z\n\
[c]\u{2192}8\u{2192}k\n\
[ou]\u{2192}9\u{2192}u\n\
[{3}{2}]\u{2192}10\u{2192}\u{269}\n\
[to]\u{2192}11\u{2192}t{9}\n\
[y]$\u{2192}12\u{2192}{10}\n\
[o]r\u{2192}13\u{2192}\u{254}\n\
[{2}]$\u{2192}14\u{2192}a\n\
[{8}h]\u{2192}15\u{2192}\u{2a7}\n\
[u]\u{2192}16\u{2192}{3}\n\
[{3}{3}]\u{2192}17\u{2192}{12}\n\
[{8}{3}]\u{2192}18\u{2192}s\n\
[o]n\u{2192}19\u{2192}{16}\n\
[ll]\u{2192}20\u{2192}l\n\
[sh]\u{2192}21\u{2192}\u{283}\n\
[{1}]$\u{2192}22\u{2192}i\n\
[t{1}]{19}\u{2192}23\u{2192}{21}\n\
[r{3}]\u{2192}24\u{2192}r\n\
[{2}{12}]\u{2192}25\u{2192}\u{3f5}\n\
[{1}gh]\u{2192}26\u{2192}{22}\n\
[{2}{1}]\u{2192}27\u{2192}{25}\n\
[ow]\u{2192}28\u{2192}o\n\
[v{3}]\u{2192}29\u{2192}v\n\
[wh]\u{2192}30\u{2192}w\n\
[s{3}]$\u{2192}31\u{2192}{7}\n\
[l{3}]$\u{2192}32\u{2192}{19}{20}\n\
[n{3}]\u{2192}33\u{2192}n\n\
[o]m\u{2192}34\u{2192}{19}\n\
[{3}{12}]\u{2192}35\u{2192}{27}\n\
[{9}l]d$\u{2192}36\u{2192}\u{25c}\n\
[{0}]$\u{2192}37\u{2192}\u{3b8}\n\
[oo]\u{2192}38\u{2192}{36}\n\
[{1}{3}]\u{2192}39\u{2192}{17}\n\
[x]\u{2192}40\u{2192}{8}{18}\n\
[m{3}]\u{2192}41\u{2192}m\n\
[{4}{3}]$\u{2192}42\u{2192}\u{3b5}{24}\n\
b[{3}]\u{2192}43\u{2192}{39}\n\
[{2}l]\u{2192}44\u{2192}{32}\n\
t[{7}]\u{2192}45\u{2192}{18}\n\
[{2}r]\u{2192}46\u{2192}\u{251}{24}\n\
w[{2}]\u{2192}47\u{2192}{34}\n\
^[{19}]n$\u{2192}48\u{2192}\u{251}\n\
[k{3}]\u{2192}49\u{2192}{8}\n\
[ot]$\u{2192}50\u{2192}{48}t\n\
[h{3}]$\u{2192}51\u{2192}h{43}\n\
w[{13}r]\u{2192}52\u{2192}{4}\n\
^[{3}]\u{2192}53\u{2192}\u{3b5}\n\
[{9}]t\u{2192}54\u{2192}\u{28a}\n\
[{2}t{3}]\u{2192}55\u{2192}{35}t\n\
[{16}r]\u{2192}56\u{2192}{52}\n\
{0}[{1}{7}]\u{2192}57\u{2192}{1}{45}\n\
[{3}d]\u{2192}58\u{2192}d\n\
[{0}{1}]\u{2192}59\u{2192}{37}{1}\n\
[{9}gh]\u{2192}60\u{2192}{9}\n\
[{30}o]\u{2192}61\u{2192}h{60}\n\
w[{3}]\u{2192}62\u{2192}{43}\n\
[{2}{24}]\u{2192}63\u{2192}{46}\n\
^d[o]\u{2192}64\u{2192}{60}\n\
[g{3}]$\u{2192}65\u{2192}j\n\
[{3}{1}r]\u{2192}66\u{2192}{42}\n\
[w{42}]\u{2192}67\u{2192}{30}{56}\n\
[{2}]{20}\u{2192}68\u{2192}{13}\n\
[{2}y]\u{2192}69\u{2192}{35}\n\
[{8}k]\u{2192}70\u{2192}{49}\n\
[q{16}]\u{2192}71\u{2192}{70}{30}\n\
[{9}r]\u{2192}72\u{2192}{68}{24}\n\
[{3}t]\u{2192}73\u{2192}{53}t\n\
^[{24}]\u{2192}74\u{2192}{24}{1}\n\
[{30}{2}]\u{2192}75\u{2192}{30}{47}\n\
[{2}]b\u{2192}76\u{2192}{47}\n\
[{1}r]\u{2192}77\u{2192}{56}\n\
[{3}o]\u{2192}78\u{2192}{62}\n\
[{3}{8}]\u{2192}79\u{2192}{53}{70}\n\
[s{7}]\u{2192}80\u{2192}{45}\n\
[t{16}{24}]\u{2192}81\u{2192}{15}{77}\n\
[ss]\u{2192}82\u{2192}{80}\n\
^[b{12}]\u{2192}83\u{2192}b{26}\n\
[pp]\u{2192}84\u{2192}p\n\
{21}[{3}]\u{2192}85\u{2192}{78}\n\
[{3}]n\u{2192}86\u{2192}{53}\n\
[{1}d{3}]\u{2192}87\u{2192}{26}{58}\n\
[tt]\u{2192}88\u{2192}t\n\
[{2}]{23}\u{2192}89\u{2192}{69}\n\
^[{16}s]\u{2192}90\u{2192}y{64}{31}\n\
[{41}n]\u{2192}91\u{2192}{41}{76}{33}\n\
^[m{12}]\u{2192}92\u{2192}{41}{26}\n\
^[{41}]\u{2192}93\u{2192}{41}{85}\n\
^[{2}n]$\u{2192}94\u{2192}{76}{33}\n\
[nk]\u{2192}95\u{2192}{6}{70}\n\
[{1}{49}]\u{2192}96\u{2192}{26}{70}\n\
[o]{0}{4}\u{2192}97\u{2192}{76}\n\
^[{19}{33}]\u{2192}98\u{2192}{75}{33}\n\
[{5}]f\u{2192}99\u{2192}{68}\n\
[{2}]{49}\u{2192}100\u{2192}{89}\n\
[{43}{8}{2}]\u{2192}101\u{2192}{1}{70}\n\
[w]$\u{2192}102\u{2192}{64}\n\
[t]{58}\u{2192}103\u{2192}{88}{1}\n\
[{9}n]\u{2192}104\u{2192}{54}{33}\n\
[kn]\u{2192}105\u{2192}{33}\n\
[{2}{16}]\u{2192}106\u{2192}{99}\n\
[ph]\u{2192}107\u{2192}f\n\
[{16}{3}]\u{2192}108\u{2192}{102}\n\
[{1}]{41}\u{2192}109\u{2192}{26}\n\
[{1}t{3}]\u{2192}110\u{2192}{109}{88}\n\
^[{2}m{4}]\u{2192}111\u{2192}{97}{41}{66}\n\
[{16}n{1}]\u{2192}112\u{2192}y{108}{105}{97}\n\
[{10}r]\u{2192}113\u{2192}{1}{24}\n\
[{53}{29}]\u{2192}114\u{2192}{85}{29}{1}\n\
[two]\u{2192}115\u{2192}{11}\n\
[ff]\u{2192}116\u{2192}{107}\n\
[{2}{41}]\u{2192}117\u{2192}{100}{41}\n\
m[r]\u{2192}118\u{2192}{57}{88}{77}\n\
^[d{3}]\u{2192}119\u{2192}{58}{1}\n\
[{11}r]\u{2192}120\u{2192}{88}{77}\n\
h[{28}]\u{2192}121\u{2192}{54}\n\
[{2}{6}{3}]\u{2192}122\u{2192}{100}{105}{65}\n\
[{3}{7}]\u{2192}123\u{2192}{31}\n\
[s{27}]\u{2192}124\u{2192}{82}{86}\n\
[{53}{40}]\u{2192}125\u{2192}{1}{40}\n\
^v[{4}]{12}\u{2192}126\u{2192}{66}\n\
[p{24}s]\u{2192}127\u{2192}{84}{24}{86}{123}\n\
^[{44}]\u{2192}128\u{2192}{106}{20}\n\
[{2}g{27}]\u{2192}129\u{2192}{97}g{86}\n\
[{1}f{3}]\u{2192}130\u{2192}{109}{116}\n\
[{3}l]\u{2192}131\u{2192}{86}{20}\n\
b[{17}]\u{2192}132\u{2192}{1}\n\
[{2}]n{12}\u{2192}133\u{2192}{86}\n\
[{0}]r\u{2192}134\u{2192}{37}\n\
[{44}]k\u{2192}135\u{2192}{106}\n\
{0}[{3}m]\u{2192}136\u{2192}{133}{41}\n\
{16}[{7}]\u{2192}137\u{2192}{82}\n\
[{1}{32}]\u{2192}138\u{2192}{109}{20}\n\
[{2}ny]\u{2192}139\u{2192}{133}{105}{85}\n\
[{8}]{1}\u{2192}140\u{2192}{137}\n\
[{2}d{3}]$\u{2192}141\u{2192}{100}{58}\n\
^[{8}{14}]\u{2192}142\u{2192}{140}{85}{100}\n\
[{9}{7}]\u{2192}143\u{2192}{97}{140}\n\
[o{6}]\u{2192}144\u{2192}{135}{6}\n\
[o{1}]n\u{2192}145\u{2192}\u{ab62}\n\
^n[{28}]\u{2192}146\u{2192}{121}\n\
[t{3}]\u{2192}147\u{2192}{88}{133}\n\
[{2}]{18}\u{2192}148\u{2192}{100}\n\
[{4}y]\u{2192}149\u{2192}{24}{85}\n\
^[{72}]\u{2192}150\u{2192}{146}{24}\n\
[{140}{1}]{44}\u{2192}151\u{2192}{23}\n\
[{10}h]\u{2192}152\u{2192}{2}\n\
[{62}{20}]\u{2192}153\u{2192}{131}\n\
[mm]\u{2192}154\u{2192}{41}\n\
[h{42}]\u{2192}155\u{2192}{51}{24}\n\
[{47}n]\u{2192}156\u{2192}{48}{105}\n\
[{47}y]\u{2192}157\u{2192}{148}\n\
[{11}o]\u{2192}158\u{2192}{115}\n\
[{15}{38}]\u{2192}159\u{2192}{70}{108}\n\
^l[{3}]\u{2192}160\u{2192}{133}\n\
[{1}{19}]\u{2192}161\u{2192}{97}\n\
[{1}nd]$\u{2192}162\u{2192}{109}{105}{58}\n\
[{46}{104}]\u{2192}163\u{2192}{77}{104}\n\
[{1}{24}]\u{2192}164\u{2192}{109}{77}\n\
[ob]\u{2192}165\u{2192}{48}b\n\
[{56}{1}]\u{2192}166\u{2192}{38}{74}\n\
[{3}{31}]\u{2192}167\u{2192}{85}{123}\n\
[{1}{14}]\u{2192}168\u{2192}{85}{161}\n\
[{2}{102}]\u{2192}169\u{2192}{135}\n\
[o]d\u{2192}170\u{2192}{48}\n\
[{16}l{46}]\u{2192}171\u{2192}y{44}{77}\n\
[{19}nl]\u{2192}172\u{2192}{28}{105}{20}\n\
[{16}s{1}{33}{80}]\u{2192}173\u{2192}{132}{123}{105}{57}\n\
[{53}n{60}]\u{2192}174\u{2192}{132}{105}{161}{116}\n\
^[{113}]\u{2192}175\u{2192}{77}\n\
[{49}d]\u{2192}176\u{2192}{70}{88}\n\
^[{16}{31}]\u{2192}177\u{2192}{90}\n\
[{68}{20}{12}]\u{2192}178\u{2192}{20}{85}\n\
[{1}]{33}\u{2192}179\u{2192}{109}\n\
[{5}t{86}n]\u{2192}180\u{2192}{169}{116}{94}\n\
[{125}]{2}\u{2192}181\u{2192}{132}g{123}\n\
[{46}r]\u{2192}182\u{2192}{126}\n\
[{18}]{7}\u{2192}183\u{2192}{140}{132}\n\
{1}{8}[{2}]\u{2192}184\u{2192}{161}\n\
d[{58}]\u{2192}185\u{2192}{132}{58}\n\
[dd]\u{2192}186\u{2192}{58}\n\
[{9}{31}]\u{2192}187\u{2192}{146}{140}\n\
^[y{123}]\u{2192}188\u{2192}y{160}{140}\n\
[g{86}]\u{2192}189\u{2192}{65}{160}\n\
[s{16}]{24}\u{2192}190\u{2192}{151}{38}\n\
[{147}]$\u{2192}191\u{2192}{88}\n\
[h{10}]\u{2192}192\u{2192}h{160}\n\
[{0}{60}]t\u{2192}193\u{2192}{134}{169}\n\
[{2}{31}]\u{2192}194\u{2192}{157}{140}\n\
k[{7}]\u{2192}195\u{2192}{140}\n\
[o{34}]\u{2192}196\u{2192}{108}\n\
[oh]\u{2192}197\u{2192}{28}\n\
[h{72}]\u{2192}198\u{2192}{146}{175}\n\
^s[{120}]\u{2192}199\u{2192}{191}{72}\n\
[{3}s{23}]\u{2192}200\u{2192}{160}{195}{15}\n\
[{64}]{123}\u{2192}201\u{2192}{184}\n\
[nn]\u{2192}202\u{2192}{105}\n\
[{8}{39}]\u{2192}203\u{2192}{179}{201}\n\
[{74}s{113}]\u{2192}204\u{2192}{149}{195}{175}\n\
[oy]\u{2192}205\u{2192}{145}\n\
{53}[d{16}]\u{2192}206\u{2192}{65}y{196}\n\
[t{16}d{86}n]\u{2192}207\u{2192}{158}{186}{94}\n\
[{4}{39}]\u{2192}208\u{2192}{113}{85}\n\
d[{28}n]\u{2192}209\u{2192}{104}\n\
[{1}{2}]\u{2192}210\u{2192}{201}\n\
[wr]\u{2192}211\u{2192}{24}\n\
[{18}n]\u{2192}212\u{2192}{124}{202}\n\
^[s{3}]\u{2192}213\u{2192}{124}\n\
[{46}]{12}\u{2192}214\u{2192}{182}\n\
p[{7}]\u{2192}215\u{2192}{195}\n\
w[{46}]\u{2192}216\u{2192}{72}\n\
[o{2}]\u{2192}217\u{2192}{197}\n\
[r{10}]{20}\u{2192}218\u{2192}{74}\n\
[{8}{4}]\u{2192}219\u{2192}{215}{175}\n\
[{16}m{2}n]\u{2192}220\u{2192}y{196}{91}\n\
[{30}{12}]\u{2192}221\u{2192}{30}{179}\n\
[{27}r]\u{2192}222\u{2192}{214}\n\
[{1}d{86}]\u{2192}223\u{2192}{210}{186}{160}\n\
[{33}v]\u{2192}224\u{2192}{202}{160}{29}\n\
[ys{147}]\u{2192}225\u{2192}{57}{191}{210}\n\
[{16}{12}]\u{2192}226\u{2192}{179}\n\
[{2}]{65}\u{2192}227\u{2192}{132}\n\
[s{69}]{7}\u{2192}228\u{2192}{213}\n\
[{16}{24}]\u{2192}229\u{2192}y{175}\n\
[{164}{8}]\u{2192}230\u{2192}{113}{79}\n\
[{4}{1}]\u{2192}231\u{2192}{208}\n\
[lo]p\u{2192}232\u{2192}{153}{210}\n\
[o{29}]\u{2192}233\u{2192}{196}{29}\n\
d[r]$\u{2192}234\u{2192}{170}{70}{120}\n\
[o{82}{1}]\u{2192}235\u{2192}{170}{215}{210}\n\
[{63}n]\u{2192}236\u{2192}{222}{94}\n\
[{4}{86}n]\u{2192}237\u{2192}{175}{94}\n\
[{11}w]\u{2192}238\u{2192}{191}\n\
[{10}{190}{24}]\u{2192}239\u{2192}{160}\u{292}{175}\n\
^l[{113}]\u{2192}240\u{2192}{175}\n\
[{53}y]\u{2192}241\u{2192}{226}\n\
[{82}]{161}\u{2192}242\u{2192}{151}\n\
[{2}{8}]{8}\u{2192}243\u{2192}{210}\n\
[{1}{13}r]\u{2192}244\u{2192}{229}\n\
[o{19}]\u{2192}245\u{2192}{196}\n\
[{43}l]\u{2192}246\u{2192}{227}{20}\n\
[s]{161}\u{2192}247\u{2192}\u{292}\n\
[{106}gh]\u{2192}248\u{2192}{169}\n\
[{55}{7}]\u{2192}249\u{2192}{55}{215}\n\
m[{16}s]{1}\u{2192}250\u{2192}{177}\n\
^[{2}]{84}\u{2192}251\u{2192}{243}\n\
[{1}d{10}]\u{2192}252\u{2192}{87}{168}\n\
[{46}{10}]\u{2192}253\u{2192}{222}{168}\n\
h[{34}]\u{2192}254\u{2192}{217}\n\
[o{12}]\u{2192}255\u{2192}{205}\n\
[g]{123}\u{2192}256\u{2192}{65}{227}\n\
[g{3}]\u{2192}257\u{2192}{189}\n\
[{16}{1}]\u{2192}258\u{2192}{227}\n\
[{2}w]\u{2192}259\u{2192}{251}{30}\n\
[w{7}]\u{2192}260\u{2192}{250}\n\
[l{233}]\u{2192}261\u{2192}{20}{5}\n\
l[{16}]\u{2192}262\u{2192}{245}\n\
[{231}]{6}\u{2192}263\u{2192}{240}{258}\n\
[{8}]{12}\u{2192}264\u{2192}{215}\n\
[t{15}]\u{2192}265\u{2192}{15}\n\
[{73}t]\u{2192}266\u{2192}{73}\n\
[{13}rr]\u{2192}267\u{2192}{63}\n\
[olog]\u{2192}268\u{2192}{170}{20}{251}{65}\n\
[p{3}]$\u{2192}269\u{2192}{84}\n\
[{11}]p\u{2192}270\u{2192}{238}{170}\n\
[{11}n]\u{2192}271\u{2192}{238}{94}\n\
{0}[{60}]\u{2192}272\u{2192}{254}\n\
[{11}{257}]\u{2192}273\u{2192}{238}{129}\n\
[{165}{2}m{14}]\u{2192}274\u{2192}{272}b{170}{154}{251}\n\
[{2}{32}]\u{2192}275\u{2192}{157}{20}\n\
{18}[d]\u{2192}276\u{2192}{238}\n\
[h{88}p]\u{2192}277\u{2192}{157}{265}{276}{85}{276}{85}{269}{85}\n\
d[{79}{1}]\u{2192}278\u{2192}{57}{258}\n\
[{77}{2}]\u{2192}279\u{2192}{113}{170}\n\
gr[{10}t]\u{2192}280\u{2192}{55}\n\
{8}[o]\u{2192}281\u{2192}{251}\n\
[{79}{166}]\u{2192}282\u{2192}{101}y{38}{211}{281}\n\
[o{1}{18}]\u{2192}283\u{2192}{255}{264}\n\
[{2}k]\u{2192}284\u{2192}{157}{70}\n\
[{119}s{1}g]\u{2192}285\u{2192}{119}{123}{241}\n\
[{1}l{12}]\u{2192}286\u{2192}{44}{85}\n\
[{74}{212}]\u{2192}287\u{2192}{149}{264}{94}\n\
[y{1}]\u{2192}288\u{2192}{241}{258}\n\
[{43}]t\u{2192}289\u{2192}{258}\n\
^[{91}]\u{2192}290\u{2192}{154}{160}{202}\n\
{8}[{63}]\u{2192}291\u{2192}{222}\n\
[{34}m{91}]\u{2192}292\u{2192}{170}{290}\n\
[{2}]n{97}\u{2192}293\u{2192}{281}\n\
[{61}{32}]\u{2192}294\u{2192}h{272}{20}\n\
[n{31}]\u{2192}295\u{2192}{202}{264}\n\
[os]{1}\u{2192}296\u{2192}{293}{123}\n\
[{53}{56}o]\u{2192}297\u{2192}y{38}{211}{293}\n\
[{34}m{2}n]\u{2192}298\u{2192}{38}{91}\n\
[t{1}{44}]\u{2192}299\u{2192}{242}{44}\n\
[{68}{20}{28}]\u{2192}300\u{2192}{44}{146}\n\
[{13}rm{89}]\u{2192}301\u{2192}{240}{154}{157}\n\
[ol{1}]\u{2192}302\u{2192}{44}{289}\n\
[{0}{7}]\u{2192}303\u{2192}{134}{264}\n\
[{20}]{161}\u{2192}304\u{2192}{20}y\n\
f[{3}]\u{2192}305\u{2192}y\n\
{10}[s]{19}\u{2192}306\u{2192}{123}\n\
[{114}nt]\u{2192}307\u{2192}{289}{29}{160}{202}{276}\n\
^[{2}]{88}\u{2192}308\u{2192}{293}\n\
[{1}v{1}d{16}]\u{2192}309\u{2192}{5}{289}{65}{259}\n\
[{43}{88}]\u{2192}310\u{2192}{266}\n\
[p{16}]t\u{2192}311\u{2192}{269}{38}\n\
[{0}{2}{95}]\u{2192}312\u{2192}{134}{152}{95}\n\
[{43}g]\u{2192}313\u{2192}{289}g\n\
[o{18}]\u{2192}314\u{2192}{170}{228}\n\
[{1}z{3}]\u{2192}315\u{2192}{241}{306}\n\
[{33}{40}]\u{2192}316\u{2192}{202}{160}{40}\n\
^[{2}g]\u{2192}317\u{2192}{308}g\n\
[{2}m{144}]\u{2192}318\u{2192}{308}{154}{308}{6}\n\
r[{39}]n\u{2192}319\u{2192}{160}\n\
[{8}{18}]\u{2192}320\u{2192}{40}{319}\n\
[{44}]f\u{2192}321\u{2192}{152}\n\
[gov]\u{2192}322\u{2192}g{5}\n\
[p{28}]\u{2192}323\u{2192}{269}{146}\n\
[{53}v{4}{12}]\u{2192}324\u{2192}{319}{29}{149}\n\
[{15}{2}{6}]\u{2192}325\u{2192}{265}{122}\n\
[p{24}]\u{2192}326\u{2192}{269}{211}{319}\n\
[{24}n]\u{2192}327\u{2192}{211}{94}\n\
[{113}d]\u{2192}328\u{2192}{240}{186}\n\
[{49}{7}]\u{2192}329\u{2192}{40}\n\
[{53}{1}]\u{2192}330\u{2192}{85}\n\
^[{7}]\u{2192}331\u{2192}{319}{264}\n\
{1}[t{16}]\u{2192}332\u{2192}{158}\n\
[l{259}]\u{2192}333\u{2192}{20}{248}\n\
^[{2}]{82}\u{2192}334\u{2192}{308}\n\
s[{123}]\u{2192}335\u{2192}{289}{306}\n\
[{43}s]\u{2192}336\u{2192}{331}\n\
[{55}d]\u{2192}337\u{2192}{280}{185}\n\
[{11}]l\u{2192}338\u{2192}{276}{272}\n\
[{104}]tr\u{2192}339\u{2192}{94}\n\
[{10}d{12}]\u{2192}340\u{2192}{319}{186}{330}\n\
[{0}{54}]\u{2192}341\u{2192}{134}{146}\n\
[w{34}]\u{2192}342\u{2192}{30}{289}\n\
[{2}j{13}r]$\u{2192}343\u{2192}{157}{65}{240}\n\
n[{14}]\u{2192}344\u{2192}{170}\n\
[o]{80}\u{2192}345\u{2192}{248}\n\
[{16}{81}]\u{2192}346\u{2192}{305}{262}{81}\n\
[{16}]{20}\u{2192}347\u{2192}{38}\n\
[{2}t{39}n]\u{2192}348\u{2192}{157}{242}{339}\n\
t[{2}n]t\u{2192}349\u{2192}{339}\n\
[{2}t{14}]\u{2192}350\u{2192}{280}{334}\n\
[{1}l{46}]\u{2192}351\u{2192}{44}{240}\n\
[{43}]h\u{2192}352\u{2192}{289}\n\
[{62}]n\u{2192}353\u{2192}{319}\n\
[{93}m]\u{2192}354\u{2192}{154}{136}\n\
[{125}]{1}\u{2192}355\u{2192}{181}\n\
[{44}{108}]\u{2192}356\u{2192}{321}{304}{262}\n\
[o{84}{13}rt{112}]\u{2192}357\u{2192}{344}{269}{240}{332}{202}{334}\n\
[{55}g]\u{2192}358\u{2192}{321}{276}{334}{65}\n\
[{43}]{8}\u{2192}359\u{2192}{352}\n\
[{16}y{7}]\u{2192}360\u{2192}{315}\n\
{4}[{3}]\u{2192}361\u{2192}{359}\n\
[{281}{20}{3}]\u{2192}362\u{2192}{344}{20}{361}\n\
[{82}{108}]\u{2192}363\u{2192}{242}{262}\n\
[{1}{55}]\u{2192}364\u{2192}{168}{276}\n\
r[ov]\u{2192}365\u{2192}{5}\n\
[{79}{1}]\u{2192}366\u{2192}{353}{242}\n\
[{366}f]\u{2192}367\u{2192}{278}{116}\n\
^[{102}]\u{2192}368\u{2192}{186}{334}b{44}{305}{262}\n\
[{0}{9}s{2}n]\u{2192}369\u{2192}{341}{306}{349}\n\
[{74}{127}]\u{2192}370\u{2192}{211}{353}{269}{218}{306}\n\
[{46}{1}]\u{2192}371\u{2192}{291}{361}\n\
[of{305}]\u{2192}372\u{2192}{334}{116}{353}\n\
[{72}{31}]\u{2192}373\u{2192}{216}{264}\n\
[{2}{131}]\u{2192}374\u{2192}{44}\n\
[{112}t]\u{2192}375\u{2192}{305}{262}{202}{361}{276}\n\
b[{2}s]\u{2192}376\u{2192}{194}\n\
[y]s\u{2192}377\u{2192}{361}\n\
[{2}v{13}r]\u{2192}378\u{2192}{157}{29}{240}\n\
{1}[g{1}]\u{2192}379\u{2192}{65}{334}\n\
[s]{58}\u{2192}380\u{2192}{306}\n\
[o{59}]\u{2192}381\u{2192}{334}{59}\n\
[{59}r]\u{2192}382\u{2192}{134}{240}\n\
[{86}n]{18}\u{2192}383\u{2192}{349}\n\
[{15}r]\u{2192}384\u{2192}{70}{211}\n\
[{2}{189}n]\u{2192}385\u{2192}{157}{65}{383}\n\
[{4}r{13}r]\u{2192}386\u{2192}{291}{240}\n\
[{9}{6}]\u{2192}387\u{2192}{334}{6}\n\
[{302}{264}]\u{2192}388\u{2192}{344}{20}{143}\n\
[{47}]t\u{2192}389\u{2192}{345}\n\
{8}[{144}]\u{2192}390\u{2192}{344}{6}g\n\
[{158}]k\u{2192}391\u{2192}{276}{347}\n\
[{82}{58}]\u{2192}392\u{2192}{264}{276}\n\
[{15}{46}{2}]\u{2192}393\u{2192}{70}{291}{334}\n\
[{39}d]\u{2192}394\u{2192}{87}\n\
[{47}]{265}\u{2192}395\u{2192}{344}\n\
[{119}mo]\u{2192}396\u{2192}{186}{136}{334}\n\
[{39}{102}]\u{2192}397\u{2192}{305}{262}\n\
[{10}{16}]\u{2192}398\u{2192}{397}\n\
[o{203}]\u{2192}399\u{2192}{143}{203}\n"@
}

/// The values of a run of rules.
pub open spec fn hl_view(subs: Seq<HLSubstitution>) -> Seq<HLSubstitutionView> {
    subs.map_values(|s: HLSubstitution| s@)
}

fn read_line(line: &Vec<char>, acc: &mut Vec<HLSubstitution>) -> (res: Result<(), String>)
    ensures
        match res {
            Ok(_) => line_step(line@, hl_view(old(acc)@)) == Ok::<
                Seq<HLSubstitutionView>,
                Seq<char>,
            >(hl_view(final(acc)@)),
            Err(e) => line_step(line@, hl_view(old(acc)@)) == Err::<
                Seq<HLSubstitutionView>,
                Seq<char>,
            >(e@),
        },
{
    let t = trim_chars(line);
    if t.len() == 0 {
        return Ok(());
    }
    match HLSubstitution::decode_chars(&t) {
        Ok(r) => {
            let ghost rv = r@;
            acc.push(r);
            assert(hl_view(acc@) =~= hl_view(old(acc)@).push(rv));
            Ok(())
        },
        Err(e) => Err(e),
    }
}

} // verus!
