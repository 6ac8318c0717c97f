//! Contextual substitutions on augmented glyphs, grouped into lookups that
//! are applied one after the other.

use vstd::prelude::*;
use crate::glyphs::{AugGlyph, aug_is_letter_or_phonetic};
use crate::seqs::{splice, spliced};

verus! {

/// One place of the context of a substitution.
#[derive(Debug, Clone, Copy, PartialEq, Eq, Structural)]
pub enum KeyElem {
    /// This glyph and no other.
    Glyph(AugGlyph),
    /// Any letter or phonetic symbol, and any placeholder.
    AnyLetter,
}

/// What a substitution does where it matches.
#[derive(Debug, Clone, PartialEq, Eq)]
pub enum SubContent {
    /// Nothing: the match only keeps later substitutions of the lookup
    /// from the place.
    Ignore,
    /// The matched glyphs give way to these.
    Sub(Vec<AugGlyph>),
}

/// A substitution: the glyphs `at_key`, standing between the contexts
/// `pre_key` and `post_key`, give way to `sub_content`.
#[derive(Clone, Debug, PartialEq, Eq)]
pub struct Substitution {
    pub pre_key: Vec<KeyElem>,
    pub at_key: Vec<AugGlyph>,
    pub post_key: Vec<KeyElem>,
    pub sub_content: SubContent,
}

/// Substitutions that are tried together: at each place the first one that
/// matches is the one that applies.
#[derive(Debug, Clone, PartialEq, Eq)]
pub struct Lookup {
    pub substitutions: Vec<Substitution>,
}

/// Lookups in the order in which they are applied.
#[derive(Debug, Clone, PartialEq, Eq)]
pub struct SubstitutionList {
    pub lookups: Vec<Lookup>,
}

/// A substitution that has applied: the rule, the place, and the word
/// behind it.
#[derive(Debug, Clone, PartialEq, Eq)]
pub struct Edit {
    rule: Substitution,
    pos: usize,
    after: Vec<AugGlyph>,
}

/// The mathematical value of a [`SubContent`].
pub enum SubContentView {
    Ignore,
    Sub(Seq<AugGlyph>),
}

/// The mathematical value of a [`Substitution`].
pub struct SubstitutionView {
    pub pre_key: Seq<KeyElem>,
    pub at_key: Seq<AugGlyph>,
    pub post_key: Seq<KeyElem>,
    pub sub_content: SubContentView,
}

impl View for SubContent {
    type V = SubContentView;

    open spec fn view(&self) -> SubContentView {
        match self {
            SubContent::Ignore => SubContentView::Ignore,
            SubContent::Sub(s) => SubContentView::Sub(s@),
        }
    }
}

impl View for Substitution {
    type V = SubstitutionView;

    open spec fn view(&self) -> SubstitutionView {
        SubstitutionView {
            pre_key: self.pre_key@,
            at_key: self.at_key@,
            post_key: self.post_key@,
            sub_content: self.sub_content@,
        }
    }
}

impl View for Lookup {
    type V = Seq<SubstitutionView>;

    open spec fn view(&self) -> Seq<SubstitutionView> {
        subs_view(self.substitutions@)
    }
}

/// The values of a run of substitutions.
pub open spec fn subs_view(subs: Seq<Substitution>) -> Seq<SubstitutionView> {
    subs.map_values(|s: Substitution| s@)
}

impl View for SubstitutionList {
    type V = Seq<Seq<SubstitutionView>>;

    open spec fn view(&self) -> Seq<Seq<SubstitutionView>> {
        lookups_view(self.lookups@)
    }
}

/// The values of a run of lookups.
pub open spec fn lookups_view(lookups: Seq<Lookup>) -> Seq<Seq<SubstitutionView>> {
    lookups.map_values(|l: Lookup| l@)
}

/// Whether the glyph `x` stands where the context asks for `y`.
pub open spec fn elem_matches(x: AugGlyph, y: KeyElem) -> bool {
    match y {
        KeyElem::Glyph(g) => x == g,
        KeyElem::AnyLetter => aug_is_letter_or_phonetic(x),
    }
}

/// Whether the glyphs of `w` from `at` on stand where the context `key`
/// asks for them.
pub open spec fn context_matches(w: Seq<AugGlyph>, at: int, key: Seq<KeyElem>) -> bool {
    forall|i: int| 0 <= i < key.len() ==> elem_matches(#[trigger] w[at + i], key[i])
}

/// Whether `sub` matches in `w` with its `at_key` beginning at `pos`.
pub open spec fn sub_matches_at(w: Seq<AugGlyph>, pos: int, sub: SubstitutionView) -> bool {
    &&& sub.pre_key.len() <= pos
    &&& pos + sub.at_key.len() + sub.post_key.len() <= w.len()
    &&& context_matches(w, pos - sub.pre_key.len(), sub.pre_key)
    &&& w.subrange(pos, pos + sub.at_key.len()) == sub.at_key
    &&& context_matches(w, pos + sub.at_key.len(), sub.post_key)
}

/// What `w` becomes when `sub` applies at `pos`.
pub open spec fn sub_result(w: Seq<AugGlyph>, pos: int, sub: SubstitutionView) -> Seq<AugGlyph> {
    match sub.sub_content {
        SubContentView::Ignore => w,
        SubContentView::Sub(sc) => spliced(w, pos, pos + sub.at_key.len(), sc),
    }
}

/// How far the place moves on when `sub` has applied: over what it put
/// there, or over what it chose to ignore.
pub open spec fn sub_advance(sub: SubstitutionView) -> int {
    match sub.sub_content {
        SubContentView::Ignore => sub.at_key.len() as int,
        SubContentView::Sub(sc) => sc.len() as int,
    }
}

/// A substitution is well formed when it has something to match.
pub open spec fn sub_wf(sub: SubstitutionView) -> bool {
    sub.at_key.len() > 0
}

/// A lookup is well formed when each of its substitutions is.
pub open spec fn lookup_wf(subs: Seq<SubstitutionView>) -> bool {
    forall|k: int| 0 <= k < subs.len() ==> sub_wf(#[trigger] subs[k])
}

/// A list is well formed when each of its lookups is.
pub open spec fn list_wf(lookups: Seq<Seq<SubstitutionView>>) -> bool {
    forall|i: int| 0 <= i < lookups.len() ==> lookup_wf(#[trigger] lookups[i])
}

/// The first substitution of `subs`, from number `k` on, that matches in
/// `w` at `pos`.
pub open spec fn first_match(
    w: Seq<AugGlyph>,
    pos: int,
    subs: Seq<SubstitutionView>,
    k: int,
) -> Option<int>
    decreases subs.len() - k,
{
    if k < 0 || k >= subs.len() {
        None
    } else if sub_matches_at(w, pos, subs[k]) {
        Some(k)
    } else {
        first_match(w, pos, subs, k + 1)
    }
}

/// What `first_match` finds is a substitution of the lookup, it matches,
/// and none before it does.
pub proof fn lemma_first_match(w: Seq<AugGlyph>, pos: int, subs: Seq<SubstitutionView>, k: int)
    requires
        0 <= k,
    ensures
        match first_match(w, pos, subs, k) {
            Some(m) => k <= m < subs.len() && sub_matches_at(w, pos, subs[m]) && forall|j: int|
                k <= j < m ==> !sub_matches_at(w, pos, #[trigger] subs[j]),
            None => forall|j: int|
                k <= j < subs.len() ==> !sub_matches_at(w, pos, #[trigger] subs[j]),
        },
    decreases subs.len() - k,
{
    if k < subs.len() && !sub_matches_at(w, pos, subs[k]) {
        lemma_first_match(w, pos, subs, k + 1);
    }
}

/// One lookup applied to `w` from `pos` on: at each place the first
/// substitution that matches applies and the place moves on over it; where
/// none matches the place moves on by one.
pub open spec fn apply_lookup_from(
    w: Seq<AugGlyph>,
    pos: int,
    subs: Seq<SubstitutionView>,
) -> Seq<AugGlyph>
    decreases w.len() - pos,
    when lookup_wf(subs) && 0 <= pos
{
    if pos >= w.len() {
        w
    } else {
        match first_match(w, pos, subs, 0) {
            Some(k) => {
                proof {
                    lemma_first_match(w, pos, subs, 0);
                }
                apply_lookup_from(sub_result(w, pos, subs[k]), pos + sub_advance(subs[k]), subs)
            },
            None => apply_lookup_from(w, pos + 1, subs),
        }
    }
}

/// The lookups from number `i` on, applied to `w` one after the other.
pub open spec fn apply_all_from(
    w: Seq<AugGlyph>,
    lookups: Seq<Seq<SubstitutionView>>,
    i: int,
) -> Seq<AugGlyph>
    decreases lookups.len() - i,
{
    if i < 0 || i >= lookups.len() {
        w
    } else {
        apply_all_from(apply_lookup_from(w, 0, lookups[i]), lookups, i + 1)
    }
}

/// A whole list applied to `w`.
pub open spec fn apply_all_spec(w: Seq<AugGlyph>, lookups: Seq<Seq<SubstitutionView>>) -> Seq<
    AugGlyph,
> {
    apply_all_from(w, lookups, 0)
}

/// Whether the glyph `x` stands where a context asks for `y`.
pub fn matches(x: &AugGlyph, y: &KeyElem) -> (res: bool)
    ensures
        res == elem_matches(*x, *y),
{
    match y {
        KeyElem::Glyph(g) => *x == *g,
        KeyElem::AnyLetter => x.is_letter_or_phonetic(),
    }
}

fn context_matches_at(working: &Vec<AugGlyph>, at: usize, key: &Vec<KeyElem>) -> (res: bool)
    requires
        at + key.len() <= working.len(),
    ensures
        res == context_matches(working@, at as int, key@),
{
    let mut i: usize = 0;
    while i < key.len()
        invariant
            i <= key.len(),
            at + key.len() <= working.len(),
            forall|j: int| 0 <= j < i ==> elem_matches(#[trigger] working@[at + j], key@[j]),
        decreases key.len() - i,
    {
        if !matches(&working[at + i], &key[i]) {
            assert(!elem_matches(working@[at + i], key@[i as int]));
            return false;
        }
        i += 1;
    }
    true
}

fn glyphs_match_at(working: &Vec<AugGlyph>, at: usize, key: &Vec<AugGlyph>) -> (res: bool)
    requires
        at + key.len() <= working.len(),
    ensures
        res == (working@.subrange(at as int, at + key.len()) == key@),
{
    let mut i: usize = 0;
    while i < key.len()
        invariant
            i <= key.len(),
            at + key.len() <= working.len(),
            forall|j: int| 0 <= j < i ==> working@[at + j] == key@[j],
        decreases key.len() - i,
    {
        if working[at + i] != key[i] {
            assert(working@.subrange(at as int, at + key.len())[i as int] != key@[i as int]);
            return false;
        }
        i += 1;
    }
    assert(working@.subrange(at as int, at + key.len()) =~= key@);
    true
}

/// Applies `sub` to `working` with its `at_key` at `pos`, if it matches
/// there, and says whether it did.
pub fn apply_sub_at_pos(working: &mut Vec<AugGlyph>, pos: usize, sub: &Substitution) -> (res: bool)
    requires
        sub_wf(sub@),
    ensures
        res == sub_matches_at(old(working)@, pos as int, sub@),
        res ==> final(working)@ == sub_result(old(working)@, pos as int, sub@),
        !res ==> final(working)@ == old(working)@,
{
    let n = working.len();
    if pos < sub.pre_key.len() {
        return false;
    }
    if pos > n || n - pos < sub.at_key.len() || n - pos - sub.at_key.len() < sub.post_key.len() {
        return false;
    }
    if !context_matches_at(working, pos - sub.pre_key.len(), &sub.pre_key) {
        return false;
    }
    if !glyphs_match_at(working, pos, &sub.at_key) {
        return false;
    }
    if !context_matches_at(working, pos + sub.at_key.len(), &sub.post_key) {
        return false;
    }
    match &sub.sub_content {
        SubContent::Ignore => {},
        SubContent::Sub(sc) => {
            splice(working, pos, pos + sub.at_key.len(), sc);
        },
    }
    true
}

/// The length of what `sub` leaves behind, and how far the place moves on.
proof fn lemma_sub_result_len(w: Seq<AugGlyph>, pos: int, sub: SubstitutionView)
    requires
        sub_wf(sub),
        sub_matches_at(w, pos, sub),
    ensures
        0 <= pos + sub_advance(sub) <= sub_result(w, pos, sub).len(),
        sub_result(w, pos, sub).len() - (pos + sub_advance(sub)) < w.len() - pos,
{
}

fn advance_of(sub: &Substitution) -> (res: usize)
    ensures
        res == sub_advance(sub@),
{
    match &sub.sub_content {
        SubContent::Sub(s) => s.len(),
        SubContent::Ignore => sub.at_key.len(),
    }
}

/// Whether, while one lookup is applied to `w` from `pos` on, one of its
/// first `limit` substitutions applies somewhere.
pub open spec fn new_hit_from(
    w: Seq<AugGlyph>,
    pos: int,
    subs: Seq<SubstitutionView>,
    limit: int,
) -> bool
    decreases w.len() - pos,
    when lookup_wf(subs) && 0 <= pos
{
    if pos >= w.len() {
        false
    } else {
        match first_match(w, pos, subs, 0) {
            Some(k) => {
                proof {
                    lemma_first_match(w, pos, subs, 0);
                }
                k < limit || new_hit_from(
                    sub_result(w, pos, subs[k]),
                    pos + sub_advance(subs[k]),
                    subs,
                    limit,
                )
            },
            None => new_hit_from(w, pos + 1, subs, limit),
        }
    }
}

/// The lookups from number `i` on, applied to `w` while it is tracked
/// whether a new substitution has applied. The new substitutions are the
/// first ones of the list, counted through the lookups; `remaining` of them
/// stand in the lookups from `i` on, and `any` says whether one has applied
/// before. Once none remains and none has applied, the rest of the list is
/// not applied.
pub open spec fn with_new_from(
    w: Seq<AugGlyph>,
    lookups: Seq<Seq<SubstitutionView>>,
    i: int,
    remaining: int,
    any: bool,
) -> (Seq<AugGlyph>, bool)
    decreases lookups.len() - i,
{
    if i < 0 || i >= lookups.len() {
        (w, any)
    } else if remaining <= 0 && !any {
        (w, false)
    } else {
        with_new_from(
            apply_lookup_from(w, 0, lookups[i]),
            lookups,
            i + 1,
            if remaining > lookups[i].len() {
                remaining - lookups[i].len()
            } else {
                0
            },
            any || new_hit_from(w, 0, lookups[i], remaining),
        )
    }
}

/// A list whose first `new_amount` substitutions are new, applied to `w`:
/// what `w` becomes, and whether a new substitution has applied.
pub open spec fn apply_all_with_new_spec(
    w: Seq<AugGlyph>,
    lookups: Seq<Seq<SubstitutionView>>,
    new_amount: int,
) -> (Seq<AugGlyph>, bool) {
    with_new_from(w, lookups, 0, new_amount, false)
}

fn run_lookup(working: &mut Vec<AugGlyph>, lookup: &Lookup, limit: usize) -> (hit: bool)
    requires
        lookup_wf(lookup@),
    ensures
        final(working)@ == apply_lookup_from(old(working)@, 0, lookup@),
        hit == new_hit_from(old(working)@, 0, lookup@, limit as int),
{
    let mut pos: usize = 0;
    let mut hit = false;
    while pos < working.len()
        invariant
            lookup_wf(lookup@),
            pos <= working.len(),
            apply_lookup_from(working@, pos as int, lookup@) == apply_lookup_from(
                old(working)@,
                0,
                lookup@,
            ),
            (hit || new_hit_from(working@, pos as int, lookup@, limit as int)) == new_hit_from(
                old(working)@,
                0,
                lookup@,
                limit as int,
            ),
        decreases working.len() - pos,
    {
        let ghost w = working@;
        let mut k: usize = 0;
        let mut matched = false;
        while k < lookup.substitutions.len() && !matched
            invariant
                lookup_wf(lookup@),
                k <= lookup.substitutions.len(),
                pos < w.len(),
                !matched ==> working@ == w && first_match(w, pos as int, lookup@, k as int)
                    == first_match(w, pos as int, lookup@, 0),
                matched ==> 0 < k && first_match(w, pos as int, lookup@, 0) == Some(k - 1)
                    && working@ == sub_result(w, pos as int, lookup@[k - 1]),
            decreases lookup.substitutions.len() - k + (if matched { 0int } else { 1int }),
        {
            let sub = &lookup.substitutions[k];
            assert(lookup@[k as int] == sub@);
            assert(sub_wf(lookup@[k as int]));
            matched = apply_sub_at_pos(working, pos, sub);
            k += 1;
        }
        proof {
            lemma_first_match(w, pos as int, lookup@, 0);
        }
        if matched {
            let step = advance_of(&lookup.substitutions[k - 1]);
            let n = working.len();
            proof {
                assert(lookup@[k - 1] == lookup.substitutions[k - 1]@);
                lemma_sub_result_len(w, pos as int, lookup@[k - 1]);
                assert(pos + step <= n);
            }
            if k - 1 < limit {
                hit = true;
            }
            pos += step;
        } else {
            pos += 1;
        }
    }
    hit
}

/// Applies one lookup to `working`.
pub fn apply_lookup(working: &mut Vec<AugGlyph>, lookup: &Lookup)
    requires
        lookup_wf(lookup@),
    ensures
        final(working)@ == apply_lookup_from(old(working)@, 0, lookup@),
{
    let _ = run_lookup(working, lookup, 0);
}

/// Applies the lookups of `slist` to `working`, one after the other.
pub fn apply_all(working: &mut Vec<AugGlyph>, slist: &SubstitutionList)
    requires
        list_wf(slist@),
    ensures
        final(working)@ == apply_all_spec(old(working)@, slist@),
{
    let mut i: usize = 0;
    while i < slist.lookups.len()
        invariant
            list_wf(slist@),
            i <= slist.lookups.len(),
            apply_all_from(working@, slist@, i as int) == apply_all_from(old(working)@, slist@, 0),
        decreases slist.lookups.len() - i,
    {
        assert(slist@[i as int] == slist.lookups[i as int]@);
        assert(lookup_wf(slist@[i as int]));
        apply_lookup(working, &slist.lookups[i]);
        i += 1;
    }
}

/// Applies the lookups of `slist` to `working`, one after the other, and
/// says whether one of the first `new_amount` substitutions of the list has
/// applied. Once the lookups that hold those are through and none of them
/// has applied, the rest of the list is left out and the answer is no.
pub fn apply_all_with_new(
    working: &mut Vec<AugGlyph>,
    slist: &SubstitutionList,
    new_amount: usize,
) -> (res: bool)
    requires
        list_wf(slist@),
    ensures
        (final(working)@, res) == apply_all_with_new_spec(
            old(working)@,
            slist@,
            new_amount as int,
        ),
{
    let mut remaining: usize = new_amount;
    let mut any_new_matched = false;
    let mut i: usize = 0;
    while i < slist.lookups.len()
        invariant
            list_wf(slist@),
            i <= slist.lookups.len(),
            with_new_from(working@, slist@, i as int, remaining as int, any_new_matched)
                == apply_all_with_new_spec(old(working)@, slist@, new_amount as int),
        decreases slist.lookups.len() - i,
    {
        if remaining == 0 && !any_new_matched {
            return false;
        }
        let lookup = &slist.lookups[i];
        assert(slist@[i as int] == lookup@);
        assert(lookup_wf(slist@[i as int]));
        let hit = run_lookup(working, lookup, remaining);
        if hit {
            any_new_matched = true;
        }
        assert(lookup@.len() == lookup.substitutions.len());
        remaining = if remaining > lookup.substitutions.len() {
            remaining - lookup.substitutions.len()
        } else {
            0
        };
        i += 1;
    }
    any_new_matched
}

} // verus!
