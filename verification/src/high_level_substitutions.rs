//! Rewrite rules on real glyphs: a key, the stretch of it that gives way,
//! and what it gives way to.

use vstd::prelude::*;
use crate::glyphs::{
    AugGlyph, Glyph, MAX_SYN, augment, augment_spec, char_of_glyph, char_to_glyph,
    encode_chars, encode_spec, glyph_char, glyph_of_char,
};
use crate::seqs::{copy_range, copy_vec};
use crate::substitutions2::{
    KeyElem, Lookup, SubContent, SubContentView, Substitution, SubstitutionList, SubstitutionView,
    lookups_view, subs_view,
};
use crate::high_level_substitutions2::{as_key, flush_group};
use crate::text::{
    chars_of, find_char, first_index, has_char, parts_view, push_chars, split_chars, split_spec,
    string_of, trim_chars, trim_spec,
};

verus! {

/// A rule: where `key` stands, the glyphs of it from `sub_start` up to
/// `sub_end` give way to `sub_content`; the key may be bound to the start
/// or the end of a word.
#[derive(Clone, Debug, PartialEq, Eq, Hash)]
pub struct HLSubstitution {
    pub key: Vec<Glyph>,
    pub sub_start: usize,
    pub sub_end: usize,
    pub at_start: bool,
    pub at_end: bool,
    pub sub_content: Vec<Glyph>,
}

/// Rules, the one that applies first standing first.
#[derive(Clone, Debug, PartialEq, Eq)]
pub struct HLSubstitutionList {
    pub substitutions: Vec<HLSubstitution>,
}

/// The mathematical value of an [`HLSubstitution`].
pub struct HLSubstitutionView {
    pub key: Seq<Glyph>,
    pub sub_start: int,
    pub sub_end: int,
    pub at_start: bool,
    pub at_end: bool,
    pub sub_content: Seq<Glyph>,
}

impl View for HLSubstitution {
    type V = HLSubstitutionView;

    open spec fn view(&self) -> HLSubstitutionView {
        HLSubstitutionView {
            key: self.key@,
            sub_start: self.sub_start as int,
            sub_end: self.sub_end as int,
            at_start: self.at_start,
            at_end: self.at_end,
            sub_content: self.sub_content@,
        }
    }
}

/// The values of a run of rules.
pub open spec fn hl_view(subs: Seq<HLSubstitution>) -> Seq<HLSubstitutionView> {
    subs.map_values(|s: HLSubstitution| s@)
}

impl View for HLSubstitutionList {
    type V = Seq<HLSubstitutionView>;

    open spec fn view(&self) -> Seq<HLSubstitutionView> {
        hl_view(self.substitutions@)
    }
}

/// Whether the stretch that gives way lies within the key.
pub open spec fn hl_wf(s: HLSubstitutionView) -> bool {
    0 <= s.sub_start <= s.sub_end <= s.key.len()
}

/// Whether each rule of a list is well formed.
pub open spec fn hl_list_wf(subs: Seq<HLSubstitutionView>) -> bool {
    forall|i: int| 0 <= i < subs.len() ==> hl_wf(#[trigger] subs[i])
}

/// The glyphs that the characters `s` write, where each of them writes one.
pub open spec fn glyphs_exact(s: Seq<char>) -> Option<Seq<Glyph>>
    decreases s.len(),
{
    if s.len() == 0 {
        Some(Seq::empty())
    } else {
        match (glyphs_exact(s.drop_last()), glyph_of_char(s.last())) {
            (Some(gs), Some(g)) => Some(gs.push(g)),
            _ => None,
        }
    }
}

/// The rule that the text `s` writes, if it writes one.
///
/// The text is the key with the stretch that gives way in square brackets,
/// an arrow, and what the stretch gives way to; a `^` before the key binds
/// it to the start of a word, a `$` behind it to the end. Each glyph is
/// written by its character.
pub open spec fn debug_parse_spec(s: Seq<char>) -> Option<HLSubstitutionView> {
    let at_start = s.len() > 0 && s[0] == '^';
    let from: int = if at_start {
        1
    } else {
        0
    };
    let open = first_index(s, '[');
    let close = first_index(s, ']');
    let arrow = first_index(s, '\u{2192}');
    let at_end = arrow > 0 && s[arrow - 1] == '$';
    let key_end = if at_end {
        arrow - 1
    } else {
        arrow
    };
    if from <= open < close < key_end && arrow < s.len() {
        match (
            glyphs_exact(s.subrange(from, open)),
            glyphs_exact(s.subrange(open + 1, close)),
            glyphs_exact(s.subrange(close + 1, key_end)),
            glyphs_exact(s.subrange(arrow + 1, s.len() as int)),
        ) {
            (Some(before), Some(middle), Some(behind), Some(rhs)) => Some(
                HLSubstitutionView {
                    key: before + middle + behind,
                    sub_start: before.len() as int,
                    sub_end: (before.len() + middle.len()) as int,
                    at_start,
                    at_end,
                    sub_content: rhs,
                },
            ),
            _ => None,
        }
    } else {
        None
    }
}

fn read_glyphs(s: &Vec<char>, from: usize, to: usize) -> (res: Option<Vec<Glyph>>)
    requires
        from <= to <= s.len(),
    ensures
        match res {
            Some(gs) => glyphs_exact(s@.subrange(from as int, to as int)) == Some(gs@) && gs.len()
                == to - from,
            None => glyphs_exact(s@.subrange(from as int, to as int)) is None,
        },
{
    let mut gs: Vec<Glyph> = Vec::new();
    let mut i: usize = from;
    assert(s@.subrange(from as int, from as int) =~= Seq::<char>::empty());
    while i < to
        invariant
            from <= i <= to <= s.len(),
            glyphs_exact(s@.subrange(from as int, i as int)) == Some(gs@),
            gs.len() == i - from,
        decreases to - i,
    {
        let ghost next = s@.subrange(from as int, i + 1);
        assert(next.drop_last() =~= s@.subrange(from as int, i as int));
        match char_to_glyph(s[i]) {
            Some(g) => {
                gs.push(g);
            },
            None => {
                proof {
                    lemma_glyphs_exact_prefix(s@.subrange(from as int, to as int), i + 1 - from);
                    assert(s@.subrange(from as int, to as int).take(i + 1 - from) =~= next);
                }
                return None;
            },
        }
        i += 1;
    }
    Some(gs)
}

/// Where characters write glyphs one for one, so does each prefix of them.
pub proof fn lemma_glyphs_exact_prefix(s: Seq<char>, n: int)
    requires
        0 <= n <= s.len(),
    ensures
        glyphs_exact(s) is Some ==> glyphs_exact(s.take(n)) is Some,
    decreases s.len(),
{
    if n == s.len() {
        assert(s.take(n) =~= s);
    } else {
        assert(s.drop_last().take(n) =~= s.take(n));
        lemma_glyphs_exact_prefix(s.drop_last(), n);
    }
}

impl HLSubstitution {
    /// Reads a rule from the text that writes it.
    pub fn from_debug_str(s: &str) -> (res: Result<HLSubstitution, String>)
        ensures
            match res {
                Ok(r) => debug_parse_spec(s@) == Some(r@),
                Err(_) => debug_parse_spec(s@) is None,
            },
    {
        Self::from_debug_chars(&chars_of(s))
    }

    /// Reads a rule from the characters that write it.
    pub fn from_debug_chars(s: &Vec<char>) -> (res: Result<HLSubstitution, String>)
        ensures
            match res {
                Ok(r) => debug_parse_spec(s@) == Some(r@),
                Err(_) => debug_parse_spec(s@) is None,
            },
    {
        let n = s.len();
        let at_start = n > 0 && s[0] == '^';
        let from: usize = if at_start {
            1
        } else {
            0
        };
        let open = find_char(s, '[');
        let close = find_char(s, ']');
        let arrow = find_char(s, '\u{2192}');
        let at_end = arrow > 0 && s[arrow - 1] == '$';
        let key_end: usize = if at_end {
            arrow - 1
        } else {
            arrow
        };
        if !(from <= open && open < close && close < key_end && arrow < n) {
            return Err("the text is no rule".to_owned());
        }
        let before = match read_glyphs(s, from, open) {
            Some(gs) => gs,
            None => {
                return Err("the text is no rule".to_owned());
            },
        };
        let middle = match read_glyphs(s, open + 1, close) {
            Some(gs) => gs,
            None => {
                return Err("the text is no rule".to_owned());
            },
        };
        let behind = match read_glyphs(s, close + 1, key_end) {
            Some(gs) => gs,
            None => {
                return Err("the text is no rule".to_owned());
            },
        };
        let rhs = match read_glyphs(s, arrow + 1, n) {
            Some(gs) => gs,
            None => {
                return Err("the text is no rule".to_owned());
            },
        };
        let sub_start = before.len();
        let sub_end = before.len() + middle.len();
        let mut key = before;
        let mut middle = middle;
        let mut behind = behind;
        key.append(&mut middle);
        key.append(&mut behind);
        Ok(HLSubstitution { key, sub_start, sub_end, at_start, at_end, sub_content: rhs })
    }
}

/// The rules that the pieces from number `i` on write, behind `acc`, each
/// piece without the white space at its ends.
pub open spec fn parse_pieces(pieces: Seq<Seq<char>>, i: int, acc: Seq<HLSubstitutionView>) -> Option<
    Seq<HLSubstitutionView>,
>
    decreases pieces.len() - i,
{
    if i < 0 || i >= pieces.len() {
        Some(acc)
    } else {
        match debug_parse_spec(trim_spec(pieces[i])) {
            Some(r) => parse_pieces(pieces, i + 1, acc.push(r)),
            None => None,
        }
    }
}

/// The list that the text `s` writes, if it writes one: nothing but white
/// space is the empty list; with a comma in it, the text is rules with
/// commas between them; and else it is rules on lines of their own, the
/// one that applies first standing last.
pub open spec fn list_debug_parse_spec(s: Seq<char>) -> Option<Seq<HLSubstitutionView>> {
    if trim_spec(s).len() == 0 {
        Some(Seq::empty())
    } else if s.contains(',') {
        parse_pieces(split_spec(s, ','), 0, Seq::empty())
    } else {
        match parse_pieces(split_spec(s, '\n'), 0, Seq::empty()) {
            Some(rules) => Some(rules.reverse()),
            None => None,
        }
    }
}

fn read_pieces(pieces: &Vec<Vec<char>>) -> (res: Option<Vec<HLSubstitution>>)
    ensures
        match res {
            Some(rules) => parse_pieces(parts_view(pieces@), 0, Seq::empty()) == Some(
                hl_view(rules@),
            ),
            None => parse_pieces(parts_view(pieces@), 0, Seq::empty()) is None,
        },
{
    let ghost pv = parts_view(pieces@);
    let mut rules: Vec<HLSubstitution> = Vec::new();
    let mut i: usize = 0;
    assert(hl_view(rules@) =~= Seq::<HLSubstitutionView>::empty());
    while i < pieces.len()
        invariant
            i <= pieces.len(),
            pv == parts_view(pieces@),
            parse_pieces(pv, i as int, hl_view(rules@)) == parse_pieces(pv, 0, Seq::empty()),
        decreases pieces.len() - i,
    {
        assert(pv[i as int] == pieces@[i as int]@);
        match HLSubstitution::from_debug_chars(&trim_chars(&pieces[i])) {
            Ok(r) => {
                let ghost before = hl_view(rules@);
                let ghost rv = r@;
                rules.push(r);
                assert(hl_view(rules@) =~= before.push(rv));
            },
            Err(_) => {
                return None;
            },
        }
        i += 1;
    }
    Some(rules)
}

fn reversed(rules: Vec<HLSubstitution>) -> (res: Vec<HLSubstitution>)
    ensures
        hl_view(res@) == hl_view(rules@).reverse(),
{
    let mut rules = rules;
    let ghost from = hl_view(rules@);
    let mut res: Vec<HLSubstitution> = Vec::new();
    while rules.len() > 0
        invariant
            hl_view(rules@) == from.take(rules.len() as int),
            rules.len() <= from.len(),
            res.len() == from.len() - rules.len(),
            forall|k: int| 0 <= k < res.len() ==> hl_view(res@)[k] == from[from.len() - 1 - k],
        decreases rules.len(),
    {
        let ghost n = rules.len() as int;
        let ghost before = rules@;
        let last = rules.pop().unwrap();
        assert(hl_view(rules@) =~= from.take(n - 1));
        assert(last@ == hl_view(before)[n - 1]);
        assert(last@ == from[n - 1]);
        let ghost done = hl_view(res@);
        let ghost lv = last@;
        res.push(last);
        assert(hl_view(res@) =~= done.push(lv));
    }
    assert(hl_view(res@) =~= from.reverse());
    res
}

impl HLSubstitutionList {
    /// Reads a list of rules from the text that writes it.
    pub fn from_debug_str(s: &str) -> (res: Result<HLSubstitutionList, String>)
        ensures
            match res {
                Ok(l) => list_debug_parse_spec(s@) == Some(l@),
                Err(_) => list_debug_parse_spec(s@) is None,
            },
    {
        let v = chars_of(s);
        if trim_chars(&v).len() == 0 {
            let substitutions: Vec<HLSubstitution> = Vec::new();
            assert(hl_view(substitutions@) =~= Seq::<HLSubstitutionView>::empty());
            return Ok(HLSubstitutionList { substitutions });
        }
        if has_char(&v, ',') {
            match read_pieces(&split_chars(&v, ',')) {
                Some(substitutions) => Ok(HLSubstitutionList { substitutions }),
                None => Err("the text is no list of rules".to_owned()),
            }
        } else {
            match read_pieces(&split_chars(&v, '\n')) {
                Some(rules) => Ok(HLSubstitutionList { substitutions: reversed(rules) }),
                None => Err("the text is no list of rules".to_owned()),
            }
        }
    }
}

/// The substitutions that one rule is written as, when what it puts is
/// the placeholder `k`.
///
/// Where the rule is bound to the start of a word, a first substitution
/// keeps the place where a letter stands before the key; where it is bound
/// to the end, a second keeps the place where a letter stands behind it.
/// The last one puts the placeholder.
pub open spec fn rule_subs(s: HLSubstitutionView, k: u32) -> Seq<SubstitutionView> {
    let key = augment_spec(s.key);
    let pre = as_key(key.subrange(0, s.sub_start));
    let at = key.subrange(s.sub_start, s.sub_end);
    let post = as_key(key.subrange(s.sub_end, key.len() as int));
    let start_guard = SubstitutionView {
        pre_key: seq![KeyElem::AnyLetter] + pre,
        at_key: at,
        post_key: post,
        sub_content: SubContentView::Ignore,
    };
    let end_guard = SubstitutionView {
        pre_key: pre,
        at_key: at,
        post_key: post.push(KeyElem::AnyLetter),
        sub_content: SubContentView::Ignore,
    };
    let main = SubstitutionView {
        pre_key: pre,
        at_key: at,
        post_key: post,
        sub_content: SubContentView::Sub(seq![AugGlyph::Synthetic(k)]),
    };
    (if s.at_start {
        seq![start_guard]
    } else {
        Seq::empty()
    }) + (if s.at_end {
        seq![end_guard]
    } else {
        Seq::empty()
    }) + seq![main]
}

/// The place of the first entry of `table` at or behind `i` that is
/// `content`, or the length of `table` if there is none.
pub open spec fn index_in(table: Seq<Seq<Glyph>>, content: Seq<Glyph>, i: int) -> int
    decreases table.len() - i,
{
    if i < 0 || i >= table.len() {
        table.len() as int
    } else if table[i] == content {
        i
    } else {
        index_in(table, content, i + 1)
    }
}

/// The place of the first entry that is `content` lies in the table or is
/// its length.
pub proof fn lemma_index_in_bounds(table: Seq<Seq<Glyph>>, content: Seq<Glyph>, i: int)
    requires
        0 <= i <= table.len(),
    ensures
        i <= index_in(table, content, i) <= table.len(),
    decreases table.len() - i,
{
    if i < table.len() && table[i] != content {
        lemma_index_in_bounds(table, content, i + 1);
    }
}

/// How far a list is written as substitutions: the lookups that are full,
/// the lookup that is being filled, the contents that have a placeholder,
/// each at the place of its number, and how many substitutions have come
/// from new rules.
pub struct Lowering {
    pub lookups: Seq<Seq<SubstitutionView>>,
    pub cur: Seq<SubstitutionView>,
    pub table: Seq<Seq<Glyph>>,
    pub new_count: int,
}

/// What writing the rule `s` adds. A content met before keeps its
/// placeholder and a new one gets the next; there is no next one once
/// `MAX_SYN` have been given. A rule that is bound to the start or the end
/// of a word closes the lookup that it stands in.
pub open spec fn lower_step(st: Lowering, s: HLSubstitutionView, is_new: bool) -> Option<Lowering> {
    let k = index_in(st.table, s.sub_content, 0);
    if k >= st.table.len() && st.table.len() >= MAX_SYN {
        None
    } else {
        let table = if k >= st.table.len() {
            st.table.push(s.sub_content)
        } else {
            st.table
        };
        let subs = rule_subs(s, k as u32);
        let new_count = st.new_count + if is_new {
            subs.len() as int
        } else {
            0
        };
        if s.at_start || s.at_end {
            Some(
                Lowering {
                    lookups: st.lookups.push(st.cur + subs),
                    cur: Seq::empty(),
                    table,
                    new_count,
                },
            )
        } else {
            Some(Lowering { lookups: st.lookups, cur: st.cur + subs, table, new_count })
        }
    }
}

/// What writing the rules from number `i` on adds, the first `new_amount`
/// rules of the list being the new ones.
pub open spec fn lower_from(
    subs: Seq<HLSubstitutionView>,
    i: int,
    st: Lowering,
    new_amount: int,
) -> Option<Lowering>
    decreases subs.len() - i,
{
    if i < 0 || i >= subs.len() {
        Some(st)
    } else {
        match lower_step(st, subs[i], i < new_amount) {
            Some(next) => lower_from(subs, i + 1, next, new_amount),
            None => None,
        }
    }
}

/// The lookup that puts, for each placeholder, the content that it stands
/// for, in the order of the placeholders.
pub open spec fn table_lookup(table: Seq<Seq<Glyph>>) -> Seq<SubstitutionView> {
    Seq::new(
        table.len(),
        |k: int|
            SubstitutionView {
                pre_key: Seq::empty(),
                at_key: seq![AugGlyph::Synthetic(k as u32)],
                post_key: Seq::empty(),
                sub_content: SubContentView::Sub(augment_spec(table[k])),
            },
    )
}

/// A list of rules, the first `new_amount` of them new, as lookups of
/// substitutions, and how many substitutions have come from the new rules;
/// nothing where the placeholders run out.
pub open spec fn hl_to_ll_spec(subs: Seq<HLSubstitutionView>, new_amount: int) -> Option<
    (Seq<Seq<SubstitutionView>>, int),
> {
    match lower_from(
        subs,
        0,
        Lowering {
            lookups: Seq::empty(),
            cur: Seq::empty(),
            table: Seq::empty(),
            new_count: 0,
        },
        new_amount,
    ) {
        Some(st) => Some(
            (flush_group(st.lookups, st.cur).push(table_lookup(st.table)), st.new_count),
        ),
        None => None,
    }
}

/// The values of a table of contents.
pub open spec fn table_view(table: Seq<Vec<Glyph>>) -> Seq<Seq<Glyph>> {
    table.map_values(|c: Vec<Glyph>| c@)
}

fn glyphs_equal(a: &Vec<Glyph>, b: &Vec<Glyph>) -> (res: bool)
    ensures
        res == (a@ == b@),
{
    if a.len() != b.len() {
        return false;
    }
    let mut i: usize = 0;
    while i < a.len()
        invariant
            i <= a.len(),
            a.len() == b.len(),
            forall|j: int| 0 <= j < i ==> a@[j] == b@[j],
        decreases a.len() - i,
    {
        if a[i] != b[i] {
            return false;
        }
        i += 1;
    }
    assert(a@ =~= b@);
    true
}

fn find_content(table: &Vec<Vec<Glyph>>, content: &Vec<Glyph>) -> (k: usize)
    ensures
        k == index_in(table_view(table@), content@, 0),
        k <= table.len(),
{
    let mut i: usize = 0;
    while i < table.len()
        invariant
            i <= table.len(),
            index_in(table_view(table@), content@, i as int) == index_in(
                table_view(table@),
                content@,
                0,
            ),
        decreases table.len() - i,
    {
        assert(table_view(table@)[i as int] == table@[i as int]@);
        if glyphs_equal(&table[i], content) {
            return i;
        }
        i += 1;
    }
    i
}

fn real_glyphs(key: &Vec<Glyph>, from: usize, to: usize) -> (res: Vec<AugGlyph>)
    requires
        from <= to <= key.len(),
    ensures
        res@ == augment_spec(key@).subrange(from as int, to as int),
{
    let part = copy_range(key, from, to);
    let res = augment(&part);
    assert(res@ =~= augment_spec(key@).subrange(from as int, to as int));
    res
}

fn real_key(key: &Vec<Glyph>, from: usize, to: usize) -> (res: Vec<KeyElem>)
    requires
        from <= to <= key.len(),
    ensures
        res@ == as_key(augment_spec(key@).subrange(from as int, to as int)),
{
    let mut res: Vec<KeyElem> = Vec::new();
    let mut i: usize = from;
    while i < to
        invariant
            from <= i <= to <= key.len(),
            res@ == as_key(augment_spec(key@).subrange(from as int, i as int)),
        decreases to - i,
    {
        res.push(KeyElem::Glyph(AugGlyph::Real(key[i])));
        assert(res@ =~= as_key(augment_spec(key@).subrange(from as int, i + 1)));
        i += 1;
    }
    res
}

fn push_rule_subs(out: &mut Vec<Substitution>, s: &HLSubstitution, k: u32) -> (n: usize)
    requires
        hl_wf(s@),
    ensures
        subs_view(final(out)@) == subs_view(old(out)@) + rule_subs(s@, k),
        n == rule_subs(s@, k).len(),
        1 <= n <= 3,
{
    let ghost before = subs_view(out@);
    let ghost mut added: Seq<SubstitutionView> = Seq::empty();
    let mut n: usize = 0;
    if s.at_start {
        let mut pre_key: Vec<KeyElem> = Vec::new();
        pre_key.push(KeyElem::AnyLetter);
        let mut pre = real_key(&s.key, 0, s.sub_start);
        pre_key.append(&mut pre);
        let sub = Substitution {
            pre_key,
            at_key: real_glyphs(&s.key, s.sub_start, s.sub_end),
            post_key: real_key(&s.key, s.sub_end, s.key.len()),
            sub_content: SubContent::Ignore,
        };
        proof {
            let ghost now = subs_view(out@);
            added = added.push(sub@);
        }
        let ghost now = subs_view(out@);
        let ghost sv = sub@;
        out.push(sub);
        assert(subs_view(out@) =~= now.push(sv));
        n += 1;
    }
    if s.at_end {
        let mut post_key = real_key(&s.key, s.sub_end, s.key.len());
        post_key.push(KeyElem::AnyLetter);
        let sub = Substitution {
            pre_key: real_key(&s.key, 0, s.sub_start),
            at_key: real_glyphs(&s.key, s.sub_start, s.sub_end),
            post_key,
            sub_content: SubContent::Ignore,
        };
        proof {
            added = added.push(sub@);
        }
        let ghost now = subs_view(out@);
        let ghost sv = sub@;
        out.push(sub);
        assert(subs_view(out@) =~= now.push(sv));
        n += 1;
    }
    let marker = vec![AugGlyph::Synthetic(k)];
    assert(marker@ =~= seq![AugGlyph::Synthetic(k)]);
    let sub = Substitution {
        pre_key: real_key(&s.key, 0, s.sub_start),
        at_key: real_glyphs(&s.key, s.sub_start, s.sub_end),
        post_key: real_key(&s.key, s.sub_end, s.key.len()),
        sub_content: SubContent::Sub(marker),
    };
    proof {
        added = added.push(sub@);
    }
    let ghost now = subs_view(out@);
    let ghost sv = sub@;
    out.push(sub);
    assert(subs_view(out@) =~= now.push(sv));
    n += 1;
    proof {
        assert(added =~= rule_subs(s@, k));
        assert(subs_view(out@) =~= before + added);
    }
    n
}

fn table_to_lookup(table: &Vec<Vec<Glyph>>) -> (res: Lookup)
    requires
        table.len() <= MAX_SYN,
    ensures
        res@ == table_lookup(table_view(table@)),
{
    let mut l1: Vec<Substitution> = Vec::new();
    let mut k: usize = 0;
    while k < table.len()
        invariant
            k <= table.len() <= MAX_SYN,
            l1.len() == k,
            forall|j: int|
                0 <= j < k ==> (#[trigger] subs_view(l1@)[j]) == table_lookup(
                    table_view(table@),
                )[j],
        decreases table.len() - k,
    {
        let at_key = vec![AugGlyph::Synthetic(k as u32)];
        assert(at_key@ =~= seq![AugGlyph::Synthetic(k as u32)]);
        let sub = Substitution {
            pre_key: Vec::new(),
            at_key,
            post_key: Vec::new(),
            sub_content: SubContent::Sub(augment(&table[k])),
        };
        assert(table_view(table@)[k as int] == table@[k as int]@);
        let ghost before = subs_view(l1@);
        let ghost sv = sub@;
        l1.push(sub);
        assert(subs_view(l1@) =~= before.push(sv));
        k += 1;
    }
    assert(subs_view(l1@) =~= table_lookup(table_view(table@)));
    Lookup { substitutions: l1 }
}

fn lower(hslist: &HLSubstitutionList, new_amount: usize) -> (res: Result<
    (SubstitutionList, usize),
    String,
>)
    requires
        hl_list_wf(hslist@),
        new_amount == 0 || hslist@.len() * 3 <= usize::MAX,
    ensures
        match res {
            Ok((l, n)) => hl_to_ll_spec(hslist@, new_amount as int) == Some((l@, n as int)),
            Err(_) => hl_to_ll_spec(hslist@, new_amount as int) is None,
        },
{
    let mut lookups: Vec<Lookup> = Vec::new();
    let mut working_l0: Vec<Substitution> = Vec::new();
    let mut table: Vec<Vec<Glyph>> = Vec::new();
    let mut output_new_amount: usize = 0;
    let mut i: usize = 0;
    proof {
        assert(lookups_view(lookups@) =~= Seq::<Seq<SubstitutionView>>::empty());
        assert(subs_view(working_l0@) =~= Seq::<SubstitutionView>::empty());
        assert(table_view(table@) =~= Seq::<Seq<Glyph>>::empty());
    }
    while i < hslist.substitutions.len()
        invariant
            hl_list_wf(hslist@),
            new_amount == 0 || hslist@.len() * 3 <= usize::MAX,
            i <= hslist.substitutions.len(),
            table.len() <= MAX_SYN,
            output_new_amount <= 3 * i,
            new_amount == 0 ==> output_new_amount == 0,
            lower_from(
                hslist@,
                i as int,
                Lowering {
                    lookups: lookups_view(lookups@),
                    cur: subs_view(working_l0@),
                    table: table_view(table@),
                    new_count: output_new_amount as int,
                },
                new_amount as int,
            ) == lower_from(
                hslist@,
                0,
                Lowering {
                    lookups: Seq::empty(),
                    cur: Seq::empty(),
                    table: Seq::empty(),
                    new_count: 0,
                },
                new_amount as int,
            ),
        decreases hslist.substitutions.len() - i,
    {
        let sub = &hslist.substitutions[i];
        assert(hslist@[i as int] == sub@);
        assert(hl_wf(hslist@[i as int]));
        let ghost st = Lowering {
            lookups: lookups_view(lookups@),
            cur: subs_view(working_l0@),
            table: table_view(table@),
            new_count: output_new_amount as int,
        };
        let k = find_content(&table, &sub.sub_content);
        if k >= table.len() {
            if table.len() >= MAX_SYN {
                return Err("Exceeded max number of syn glyphs 1000".to_owned());
            }
            let ghost before = table_view(table@);
            table.push(copy_vec(&sub.sub_content));
            assert(table_view(table@) =~= before.push(sub.sub_content@));
        }
        let n = push_rule_subs(&mut working_l0, sub, k as u32);
        if i < new_amount {
            output_new_amount += n;
        }
        if sub.at_start || sub.at_end {
            let ghost before = lookups_view(lookups@);
            let ghost cv = subs_view(working_l0@);
            lookups.push(Lookup { substitutions: working_l0 });
            assert(lookups_view(lookups@) =~= before.push(cv));
            working_l0 = Vec::new();
            assert(subs_view(working_l0@) =~= Seq::<SubstitutionView>::empty());
        }
        assert(lower_step(st, sub@, i < new_amount) == Some(
            Lowering {
                lookups: lookups_view(lookups@),
                cur: subs_view(working_l0@),
                table: table_view(table@),
                new_count: output_new_amount as int,
            },
        ));
        i += 1;
    }
    if working_l0.len() > 0 {
        let ghost before = lookups_view(lookups@);
        let ghost cv = subs_view(working_l0@);
        lookups.push(Lookup { substitutions: working_l0 });
        assert(lookups_view(lookups@) =~= before.push(cv));
    }
    let last = table_to_lookup(&table);
    let ghost before = lookups_view(lookups@);
    let ghost lv = last@;
    lookups.push(last);
    assert(lookups_view(lookups@) =~= before.push(lv));
    Ok((SubstitutionList { lookups }, output_new_amount))
}

/// Writes a list of rules as lookups of substitutions.
///
/// Each rule puts a placeholder for its content, and a last lookup puts
/// the contents for the placeholders.
pub fn hl_to_ll(hslist: &HLSubstitutionList) -> (res: Result<SubstitutionList, String>)
    requires
        hl_list_wf(hslist@),
    ensures
        match res {
            Ok(l) => hl_to_ll_spec(hslist@, 0) matches Some(r) && r.0 == l@,
            Err(_) => hl_to_ll_spec(hslist@, 0) is None,
        },
{
    match lower(hslist, 0) {
        Ok((l, _)) => Ok(l),
        Err(e) => Err(e),
    }
}

/// Writes a list of rules as lookups of substitutions, and counts the
/// substitutions that have come from the first `new_amount` rules.
pub fn hl_to_ll_with_new(hslist: &HLSubstitutionList, new_amount: usize) -> (res: Result<
    (SubstitutionList, usize),
    String,
>)
    requires
        hl_list_wf(hslist@),
        hslist@.len() * 3 <= usize::MAX,
    ensures
        match res {
            Ok((l, n)) => hl_to_ll_spec(hslist@, new_amount as int) == Some((l@, n as int)),
            Err(_) => hl_to_ll_spec(hslist@, new_amount as int) is None,
        },
{
    lower(hslist, new_amount)
}

/// The key of a rule from glyph `i` on as text: each glyph by its
/// character, a `[` before the glyph that the stretch begins with, and a
/// `]` behind the glyph that it ends with.
pub open spec fn key_text_from(s: HLSubstitutionView, i: int) -> Seq<char>
    decreases s.key.len() - i,
{
    if i < 0 || i >= s.key.len() {
        Seq::empty()
    } else {
        (if s.sub_start == i {
            seq!['[']
        } else {
            Seq::empty()
        }) + seq![glyph_char(s.key[i])] + (if s.sub_end == i + 1 {
            seq![']']
        } else {
            Seq::empty()
        }) + key_text_from(s, i + 1)
    }
}

/// A rule as text: a `^` where it is bound to the start of a word, its
/// key, a `$` where it is bound to the end, an arrow, and what the stretch
/// gives way to.
pub open spec fn debug_text_spec(s: HLSubstitutionView) -> Seq<char> {
    (if s.at_start {
        seq!['^']
    } else {
        Seq::empty()
    }) + key_text_from(s, 0) + (if s.at_end {
        seq!['$']
    } else {
        Seq::empty()
    }) + seq!['\u{2192}'] + encode_spec(s.sub_content)
}

/// Rules as text: each rule with a comma and a blank behind it.
pub open spec fn list_debug_text_spec(subs: Seq<HLSubstitutionView>) -> Seq<char>
    decreases subs.len(),
{
    if subs.len() == 0 {
        Seq::empty()
    } else {
        list_debug_text_spec(subs.drop_last()) + debug_text_spec(subs.last()) + seq![',', ' ']
    }
}

impl HLSubstitution {
    /// The characters of the rule as text.
    pub fn debug_chars(&self) -> (res: Vec<char>)
        ensures
            res@ == debug_text_spec(self@),
    {
        let mut out: Vec<char> = Vec::new();
        if self.at_start {
            out.push('^');
        }
        let ghost head = out@;
        let mut i: usize = 0;
        while i < self.key.len()
            invariant
                i <= self.key.len(),
                out@ + key_text_from(self@, i as int) == head + key_text_from(self@, 0),
            decreases self.key.len() - i,
        {
            let ghost before = out@;
            let ghost rest = key_text_from(self@, i + 1);
            if self.sub_start == i {
                out.push('[');
            }
            out.push(char_of_glyph(self.key[i]));
            if self.sub_end == i + 1 {
                out.push(']');
            }
            assert(out@ + rest =~= before + key_text_from(self@, i as int));
            i += 1;
        }
        assert(out@ =~= head + key_text_from(self@, 0));
        if self.at_end {
            out.push('$');
        }
        out.push('\u{2192}');
        let content = encode_chars(&self.sub_content);
        push_chars(&mut out, &content);
        assert(out@ =~= debug_text_spec(self@));
        out
    }

    /// The rule as text.
    pub fn debug_text(&self) -> (res: String)
        ensures
            res@ == debug_text_spec(self@),
    {
        string_of(&self.debug_chars())
    }
}

impl HLSubstitutionList {
    /// The rules as text.
    pub fn debug_text(&self) -> (res: String)
        ensures
            res@ == list_debug_text_spec(self@),
    {
        let mut out: Vec<char> = Vec::new();
        let mut i: usize = 0;
        assert(self@.take(0) =~= Seq::<HLSubstitutionView>::empty());
        while i < self.substitutions.len()
            invariant
                i <= self.substitutions.len(),
                out@ == list_debug_text_spec(self@.take(i as int)),
            decreases self.substitutions.len() - i,
        {
            let ghost before = out@;
            assert(self@.take(i + 1).drop_last() =~= self@.take(i as int));
            assert(self@.take(i + 1).last() == self.substitutions[i as int]@);
            let rule = self.substitutions[i].debug_chars();
            push_chars(&mut out, &rule);
            out.push(',');
            out.push(' ');
            assert(out@ =~= before + rule@ + seq![',', ' ']);
            i += 1;
        }
        assert(self@.take(self.substitutions.len() as int) =~= self@);
        string_of(&out)
    }
}

} // verus!
