//! Substitutions of one glyph for a stretch of a key, in a list that
//! barriers cut into lookups.

use vstd::prelude::*;
use crate::glyphs::{Glyph, glyph_name, push_glyph_name};
use crate::seqs::{has_at, splice, spliced};
use crate::text::{decimal_digits, join_spec, parts_view, push_decimal, push_joined, push_lit, string_of};

verus! {

/// Where `key` stands, the glyphs of it from `sub_start` up to `sub_end`
/// give way to the one glyph `sub_content`.
#[derive(Clone, Debug)]
pub struct Substitution {
    pub key: Vec<Glyph>,
    pub sub_start: usize,
    pub sub_end: usize,
    pub sub_content: Glyph,
}

/// An entry of a substitution list.
#[derive(Debug, Clone)]
pub enum SubstitutionListItem {
    Substitution(Substitution),
    /// The end of a lookup: at each place one substitution at most applies
    /// between two barriers.
    Barrier,
}

/// Substitutions and barriers in the order in which they are tried.
#[derive(Debug, Clone)]
pub struct SubstitutionList {
    pub substitutions: Vec<SubstitutionListItem>,
}

/// The mathematical value of a [`Substitution`].
pub struct SubstitutionView {
    pub key: Seq<Glyph>,
    pub sub_start: int,
    pub sub_end: int,
    pub sub_content: Glyph,
}

/// The mathematical value of a [`SubstitutionListItem`].
pub enum ItemView {
    Substitution(SubstitutionView),
    Barrier,
}

impl View for Substitution {
    type V = SubstitutionView;

    open spec fn view(&self) -> SubstitutionView {
        SubstitutionView {
            key: self.key@,
            sub_start: self.sub_start as int,
            sub_end: self.sub_end as int,
            sub_content: self.sub_content,
        }
    }
}

impl View for SubstitutionListItem {
    type V = ItemView;

    open spec fn view(&self) -> ItemView {
        match self {
            SubstitutionListItem::Substitution(s) => ItemView::Substitution(s@),
            SubstitutionListItem::Barrier => ItemView::Barrier,
        }
    }
}

/// The values of a run of entries.
pub open spec fn items_view(items: Seq<SubstitutionListItem>) -> Seq<ItemView> {
    items.map_values(|i: SubstitutionListItem| i@)
}

impl View for SubstitutionList {
    type V = Seq<ItemView>;

    open spec fn view(&self) -> Seq<ItemView> {
        items_view(self.substitutions@)
    }
}

/// Whether the stretch that gives way lies within the key.
pub open spec fn sub_wf(s: SubstitutionView) -> bool {
    0 <= s.sub_start <= s.sub_end <= s.key.len()
}

/// Whether each substitution of a list is well formed and makes something
/// give way.
pub open spec fn list_wf(items: Seq<ItemView>) -> bool {
    forall|i: int|
        0 <= i < items.len() ==> match #[trigger] items[i] {
            ItemView::Substitution(s) => sub_wf(s) && s.sub_start < s.sub_end,
            ItemView::Barrier => true,
        }
}

/// Whether the key of `s` stands in `w` with the stretch that gives way
/// beginning at `pos`.
pub open spec fn sub_matches(w: Seq<Glyph>, pos: int, s: SubstitutionView) -> bool {
    s.sub_start <= pos && has_at(w, pos - s.sub_start, s.key)
}

/// What `w` becomes when `s` applies at `pos`.
pub open spec fn sub_result(w: Seq<Glyph>, pos: int, s: SubstitutionView) -> Seq<Glyph> {
    spliced(w, pos, pos + s.sub_end - s.sub_start, seq![s.sub_content])
}

/// The name of glyph number `i` of a key as it is written out: marked with
/// `'` within the stretch that gives way.
pub open spec fn key_name(s: SubstitutionView, i: int) -> Seq<char> {
    if s.sub_start <= i < s.sub_end {
        glyph_name(s.key[i]) + "'"@
    } else {
        glyph_name(s.key[i])
    }
}

/// A substitution as a line of a feature file.
pub open spec fn render_spec(s: SubstitutionView) -> Seq<char> {
    "sub "@ + join_spec(Seq::new(s.key.len(), |i: int| key_name(s, i)), " "@) + " by "@
        + glyph_name(s.sub_content) + ";"@
}

/// What the entries from number `i` on make of `w` at the place `pos`:
/// each substitution is tried in turn, and once one has applied the others
/// are passed over up to the next barrier.
pub open spec fn items_from(w: Seq<Glyph>, pos: int, items: Seq<ItemView>, i: int, skipping: bool) -> Seq<
    Glyph,
>
    decreases items.len() - i,
{
    if i < 0 || i >= items.len() {
        w
    } else {
        match items[i] {
            ItemView::Barrier => items_from(w, pos, items, i + 1, false),
            ItemView::Substitution(s) => if !skipping && sub_matches(w, pos, s) {
                items_from(sub_result(w, pos, s), pos, items, i + 1, true)
            } else {
                items_from(w, pos, items, i + 1, skipping)
            },
        }
    }
}

/// A list that makes something give way wherever it applies does not make
/// a word longer.
pub proof fn lemma_items_from_len(
    w: Seq<Glyph>,
    pos: int,
    items: Seq<ItemView>,
    i: int,
    skipping: bool,
)
    requires
        list_wf(items),
        0 <= i,
        0 <= pos,
    ensures
        items_from(w, pos, items, i, skipping).len() <= w.len(),
    decreases items.len() - i,
{
    if i < items.len() {
        match items[i] {
            ItemView::Barrier => {
                lemma_items_from_len(w, pos, items, i + 1, false);
            },
            ItemView::Substitution(s) => {
                if !skipping && sub_matches(w, pos, s) {
                    lemma_items_from_len(sub_result(w, pos, s), pos, items, i + 1, true);
                } else {
                    lemma_items_from_len(w, pos, items, i + 1, skipping);
                }
            },
        }
    }
}

/// What a list makes of `w` when it is applied at each place from `pos`
/// on, from left to right.
pub open spec fn all_pos_from(w: Seq<Glyph>, pos: int, items: Seq<ItemView>) -> Seq<Glyph>
    decreases w.len() - pos,
    when list_wf(items) && 0 <= pos
{
    if pos >= w.len() {
        w
    } else {
        proof {
            lemma_items_from_len(w, pos, items, 0, false);
        }
        let next = items_from(w, pos, items, 0, false);
        if pos + 1 >= next.len() {
            next
        } else {
            all_pos_from(next, pos + 1, items)
        }
    }
}

/// A list as lookups of a feature file, a new one begun at each barrier.
pub open spec fn render_items(items: Seq<ItemView>, i: int, counter: nat) -> Seq<char>
    decreases items.len() - i,
{
    if i < 0 || i >= items.len() {
        "} l"@ + decimal_digits(counter) + ";\n"@
    } else {
        match items[i] {
            ItemView::Barrier => "} lookup l"@ + decimal_digits(counter) + ";\n"@ + "lookup l"@
                + decimal_digits(counter + 1) + " {\n"@ + render_items(items, i + 1, counter + 1),
            ItemView::Substitution(s) => "  "@ + render_spec(s) + "\n"@ + render_items(
                items,
                i + 1,
                counter,
            ),
        }
    }
}

/// A list as the text of a feature file.
pub open spec fn render_list_spec(items: Seq<ItemView>) -> Seq<char> {
    "lookup l"@ + decimal_digits(0) + " {\n"@ + render_items(items, 0, 0)
}

fn key_stands_at(working: &Vec<Glyph>, at: usize, key: &Vec<Glyph>) -> (res: bool)
    ensures
        res == has_at(working@, at as int, key@),
{
    let n = working.len();
    if at > n || n - at < key.len() {
        return false;
    }
    let mut i: usize = 0;
    while i < key.len()
        invariant
            i <= key.len(),
            at + key.len() <= working.len(),
            forall|j: int| 0 <= j < i ==> working@[at + j] == key@[j],
        decreases key.len() - i,
    {
        if working[at + i] != key[i] {
            assert(working@.subrange(at as int, at + key.len())[i as int] != key@[i as int]);
            return false;
        }
        i += 1;
    }
    assert(working@.subrange(at as int, at + key.len()) =~= key@);
    true
}

impl Substitution {
    fn push_rendered(&self, out: &mut Vec<char>)
        ensures
            final(out)@ == old(out)@ + render_spec(self@),
    {
        let mut lhs: Vec<Vec<char>> = Vec::new();
        let mut i: usize = 0;
        let ghost target = Seq::new(self@.key.len(), |i: int| key_name(self@, i));
        while i < self.key.len()
            invariant
                i <= self.key.len(),
                target == Seq::new(self@.key.len(), |i: int| key_name(self@, i)),
                parts_view(lhs@) == target.take(i as int),
            decreases self.key.len() - i,
        {
            let mut name: Vec<char> = Vec::new();
            push_glyph_name(&mut name, self.key[i]);
            if self.sub_start <= i && i < self.sub_end {
                push_lit(&mut name, "'");
            }
            assert(name@ =~= target[i as int]);
            let ghost before = parts_view(lhs@);
            lhs.push(name);
            assert(parts_view(lhs@) =~= before.push(target[i as int]));
            assert(parts_view(lhs@) =~= target.take(i + 1));
            i += 1;
        }
        assert(target.take(self.key.len() as int) =~= target);
        push_lit(out, "sub ");
        push_joined(out, &lhs, " ");
        push_lit(out, " by ");
        push_glyph_name(out, self.sub_content);
        push_lit(out, ";");
        assert(out@ =~= old(out)@ + render_spec(self@));
    }

    /// Writes the substitution as a line of a feature file.
    pub fn render(&self) -> (res: String)
        ensures
            res@ == render_spec(self@),
    {
        let mut out: Vec<char> = Vec::new();
        self.push_rendered(&mut out);
        assert(out@ =~= render_spec(self@));
        string_of(&out)
    }

    /// Applies the substitution to `working` with the stretch that gives
    /// way at `pos`, if the key stands there, and says whether it did.
    pub fn apply(&self, working: &mut Vec<Glyph>, pos: usize) -> (res: bool)
        requires
            sub_wf(self@),
        ensures
            res == sub_matches(old(working)@, pos as int, self@),
            res ==> final(working)@ == sub_result(old(working)@, pos as int, self@),
            !res ==> final(working)@ == old(working)@,
    {
        if pos < self.sub_start {
            return false;
        }
        if !key_stands_at(working, pos - self.sub_start, &self.key) {
            return false;
        }
        let content = vec![self.sub_content];
        assert(content@ =~= seq![self.sub_content]);
        let n = working.len();
        assert(pos + (self.sub_end - self.sub_start) <= n);
        splice(working, pos, pos + (self.sub_end - self.sub_start), &content);
        true
    }
}

impl SubstitutionList {
    /// Applies the list to `working` at the place `pos`.
    pub fn apply_at_pos(&self, working: &mut Vec<Glyph>, pos: usize)
        requires
            list_wf(self@),
        ensures
            final(working)@ == items_from(old(working)@, pos as int, self@, 0, false),
    {
        let mut i: usize = 0;
        let mut skipping = false;
        while i < self.substitutions.len()
            invariant
                list_wf(self@),
                i <= self.substitutions.len(),
                items_from(working@, pos as int, self@, i as int, skipping) == items_from(
                    old(working)@,
                    pos as int,
                    self@,
                    0,
                    false,
                ),
            decreases self.substitutions.len() - i,
        {
            assert(self@[i as int] == self.substitutions[i as int]@);
            match &self.substitutions[i] {
                SubstitutionListItem::Barrier => {
                    skipping = false;
                },
                SubstitutionListItem::Substitution(s) => {
                    if !skipping {
                        if s.apply(working, pos) {
                            skipping = true;
                        }
                    }
                },
            }
            i += 1;
        }
    }

    /// Applies the list to `working` at each place, from left to right.
    pub fn apply_all_pos(&self, working: &mut Vec<Glyph>)
        requires
            list_wf(self@),
        ensures
            final(working)@ == all_pos_from(old(working)@, 0, self@),
    {
        let mut i: usize = 0;
        while i < working.len()
            invariant
                list_wf(self@),
                all_pos_from(working@, i as int, self@) == all_pos_from(old(working)@, 0, self@),
            decreases
                    if i < working.len() {
                        working.len() - i
                    } else {
                        0
                    },
        {
            proof {
                lemma_items_from_len(working@, i as int, self@, 0, false);
            }
            self.apply_at_pos(working, i);
            i += 1;
        }
    }

    /// Writes the list as the text of a feature file.
    pub fn render(&self) -> (res: String)
        ensures
            res@ == render_list_spec(self@),
    {
        let mut out: Vec<char> = Vec::new();
        let mut counter: usize = 0;
        push_lit(&mut out, "lookup l");
        push_decimal(&mut out, 0);
        push_lit(&mut out, " {\n");
        let mut i: usize = 0;
        while i < self.substitutions.len()
            invariant
                i <= self.substitutions.len(),
                counter <= i,
                out@ + render_items(self@, i as int, counter as nat) == render_list_spec(self@),
            decreases self.substitutions.len() - i,
        {
            let ghost before = out@;
            assert(self@[i as int] == self.substitutions[i as int]@);
            match &self.substitutions[i] {
                SubstitutionListItem::Barrier => {
                    push_lit(&mut out, "} lookup l");
                    push_decimal(&mut out, counter as u64);
                    push_lit(&mut out, ";\n");
                    counter += 1;
                    push_lit(&mut out, "lookup l");
                    push_decimal(&mut out, counter as u64);
                    push_lit(&mut out, " {\n");
                    assert(out@ + render_items(self@, i + 1, counter as nat) =~= before
                        + render_items(self@, i as int, (counter - 1) as nat));
                },
                SubstitutionListItem::Substitution(s) => {
                    push_lit(&mut out, "  ");
                    s.push_rendered(&mut out);
                    push_lit(&mut out, "\n");
                    assert(out@ + render_items(self@, i + 1, counter as nat) =~= before
                        + render_items(self@, i as int, counter as nat));
                },
            }
            i += 1;
        }
        let ghost before = out@;
        push_lit(&mut out, "} l");
        push_decimal(&mut out, counter as u64);
        push_lit(&mut out, ";\n");
        assert(out@ =~= before + render_items(self@, self@.len() as int, counter as nat));
        string_of(&out)
    }
}

} // verus!
