//! The numbers under which the search knows the rules of a round.
//!
//! The search tells candidates apart by number. A rule gets the next free
//! number when it first comes up, and keeps it.

use vstd::prelude::*;
use crate::astarlike2::{SubWithImprovement, edit_size, edit_size_spec, findings_view};
use crate::glyphs::AugGlyph;
use crate::high_level_substitutions2::{
    Anterior, HLSubstitution, HLSubstitutionView, Posterior, glyphs_at, hl_view,
};
use crate::seqs::copy_vec;

verus! {

/// Whether two words are the same.
pub fn same_glyphs(a: &Vec<AugGlyph>, b: &Vec<AugGlyph>) -> (res: bool)
    ensures
        res == (a@ == b@),
{
    if a.len() != b.len() {
        return false;
    }
    let res = glyphs_at(a, 0, b);
    assert(a@.subrange(0, a.len() as int) =~= a@);
    res
}

/// Whether two rules are the same.
pub fn same_rule(a: &HLSubstitution, b: &HLSubstitution) -> (res: bool)
    ensures
        res == (a@ == b@),
{
    a.mid == b.mid && a.anterior.at_start == b.anterior.at_start && a.anterior.at_end
        == b.anterior.at_end && same_glyphs(&a.anterior.pre_key, &b.anterior.pre_key)
        && same_glyphs(&a.anterior.at_key, &b.anterior.at_key) && same_glyphs(
        &a.anterior.post_key,
        &b.anterior.post_key,
    ) && same_glyphs(&a.posterior.content, &b.posterior.content)
}

/// A rule like `rule`.
pub fn copy_rule(rule: &HLSubstitution) -> (res: HLSubstitution)
    ensures
        res@ == rule@,
{
    HLSubstitution {
        anterior: Anterior {
            pre_key: copy_vec(&rule.anterior.pre_key),
            at_key: copy_vec(&rule.anterior.at_key),
            post_key: copy_vec(&rule.anterior.post_key),
            at_start: rule.anterior.at_start,
            at_end: rule.anterior.at_end,
        },
        mid: rule.mid,
        posterior: Posterior { content: copy_vec(&rule.posterior.content) },
    }
}

/// The place of the first rule of `rules` that is `rule`, from `from` on;
/// the length of `rules` if there is none.
pub open spec fn place_from(rules: Seq<HLSubstitutionView>, rule: HLSubstitutionView, from: int) -> int
    decreases rules.len() - from,
{
    if from < 0 || from >= rules.len() {
        rules.len() as int
    } else if rules[from] == rule {
        from
    } else {
        place_from(rules, rule, from + 1)
    }
}

/// The place of the first of `rules` from `from` on that is `rule` lies
/// behind `from`, and no rule between the two is `rule`.
pub proof fn lemma_place_from(rules: Seq<HLSubstitutionView>, rule: HLSubstitutionView, from: int)
    requires
        0 <= from <= rules.len(),
    ensures
        from <= place_from(rules, rule, from) <= rules.len(),
        place_from(rules, rule, from) < rules.len() ==> rules[place_from(rules, rule, from)]
            == rule,
        forall|i: int| from <= i < place_from(rules, rule, from) ==> rules[i] != rule,
    decreases rules.len() - from,
{
    if from < rules.len() && rules[from] != rule {
        lemma_place_from(rules, rule, from + 1);
    }
}

/// The rules that have come up in a round, each once, in the order in
/// which they came up. The number of a rule is its place.
pub struct Numbering {
    rules: Vec<HLSubstitution>,
}

impl View for Numbering {
    type V = Seq<HLSubstitutionView>;

    closed spec fn view(&self) -> Seq<HLSubstitutionView> {
        hl_view(self.rules@)
    }
}

/// What the size of a rule costs: its size, as far as numbers reach.
pub open spec fn size_cost_spec(rule: HLSubstitutionView) -> i64 {
    let size = if edit_size_spec(rule.anterior) <= usize::MAX {
        edit_size_spec(rule.anterior)
    } else {
        usize::MAX as int
    };
    if size <= i64::MAX {
        size as i64
    } else {
        i64::MAX
    }
}

/// A candidate as the search knows it: the number of a rule, by how much
/// the rule lowers the distance of the word that it was found at, and what
/// its size costs.
pub open spec fn numbered(
    rules: Seq<HLSubstitutionView>,
    found: (HLSubstitutionView, u32),
) -> crate::genastarlike::SubWithImprovement {
    crate::genastarlike::SubWithImprovement {
        sub: place_from(rules, found.0, 0) as u64,
        improvement: found.1,
        size_cost: size_cost_spec(found.0),
    }
}

/// The rules `rules` and those of the findings from `from` on that are
/// not among them, in the order of the findings.
pub open spec fn with_found(
    rules: Seq<HLSubstitutionView>,
    found: Seq<(HLSubstitutionView, u32)>,
    from: int,
) -> Seq<HLSubstitutionView>
    decreases found.len() - from,
{
    if from < 0 || from >= found.len() {
        rules
    } else if rules.contains(found[from].0) {
        with_found(rules, found, from + 1)
    } else {
        with_found(rules.push(found[from].0), found, from + 1)
    }
}

impl Numbering {
    /// No rule stands twice.
    pub open spec fn wf(&self) -> bool {
        forall|i: int, j: int| 0 <= i < j < self@.len() ==> self@[i] != self@[j]
    }

    /// No rule has come up.
    pub fn new() -> (res: Numbering)
        ensures
            res@ == Seq::<HLSubstitutionView>::empty(),
            res.wf(),
    {
        let res = Numbering { rules: Vec::new() };
        assert(res@ =~= Seq::<HLSubstitutionView>::empty());
        res
    }

    /// How many rules have come up.
    pub fn len(&self) -> (n: usize)
        ensures
            n == self@.len(),
    {
        self.rules.len()
    }

    /// The number of `rule`, if it has come up.
    pub fn find(&self, rule: &HLSubstitution) -> (res: Option<u64>)
        requires
            self.wf(),
        ensures
            match res {
                Some(n) => n < self@.len() && self@[n as int] == rule@ && n == place_from(
                    self@,
                    rule@,
                    0,
                ),
                None => !self@.contains(rule@) && place_from(self@, rule@, 0) == self@.len(),
            },
    {
        let mut i: usize = 0;
        while i < self.rules.len()
            invariant
                i <= self.rules.len(),
                self.wf(),
                place_from(self@, rule@, i as int) == place_from(self@, rule@, 0),
                forall|j: int| 0 <= j < i ==> self@[j] != rule@,
            decreases self.rules.len() - i,
        {
            if same_rule(&self.rules[i], rule) {
                return Some(i as u64);
            }
            i += 1;
        }
        None
    }

    /// The number of `rule`: the one that it has, or the next free one,
    /// under which it is kept from now on.
    pub fn number_of(&mut self, rule: &HLSubstitution) -> (n: u64)
        requires
            old(self).wf(),
        ensures
            final(self).wf(),
            final(self)@ == if old(self)@.contains(rule@) {
                old(self)@
            } else {
                old(self)@.push(rule@)
            },
            n == place_from(final(self)@, rule@, 0),
            n < final(self)@.len(),
            final(self)@[n as int] == rule@,
    {
        match self.find(rule) {
            Some(n) => n,
            None => {
                let n = self.rules.len();
                self.rules.push(copy_rule(rule));
                proof {
                    assert(self@ =~= old(self)@.push(rule@));
                    lemma_place_from(self@, rule@, 0);
                    let place = place_from(self@, rule@, 0);
                    if place < n {
                        assert(old(self)@[place] == rule@);
                    }
                    assert(self@[n as int] == rule@);
                }
                n as u64
            },
        }
    }

    /// The rule that has the number `n`.
    pub fn rule(&self, n: u64) -> (res: Option<HLSubstitution>)
        ensures
            match res {
                Some(r) => n < self@.len() && r@ == self@[n as int],
                None => n >= self@.len(),
            },
    {
        if n < self.rules.len() as u64 {
            Some(copy_rule(&self.rules[n as usize]))
        } else {
            None
        }
    }
}

/// A rule keeps its place when more rules come up.
pub proof fn lemma_place_stays(
    rules: Seq<HLSubstitutionView>,
    more: Seq<HLSubstitutionView>,
    rule: HLSubstitutionView,
    from: int,
)
    requires
        0 <= from <= rules.len() <= more.len(),
        more.take(rules.len() as int) == rules,
        place_from(rules, rule, from) < rules.len(),
    ensures
        place_from(more, rule, from) == place_from(rules, rule, from),
    decreases rules.len() - from,
{
    assert(from < rules.len());
    assert(more[from] == more.take(rules.len() as int)[from]);
    if rules[from] != rule {
        lemma_place_stays(rules, more, rule, from + 1);
    }
}

/// The rules with the findings from `from` on begin with the rules, and no
/// rule stands twice among them if none stood twice before.
pub proof fn lemma_with_found(
    rules: Seq<HLSubstitutionView>,
    found: Seq<(HLSubstitutionView, u32)>,
    from: int,
)
    requires
        0 <= from <= found.len(),
    ensures
        rules.len() <= with_found(rules, found, from).len(),
        with_found(rules, found, from).take(rules.len() as int) == rules,
        forall|i: int|
            from <= i < found.len() ==> with_found(rules, found, from).contains(
                (#[trigger] found[i]).0,
            ),
    decreases found.len() - from,
{
    let all = with_found(rules, found, from);
    if from >= found.len() {
        assert(all.take(rules.len() as int) =~= rules);
    } else {
        let next = if rules.contains(found[from].0) {
            rules
        } else {
            rules.push(found[from].0)
        };
        lemma_with_found(next, found, from + 1);
        assert(all.take(rules.len() as int) =~= all.take(next.len() as int).take(
            rules.len() as int,
        ));
        assert(next.take(rules.len() as int) =~= rules);
        assert(next.contains(found[from].0)) by {
            if !rules.contains(found[from].0) {
                assert(next[rules.len() as int] == found[from].0);
            }
        }
        let at = choose|i: int| 0 <= i < next.len() && next[i] == found[from].0;
        assert(all.take(next.len() as int)[at] == all[at]);
        assert(all[at] == found[from].0);
    }
}

/// Tells the search of findings: each found rule under its number, with
/// what it does for the word and what its size costs. Rules that had not
/// come up get the next free numbers, in the order of the findings.
pub fn number_findings(numbering: &mut Numbering, found: &Vec<SubWithImprovement>) -> (res: Vec<
    crate::genastarlike::SubWithImprovement,
>)
    requires
        old(numbering).wf(),
    ensures
        final(numbering).wf(),
        final(numbering)@ == with_found(old(numbering)@, findings_view(found@), 0),
        res.len() == found.len(),
        forall|i: int|
            0 <= i < found.len() ==> #[trigger] res[i] == numbered(
                final(numbering)@,
                findings_view(found@)[i],
            ),
{
    let ghost views = findings_view(found@);
    let ghost all = with_found(numbering@, views, 0);
    let mut res: Vec<crate::genastarlike::SubWithImprovement> = Vec::new();
    let mut i: usize = 0;
    proof {
        lemma_with_found(numbering@, views, 0);
    }
    while i < found.len()
        invariant
            i <= found.len(),
            views == findings_view(found@),
            numbering.wf(),
            with_found(numbering@, views, i as int) == all,
            numbering@.len() <= all.len(),
            all.take(numbering@.len() as int) == numbering@,
            res.len() == i,
            forall|j: int| 0 <= j < i ==> #[trigger] res[j] == numbered(all, views[j]),
        decreases found.len() - i,
    {
        let ghost before = numbering@;
        let f = &found[i];
        let sub = numbering.number_of(&f.sub);
        let size: u64 = edit_size(&f.sub) as u64;
        let size_cost: i64 = if size <= 0x7fff_ffff_ffff_ffffu64 {
            size as i64
        } else {
            i64::MAX
        };
        proof {
            assert(views[i as int] == (f.sub@, f.improvement));
            lemma_with_found(numbering@, views, i + 1);
            lemma_place_from(numbering@, f.sub@, 0);
            lemma_place_stays(numbering@, all, f.sub@, 0);
        }
        res.push(crate::genastarlike::SubWithImprovement { sub, improvement: f.improvement, size_cost });
        i += 1;
    }
    res
}

} // verus!
