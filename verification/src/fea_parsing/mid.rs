//! A feature body as it is read: lookups of entries, with the glyphs still
//! names.

use vstd::prelude::*;

verus! {

/// The lookups of a feature body.
#[derive(Debug, PartialEq, Eq)]
pub struct Feature {
    pub lookups: Vec<Lookup>,
}

/// One entry of a lookup.
#[derive(Debug, PartialEq, Eq)]
pub enum LookupEntry {
    Sub(Sub),
    Ignore(Ignore),
}

/// The entries of one lookup.
#[derive(Debug, PartialEq, Eq)]
pub struct Lookup {
    pub entries: Vec<LookupEntry>,
}

/// A `sub ... by ...;` entry.
#[derive(Debug, PartialEq, Eq)]
pub struct Sub {
    pub lhs: Vec<LHSElement>,
    pub rhs: Vec<String>,
}

/// An `ignore sub ...;` entry.
#[derive(Debug, PartialEq, Eq)]
pub struct Ignore {
    pub lhs: Vec<LHSElement>,
}

/// A glyph name on the left of an entry, marked with `'` or not.
#[derive(Debug, PartialEq, Eq)]
pub struct LHSElement {
    pub glyph: String,
    pub prime: bool,
}

/// The mathematical value of an [`LHSElement`].
pub struct LHSElementView {
    pub glyph: Seq<char>,
    pub prime: bool,
}

/// The mathematical value of a [`LookupEntry`].
pub enum LookupEntryView {
    Sub { lhs: Seq<LHSElementView>, rhs: Seq<Seq<char>> },
    Ignore { lhs: Seq<LHSElementView> },
}

impl View for LHSElement {
    type V = LHSElementView;

    open spec fn view(&self) -> LHSElementView {
        LHSElementView { glyph: self.glyph@, prime: self.prime }
    }
}

/// The values of a run of left-hand elements.
pub open spec fn lhs_view(lhs: Seq<LHSElement>) -> Seq<LHSElementView> {
    lhs.map_values(|e: LHSElement| e@)
}

/// The values of a run of names.
pub open spec fn names_view(names: Seq<String>) -> Seq<Seq<char>> {
    names.map_values(|n: String| n@)
}

impl View for Sub {
    type V = LookupEntryView;

    open spec fn view(&self) -> LookupEntryView {
        LookupEntryView::Sub { lhs: lhs_view(self.lhs@), rhs: names_view(self.rhs@) }
    }
}

impl View for Ignore {
    type V = LookupEntryView;

    open spec fn view(&self) -> LookupEntryView {
        LookupEntryView::Ignore { lhs: lhs_view(self.lhs@) }
    }
}

impl View for LookupEntry {
    type V = LookupEntryView;

    open spec fn view(&self) -> LookupEntryView {
        match self {
            LookupEntry::Sub(s) => s@,
            LookupEntry::Ignore(i) => i@,
        }
    }
}

impl View for Lookup {
    type V = Seq<LookupEntryView>;

    open spec fn view(&self) -> Seq<LookupEntryView> {
        self.entries@.map_values(|e: LookupEntry| e@)
    }
}

impl View for Feature {
    type V = Seq<Seq<LookupEntryView>>;

    open spec fn view(&self) -> Seq<Seq<LookupEntryView>> {
        self.lookups@.map_values(|l: Lookup| l@)
    }
}

} // verus!
