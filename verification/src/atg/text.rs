//! The model of a transcribed text: an ordered sequence of tagged parts.

use vstd::prelude::*;
use std::marker::PhantomData;
use crate::anchor::Anchor;

verus! {

/// The reason of an illegible passage: it is there, and cannot be read.
#[derive(Debug, PartialEq, Eq, Clone, Copy, Hash)]
pub struct Illegible;

/// The reason of a lacuna: the passage is missing.
#[derive(Debug, PartialEq, Eq, Clone, Copy, Hash)]
pub struct Lacuna;

/// Why a passage is uncertain.
pub trait UncertainReason {

}

impl UncertainReason for Illegible {

}

impl UncertainReason for Lacuna {

}

/// The views of an optional string.
pub open spec fn text_of(s: Option<String>) -> Option<Seq<char>> {
    match s {
        Some(x) => Some(x@),
        None => None,
    }
}

/// A passage that is uncertain for the reason `T`.
#[derive(Debug, PartialEq, Eq, Hash)]
pub struct Uncertain<T> where T: UncertainReason {
    /// The number of scalars that the passage probably held.
    pub len: u8,
    /// What the passage probably read.
    pub proposal: Option<String>,
    pub _x: PhantomData<T>,
}

/// The model of an uncertain passage.
pub struct Passage {
    pub len: u8,
    pub proposal: Option<Seq<char>>,
}

impl<T: UncertainReason> View for Uncertain<T> {
    type V = Passage;

    open spec fn view(&self) -> Passage {
        Passage { len: self.len, proposal: text_of(self.proposal) }
    }
}

impl<T: UncertainReason> Clone for Uncertain<T> {
    fn clone(&self) -> (r: Self)
        ensures
            r@ == self@,
    {
        Uncertain { len: self.len, proposal: self.proposal.clone(), _x: PhantomData }
    }
}

impl<T: UncertainReason> Uncertain<T> {
    /// An uncertain passage of the given length, with or without a proposed
    /// reading.
    pub fn new(len: u8, proposal: Option<String>) -> (r: Self)
        ensures
            r.len == len,
            r.proposal == proposal,
    {
        Self { len, proposal, _x: PhantomData }
    }
}

/// A layout break of the manuscript.
#[derive(Debug, PartialEq, Eq, Clone, Copy, Hash, Structural)]
pub enum FormatBreak {
    Line,
    Column,
    Paragraph,
    Folio,
}

/// The model of a part, at whatever stage of the normalisation.
pub enum PartView {
    /// A run of native scalars.
    Native(Seq<char>),
    /// A passage that is present and cannot be read.
    Illegible(Passage),
    /// A passage that is missing.
    Lacuna(Passage),
    /// The versions of a corrected passage, one for each hand.
    Correction(Seq<PartView>),
    /// A layout break.
    FormatBreak(FormatBreak),
    /// A positional anchor.
    Anchor(Anchor),
}

impl PartView {
    /// Whether the part can be a version of a correction: native or
    /// illegible.
    pub open spec fn is_present(self) -> bool {
        self is Native || self is Illegible
    }

    /// Whether the part belongs to the surface of the text: native,
    /// illegible or a lacuna.
    pub open spec fn is_surface(self) -> bool {
        self is Native || self is Illegible || self is Lacuna
    }

    /// Whether the part is free of corrections.
    pub open spec fn is_unique(self) -> bool {
        !(self is Correction)
    }
}

/// Something that is present, though it may be illegible.
#[derive(Debug, PartialEq, Eq, Hash)]
pub enum Present {
    Native(String),
    Illegible(Uncertain<Illegible>),
}

impl View for Present {
    type V = PartView;

    open spec fn view(&self) -> PartView {
        match self {
            Present::Native(x) => PartView::Native(x@),
            Present::Illegible(x) => PartView::Illegible(x@),
        }
    }
}

impl Clone for Present {
    fn clone(&self) -> (r: Self)
        ensures
            r@ == self@,
    {
        match self {
            Present::Native(x) => Present::Native(x.clone()),
            Present::Illegible(x) => Present::Illegible(x.clone()),
        }
    }
}

/// The models of the versions of a correction.
pub open spec fn versions_view(v: Seq<Present>) -> Seq<PartView> {
    Seq::new(v.len(), |i: int| v[i]@)
}

/// A passage that was corrected.
#[derive(Debug, PartialEq, Eq, Hash)]
pub struct Correction {
    /// The versions of the passage. The version with index `i` is that of
    /// the hand with index `i`.
    pub versions: Vec<Present>,
}

impl View for Correction {
    type V = Seq<PartView>;

    open spec fn view(&self) -> Seq<PartView> {
        versions_view(self.versions@)
    }
}

impl Correction {
    /// Every version of a correction is present: a native run or an
    /// illegible passage.
    pub proof fn lemma_is_present(&self)
        ensures
            forall|j: int| 0 <= j < self@.len() ==> (#[trigger] self@[j]).is_present(),
    {
    }
}

impl Clone for Correction {
    fn clone(&self) -> (r: Self)
        ensures
            r@ == self@,
    {
        let mut versions: Vec<Present> = Vec::new();
        let mut i: usize = 0;
        while i < self.versions.len()
            invariant
                i <= self.versions.len(),
                versions.len() == i,
                forall|j: int| 0 <= j < i ==> versions@[j]@ == self.versions@[j]@,
            decreases self.versions.len() - i,
        {
            versions.push(self.versions[i].clone());
            i += 1;
        }
        let r = Correction { versions };
        proof {
            assert(r@ =~= self@);
        }
        r
    }
}

/// One part of a text.
#[derive(Debug, PartialEq, Eq, Hash)]
pub enum Part {
    Native(String),
    Illegible(Uncertain<Illegible>),
    Lacuna(Uncertain<Lacuna>),
    Correction(Correction),
    FormatBreak(FormatBreak),
    Anchor(Anchor),
}

impl View for Part {
    type V = PartView;

    open spec fn view(&self) -> PartView {
        match self {
            Part::Native(x) => PartView::Native(x@),
            Part::Illegible(x) => PartView::Illegible(x@),
            Part::Lacuna(x) => PartView::Lacuna(x@),
            Part::Correction(x) => PartView::Correction(x@),
            Part::FormatBreak(x) => PartView::FormatBreak(*x),
            Part::Anchor(x) => PartView::Anchor(*x),
        }
    }
}

impl Clone for Part {
    fn clone(&self) -> (r: Self)
        ensures
            r@ == self@,
    {
        match self {
            Part::Native(x) => Part::Native(x.clone()),
            Part::Illegible(x) => Part::Illegible(x.clone()),
            Part::Lacuna(x) => Part::Lacuna(x.clone()),
            Part::Correction(x) => Part::Correction(x.clone()),
            Part::FormatBreak(x) => Part::FormatBreak(*x),
            Part::Anchor(x) => Part::Anchor(*x),
        }
    }
}

/// The models of the parts of a text.
pub open spec fn parts_view(v: Seq<Part>) -> Seq<PartView> {
    Seq::new(v.len(), |i: int| v[i]@)
}

/// A text in ATG.
#[derive(Debug, PartialEq, Eq, Hash)]
pub struct Text {
    pub parts: Vec<Part>,
}

impl View for Text {
    type V = Seq<PartView>;

    open spec fn view(&self) -> Seq<PartView> {
        parts_view(self.parts@)
    }
}

impl Clone for Text {
    fn clone(&self) -> (r: Self)
        ensures
            r@ == self@,
    {
        let mut parts: Vec<Part> = Vec::new();
        let mut i: usize = 0;
        while i < self.parts.len()
            invariant
                i <= self.parts.len(),
                parts.len() == i,
                forall|j: int| 0 <= j < i ==> parts@[j]@ == self.parts@[j]@,
            decreases self.parts.len() - i,
        {
            parts.push(self.parts[i].clone());
            i += 1;
        }
        let r = Text { parts };
        proof {
            assert(r@ =~= self@);
        }
        r
    }
}

} // verus!
