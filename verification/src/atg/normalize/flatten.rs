//! Flattening: from a text with corrections to one text for each correcting
//! hand.

use vstd::prelude::*;
use vstd::std_specs::convert::FromSpecImpl;
use crate::anchor::Anchor;
use crate::atg::normalize::UniqueSurfacePart;
use crate::atg::text::{FormatBreak, Illegible, Lacuna, Part, PartView, Present, Text, Uncertain};

verus! {

/// A part of a text without corrections.
#[derive(Debug, PartialEq, Eq, Hash)]
pub enum UniquePart {
    Native(String),
    Illegible(Uncertain<Illegible>),
    Lacuna(Uncertain<Lacuna>),
    FormatBreak(FormatBreak),
    Anchor(Anchor),
}

impl View for UniquePart {
    type V = PartView;

    open spec fn view(&self) -> PartView {
        match self {
            UniquePart::Native(x) => PartView::Native(x@),
            UniquePart::Illegible(x) => PartView::Illegible(x@),
            UniquePart::Lacuna(x) => PartView::Lacuna(x@),
            UniquePart::FormatBreak(x) => PartView::FormatBreak(*x),
            UniquePart::Anchor(x) => PartView::Anchor(*x),
        }
    }
}

impl Clone for UniquePart {
    fn clone(&self) -> (r: Self)
        ensures
            r@ == self@,
    {
        match self {
            UniquePart::Native(x) => UniquePart::Native(x.clone()),
            UniquePart::Illegible(x) => UniquePart::Illegible(x.clone()),
            UniquePart::Lacuna(x) => UniquePart::Lacuna(x.clone()),
            UniquePart::FormatBreak(x) => UniquePart::FormatBreak(*x),
            UniquePart::Anchor(x) => UniquePart::Anchor(*x),
        }
    }
}

impl UniquePart {
    /// The part as a part of the surface, where it is one: a format break
    /// and an anchor are none.
    pub fn as_surface_part(self) -> (r: Option<UniqueSurfacePart>)
        ensures
            r is Some <==> self@.is_surface(),
            r is Some ==> r->0@ == self@,
    {
        match self {
            UniquePart::Native(x) => Some(UniqueSurfacePart::Native(x)),
            UniquePart::Illegible(x) => Some(UniqueSurfacePart::Illegible(x)),
            UniquePart::Lacuna(x) => Some(UniqueSurfacePart::Lacuna(x)),
            UniquePart::FormatBreak(_) => None,
            UniquePart::Anchor(_) => None,
        }
    }
}

impl From<Present> for UniquePart {
    fn from(value: Present) -> (r: Self) {
        match value {
            Present::Native(x) => UniquePart::Native(x),
            Present::Illegible(x) => UniquePart::Illegible(x),
        }
    }
}

impl FromSpecImpl<Present> for UniquePart {
    open spec fn obeys_from_spec() -> bool {
        true
    }

    open spec fn from_spec(value: Present) -> Self {
        match value {
            Present::Native(x) => UniquePart::Native(x),
            Present::Illegible(x) => UniquePart::Illegible(x),
        }
    }
}

impl From<UniqueSurfacePart> for UniquePart {
    fn from(value: UniqueSurfacePart) -> (r: Self) {
        match value {
            UniqueSurfacePart::Native(x) => UniquePart::Native(x),
            UniqueSurfacePart::Illegible(x) => UniquePart::Illegible(x),
            UniqueSurfacePart::Lacuna(x) => UniquePart::Lacuna(x),
        }
    }
}

impl FromSpecImpl<UniqueSurfacePart> for UniquePart {
    open spec fn obeys_from_spec() -> bool {
        true
    }

    open spec fn from_spec(value: UniqueSurfacePart) -> Self {
        match value {
            UniqueSurfacePart::Native(x) => UniquePart::Native(x),
            UniqueSurfacePart::Illegible(x) => UniquePart::Illegible(x),
            UniqueSurfacePart::Lacuna(x) => UniquePart::Lacuna(x),
        }
    }
}

/// The models of the parts of a text without corrections.
pub open spec fn unique_view(v: Seq<UniquePart>) -> Seq<PartView> {
    Seq::new(v.len(), |i: int| v[i]@)
}

/// A text without corrections: what one hand left.
#[derive(Debug, PartialEq, Eq, Hash)]
pub struct UniqueText {
    pub parts: Vec<UniquePart>,
}

impl View for UniqueText {
    type V = Seq<PartView>;

    open spec fn view(&self) -> Seq<PartView> {
        unique_view(self.parts@)
    }
}

impl Clone for UniqueText {
    fn clone(&self) -> (r: Self)
        ensures
            r@ == self@,
    {
        let mut parts: Vec<UniquePart> = Vec::new();
        let mut i: usize = 0;
        while i < self.parts.len()
            invariant
                i <= self.parts.len(),
                parts.len() == i,
                forall|j: int| 0 <= j < i ==> parts@[j]@ == self.parts@[j]@,
            decreases self.parts.len() - i,
        {
            parts.push(self.parts[i].clone());
            i += 1;
        }
        let r = UniqueText { parts };
        proof {
            assert(r@ =~= self@);
        }
        r
    }
}

impl UniqueText {
    /// A text without corrections holds no correction.
    pub proof fn lemma_is_unique(&self)
        ensures
            forall|j: int| 0 <= j < self@.len() ==> (#[trigger] self@[j]).is_unique(),
    {
    }

    /// The text without any part.
    pub fn new() -> (r: Self)
        ensures
            r@ == Seq::<PartView>::empty(),
    {
        let r = Self { parts: Vec::new() };
        proof {
            assert(r@ =~= Seq::<PartView>::empty());
        }
        r
    }

    /// Appends a part.
    pub fn add_part(&mut self, p: UniquePart)
        ensures
            final(self)@ == old(self)@.push(p@),
    {
        self.parts.push(p);
        proof {
            assert(self@ =~= old(self)@.push(p@));
        }
    }
}

/// The largest number of versions that a correction of the text has, if the
/// text has a correction.
pub open spec fn widest_correction(t: Seq<PartView>) -> Option<nat>
    decreases t.len(),
{
    if t.len() == 0 {
        None
    } else {
        let before = widest_correction(t.drop_last());
        match t.last() {
            PartView::Correction(versions) => match before {
                Some(k) => Some(if versions.len() > k {
                    versions.len()
                } else {
                    k
                }),
                None => Some(versions.len()),
            },
            _ => before,
        }
    }
}

/// The number of hands of a text: the largest number of versions that one of
/// its corrections has, and one for a text without corrections.
pub open spec fn number_of_hands(t: Seq<PartView>) -> nat {
    match widest_correction(t) {
        Some(k) => k,
        None => 1,
    }
}

/// What the hand with index `hand` left of a part: of a correction its own
/// version, or an empty native run where the correction has none for it; any
/// other part as it is.
pub open spec fn flattened_part(p: PartView, hand: int) -> PartView {
    match p {
        PartView::Correction(versions) => if 0 <= hand < versions.len() {
            versions[hand]
        } else {
            PartView::Native(Seq::empty())
        },
        _ => p,
    }
}

/// What the hand with index `hand` left of a text.
pub open spec fn flattened(t: Seq<PartView>, hand: int) -> Seq<PartView> {
    Seq::new(t.len(), |j: int| flattened_part(t[j], hand))
}

/// A text whose corrections all have `k` versions, and that has a
/// correction, has `k` hands.
pub proof fn lemma_flatten_arity(t: Seq<PartView>, k: nat)
    requires
        forall|j: int|
            0 <= j < t.len() && t[j] is Correction ==> (#[trigger] t[j])->Correction_0.len() == k,
        exists|j: int| 0 <= j < t.len() && #[trigger] t[j] is Correction,
    ensures
        widest_correction(t) == Some(k),
        number_of_hands(t) == k,
    decreases t.len(),
{
    let before = t.drop_last();
    let w = choose|j: int| 0 <= j < t.len() && #[trigger] t[j] is Correction;
    assert(t.last() == t[t.len() - 1]);
    if exists|j: int| 0 <= j < before.len() && #[trigger] before[j] is Correction {
        assert forall|i: int| 0 <= i < before.len() && before[i] is Correction implies (
        #[trigger] before[i])->Correction_0.len() == k by {
            assert(before[i] == t[i]);
        }
        lemma_flatten_arity(before, k);
    } else {
        lemma_no_correction(before);
        if w < before.len() {
            assert(before[w] == t[w]);
        }
    }
}

/// A text without corrections has one hand.
pub proof fn lemma_no_correction(t: Seq<PartView>)
    requires
        forall|j: int| 0 <= j < t.len() ==> !(#[trigger] t[j] is Correction),
    ensures
        widest_correction(t) is None,
        number_of_hands(t) == 1,
    decreases t.len(),
{
    if t.len() > 0 {
        let before = t.drop_last();
        assert forall|j: int| 0 <= j < before.len() implies !(#[trigger] before[j] is Correction) by {
            assert(before[j] == t[j]);
        }
        lemma_no_correction(before);
    }
}

/// The text of every hand is free of corrections where the versions are.
pub proof fn lemma_flattened_is_unique(t: Seq<PartView>, hand: int)
    requires
        forall|j: int, i: int|
            0 <= j < t.len() && t[j] is Correction && 0 <= i < t[j]->Correction_0.len()
                ==> (#[trigger] t[j]->Correction_0[i]).is_unique(),
    ensures
        forall|j: int| 0 <= j < t.len() ==> (#[trigger] flattened(t, hand)[j]).is_unique(),
{
    assert forall|j: int| 0 <= j < t.len() implies (#[trigger] flattened(t, hand)[j]).is_unique() by {
        if t[j] is Correction && 0 <= hand < t[j]->Correction_0.len() {
            assert(t[j]->Correction_0[hand].is_unique());
        }
    }
}

impl Text {
    /// The number of hands of the text.
    pub fn number_of_hands(&self) -> (k: usize)
        ensures
            k == number_of_hands(self@),
    {
        let mut widest: Option<usize> = None;
        let mut i: usize = 0;
        while i < self.parts.len()
            invariant
                i <= self.parts.len(),
                match widest {
                    Some(k) => widest_correction(self@.take(i as int)) == Some(k as nat),
                    None => widest_correction(self@.take(i as int)) is None,
                },
            decreases self.parts.len() - i,
        {
            proof {
                assert(self@.take(i + 1).drop_last() =~= self@.take(i as int));
                assert(self@.take(i + 1).last() == self.parts@[i as int]@);
            }
            match &self.parts[i] {
                Part::Correction(x) => {
                    let n = x.versions.len();
                    widest = match widest {
                        Some(k) => Some(if n > k {
                            n
                        } else {
                            k
                        }),
                        None => Some(n),
                    };
                },
                _ => {},
            }
            i += 1;
        }
        proof {
            assert(self@.take(self.parts.len() as int) =~= self@);
        }
        match widest {
            Some(k) => k,
            None => 1,
        }
    }

    /// What the hand with index `hand` left of the text.
    pub fn unique_text(&self, hand: usize) -> (r: UniqueText)
        ensures
            r@ == flattened(self@, hand as int),
    {
        let mut res = UniqueText::new();
        let mut j: usize = 0;
        while j < self.parts.len()
            invariant
                j <= self.parts.len(),
                res@ == flattened(self@, hand as int).take(j as int),
            decreases self.parts.len() - j,
        {
            let unique = match &self.parts[j] {
                Part::Correction(x) => {
                    if hand < x.versions.len() {
                        UniquePart::from(x.versions[hand].clone())
                    } else {
                        UniquePart::Native(String::new())
                    }
                },
                Part::Native(x) => UniquePart::Native(x.clone()),
                Part::Illegible(x) => UniquePart::Illegible(x.clone()),
                Part::Lacuna(x) => UniquePart::Lacuna(x.clone()),
                Part::FormatBreak(x) => UniquePart::FormatBreak(*x),
                Part::Anchor(x) => UniquePart::Anchor(*x),
            };
            proof {
                assert(unique@ == flattened_part(self@[j as int], hand as int));
                assert(flattened(self@, hand as int).take(j + 1) =~= flattened(
                    self@,
                    hand as int,
                ).take(j as int).push(unique@));
            }
            res.add_part(unique);
            j += 1;
        }
        proof {
            assert(flattened(self@, hand as int).take(self.parts.len() as int) =~= flattened(
                self@,
                hand as int,
            ));
        }
        res
    }

    /// Splits the text into one text for each correcting hand, in the order
    /// of the hands.
    pub fn into_unique_texts(self) -> (r: Vec<UniqueText>)
        ensures
            r.len() == number_of_hands(self@),
            forall|i: int| 0 <= i < r.len() ==> (#[trigger] r[i])@ == flattened(self@, i),
    {
        let hands = self.number_of_hands();
        let mut res: Vec<UniqueText> = Vec::new();
        let mut i: usize = 0;
        while i < hands
            invariant
                i <= hands,
                res.len() == i,
                forall|h: int| 0 <= h < i ==> (#[trigger] res[h])@ == flattened(self@, h),
            decreases hands - i,
        {
            res.push(self.unique_text(i));
            i += 1;
        }
        res
    }
}

/// Splits a text into one text for each correcting hand, in the order of
/// the hands.
impl From<Text> for Vec<UniqueText> {
    fn from(value: Text) -> (r: Self)
        ensures
            r.len() == number_of_hands(value@),
            forall|i: int| 0 <= i < r.len() ==> (#[trigger] r[i])@ == flattened(value@, i),
    {
        value.into_unique_texts()
    }
}

impl FromSpecImpl<Text> for Vec<UniqueText> {
    open spec fn obeys_from_spec() -> bool {
        false
    }

    open spec fn from_spec(value: Text) -> Self {
        vstd::pervasive::arbitrary()
    }
}

} // verus!
