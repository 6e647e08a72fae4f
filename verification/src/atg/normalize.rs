//! From a text to words: one text for each correcting hand, each cut into
//! words, each word with its surface form.

use vstd::prelude::*;
use crate::atg::AtgDialect;
use crate::atg::normalize::flatten::{flattened, number_of_hands};
use crate::atg::normalize::tokenize::{normalised, splittable};
use crate::atg::text::{Illegible, Lacuna, PartView, Text, Uncertain};

pub mod flatten;
pub mod tokenize;
pub mod specialize;

pub use crate::atg::block::{NormalisedAtgBlock, UniqueAtgBlock};
pub use crate::atg::normalize::flatten::{UniquePart, UniqueText};
pub use crate::atg::normalize::tokenize::{AnchoredNormalisedText, AnchoredUniqueText};
pub use crate::atg::normalize::specialize::{NonAgnosticAnchoredText, WordNormalForm};

verus! {

/// A part of the surface of a text: no correction, and nothing but what the
/// transcribed language itself holds.
#[derive(Debug, PartialEq, Eq, Hash)]
pub enum UniqueSurfacePart {
    Native(String),
    Illegible(Uncertain<Illegible>),
    Lacuna(Uncertain<Lacuna>),
}

impl View for UniqueSurfacePart {
    type V = PartView;

    open spec fn view(&self) -> PartView {
        match self {
            UniqueSurfacePart::Native(x) => PartView::Native(x@),
            UniqueSurfacePart::Illegible(x) => PartView::Illegible(x@),
            UniqueSurfacePart::Lacuna(x) => PartView::Lacuna(x@),
        }
    }
}

impl Clone for UniqueSurfacePart {
    fn clone(&self) -> (r: Self)
        ensures
            r@ == self@,
    {
        match self {
            UniqueSurfacePart::Native(x) => UniqueSurfacePart::Native(x.clone()),
            UniqueSurfacePart::Illegible(x) => UniqueSurfacePart::Illegible(x.clone()),
            UniqueSurfacePart::Lacuna(x) => UniqueSurfacePart::Lacuna(x.clone()),
        }
    }
}

/// The models of the parts of a word.
pub open spec fn surface_view(v: Seq<UniqueSurfacePart>) -> Seq<PartView> {
    Seq::new(v.len(), |i: int| v[i]@)
}

/// A word: the surface parts that make it up, in order.
#[derive(Debug, PartialEq, Eq, Hash)]
pub struct Word {
    pub parts: Vec<UniqueSurfacePart>,
}

impl View for Word {
    type V = Seq<PartView>;

    open spec fn view(&self) -> Seq<PartView> {
        surface_view(self.parts@)
    }
}

impl Clone for Word {
    fn clone(&self) -> (r: Self)
        ensures
            r@ == self@,
    {
        let mut parts: Vec<UniqueSurfacePart> = Vec::new();
        let mut i: usize = 0;
        while i < self.parts.len()
            invariant
                i <= self.parts.len(),
                parts.len() == i,
                forall|j: int| 0 <= j < i ==> parts@[j]@ == self.parts@[j]@,
            decreases self.parts.len() - i,
        {
            parts.push(self.parts[i].clone());
            i += 1;
        }
        let r = Word { parts };
        proof {
            assert(r@ =~= self@);
        }
        r
    }
}

/// The models of a sequence of words.
pub open spec fn words_view(v: Seq<Word>) -> Seq<Seq<PartView>> {
    Seq::new(v.len(), |i: int| v[i]@)
}

/// `n` times the scalar `c`.
pub open spec fn repeated(c: char, n: nat) -> Seq<char> {
    Seq::new(n, |i: int| c)
}

/// The surface form of one part: a native run as it is, an uncertain passage
/// as its proposal or, where it has none, as its control point repeated for
/// its length.
pub open spec fn supplied<D: AtgDialect>(p: PartView) -> Seq<char> {
    match p {
        PartView::Native(s) => s,
        PartView::Illegible(u) => match u.proposal {
            Some(s) => s,
            None => repeated(D::atg_control_points().illegible, u.len as nat),
        },
        PartView::Lacuna(u) => match u.proposal {
            Some(s) => s,
            None => repeated(D::atg_control_points().lacuna, u.len as nat),
        },
        _ => Seq::empty(),
    }
}

/// The surface form of a word: those of its parts, one after the other.
pub open spec fn word_surface<D: AtgDialect>(w: Seq<PartView>) -> Seq<char>
    decreases w.len(),
{
    if w.len() == 0 {
        Seq::empty()
    } else {
        word_surface::<D>(w.drop_last()) + supplied::<D>(w.last())
    }
}

/// The string of `n` times the scalar `c`.
fn repeat_char(c: char, n: u8) -> (r: String)
    ensures
        r@ == repeated(c, n as nat),
{
    let mut r = String::new();
    let mut i: u8 = 0;
    while i < n
        invariant
            i <= n,
            r@ == repeated(c, i as nat),
        decreases n - i,
    {
        r.push(c);
        i += 1;
        proof {
            assert(r@ =~= repeated(c, i as nat));
        }
    }
    r
}

impl UniqueSurfacePart {
    /// Supplies what is uncertain with its proposal or with the replacement
    /// scalar.
    pub fn supply_uncertain<D: AtgDialect>(&self) -> (r: String)
        ensures
            r@ == supplied::<D>(self@),
    {
        match self {
            UniqueSurfacePart::Native(x) => x.clone(),
            UniqueSurfacePart::Illegible(x) => match &x.proposal {
                None => repeat_char(D::control_points().illegible, x.len),
                Some(p) => p.clone(),
            },
            UniqueSurfacePart::Lacuna(x) => match &x.proposal {
                None => repeat_char(D::control_points().lacuna, x.len),
                Some(p) => p.clone(),
            },
        }
    }
}

impl Word {
    /// A word holds parts of the surface only: no anchor, no format break
    /// and no correction.
    pub proof fn lemma_is_surface(&self)
        ensures
            forall|j: int| 0 <= j < self@.len() ==> (#[trigger] self@[j]).is_surface(),
    {
    }

    /// The word together with its surface form.
    pub fn supply_uncertain<D: AtgDialect>(self) -> (r: (Word, String))
        ensures
            r.0 == self,
            r.1@ == word_surface::<D>(self@),
    {
        let mut res = String::new();
        let mut i: usize = 0;
        while i < self.parts.len()
            invariant
                i <= self.parts.len(),
                res@ == word_surface::<D>(self@.take(i as int)),
            decreases self.parts.len() - i,
        {
            let piece = self.parts[i].supply_uncertain::<D>();
            res.append(piece.as_str());
            proof {
                assert(self@.take(i + 1).drop_last() =~= self@.take(i as int));
            }
            i += 1;
        }
        proof {
            assert(self@.take(self.parts.len() as int) =~= self@);
        }
        (self, res)
    }
}

impl Text {
    /// Whether the text of every hand can be cut into words: whether no
    /// word of a proposal has more than 255 scalars.
    pub open spec fn normalisable<D: AtgDialect>(&self) -> bool {
        forall|hand: int, j: int|
            0 <= hand < number_of_hands(self@) && 0 <= j < self@.len() ==> splittable::<D>(
                #[trigger] flattened(self@, hand)[j],
            )
    }

    /// Whether the text of every hand can be cut into words.
    pub fn is_normalisable<D: AtgDialect>(&self) -> (b: bool)
        ensures
            b == self.normalisable::<D>(),
    {
        let hands = self.number_of_hands();
        let mut hand: usize = 0;
        while hand < hands
            invariant
                hand <= hands,
                hands == number_of_hands(self@),
                forall|h: int, j: int|
                    0 <= h < hand && 0 <= j < self@.len() ==> splittable::<D>(
                        #[trigger] flattened(self@, h)[j],
                    ),
            decreases hands - hand,
        {
            let unique = self.unique_text(hand);
            if !unique.is_splittable::<D>() {
                proof {
                    let j = choose|j: int| 0 <= j < unique@.len() && !splittable::<D>(unique@[j]);
                    assert(!splittable::<D>(flattened(self@, hand as int)[j]));
                }
                return false;
            }
            proof {
                assert forall|j: int| 0 <= j < self@.len() implies splittable::<D>(
                    #[trigger] flattened(self@, hand as int)[j],
                ) by {
                    assert(splittable::<D>(unique@[j]));
                }
            }
            hand += 1;
        }
        true
    }

    /// Normalises the text as far as that can be done without knowing its
    /// language: one text for each correcting hand, cut into words, each
    /// word with its surface form.
    pub fn auto_normalise<D: AtgDialect>(self) -> (r: Vec<AnchoredNormalisedText>)
        requires
            self.normalisable::<D>(),
        ensures
            r.len() == number_of_hands(self@),
            forall|hand: int|
                0 <= hand < r.len() ==> normalised::<D>(flattened(self@, hand), #[trigger] r[hand]),
    {
        let hands = self.number_of_hands();
        let mut res: Vec<AnchoredNormalisedText> = Vec::new();
        let mut hand: usize = 0;
        while hand < hands
            invariant
                hand <= hands,
                hands == number_of_hands(self@),
                self.normalisable::<D>(),
                res.len() == hand,
                forall|h: int|
                    0 <= h < hand ==> normalised::<D>(flattened(self@, h), #[trigger] res[h]),
            decreases hands - hand,
        {
            let unique = self.unique_text(hand);
            proof {
                assert forall|j: int| 0 <= j < unique@.len() implies splittable::<D>(
                    #[trigger] unique@[j],
                ) by {
                    assert(splittable::<D>(flattened(self@, hand as int)[j]));
                }
            }
            res.push(unique.normalise::<D>());
            hand += 1;
        }
        res
    }
}

} // verus!
