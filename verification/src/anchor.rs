//! Work-agnostic positional anchors, such as a versification.
//!
//! An anchor marks a position of the work that every witness shares. How an
//! anchor is written is fixed by an anchor dialect.

use vstd::prelude::*;
use crate::scalars::{chars_of, same_text};
use crate::anchor::example::{Example, ParseStanzaError};

pub mod example;

verus! {

/// What a kind of positional anchor has to offer: a way to read an anchor
/// from its literal and a way to write it.
///
/// The trait is a reminder for authors of new dialects. A new dialect is made
/// known by adding it to [`Anchor`] and to [`AnchorDialect`].
pub trait SuperAnchorDialect: Sized {
    /// Why a literal is no anchor of this dialect.
    type ParseError;

    /// The anchor that a literal denotes.
    spec fn parsed(s: Seq<char>) -> Result<Self, Self::ParseError>;

    /// The literal of an anchor.
    spec fn text(&self) -> Seq<char>;

    /// Reads an anchor from its literal.
    fn from_str(s: &str) -> (r: Result<Self, Self::ParseError>)
        ensures
            r == Self::parsed(s@),
    ;

    /// Writes the anchor as its literal.
    fn to_string(&self) -> (r: String)
        ensures
            r@ == self.text(),
    ;

    /// Reading the literal of an anchor gives the anchor back.
    proof fn lemma_parsed_text(&self)
        ensures
            Self::parsed(self.text()) == Ok::<Self, Self::ParseError>(*self),
    ;
}

/// A positional anchor of any known dialect, with its value.
///
/// See [`AnchorDialect`] for the dialects without a value.
#[derive(Debug, PartialEq, Eq, Clone, Copy, Hash, Structural)]
pub enum Anchor {
    /// An anchor of the example dialect.
    Example(Example),
}

/// Why a literal is no anchor of the dialect it was read in.
#[derive(Debug, PartialEq, Eq, Clone, Copy, Hash, Structural)]
pub enum AnchorParseError {
    /// The literal is no stanza of the example dialect.
    Example(ParseStanzaError),
}

impl AnchorParseError {
    /// The message shown for this error.
    pub open spec fn message(self) -> Seq<char> {
        match self {
            AnchorParseError::Example(e) => e.message(),
        }
    }

    /// The message shown for this error.
    pub fn to_string(&self) -> (r: String)
        ensures
            r@ == self.message(),
    {
        match self {
            AnchorParseError::Example(e) => e.to_string(),
        }
    }
}

impl Anchor {
    /// The literal of the anchor.
    pub open spec fn text(self) -> Seq<char> {
        match self {
            Anchor::Example(x) => x.text(),
        }
    }

    /// The dialect of the anchor.
    pub open spec fn dialect(self) -> AnchorDialect {
        match self {
            Anchor::Example(_) => AnchorDialect::Example,
        }
    }

    /// Writes the anchor as its literal.
    pub fn to_string(&self) -> (r: String)
        ensures
            r@ == self.text(),
    {
        match self {
            Anchor::Example(x) => x.to_string(),
        }
    }

    /// Forgets the value and keeps the dialect.
    pub fn forgetful_functor(self) -> (d: AnchorDialect)
        ensures
            d == self.dialect(),
    {
        match self {
            Anchor::Example(_) => AnchorDialect::Example,
        }
    }
}

/// The known anchor dialects, without a value.
///
/// See [`Anchor`] for an anchor with its value.
#[derive(Debug, PartialEq, Eq, Clone, Copy, Hash, Structural)]
pub enum AnchorDialect {
    /// A poem of two stanzas.
    Example,
}

impl AnchorDialect {
    /// The anchor that a literal denotes in this dialect.
    pub open spec fn parsed(self, s: Seq<char>) -> Result<Anchor, AnchorParseError> {
        match self {
            AnchorDialect::Example => match Example::parsed(s) {
                Ok(x) => Ok(Anchor::Example(x)),
                Err(e) => Err(AnchorParseError::Example(e)),
            },
        }
    }

    /// The dialect registered under a name.
    pub open spec fn by_name(name: Seq<char>) -> Option<AnchorDialect> {
        if name == "example"@ {
            Some(AnchorDialect::Example)
        } else {
            None
        }
    }

    /// The name under which the dialect is registered.
    pub open spec fn name(self) -> Seq<char> {
        match self {
            AnchorDialect::Example => "example"@,
        }
    }

    /// Reads a literal as an anchor of this dialect.
    pub fn parse(&self, s: &str) -> (r: Result<Anchor, AnchorParseError>)
        ensures
            r == self.parsed(s@),
    {
        match self {
            AnchorDialect::Example => match Example::from_str(s) {
                Ok(x) => Ok(Anchor::Example(x)),
                Err(e) => Err(AnchorParseError::Example(e)),
            },
        }
    }

    /// Looks a dialect up by its name.
    pub fn get_by_name(s: &str) -> (r: Option<Self>)
        ensures
            r == Self::by_name(s@),
    {
        let v = chars_of(s);
        if same_text(&v, "example") {
            Some(AnchorDialect::Example)
        } else {
            None
        }
    }
}

/// Every anchor is read back from its literal, in its own dialect.
pub proof fn lemma_anchor_parsed_text(a: Anchor)
    ensures
        a.dialect().parsed(a.text()) == Ok::<Anchor, AnchorParseError>(a),
{
    match a {
        Anchor::Example(x) => {
            x.lemma_parsed_text();
        },
    }
}

/// A dialect is found under its own name.
pub proof fn lemma_dialect_by_name(d: AnchorDialect)
    ensures
        AnchorDialect::by_name(d.name()) == Some(d),
{
}

} // verus!
