//! The schema of the lexemes of a language.

use vstd::prelude::*;
use crate::numerals::{decimal, push_decimal};

verus! {

/// Why a text names no lexeme.
#[derive(Debug, PartialEq, Eq)]
pub struct LexParseError {
    pub location: usize,
    pub reason: String,
}

impl LexParseError {
    /// An error at the given byte, for the given reason.
    pub fn new(location: usize, reason: String) -> (r: Self)
        ensures
            r.location == location,
            r.reason == reason,
    {
        Self { location, reason }
    }

    /// The message shown for this error.
    pub open spec fn message(&self) -> Seq<char> {
        "Error parsing Lex at byte "@ + decimal(self.location as nat) + ": "@ + self.reason@
            + "."@
    }

    /// The message shown for this error.
    pub fn to_string(&self) -> (r: String)
        ensures
            r@ == self.message(),
    {
        let mut res = "Error parsing Lex at byte ".to_owned();
        push_decimal(&mut res, self.location);
        res.append(": ");
        res.append(self.reason.as_str());
        res.append(".");
        res
    }
}

/// The identifiers of the lexemes of a language.
///
/// A value identifies one lexeme of the schema. Its text names it, and
/// reading the text gives the value back.
pub trait LexSchema: Sized {
    /// The name of the schema, which no other schema has.
    const NAME: &'static str;

    /// The identifier that a text names, if it names one.
    spec fn parsed(s: Seq<char>) -> Option<Self>;

    /// The text that names the identifier.
    spec fn text(&self) -> Seq<char>;

    /// Reads an identifier from its text.
    fn from_str(s: &str) -> (r: Result<Self, LexParseError>)
        ensures
            match r {
                Ok(x) => Self::parsed(s@) == Some(x),
                Err(_) => Self::parsed(s@) is None,
            },
    ;

    /// Writes the identifier as its text.
    fn to_string(&self) -> (r: String)
        ensures
            r@ == self.text(),
    ;

    /// Reading the text of an identifier gives the identifier back.
    proof fn lemma_parsed_text(&self)
        ensures
            Self::parsed(self.text()) == Some(*self),
    ;
}

} // verus!
