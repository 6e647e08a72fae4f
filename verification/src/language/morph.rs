//! The schemas of the morphology of a language: single tags, and sets of
//! them.

use vstd::prelude::*;
use crate::numerals::{decimal, push_decimal};

verus! {

/// Why a text is no morphological tag.
#[derive(Debug, PartialEq, Eq)]
pub struct MorphPointParseError {
    pub location: usize,
    pub reason: String,
}

impl MorphPointParseError {
    /// An error at the given byte, for the given reason.
    pub fn new(location: usize, reason: String) -> (r: Self)
        ensures
            r.location == location,
            r.reason == reason,
    {
        Self { location, reason }
    }

    /// The message shown for this error.
    pub open spec fn message(&self) -> Seq<char> {
        "Error parsing MorphPoint at byte "@ + decimal(self.location as nat) + ": "@
            + self.reason@ + "."@
    }

    /// The message shown for this error.
    pub fn to_string(&self) -> (r: String)
        ensures
            r@ == self.message(),
    {
        let mut res = "Error parsing MorphPoint at byte ".to_owned();
        push_decimal(&mut res, self.location);
        res.append(": ");
        res.append(self.reason.as_str());
        res.append(".");
        res
    }
}

/// The complete morphological tags of a language.
///
/// The text of a tag names it, and reading the text gives the tag back.
pub trait MorphPointSchema: Sized {
    /// The name of the schema, which no other schema has.
    const NAME: &'static str;

    /// The tag that a text names, if it names one.
    spec fn parsed(s: Seq<char>) -> Option<Self>;

    /// The text that names the tag.
    spec fn text(&self) -> Seq<char>;

    /// Reads a tag from its text.
    fn from_str(s: &str) -> (r: Result<Self, MorphPointParseError>)
        ensures
            match r {
                Ok(x) => Self::parsed(s@) == Some(x),
                Err(_) => Self::parsed(s@) is None,
            },
    ;

    /// Writes the tag as its text.
    fn to_string(&self) -> (r: String)
        ensures
            r@ == self.text(),
    ;

    /// Reading the text of a tag gives the tag back.
    proof fn lemma_parsed_text(&self)
        ensures
            Self::parsed(self.text()) == Some(*self),
    ;

    /// True iff the tag is in the range `r`.
    fn is_in<R: MorphRangeSchema<Point = Self>>(&self, r: &R) -> (b: bool)
        ensures
            b == r.holds(*self),
    {
        r.contains(self)
    }
}

/// Why a text is no set of morphological tags.
#[derive(Debug, PartialEq, Eq)]
pub struct MorphRangeParseError {
    pub location: usize,
    pub reason: String,
}

impl MorphRangeParseError {
    /// An error at the given byte, for the given reason.
    pub fn new(location: usize, reason: String) -> (r: Self)
        ensures
            r.location == location,
            r.reason == reason,
    {
        Self { location, reason }
    }

    /// The message shown for this error.
    pub open spec fn message(&self) -> Seq<char> {
        "Error parsing MorphRange at byte "@ + decimal(self.location as nat) + ": "@
            + self.reason@ + "."@
    }

    /// The message shown for this error.
    pub fn to_string(&self) -> (r: String)
        ensures
            r@ == self.message(),
    {
        let mut res = "Error parsing MorphRange at byte ".to_owned();
        push_decimal(&mut res, self.location);
        res.append(": ");
        res.append(self.reason.as_str());
        res.append(".");
        res
    }
}

/// The sets of morphological tags of a language.
///
/// The text of a set names it, and reading the text gives the set back.
pub trait MorphRangeSchema: Sized {
    /// The tags that the sets hold.
    type Point;

    /// The set that a text names, if it names one.
    spec fn parsed(s: Seq<char>) -> Option<Self>;

    /// The text that names the set.
    spec fn text(&self) -> Seq<char>;

    /// Whether the set holds the tag `p`.
    spec fn holds(&self, p: Self::Point) -> bool;

    /// Reads a set from its text.
    fn from_str(s: &str) -> (r: Result<Self, MorphRangeParseError>)
        ensures
            match r {
                Ok(x) => Self::parsed(s@) == Some(x),
                Err(_) => Self::parsed(s@) is None,
            },
    ;

    /// Writes the set as its text.
    fn to_string(&self) -> (r: String)
        ensures
            r@ == self.text(),
    ;

    /// Reading the text of a set gives the set back.
    proof fn lemma_parsed_text(&self)
        ensures
            Self::parsed(self.text()) == Some(*self),
    ;

    /// True iff `p` is in the set.
    fn contains(&self, p: &Self::Point) -> (b: bool)
        ensures
            b == self.holds(*p),
    ;
}

} // verus!
