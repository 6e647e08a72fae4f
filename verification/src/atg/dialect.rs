//! The known ATG dialects, and the choice of one by its name.

use vstd::prelude::*;
use crate::anchor::AnchorDialect;
use crate::atg::{AtgParseError, Fault};
use crate::atg::parse::parse_text;
use crate::atg::text::{PartView, Text};
use crate::scalars::{chars_of, same_text};

pub mod example;

pub use crate::atg::dialect::example::ExampleAtgDialect;

verus! {

/// A name under which no ATG dialect is known.
#[derive(Debug, PartialEq, Eq)]
pub struct AtgDialectUnknown {
    pub name: String,
}

impl AtgDialectUnknown {
    /// The error for the given name.
    pub fn new(s: String) -> (r: Self)
        ensures
            r.name == s,
    {
        Self { name: s }
    }

    /// The message shown for this error.
    pub open spec fn message(&self) -> Seq<char> {
        "The ATG dialect \""@ + self.name@
            + "\" does not exist. Is critic compiled with the correct features?"@
    }

    /// The message shown for this error.
    pub fn to_string(&self) -> (r: String)
        ensures
            r@ == self.message(),
    {
        let mut res = "The ATG dialect \"".to_owned();
        res.append(self.name.as_str());
        res.append("\" does not exist. Is critic compiled with the correct features?");
        res
    }
}

/// The known ATG dialects.
#[derive(Debug, PartialEq, Eq, Clone, Copy, Hash, Structural)]
pub enum AtgDialectList {
    Example,
}

impl AtgDialectList {
    /// The dialect known under a name.
    pub open spec fn by_name(name: Seq<char>) -> Option<AtgDialectList> {
        if name == "example"@ {
            Some(AtgDialectList::Example)
        } else {
            None
        }
    }

    /// The name under which the dialect is known.
    pub open spec fn name(self) -> Seq<char> {
        match self {
            AtgDialectList::Example => "example"@,
        }
    }

    /// Looks a dialect up by its name.
    pub fn from_str(s: &str) -> (r: Result<Self, AtgDialectUnknown>)
        ensures
            match r {
                Ok(d) => Self::by_name(s@) == Some(d),
                Err(e) => Self::by_name(s@) is None && e.name@ == s@,
            },
    {
        let name = chars_of(s);
        if same_text(&name, "example") {
            Ok(AtgDialectList::Example)
        } else {
            Err(AtgDialectUnknown::new(s.to_owned()))
        }
    }

    /// The name under which the dialect is known.
    pub fn to_string(&self) -> (r: String)
        ensures
            r@ == self.name(),
    {
        match self {
            AtgDialectList::Example => "example".to_owned(),
        }
    }

    /// The text that a string is in this dialect.
    pub open spec fn parsed(self, s: Seq<char>, anchor_dialect: AnchorDialect, hands: nat) -> Result<
        Seq<PartView>,
        Fault,
    > {
        match self {
            AtgDialectList::Example => parse_text::<ExampleAtgDialect>(s, anchor_dialect, hands),
        }
    }
}

/// A dialect is found under its own name.
pub proof fn lemma_atg_dialect_by_name(d: AtgDialectList)
    ensures
        AtgDialectList::by_name(d.name()) == Some(d),
{
}

/// Parses a string in the given ATG dialect.
pub fn parse_by_dialect(
    input: &str,
    atg_dialect: &AtgDialectList,
    anchor_dialect: AnchorDialect,
    number_of_corrections: usize,
) -> (r: Result<Text, AtgParseError>)
    ensures
        match (atg_dialect.parsed(input@, anchor_dialect, number_of_corrections as nat), r) {
            (Ok(parts), Ok(text)) => text@ == parts,
            (Err(f), Err(e)) => e@ == f.in_bytes(input@),
            _ => false,
        },
{
    match atg_dialect {
        AtgDialectList::Example => Text::parse::<ExampleAtgDialect>(
            input,
            anchor_dialect,
            number_of_corrections,
        ),
    }
}

/// Parses a string in the ATG dialect known under `name`; gives `None`
/// where there is no such dialect.
pub fn parse_by_dialect_name(
    input: &str,
    name: &str,
    anchor_dialect: AnchorDialect,
    number_of_corrections: usize,
) -> (r: Option<Result<Text, AtgParseError>>)
    ensures
        match (AtgDialectList::by_name(name@), r) {
            (Some(d), Some(parsed)) => match (
                d.parsed(input@, anchor_dialect, number_of_corrections as nat),
                parsed,
            ) {
                (Ok(parts), Ok(text)) => text@ == parts,
                (Err(f), Err(e)) => e@ == f.in_bytes(input@),
                _ => false,
            },
            (None, None) => true,
            _ => false,
        },
{
    match AtgDialectList::from_str(name) {
        Ok(dialect) => Some(
            parse_by_dialect(input, &dialect, anchor_dialect, number_of_corrections),
        ),
        Err(_) => None,
    }
}

} // verus!
