//! The walk through the folios of a witness, and what can be wrong with
//! the transcript of a folio.

use vstd::prelude::*;
use vstd::std_specs::convert::FromSpecImpl;
use crate::atg::{AtgParseError, Fault};
use crate::atg::dialect::AtgDialectUnknown;
use crate::define::WitnessMetadata;
use crate::numerals::{decimal, push_decimal};

verus! {

/// The error of the TOML reader. Nothing is known of what it holds.
#[verifier::external_type_specification]
#[verifier::external_body]
pub struct ExTomlError(toml::de::Error);

/// `toml::de::Error::span` gives the range of the document in which the
/// error occurred, if it is known; this is where the range starts. Nothing
/// is claimed of it.
#[verifier::external_body]
fn toml_error_start(e: &toml::de::Error) -> (r: Option<usize>) {
    e.span().map(|range| range.start)
}

/// The `Display` of `toml::de::Error` writes the message of the error.
/// Nothing is claimed of it.
#[verifier::external_body]
fn toml_error_text(e: &toml::de::Error) -> (r: String) {
    format!("{e}")
}

/// A walk through the folios of a witness. It names one folio after the
/// other; reading the transcript of a folio is left to the caller.
pub struct TranscriptIterator<'a> {
    metadata: &'a WitnessMetadata,
    current: usize,
}

impl<'a> TranscriptIterator<'a> {
    /// The metadata of the witness.
    pub closed spec fn metadata(&self) -> WitnessMetadata {
        *self.metadata
    }

    /// The number of folios that were named.
    pub closed spec fn current(&self) -> nat {
        self.current as nat
    }

    #[verifier::type_invariant]
    spec fn well_formed(self) -> bool {
        self.current <= self.metadata.folios.len()
    }

    /// A walk that starts at the first folio.
    pub fn new(metadata: &'a WitnessMetadata) -> (r: Self)
        ensures
            r.metadata() == *metadata,
            r.current() == 0,
    {
        Self { metadata, current: 0 }
    }

    /// The metadata of the witness.
    pub fn witness_metadata(&self) -> (r: &'a WitnessMetadata)
        ensures
            *r == self.metadata(),
    {
        self.metadata
    }

    /// The name of the next folio, or `None` when every folio was named.
    pub fn next(&mut self) -> (r: Option<String>)
        ensures
            final(self).metadata() == old(self).metadata(),
            match r {
                Some(name) => {
                    &&& old(self).current() < old(self).metadata().folios.len()
                    &&& name@ == old(self).metadata().folios[old(self).current() as int]@
                    &&& final(self).current() == old(self).current() + 1
                },
                None => {
                    &&& old(self).current() == old(self).metadata().folios.len()
                    &&& final(self).current() == old(self).current()
                },
            },
    {
        proof {
            use_type_invariant(&*self);
        }
        if self.current < self.metadata.folios.len() {
            let name = self.metadata.folios[self.current].clone();
            self.current = self.current + 1;
            Some(name)
        } else {
            None
        }
    }
}

/// Why the transcript of a folio cannot be used.
#[derive(Debug, PartialEq, Eq)]
pub enum FolioTranscriptParseErrorReason {
    /// The file is no TOML of the shape of a transcript.
    Toml(toml::de::Error),
    /// The file has no table `metadata`.
    NoMetadata,
    /// Neither the block nor the witness names an ATG dialect.
    NoAtg,
    /// Neither the block nor the witness names an anchor dialect.
    NoAnchor,
    /// A table is neither `metadata` nor named by a number below 256.
    BlockNameNotDecimal(String),
    /// A block is not numbered one higher than the block before it.
    BlockNameNotInAscendingOrder(u8),
    /// The language is not known.
    LanguageUnknown(String),
    /// The anchor dialect is not known.
    AnchorDialectUnknown(String),
    /// The transcript of a block is no ATG: the name of the block, and the
    /// error.
    TranscriptUnparsable(String, AtgParseError),
    /// The ATG dialect is not known.
    AtgDialectUnknown(String),
}

/// The model of a [`FolioTranscriptParseErrorReason`].
pub enum FolioFault {
    Toml(toml::de::Error),
    NoMetadata,
    NoAtg,
    NoAnchor,
    BlockNameNotDecimal(Seq<char>),
    BlockNameNotInAscendingOrder(u8),
    LanguageUnknown(Seq<char>),
    AnchorDialectUnknown(Seq<char>),
    TranscriptUnparsable(Seq<char>, Fault),
    AtgDialectUnknown(Seq<char>),
}

impl View for FolioTranscriptParseErrorReason {
    type V = FolioFault;

    open spec fn view(&self) -> FolioFault {
        match self {
            FolioTranscriptParseErrorReason::Toml(e) => FolioFault::Toml(*e),
            FolioTranscriptParseErrorReason::NoMetadata => FolioFault::NoMetadata,
            FolioTranscriptParseErrorReason::NoAtg => FolioFault::NoAtg,
            FolioTranscriptParseErrorReason::NoAnchor => FolioFault::NoAnchor,
            FolioTranscriptParseErrorReason::BlockNameNotDecimal(x) => {
                FolioFault::BlockNameNotDecimal(x@)
            },
            FolioTranscriptParseErrorReason::BlockNameNotInAscendingOrder(n) => {
                FolioFault::BlockNameNotInAscendingOrder(*n)
            },
            FolioTranscriptParseErrorReason::LanguageUnknown(x) => FolioFault::LanguageUnknown(x@),
            FolioTranscriptParseErrorReason::AnchorDialectUnknown(x) => {
                FolioFault::AnchorDialectUnknown(x@)
            },
            FolioTranscriptParseErrorReason::TranscriptUnparsable(x, e) => {
                FolioFault::TranscriptUnparsable(x@, e@)
            },
            FolioTranscriptParseErrorReason::AtgDialectUnknown(x) => {
                FolioFault::AtgDialectUnknown(x@)
            },
        }
    }
}

impl FolioFault {
    /// The message shown for this reason, where `toml` is the message of
    /// the TOML reader if the reason is its error.
    pub open spec fn message(self, toml: Seq<char>) -> Seq<char> {
        match self {
            FolioFault::Toml(_) => "Error parsing file as toml: "@ + toml + "."@,
            FolioFault::NoMetadata => "The file did not contain a \"metadata\" block."@,
            FolioFault::NoAtg => "No ATG dialect was set either on the witness or on the folio."@,
            FolioFault::NoAnchor => {
                "No anchor style was set either on the witness or on the folio."@
            },
            FolioFault::BlockNameNotDecimal(name) => "The blockname "@ + name
                + " must be a decimal."@,
            FolioFault::BlockNameNotInAscendingOrder(n) => "The blockname "@ + decimal(n as nat)
                + " needs to be exactly one higher then the last block name."@,
            FolioFault::AnchorDialectUnknown(x) => "The anchor dialect \""@ + x
                + "\" is not known. Is critic compiled with the correct features?"@,
            FolioFault::TranscriptUnparsable(block, e) => {
                "While parsing transcript data for block "@ + block
                    + ", the following error occured: "@ + e.message() + "."@
            },
            FolioFault::AtgDialectUnknown(x) => "The ATG Dialect \""@ + x
                + "\" does not exist. Is critic compiled with the correct features?"@,
            FolioFault::LanguageUnknown(x) => "The language \""@ + x
                + "\" is not known. Is critic compiled with the correct features?"@,
        }
    }
}

impl FolioTranscriptParseErrorReason {
    /// The message of the TOML reader, if the reason is its error, and the
    /// empty string otherwise.
    fn toml_text(&self) -> (r: String)
        ensures
            !(self@ is Toml) ==> r@ == Seq::<char>::empty(),
    {
        match self {
            FolioTranscriptParseErrorReason::Toml(e) => toml_error_text(e),
            _ => String::new(),
        }
    }

    /// The message shown for this reason, with `toml` as the message of the
    /// TOML reader.
    pub fn message_with(&self, toml: &str) -> (r: String)
        ensures
            r@ == self@.message(toml@),
    {
        match self {
            FolioTranscriptParseErrorReason::Toml(_) => {
                let mut res = "Error parsing file as toml: ".to_owned();
                res.append(toml);
                res.append(".");
                res
            },
            FolioTranscriptParseErrorReason::NoMetadata => {
                "The file did not contain a \"metadata\" block.".to_owned()
            },
            FolioTranscriptParseErrorReason::NoAtg => {
                "No ATG dialect was set either on the witness or on the folio.".to_owned()
            },
            FolioTranscriptParseErrorReason::NoAnchor => {
                "No anchor style was set either on the witness or on the folio.".to_owned()
            },
            FolioTranscriptParseErrorReason::BlockNameNotDecimal(name) => {
                let mut res = "The blockname ".to_owned();
                res.append(name.as_str());
                res.append(" must be a decimal.");
                res
            },
            FolioTranscriptParseErrorReason::BlockNameNotInAscendingOrder(n) => {
                let mut res = "The blockname ".to_owned();
                push_decimal(&mut res, *n as usize);
                res.append(" needs to be exactly one higher then the last block name.");
                res
            },
            FolioTranscriptParseErrorReason::AnchorDialectUnknown(x) => {
                let mut res = "The anchor dialect \"".to_owned();
                res.append(x.as_str());
                res.append("\" is not known. Is critic compiled with the correct features?");
                res
            },
            FolioTranscriptParseErrorReason::TranscriptUnparsable(block, e) => {
                let mut res = "While parsing transcript data for block ".to_owned();
                res.append(block.as_str());
                res.append(", the following error occured: ");
                let inner = e.to_string();
                res.append(inner.as_str());
                res.append(".");
                res
            },
            FolioTranscriptParseErrorReason::AtgDialectUnknown(x) => {
                let mut res = "The ATG Dialect \"".to_owned();
                res.append(x.as_str());
                res.append("\" does not exist. Is critic compiled with the correct features?");
                res
            },
            FolioTranscriptParseErrorReason::LanguageUnknown(x) => {
                let mut res = "The language \"".to_owned();
                res.append(x.as_str());
                res.append("\" is not known. Is critic compiled with the correct features?");
                res
            },
        }
    }

    /// The message shown for this reason. For an error of the TOML reader
    /// it holds the message of that error.
    pub fn to_string(&self) -> (r: String)
        ensures
            !(self@ is Toml) ==> r@ == self@.message(Seq::empty()),
            self@ is Toml ==> exists|toml: Seq<char>| r@ == self@.message(toml),
    {
        let toml = self.toml_text();
        self.message_with(toml.as_str())
    }
}

/// Why the transcript of a folio cannot be used, and where in the file the
/// problem is, if that is known.
#[derive(Debug, PartialEq, Eq)]
pub struct FolioTranscriptParseError {
    /// The byte offset into the file at which the problem is.
    pub location: Option<usize>,
    /// What the problem is.
    pub reason: FolioTranscriptParseErrorReason,
}

impl FolioTranscriptParseError {
    /// An error for the given reason, at the given place.
    pub fn new(reason: FolioTranscriptParseErrorReason, location: Option<usize>) -> (r: Self)
        ensures
            r.reason == reason,
            r.location == location,
    {
        Self { reason, location }
    }

    /// The message of an error with the given place and the given message
    /// of its reason.
    pub open spec fn message(location: Option<usize>, reason: Seq<char>) -> Seq<char> {
        match location {
            None => "Error parsing folio transcript: "@ + reason + "."@,
            Some(x) => "Error parsing folio transcript at "@ + decimal(x as nat) + ": "@ + reason
                + "."@,
        }
    }

    /// The message shown for this error, around the message of its reason.
    pub fn to_string(&self) -> (r: String)
        ensures
            !(self.reason@ is Toml) ==> r@ == Self::message(
                self.location,
                self.reason@.message(Seq::empty()),
            ),
            self.reason@ is Toml ==> exists|toml: Seq<char>|
                r@ == Self::message(self.location, self.reason@.message(toml)),
    {
        let reason = self.reason.to_string();
        let mut res = String::new();
        match self.location {
            None => {
                res.append("Error parsing folio transcript: ");
            },
            Some(x) => {
                res.append("Error parsing folio transcript at ");
                push_decimal(&mut res, x);
                res.append(": ");
            },
        }
        res.append(reason.as_str());
        res.append(".");
        proof {
            assert(res@ =~= Self::message(self.location, reason@));
        }
        res
    }
}

impl FolioTranscriptParseError {
    /// The error of the TOML reader as an error of the transcript, at the
    /// place that the reader gives for it.
    pub fn from_toml(value: toml::de::Error) -> (r: Self)
        ensures
            r.reason == FolioTranscriptParseErrorReason::Toml(value),
    {
        let location = toml_error_start(&value);
        FolioTranscriptParseError::new(FolioTranscriptParseErrorReason::Toml(value), location)
    }
}

/// The error of the TOML reader as an error of the transcript, as
/// [`FolioTranscriptParseError::from_toml`] gives it.
impl From<toml::de::Error> for FolioTranscriptParseError {
    fn from(value: toml::de::Error) -> (r: Self)
        ensures
            r.reason == FolioTranscriptParseErrorReason::Toml(value),
    {
        FolioTranscriptParseError::from_toml(value)
    }
}

impl FromSpecImpl<toml::de::Error> for FolioTranscriptParseError {
    open spec fn obeys_from_spec() -> bool {
        false
    }

    open spec fn from_spec(value: toml::de::Error) -> Self {
        vstd::pervasive::arbitrary()
    }
}

impl From<AtgDialectUnknown> for FolioTranscriptParseError {
    fn from(value: AtgDialectUnknown) -> (r: Self) {
        FolioTranscriptParseError {
            location: None,
            reason: FolioTranscriptParseErrorReason::AtgDialectUnknown(value.name),
        }
    }
}

impl FromSpecImpl<AtgDialectUnknown> for FolioTranscriptParseError {
    open spec fn obeys_from_spec() -> bool {
        true
    }

    open spec fn from_spec(value: AtgDialectUnknown) -> Self {
        FolioTranscriptParseError {
            location: None,
            reason: FolioTranscriptParseErrorReason::AtgDialectUnknown(value.name),
        }
    }
}

} // verus!
