//! ATG, the annotated text grammar in which witnesses are transcribed.
//!
//! A dialect fixes the control points, the native scalars of the language,
//! its punctuation and its word divisor. The parser reads a string into a
//! [`Text`] of tagged parts; the renderer writes the canonical string of a
//! text.

use vstd::prelude::*;
use crate::anchor::AnchorParseError;
use crate::numerals::{decimal, push_decimal};
use crate::scalars::contains_char;

pub mod text;
pub mod escape;
pub mod parameter;
pub mod parse;
pub mod render;
pub mod locality;
pub mod roundtrip;
pub mod transparency;
pub mod dialect;
pub mod normalize;
pub mod block;

pub use crate::atg::block::AtgBlock;
pub use crate::atg::text::{
    Correction, FormatBreak, Illegible, Lacuna, Part, Passage, PartView, Present, Text, Uncertain,
    UncertainReason,
};

verus! {

/// The scalar values that have a meaning of their own in an ATG dialect.
#[derive(Debug, PartialEq, Eq, Clone, Copy, Hash)]
pub struct ControlPointDefinition {
    /// Introduces an escape: a control point taken literally, or two, four
    /// or six hexadecimal digits that number a scalar value.
    pub escape: char,
    /// Opens a parameter.
    pub start_param: char,
    /// Closes a parameter.
    pub stop_param: char,
    /// Introduces a passage that is present but cannot be read. Its
    /// parameters are its length and, optionally, a proposed reading.
    pub illegible: char,
    /// Introduces a passage that is missing. Its parameters are its length
    /// and, optionally, a proposed reading.
    pub lacuna: char,
    /// Introduces a positional anchor, given as the one parameter.
    pub anchor: char,
    /// Introduces a break in the layout. Its parameter is one of `line`,
    /// `column`, `paragraph` and `folio`.
    pub format_break: char,
    /// Introduces a scribal correction. Its parameters are the versions of
    /// the passage, one for each hand.
    pub correction: char,
    /// Scalars without any meaning, such as line feeds used for layout.
    pub non_semantic: &'static str,
    /// Introduces a comment, given as the one parameter.
    pub comment: char,
}

impl ControlPointDefinition {
    /// The nine distinguished scalars.
    pub open spec fn distinguished(&self) -> Seq<char> {
        seq![
            self.escape,
            self.start_param,
            self.stop_param,
            self.illegible,
            self.lacuna,
            self.anchor,
            self.format_break,
            self.correction,
            self.comment,
        ]
    }

    /// Whether `c` is a scalar without meaning.
    pub open spec fn non_semantic_point(&self, c: char) -> bool {
        self.non_semantic@.contains(c)
    }

    /// Whether `c` is a control point: one of the distinguished scalars, or a
    /// scalar without meaning.
    pub open spec fn control_point(&self, c: char) -> bool {
        ||| c == self.escape
        ||| c == self.start_param
        ||| c == self.stop_param
        ||| c == self.illegible
        ||| c == self.lacuna
        ||| c == self.anchor
        ||| c == self.format_break
        ||| c == self.correction
        ||| c == self.comment
        ||| self.non_semantic_point(c)
    }

    /// The distinguished scalars differ from each other, and none of them is
    /// without meaning.
    pub open spec fn well_formed(&self) -> bool {
        let d = self.distinguished();
        &&& forall|i: int, j: int| 0 <= i < j < d.len() ==> d[i] != d[j]
        &&& forall|i: int| 0 <= i < d.len() ==> !self.non_semantic_point(#[trigger] d[i])
    }

    /// True iff `c` is a control point.
    pub fn is_control_point(&self, c: &char) -> (b: bool)
        ensures
            b == self.control_point(*c),
    {
        *c == self.escape || *c == self.start_param || *c == self.stop_param || *c
            == self.illegible || *c == self.lacuna || *c == self.anchor || *c == self.format_break
            || *c == self.correction || *c == self.comment || self.is_non_semantic(c)
    }

    /// True iff `c` is a scalar without meaning.
    pub fn is_non_semantic(&self, c: &char) -> (b: bool)
        ensures
            b == self.non_semantic_point(*c),
    {
        contains_char(self.non_semantic, *c)
    }
}

/// All that defines ATG for one language.
pub trait AtgDialect {
    /// The scalars that may occur in the language itself.
    const NATIVE_POINTS: &'static str;

    /// The native scalars that are punctuation. Each is a word of its own,
    /// whatever stands before or behind it.
    const PUNCTUATION: &'static str;

    /// The scalar that divides words. Several in a row divide once.
    const WORD_DIVISOR: char;

    /// The control points of the dialect.
    spec fn atg_control_points() -> ControlPointDefinition;

    /// The control points of the dialect.
    fn control_points() -> (r: ControlPointDefinition)
        ensures
            r == Self::atg_control_points(),
    ;

    /// True iff `c` is a control point of the dialect.
    fn is_control_point(c: &char) -> (b: bool)
        ensures
            b == Self::atg_control_points().control_point(*c),
    {
        Self::control_points().is_control_point(c)
    }

    /// True iff `c` is without meaning in the dialect.
    fn is_non_semantic(c: &char) -> (b: bool)
        ensures
            b == Self::atg_control_points().non_semantic_point(*c),
    {
        Self::control_points().is_non_semantic(c)
    }
}

/// Whether `c` is a native scalar of the dialect.
pub open spec fn native_point<D: AtgDialect>(c: char) -> bool {
    D::NATIVE_POINTS@.contains(c)
}

/// Whether every scalar of `s` is native.
pub open spec fn native_text<D: AtgDialect>(s: Seq<char>) -> bool {
    forall|i: int| 0 <= i < s.len() ==> native_point::<D>(#[trigger] s[i])
}

/// Whether `c` is punctuation in the dialect.
pub open spec fn punctuation_point<D: AtgDialect>(c: char) -> bool {
    D::PUNCTUATION@.contains(c)
}

/// The control points of a dialect are well formed, its punctuation is
/// native and its word divisor is not.
pub open spec fn well_formed_dialect<D: AtgDialect>() -> bool {
    &&& D::atg_control_points().well_formed()
    &&& forall|c: char| punctuation_point::<D>(c) ==> native_point::<D>(c)
    &&& !native_point::<D>(D::WORD_DIVISOR)
}

/// Why a string is no ATG.
#[derive(Debug, PartialEq, Eq)]
pub enum AtgParseErrorReason {
    /// An escape is followed neither by a control point nor by two, four or
    /// six hexadecimal digits that number a scalar value.
    EscapeMalformed(String),
    /// A parameter was expected and its start is missing.
    MissingParameterStart,
    /// The length of an uncertain passage is no number from 1 to 255.
    LengthNotANumber(String),
    /// A parameter that has to be native holds another scalar.
    NotNative(String),
    /// The anchor dialect does not accept the literal.
    Anchor(AnchorParseError),
    /// The parameter names no format break.
    UnknownFormatBreak(String),
    /// The input ended where this scalar was awaited.
    EOF(char),
    /// A correction has another number of versions than the witness has
    /// hands: expected, then received.
    IncorrectNumberOfCorrections(usize, usize),
    /// A control point stands where no part can start with it.
    UnexpectedControlPoint(char),
}

/// The model of an [`AtgParseErrorReason`].
pub enum Reason {
    EscapeMalformed(Seq<char>),
    MissingParameterStart,
    LengthNotANumber(Seq<char>),
    NotNative(Seq<char>),
    Anchor(AnchorParseError),
    UnknownFormatBreak(Seq<char>),
    EOF(char),
    IncorrectNumberOfCorrections(nat, nat),
    UnexpectedControlPoint(char),
}

impl View for AtgParseErrorReason {
    type V = Reason;

    open spec fn view(&self) -> Reason {
        match self {
            AtgParseErrorReason::EscapeMalformed(x) => Reason::EscapeMalformed(x@),
            AtgParseErrorReason::MissingParameterStart => Reason::MissingParameterStart,
            AtgParseErrorReason::LengthNotANumber(x) => Reason::LengthNotANumber(x@),
            AtgParseErrorReason::NotNative(x) => Reason::NotNative(x@),
            AtgParseErrorReason::Anchor(x) => Reason::Anchor(*x),
            AtgParseErrorReason::UnknownFormatBreak(x) => Reason::UnknownFormatBreak(x@),
            AtgParseErrorReason::EOF(c) => Reason::EOF(*c),
            AtgParseErrorReason::IncorrectNumberOfCorrections(e, r) => {
                Reason::IncorrectNumberOfCorrections(*e as nat, *r as nat)
            },
            AtgParseErrorReason::UnexpectedControlPoint(c) => Reason::UnexpectedControlPoint(*c),
        }
    }
}

impl Reason {
    /// The message shown for this reason.
    pub open spec fn message(self) -> Seq<char> {
        match self {
            Reason::EscapeMalformed(x) => x + " cannot be used as escape sequence"@,
            Reason::MissingParameterStart => "A parameter was expected but not found."@,
            Reason::LengthNotANumber(x) => x + " is not parsable as a length value."@,
            Reason::NotNative(x) => x + " is not a native string of the used dialect."@,
            Reason::Anchor(x) => "There was a problem parsing an anchor: "@ + x.message() + "."@,
            Reason::UnknownFormatBreak(x) => x
                + " is not a format break ('line', 'column', 'paragraph', 'folio')."@,
            Reason::EOF(c) => "EOF was encountered while waiting for "@.push(c),
            Reason::IncorrectNumberOfCorrections(expected, received) => "Got "@ + decimal(received)
                + " different corrections, but expected "@ + decimal(expected)
                + " because of Witness Metadata."@,
            Reason::UnexpectedControlPoint(c) => "No part starts with the control point "@.push(c),
        }
    }
}

impl AtgParseErrorReason {
    /// The message shown for this reason.
    pub fn to_string(&self) -> (r: String)
        ensures
            r@ == self@.message(),
    {
        match self {
            AtgParseErrorReason::EscapeMalformed(x) => x.clone().concat(
                " cannot be used as escape sequence",
            ),
            AtgParseErrorReason::MissingParameterStart => {
                "A parameter was expected but not found.".to_owned()
            },
            AtgParseErrorReason::LengthNotANumber(x) => x.clone().concat(
                " is not parsable as a length value.",
            ),
            AtgParseErrorReason::NotNative(x) => x.clone().concat(
                " is not a native string of the used dialect.",
            ),
            AtgParseErrorReason::Anchor(x) => {
                let inner = x.to_string();
                "There was a problem parsing an anchor: ".to_owned().concat(inner.as_str()).concat(
                    ".",
                )
            },
            AtgParseErrorReason::UnknownFormatBreak(x) => x.clone().concat(
                " is not a format break ('line', 'column', 'paragraph', 'folio').",
            ),
            AtgParseErrorReason::EOF(c) => {
                let mut s = "EOF was encountered while waiting for ".to_owned();
                s.push(*c);
                s
            },
            AtgParseErrorReason::IncorrectNumberOfCorrections(expected, received) => {
                let mut s = "Got ".to_owned();
                push_decimal(&mut s, *received);
                s.append(" different corrections, but expected ");
                push_decimal(&mut s, *expected);
                s.append(" because of Witness Metadata.");
                s
            },
            AtgParseErrorReason::UnexpectedControlPoint(c) => {
                let mut s = "No part starts with the control point ".to_owned();
                s.push(*c);
                s
            },
        }
    }
}

/// Why a string is no ATG, and where.
#[derive(Debug, PartialEq, Eq)]
pub struct AtgParseError {
    /// Where the problem starts, as a byte offset into the input.
    pub location: usize,
    /// What the problem is.
    pub reason: AtgParseErrorReason,
}

/// The model of an [`AtgParseError`].
pub struct Fault {
    pub location: nat,
    pub reason: Reason,
}

impl View for AtgParseError {
    type V = Fault;

    open spec fn view(&self) -> Fault {
        Fault { location: self.location as nat, reason: self.reason@ }
    }
}

impl Fault {
    /// The same fault, seen from an input that starts `offset` bytes
    /// earlier.
    pub open spec fn shifted(self, offset: nat) -> Fault {
        Fault { location: self.location + offset, reason: self.reason }
    }

    /// The message shown for this fault.
    pub open spec fn message(self) -> Seq<char> {
        self.reason.message() + " at "@ + decimal(self.location)
    }
}

impl AtgParseError {
    /// An error with its place.
    pub fn new(location: usize, reason: AtgParseErrorReason) -> (e: Self)
        ensures
            e.location == location,
            e.reason == reason,
    {
        Self { location, reason }
    }

    /// The same error, seen from an input that starts `offset` bytes
    /// earlier.
    pub fn offset_location(self, offset: usize) -> (e: Self)
        requires
            self.location + offset <= usize::MAX,
        ensures
            e@ == self@.shifted(offset as nat),
            e.reason == self.reason,
    {
        Self::new(self.location + offset, self.reason)
    }

    /// The message shown for this error.
    pub fn to_string(&self) -> (r: String)
        ensures
            r@ == self@.message(),
    {
        let mut s = self.reason.to_string();
        s.append(" at ");
        push_decimal(&mut s, self.location);
        s
    }
}

} // verus!
