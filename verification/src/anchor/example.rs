//! An example anchor dialect: the two stanzas of a short poem.

use vstd::prelude::*;
use crate::anchor::SuperAnchorDialect;
use crate::scalars::{
    char_len, chars_of, lemma_byte_offset_monotonic, lemma_utf8_len_single, scalar_len, utf8_len,
};

verus! {

/// Why a literal is no stanza.
#[derive(Debug, PartialEq, Eq, Clone, Copy, Hash, Structural)]
pub enum ParseStanzaError {
    EmptyString,
    TooManyChars,
    NotInRange,
    NotANumber,
}

impl ParseStanzaError {
    /// The message shown for this error.
    pub open spec fn message(self) -> Seq<char> {
        match self {
            ParseStanzaError::EmptyString => "Empty String is no valid stanza number."@,
            ParseStanzaError::TooManyChars => "More then one character is no valid stanza number."@,
            ParseStanzaError::NotANumber => "The Argument is not a number."@,
            ParseStanzaError::NotInRange => "The Argument is not either 1 or 2."@,
        }
    }

    /// The message shown for this error.
    pub fn to_string(&self) -> (r: String)
        ensures
            r@ == self.message(),
    {
        match self {
            ParseStanzaError::EmptyString => "Empty String is no valid stanza number.".to_owned(),
            ParseStanzaError::TooManyChars => "More then one character is no valid stanza number.".to_owned(),
            ParseStanzaError::NotANumber => "The Argument is not a number.".to_owned(),
            ParseStanzaError::NotInRange => "The Argument is not either 1 or 2.".to_owned(),
        }
    }
}

/// A stanza of the poem.
#[derive(Debug, PartialEq, Eq, Clone, Copy, Hash, Structural)]
pub enum Example {
    One,
    Two,
}

impl SuperAnchorDialect for Example {
    type ParseError = ParseStanzaError;

    /// A stanza is written as the one digit `1` or `2`. A literal of two
    /// bytes or more is too long, whatever it holds.
    open spec fn parsed(s: Seq<char>) -> Result<Self, ParseStanzaError> {
        if s.len() == 0 {
            Err(ParseStanzaError::EmptyString)
        } else if utf8_len(s) >= 2 {
            Err(ParseStanzaError::TooManyChars)
        } else if s[0] == '1' {
            Ok(Example::One)
        } else if s[0] == '2' {
            Ok(Example::Two)
        } else if '0' <= s[0] <= '9' {
            Err(ParseStanzaError::NotInRange)
        } else {
            Err(ParseStanzaError::NotANumber)
        }
    }

    open spec fn text(&self) -> Seq<char> {
        match self {
            Example::One => seq!['1'],
            Example::Two => seq!['2'],
        }
    }

    fn from_str(s: &str) -> (r: Result<Self, ParseStanzaError>) {
        let v = chars_of(s);
        if v.len() == 0 {
            return Err(ParseStanzaError::EmptyString);
        }
        proof {
            lemma_byte_offset_monotonic(v@, 0, v@.len() as int);
            assert(v@.take(0) =~= Seq::<char>::empty());
            assert(v@.take(v@.len() as int) =~= v@);
            if v@.len() == 1 {
                assert(v@.drop_last() =~= Seq::<char>::empty());
                assert(utf8_len(v@) == scalar_len(v@[0]));
            }
        }
        if v.len() >= 2 || char_len(v[0]) >= 2 {
            return Err(ParseStanzaError::TooManyChars);
        }
        let c = v[0];
        if c == '1' {
            Ok(Example::One)
        } else if c == '2' {
            Ok(Example::Two)
        } else if '0' <= c && c <= '9' {
            Err(ParseStanzaError::NotInRange)
        } else {
            Err(ParseStanzaError::NotANumber)
        }
    }

    fn to_string(&self) -> (r: String) {
        let mut s = String::new();
        match self {
            Example::One => s.push('1'),
            Example::Two => s.push('2'),
        }
        proof {
            assert(s@ =~= self.text());
        }
        s
    }

    proof fn lemma_parsed_text(&self) {
        lemma_utf8_len_single('1');
        lemma_utf8_len_single('2');
    }
}

} // verus!
