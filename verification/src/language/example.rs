//! The language used in examples.

use vstd::prelude::*;
use crate::atg::normalize::specialize::{NonAgnosticAnchoredText, NormalForm, WordNormalForm};
use crate::atg::normalize::tokenize::AnchoredNormalisedText;
use crate::atg::text::PartView;
use crate::language::SuperLanguage;
use crate::language::lex::{LexParseError, LexSchema};
use crate::language::morph::{
    MorphPointParseError, MorphPointSchema, MorphRangeParseError, MorphRangeSchema,
};
use crate::numerals::{
    decimal, decimal_string, lemma_parsed_number_of_decimal, parse_u16, parsed_u16,
};
use crate::scalars::{chars_of, same_text};

verus! {

/// A lexeme of the example language, by its number.
#[derive(Debug, PartialEq, Eq, Clone, Copy, Structural)]
pub struct ExampleLex {
    pub id: u16,
}

impl LexSchema for ExampleLex {
    const NAME: &'static str = "lex_example";

    open spec fn parsed(s: Seq<char>) -> Option<Self> {
        match parsed_u16(s) {
            Some(id) => Some(ExampleLex { id }),
            None => None,
        }
    }

    open spec fn text(&self) -> Seq<char> {
        decimal(self.id as nat)
    }

    fn from_str(s: &str) -> (r: Result<Self, LexParseError>) {
        let digits = chars_of(s);
        match parse_u16(&digits) {
            Some(id) => Ok(ExampleLex { id }),
            None => Err(LexParseError::new(0, "Not a Number.".to_owned())),
        }
    }

    fn to_string(&self) -> (r: String) {
        decimal_string(self.id as usize)
    }

    proof fn lemma_parsed_text(&self) {
        lemma_parsed_number_of_decimal(self.id as nat, u16::MAX as nat);
    }
}

/// A morphological tag of the example language.
#[derive(Debug, PartialEq, Eq, Clone, Copy, Structural)]
pub enum ExampleMorph {
    Verb,
    Noun,
}

impl MorphPointSchema for ExampleMorph {
    const NAME: &'static str = "morph_example";

    open spec fn parsed(s: Seq<char>) -> Option<Self> {
        if s == "V"@ {
            Some(ExampleMorph::Verb)
        } else if s == "N"@ {
            Some(ExampleMorph::Noun)
        } else {
            None
        }
    }

    open spec fn text(&self) -> Seq<char> {
        match self {
            ExampleMorph::Verb => "V"@,
            ExampleMorph::Noun => "N"@,
        }
    }

    fn from_str(s: &str) -> (r: Result<Self, MorphPointParseError>) {
        let text = chars_of(s);
        if same_text(&text, "V") {
            Ok(ExampleMorph::Verb)
        } else if same_text(&text, "N") {
            Ok(ExampleMorph::Noun)
        } else {
            Err(MorphPointParseError::new(0, "Not either V or N".to_owned()))
        }
    }

    fn to_string(&self) -> (r: String) {
        match self {
            ExampleMorph::Verb => "V".to_owned(),
            ExampleMorph::Noun => "N".to_owned(),
        }
    }

    proof fn lemma_parsed_text(&self) {
        reveal_strlit("V");
        reveal_strlit("N");
        assert("V"@[0] != "N"@[0]);
    }
}

/// A set of morphological tags of the example language.
#[derive(Debug, PartialEq, Eq, Clone, Copy, Structural)]
pub enum ExampleMorphRange {
    Neither,
    Verb,
    Noun,
    Both,
}

impl MorphRangeSchema for ExampleMorphRange {
    type Point = ExampleMorph;

    open spec fn parsed(s: Seq<char>) -> Option<Self> {
        if s == ""@ {
            Some(ExampleMorphRange::Neither)
        } else if s == "V"@ {
            Some(ExampleMorphRange::Verb)
        } else if s == "N"@ {
            Some(ExampleMorphRange::Noun)
        } else if s == "B"@ {
            Some(ExampleMorphRange::Both)
        } else {
            None
        }
    }

    open spec fn text(&self) -> Seq<char> {
        match self {
            ExampleMorphRange::Neither => ""@,
            ExampleMorphRange::Verb => "V"@,
            ExampleMorphRange::Noun => "N"@,
            ExampleMorphRange::Both => "B"@,
        }
    }

    open spec fn holds(&self, p: ExampleMorph) -> bool {
        match self {
            ExampleMorphRange::Neither => false,
            ExampleMorphRange::Both => true,
            ExampleMorphRange::Verb => p == ExampleMorph::Verb,
            ExampleMorphRange::Noun => p == ExampleMorph::Noun,
        }
    }

    fn from_str(s: &str) -> (r: Result<Self, MorphRangeParseError>) {
        let text = chars_of(s);
        if same_text(&text, "") {
            Ok(ExampleMorphRange::Neither)
        } else if same_text(&text, "V") {
            Ok(ExampleMorphRange::Verb)
        } else if same_text(&text, "N") {
            Ok(ExampleMorphRange::Noun)
        } else if same_text(&text, "B") {
            Ok(ExampleMorphRange::Both)
        } else {
            Err(MorphRangeParseError::new(0, "Not either V or N".to_owned()))
        }
    }

    fn to_string(&self) -> (r: String) {
        match self {
            ExampleMorphRange::Neither => "".to_owned(),
            ExampleMorphRange::Verb => "V".to_owned(),
            ExampleMorphRange::Noun => "N".to_owned(),
            ExampleMorphRange::Both => "B".to_owned(),
        }
    }

    proof fn lemma_parsed_text(&self) {
        reveal_strlit("");
        reveal_strlit("V");
        reveal_strlit("N");
        reveal_strlit("B");
        assert(""@.len() == 0);
        assert("V"@.len() == 1 && "N"@.len() == 1 && "B"@.len() == 1);
        assert("V"@[0] != "N"@[0]);
        assert("V"@[0] != "B"@[0]);
        assert("N"@[0] != "B"@[0]);
    }

    fn contains(&self, p: &ExampleMorph) -> (b: bool) {
        match self {
            ExampleMorphRange::Neither => false,
            ExampleMorphRange::Both => true,
            ExampleMorphRange::Verb => *p == ExampleMorph::Verb,
            ExampleMorphRange::Noun => *p == ExampleMorph::Noun,
        }
    }
}

/// The example language. A word is shown in its surface form and compared
/// by it.
pub struct Example {}

impl SuperLanguage for Example {
    type Lex = ExampleLex;

    type Morph = ExampleMorph;

    open spec fn display_form(word: Seq<PartView>, surface: Seq<char>) -> Seq<char> {
        surface
    }

    open spec fn compare_form(word: Seq<PartView>, surface: Seq<char>) -> Option<Seq<char>> {
        None
    }

    fn normalise(input: AnchoredNormalisedText) -> (r: NonAgnosticAnchoredText) {
        let mut text: Vec<WordNormalForm> = Vec::new();
        let mut i: usize = 0;
        while i < input.text.len()
            invariant
                i <= input.text.len(),
                text.len() == i,
                forall|k: int|
                    0 <= k < i ==> (#[trigger] text[k])@ == (NormalForm {
                        annotated: input.text[k].0@,
                        display: input.text[k].1@,
                        compare: None,
                    }),
            decreases input.text.len() - i,
        {
            let word = input.text[i].0.clone();
            let surface = input.text[i].1.clone();
            text.push(WordNormalForm::new(word, surface, None));
            i += 1;
        }
        NonAgnosticAnchoredText::new(text, input.anchor_positions)
    }
}

} // verus!
