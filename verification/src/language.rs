//! Natural languages: what a language adds to the normalisation of a text,
//! and the schemas of its lexemes and of its morphology.

use vstd::prelude::*;
use crate::atg::normalize::specialize::{NonAgnosticAnchoredText, NormalForm};
use crate::atg::normalize::tokenize::AnchoredNormalisedText;
use crate::atg::text::PartView;
use crate::language::example::Example;
use crate::scalars::{chars_of, same_text};

pub mod lex;
pub mod morph;
pub mod example;

pub use crate::language::lex::LexSchema;
pub use crate::language::morph::{MorphPointSchema, MorphRangeSchema};

verus! {

/// What a natural language has to offer: its schemas, and the normal forms
/// of its words.
pub trait SuperLanguage {
    /// The morphological tags of the language.
    type Morph: MorphPointSchema;

    /// The lexemes of the language.
    type Lex: LexSchema;

    /// The form in which a word with the given surface form is shown.
    spec fn display_form(word: Seq<PartView>, surface: Seq<char>) -> Seq<char>;

    /// The form by which such a word is compared, where that is not the
    /// display form.
    spec fn compare_form(word: Seq<PartView>, surface: Seq<char>) -> Option<Seq<char>>;

    /// Gives every word its normal form. The anchors stay as they are.
    fn normalise(input: AnchoredNormalisedText) -> (r: NonAgnosticAnchoredText)
        ensures
            r.anchor_positions == input.anchor_positions,
            r.text.len() == input.text.len(),
            forall|i: int|
                0 <= i < r.text.len() ==> (#[trigger] r.text[i])@ == (NormalForm {
                    annotated: input.text[i].0@,
                    display: Self::display_form(input.text[i].0@, input.text[i].1@),
                    compare: Self::compare_form(input.text[i].0@, input.text[i].1@),
                }),
    ;
}

/// The known natural languages.
#[derive(Debug, Clone, Copy, PartialEq, Eq, Hash, Structural)]
pub enum Language {
    /// The example language.
    Example,
}

impl Language {
    /// The language known under a name.
    pub open spec fn by_name(name: Seq<char>) -> Option<Language> {
        if name == "example"@ {
            Some(Language::Example)
        } else {
            None
        }
    }

    /// The name under which the language is known.
    pub open spec fn name(self) -> Seq<char> {
        match self {
            Language::Example => "example"@,
        }
    }

    /// The form in which this language shows a word.
    pub open spec fn display_form(self, word: Seq<PartView>, surface: Seq<char>) -> Seq<char> {
        match self {
            Language::Example => Example::display_form(word, surface),
        }
    }

    /// The form by which this language compares a word.
    pub open spec fn compare_form(self, word: Seq<PartView>, surface: Seq<char>) -> Option<
        Seq<char>,
    > {
        match self {
            Language::Example => Example::compare_form(word, surface),
        }
    }

    /// Looks a language up by its name.
    pub fn from_name(s: &str) -> (r: Option<Self>)
        ensures
            r == Self::by_name(s@),
    {
        let name = chars_of(s);
        if same_text(&name, "example") {
            Some(Language::Example)
        } else {
            None
        }
    }

    /// The name under which the language is known.
    pub fn to_string(&self) -> (r: String)
        ensures
            r@ == self.name(),
    {
        match self {
            Language::Example => "example".to_owned(),
        }
    }

    /// Gives every word the normal form that it has in this language. The
    /// anchors stay as they are.
    pub fn normalise(&self, text: AnchoredNormalisedText) -> (r: NonAgnosticAnchoredText)
        ensures
            r.anchor_positions == text.anchor_positions,
            r.text.len() == text.text.len(),
            forall|i: int|
                0 <= i < r.text.len() ==> (#[trigger] r.text[i])@ == (NormalForm {
                    annotated: text.text[i].0@,
                    display: self.display_form(text.text[i].0@, text.text[i].1@),
                    compare: self.compare_form(text.text[i].0@, text.text[i].1@),
                }),
    {
        match self {
            Language::Example => Example::normalise(text),
        }
    }
}

/// A language is found under its own name.
pub proof fn lemma_language_by_name(l: Language)
    ensures
        Language::by_name(l.name()) == Some(l),
{
}

} // verus!
