//! Lexing: the words of a transcript with their lexemes and their
//! morphology, as a human enters them.

use vstd::prelude::*;
use crate::atg::normalize::specialize::WordNormalForm;
use crate::atg::normalize::Word;
use crate::atg::text::text_of;
use crate::language::lex::{LexParseError, LexSchema};
use crate::language::morph::{MorphPointParseError, MorphPointSchema};
use crate::language::SuperLanguage;

verus! {

/// A word with its lexeme and its morphological tag.
pub struct LexWord<L: SuperLanguage> {
    pub word: WordNormalForm,
    pub lexeme_id: L::Lex,
    pub morph: L::Morph,
}

/// Why what a human entered for a word cannot be used.
#[derive(Debug, PartialEq, Eq)]
pub enum IntoLexWordError {
    /// The lexeme cannot be read.
    LexParsing(LexParseError),
    /// The morphological tag cannot be read.
    MorphParsing(MorphPointParseError),
}

impl IntoLexWordError {
    /// The message shown for this error.
    pub open spec fn message(&self) -> Seq<char> {
        match self {
            IntoLexWordError::LexParsing(x) => x.message(),
            IntoLexWordError::MorphParsing(x) => x.message(),
        }
    }

    /// The message shown for this error.
    pub fn to_string(&self) -> (r: String)
        ensures
            r@ == self.message(),
    {
        match self {
            IntoLexWordError::LexParsing(x) => x.to_string(),
            IntoLexWordError::MorphParsing(x) => x.to_string(),
        }
    }
}

/// What a human reads and enters for one word.
#[derive(Debug, PartialEq, Eq)]
pub struct LexWordDataHumanReadable {
    pub display_form: String,
    pub compare_form: Option<String>,
    pub lexeme_id: String,
    pub morph: String,
}

/// All that is known of one word before its lexeme and its morphological
/// tag are read.
#[derive(Debug, PartialEq, Eq)]
pub struct LexWordData {
    pub surface_form: Word,
    pub display_form: String,
    pub compare_form: Option<String>,
    pub lexeme_id: String,
    pub morph: String,
}

impl LexWordDataHumanReadable {
    /// Adds the word as it was transcribed, which is not shown to the human
    /// who enters lexemes.
    pub fn enrich_to_lex_word_data(self, surface_form: Word) -> (r: LexWordData)
        ensures
            r.surface_form == surface_form,
            r.display_form == self.display_form,
            r.compare_form == self.compare_form,
            r.lexeme_id == self.lexeme_id,
            r.morph == self.morph,
    {
        LexWordData {
            surface_form,
            display_form: self.display_form,
            compare_form: self.compare_form,
            lexeme_id: self.lexeme_id,
            morph: self.morph,
        }
    }
}

impl LexWordData {
    /// The data of one word.
    pub fn new(
        surface_form: Word,
        display_form: String,
        compare_form: Option<String>,
        lexeme_id: String,
        morph: String,
    ) -> (r: Self)
        ensures
            r.surface_form == surface_form,
            r.display_form == display_form,
            r.compare_form == compare_form,
            r.lexeme_id == lexeme_id,
            r.morph == morph,
    {
        Self { surface_form, display_form, compare_form, lexeme_id, morph }
    }

    /// The lines that show the word to a human: its display form, its
    /// compare form where it has one, its lexeme and its morphological tag.
    pub open spec fn lines(&self) -> Seq<char> {
        "display_form = \""@ + self.display_form@ + "\"\n"@ + match text_of(self.compare_form) {
            Some(c) => "compare_form = \""@ + c + "\"\n"@,
            None => Seq::empty(),
        } + "lexeme_id = \""@ + self.lexeme_id@ + "\"\n"@ + "morph = \""@ + self.morph@ + "\"\n"@
    }

    /// The word in the form that is shown to a human. The word as it was
    /// transcribed is left out.
    pub fn to_toml_str(&self) -> (r: String)
        ensures
            r@ == self.lines(),
    {
        let mut res = String::new();
        res.append("display_form = \"");
        res.append(self.display_form.as_str());
        res.append("\"\n");
        proof {
            assert(res@ =~= "display_form = \""@ + self.display_form@ + "\"\n"@);
        }
        let ghost head = res@;
        match &self.compare_form {
            Some(form) => {
                res.append("compare_form = \"");
                res.append(form.as_str());
                res.append("\"\n");
                proof {
                    assert(res@ =~= head + ("compare_form = \""@ + form@ + "\"\n"@));
                }
            },
            None => {
                proof {
                    assert(res@ =~= head + Seq::<char>::empty());
                }
            },
        }
        res.append("lexeme_id = \"");
        res.append(self.lexeme_id.as_str());
        res.append("\"\n");
        res.append("morph = \"");
        res.append(self.morph.as_str());
        res.append("\"\n");
        res
    }

    /// Reads the lexeme and the morphological tag that were entered, in the
    /// language `L`. The lexeme is read first.
    pub fn into_lex_word<L: SuperLanguage>(self) -> (r: Result<LexWord<L>, IntoLexWordError>)
        ensures
            match r {
                Ok(w) => {
                    &&& L::Lex::parsed(self.lexeme_id@) == Some(w.lexeme_id)
                    &&& L::Morph::parsed(self.morph@) == Some(w.morph)
                    &&& w.word.annotated_form == self.surface_form
                    &&& w.word.display_form == self.display_form
                    &&& w.word.compare_form == self.compare_form
                },
                Err(IntoLexWordError::LexParsing(_)) => L::Lex::parsed(self.lexeme_id@) is None,
                Err(IntoLexWordError::MorphParsing(_)) => {
                    &&& L::Lex::parsed(self.lexeme_id@) is Some
                    &&& L::Morph::parsed(self.morph@) is None
                },
            },
    {
        let lexeme_id = match L::Lex::from_str(self.lexeme_id.as_str()) {
            Ok(x) => x,
            Err(e) => {
                return Err(IntoLexWordError::LexParsing(e));
            },
        };
        let morph = match L::Morph::from_str(self.morph.as_str()) {
            Ok(x) => x,
            Err(e) => {
                return Err(IntoLexWordError::MorphParsing(e));
            },
        };
        let word = WordNormalForm::new(self.surface_form, self.display_form, self.compare_form);
        Ok(LexWord { word, lexeme_id, morph })
    }
}

} // verus!
