//! Blocks: a text together with its language and its ATG dialect, at each
//! stage of the normalisation.

use vstd::prelude::*;
use crate::atg::AtgDialect;
use crate::atg::dialect::{AtgDialectList, AtgDialectUnknown, ExampleAtgDialect};
use crate::atg::normalize::flatten::{flattened, number_of_hands, UniqueText};
use crate::atg::normalize::specialize::{lex_text, NonAgnosticAnchoredText, NormalForm};
use crate::atg::normalize::tokenize::{
    anchors_view, lemma_tokens, normalised, tokens,
};
use crate::atg::normalize::word_surface;
use crate::atg::text::{PartView, Text};
use crate::language::Language;
use crate::numerals::{decimal, push_decimal};

verus! {

/// Whether `r` is the text of the given parts, cut into words, each word in
/// the normal form that `language` gives it, and the anchors at their
/// places.
pub open spec fn normal_text<D: AtgDialect>(
    parts: Seq<PartView>,
    language: Language,
    r: NonAgnosticAnchoredText,
) -> bool {
    let t = tokens::<D>(parts);
    &&& r.text.len() == t.words.len()
    &&& forall|k: int|
        0 <= k < r.text.len() ==> (#[trigger] r.text[k])@ == (NormalForm {
            annotated: t.words[k],
            display: language.display_form(t.words[k], word_surface::<D>(t.words[k])),
            compare: language.compare_form(t.words[k], word_surface::<D>(t.words[k])),
        })
    &&& anchors_view(r.anchor_positions@) == t.anchors
}

impl AtgDialectList {
    /// Whether a text without corrections can be cut into words in this
    /// dialect.
    pub open spec fn splittable(self, text: UniqueText) -> bool {
        match self {
            AtgDialectList::Example => text.splittable::<ExampleAtgDialect>(),
        }
    }

    /// Whether the text of every hand can be cut into words in this
    /// dialect.
    pub open spec fn normalisable(self, text: Text) -> bool {
        match self {
            AtgDialectList::Example => text.normalisable::<ExampleAtgDialect>(),
        }
    }

    /// Whether `r` is the normalised text of the given parts in this
    /// dialect.
    pub open spec fn normal_text(
        self,
        parts: Seq<PartView>,
        language: Language,
        r: NonAgnosticAnchoredText,
    ) -> bool {
        match self {
            AtgDialectList::Example => normal_text::<ExampleAtgDialect>(parts, language, r),
        }
    }
}

/// A block of ATG: a text with its language and its ATG dialect.
#[derive(Debug, PartialEq, Eq)]
pub struct AtgBlock {
    /// The text of the block.
    pub text: Text,
    /// The language of the block.
    pub language: Language,
    /// The ATG dialect in which the block was written.
    pub atg_dialect: AtgDialectList,
}

/// A block of ATG without corrections: what one hand left of a block.
#[derive(Debug, PartialEq, Eq)]
pub struct UniqueAtgBlock {
    /// The text of the block, without corrections.
    pub text: UniqueText,
    /// The language of the block.
    pub language: Language,
    /// The ATG dialect in which the block was written.
    pub atg_dialect: AtgDialectList,
}

/// A block of one hand, cut into words in their normal forms.
#[derive(Debug, PartialEq, Eq)]
pub struct NormalisedAtgBlock {
    /// The words of the block, and its anchors.
    pub text: NonAgnosticAnchoredText,
    /// The language of the block.
    pub language: Language,
    /// The ATG dialect in which the block was written.
    pub atg_dialect: AtgDialectList,
}

impl UniqueAtgBlock {
    /// A block of the given text.
    pub fn new(text: UniqueText, language: Language, atg_dialect: AtgDialectList) -> (r: Self)
        ensures
            r.text == text,
            r.language == language,
            r.atg_dialect == atg_dialect,
    {
        Self { text, language, atg_dialect }
    }

    /// Whether the text of the block can be cut into words.
    pub fn is_normalisable(&self) -> (b: bool)
        ensures
            b == self.atg_dialect.splittable(self.text),
    {
        match self.atg_dialect {
            AtgDialectList::Example => self.text.is_splittable::<ExampleAtgDialect>(),
        }
    }

    /// Cuts the text of the block into words and gives each word the normal
    /// form that it has in `language`.
    pub fn normalise(self, language: Language) -> (r: NormalisedAtgBlock)
        requires
            self.atg_dialect.splittable(self.text),
        ensures
            self.atg_dialect.normal_text(self.text@, language, r.text),
            r.text.well_formed(),
            r.language == self.language,
            r.atg_dialect == self.atg_dialect,
    {
        match self.atg_dialect {
            AtgDialectList::Example => self.inner_normalise::<ExampleAtgDialect>(language),
        }
    }

    /// Replaces the text of the block by its normalised text.
    fn inner_normalise<D: AtgDialect>(self, language: Language) -> (r: NormalisedAtgBlock)
        requires
            self.text.splittable::<D>(),
        ensures
            normal_text::<D>(self.text@, language, r.text),
            r.text.well_formed(),
            r.language == self.language,
            r.atg_dialect == self.atg_dialect,
    {
        let ghost parts = self.text@;
        let agnostic = self.text.normalise::<D>();
        let text = language.normalise(agnostic);
        proof {
            lemma_tokens::<D>(parts);
            let t = tokens::<D>(parts);
            assert forall|i: int| 0 <= i < text.anchor_positions.len() implies (
            #[trigger] text.anchor_positions[i]).1 <= text.text.len() by {
                assert(anchors_view(text.anchor_positions@)[i].1 == text.anchor_positions[i].1);
                assert(t.anchors[i].1 <= t.words.len());
            }
        }
        NormalisedAtgBlock { text, language: self.language, atg_dialect: self.atg_dialect }
    }
}

impl NormalisedAtgBlock {
    /// The template of the block: its number, its language and its ATG
    /// dialect, an empty line, and the template of its text.
    pub open spec fn lex_block(&self, block: nat) -> Seq<char> {
        seq!['['] + decimal(block) + "]\n"@ + "language = \""@ + self.language.name() + "\"\n"@
            + "atg = \""@ + self.atg_dialect.name() + "\"\n\n"@ + lex_text(
            self.text.words(),
            self.text.anchor_positions@,
            block,
        )
    }

    /// The template in which a human annotates the words of the block.
    /// `as_block_nr` counts from one.
    pub fn render_for_lex_file(&self, as_block_nr: usize) -> (r: String)
        requires
            self.text.well_formed(),
        ensures
            r@ == self.lex_block(as_block_nr as nat),
    {
        let mut res = String::new();
        res.push('[');
        push_decimal(&mut res, as_block_nr);
        res.append("]\n");
        res.append("language = \"");
        let language = self.language.to_string();
        res.append(language.as_str());
        res.append("\"\n");
        res.append("atg = \"");
        let dialect = self.atg_dialect.to_string();
        res.append(dialect.as_str());
        res.append("\"\n\n");
        let text = self.text.render_for_lex_file(as_block_nr);
        res.append(text.as_str());
        proof {
            assert(res@ =~= self.lex_block(as_block_nr as nat));
        }
        res
    }
}

impl AtgBlock {
    /// A block of the given text.
    pub fn new(text: Text, language: Language, atg_dialect: AtgDialectList) -> (r: Self)
        ensures
            r.text == text,
            r.language == language,
            r.atg_dialect == atg_dialect,
    {
        Self { text, language, atg_dialect }
    }

    /// A block of the given text, in the ATG dialect known under the given
    /// name.
    pub fn from_dialect_name(text: Text, language: Language, atg_dialect: String) -> (r: Result<
        Self,
        AtgDialectUnknown,
    >)
        ensures
            match r {
                Ok(block) => {
                    &&& AtgDialectList::by_name(atg_dialect@) == Some(block.atg_dialect)
                    &&& block.text == text
                    &&& block.language == language
                },
                Err(e) => AtgDialectList::by_name(atg_dialect@) is None && e.name@ == atg_dialect@,
            },
    {
        let dialect = AtgDialectList::from_str(atg_dialect.as_str())?;
        Ok(Self { text, language, atg_dialect: dialect })
    }

    /// The number of hands of the block.
    pub open spec fn hands(&self) -> nat {
        number_of_hands(self.text@)
    }

    /// Whether the block can be normalised.
    pub fn is_normalisable(&self) -> (b: bool)
        ensures
            b == self.atg_dialect.normalisable(self.text),
    {
        match self.atg_dialect {
            AtgDialectList::Example => self.text.is_normalisable::<ExampleAtgDialect>(),
        }
    }

    /// Splits the block into one block for each correcting hand.
    pub fn into_unique_blocks(self) -> (r: Vec<UniqueAtgBlock>)
        ensures
            r.len() == self.hands(),
            forall|hand: int|
                0 <= hand < r.len() ==> {
                    &&& (#[trigger] r[hand]).text@ == flattened(self.text@, hand)
                    &&& r[hand].language == self.language
                    &&& r[hand].atg_dialect == self.atg_dialect
                },
    {
        let hands = self.text.number_of_hands();
        let mut res: Vec<UniqueAtgBlock> = Vec::new();
        let mut hand: usize = 0;
        while hand < hands
            invariant
                hand <= hands,
                hands == number_of_hands(self.text@),
                res.len() == hand,
                forall|h: int|
                    0 <= h < hand ==> {
                        &&& (#[trigger] res[h]).text@ == flattened(self.text@, h)
                        &&& res[h].language == self.language
                        &&& res[h].atg_dialect == self.atg_dialect
                    },
            decreases hands - hand,
        {
            res.push(UniqueAtgBlock::new(self.text.unique_text(hand), self.language, self.atg_dialect));
            hand += 1;
        }
        res
    }

    /// Normalises the block: one block for each correcting hand, cut into
    /// words in the normal forms of the language of the block.
    pub fn into_normalised_blocks(self) -> (r: Vec<NormalisedAtgBlock>)
        requires
            self.atg_dialect.normalisable(self.text),
        ensures
            r.len() == self.hands(),
            forall|hand: int|
                0 <= hand < r.len() ==> {
                    &&& self.atg_dialect.normal_text(
                        flattened(self.text@, hand),
                        self.language,
                        (#[trigger] r[hand]).text,
                    )
                    &&& r[hand].text.well_formed()
                    &&& r[hand].language == self.language
                    &&& r[hand].atg_dialect == self.atg_dialect
                },
    {
        let hands = self.text.number_of_hands();
        let mut res: Vec<NormalisedAtgBlock> = Vec::new();
        let mut hand: usize = 0;
        while hand < hands
            invariant
                hand <= hands,
                hands == number_of_hands(self.text@),
                self.atg_dialect.normalisable(self.text),
                res.len() == hand,
                forall|h: int|
                    0 <= h < hand ==> {
                        &&& self.atg_dialect.normal_text(
                            flattened(self.text@, h),
                            self.language,
                            (#[trigger] res[h]).text,
                        )
                        &&& res[h].text.well_formed()
                        &&& res[h].language == self.language
                        &&& res[h].atg_dialect == self.atg_dialect
                    },
            decreases hands - hand,
        {
            let unique = UniqueAtgBlock::new(
                self.text.unique_text(hand),
                self.language,
                self.atg_dialect,
            );
            proof {
                assert forall|j: int| 0 <= j < unique.text@.len() implies crate::atg::normalize::tokenize::splittable::<
                    ExampleAtgDialect,
                >(#[trigger] unique.text@[j]) by {
                    assert(crate::atg::normalize::tokenize::splittable::<ExampleAtgDialect>(
                        flattened(self.text@, hand as int)[j],
                    ));
                }
            }
            res.push(unique.normalise(self.language));
            hand += 1;
        }
        res
    }
}

} // verus!
