//! The transcripts of folios: the blocks of a folio with their dialects,
//! and the folio in its normalised form.
//!
//! A transcript file is a TOML document with a table `metadata` and one
//! table for each block, numbered from one. Reading the document is left
//! to the caller; this module takes its tables in the order of the
//! document and decides what they mean.

use vstd::prelude::*;
use crate::anchor::AnchorDialect;
use crate::atg::block::{AtgBlock, NormalisedAtgBlock, UniqueAtgBlock};
use crate::atg::dialect::{parse_by_dialect, AtgDialectList};
use crate::atg::normalize::flatten::flattened;
use crate::atg::text::PartView;
use crate::define::WitnessMetadata;
use crate::language::Language;
use crate::numerals::{parse_u8, parsed_u8};
use crate::scalars::chars_of;
use crate::transcribe::io::{
    FolioFault, FolioTranscriptParseError, FolioTranscriptParseErrorReason,
};

pub mod io;

verus! {

/// What is known of the transcript of one folio.
#[derive(Debug, PartialEq, Eq)]
pub struct FolioTranscriptMetadata {
    /// The name of the principal transcriber of the folio.
    pub transcriber: String,
    /// The names of those who edited or corrected the transcript.
    pub editors: Vec<String>,
}

/// The names of a list, as sequences of scalars.
pub open spec fn names_view(v: Seq<String>) -> Seq<Seq<char>> {
    Seq::new(v.len(), |i: int| v[i]@)
}

/// The model of a [`FolioTranscriptMetadata`].
pub struct FolioMetadata {
    pub transcriber: Seq<char>,
    pub editors: Seq<Seq<char>>,
}

impl View for FolioTranscriptMetadata {
    type V = FolioMetadata;

    open spec fn view(&self) -> FolioMetadata {
        FolioMetadata { transcriber: self.transcriber@, editors: names_view(self.editors@) }
    }
}

impl Clone for FolioTranscriptMetadata {
    fn clone(&self) -> (r: Self)
        ensures
            r@ == self@,
    {
        let mut editors: Vec<String> = Vec::new();
        let mut i: usize = 0;
        while i < self.editors.len()
            invariant
                i <= self.editors.len(),
                editors.len() == i,
                forall|j: int| 0 <= j < i ==> editors@[j]@ == self.editors@[j]@,
            decreases self.editors.len() - i,
        {
            editors.push(self.editors[i].clone());
            i += 1;
        }
        let r = FolioTranscriptMetadata { transcriber: self.transcriber.clone(), editors };
        proof {
            assert(r@.editors =~= self@.editors);
        }
        r
    }
}

impl FolioTranscriptMetadata {
    /// The metadata of a transcript.
    pub fn new(transcriber: String, editors: Vec<String>) -> (r: Self)
        ensures
            r.transcriber == transcriber,
            r.editors == editors,
    {
        Self { transcriber, editors }
    }
}

/// One block of a transcript file, as it stands in the file.
#[derive(Debug, PartialEq, Eq)]
pub struct TranscriptBlock {
    /// The name of the ATG dialect of the block, if it is not that of the
    /// witness.
    pub atg: Option<String>,
    /// The name of the anchor dialect of the block, if it is not that of
    /// the witness.
    pub anchor: Option<String>,
    /// The name of the language of the block, if it is not that of the
    /// witness.
    pub language: Option<String>,
    /// The text that was transcribed, in ATG.
    pub transcript: String,
}

/// The dialects that were chosen for a block.
pub struct Choice {
    /// The name of the ATG dialect.
    pub atg: Seq<char>,
    /// The language.
    pub language: Language,
    /// The anchor dialect.
    pub anchor: AnchorDialect,
}

/// The first of the two names that is there.
pub open spec fn first_name(own: Option<String>, default: Option<String>) -> Option<Seq<char>> {
    match own {
        Some(x) => Some(x@),
        None => match default {
            Some(x) => Some(x@),
            None => None,
        },
    }
}

impl TranscriptBlock {
    /// The dialects of the block. What the block does not name is taken
    /// from the witness; the language, where neither names one, goes by
    /// the name of the ATG dialect. A missing ATG dialect is found first,
    /// then an unknown language, then a missing anchor dialect, then an
    /// unknown one.
    pub open spec fn selected(&self, meta: &WitnessMetadata) -> Result<Choice, FolioFault> {
        match first_name(self.atg, meta.default_atg) {
            None => Err(FolioFault::NoAtg),
            Some(atg) => {
                let language = match first_name(self.language, meta.default_language) {
                    Some(x) => x,
                    None => atg,
                };
                match Language::by_name(language) {
                    None => Err(FolioFault::LanguageUnknown(language)),
                    Some(l) => match first_name(self.anchor, meta.default_anchor) {
                        None => Err(FolioFault::NoAnchor),
                        Some(anchor) => match AnchorDialect::by_name(anchor) {
                            None => Err(FolioFault::AnchorDialectUnknown(anchor)),
                            Some(a) => Ok(Choice { atg, language: l, anchor: a }),
                        },
                    },
                }
            },
        }
    }

    /// Chooses the dialects of the block.
    pub fn select_dialects(&self, meta: &WitnessMetadata) -> (r: Result<
        (String, Language, AnchorDialect),
        FolioTranscriptParseError,
    >)
        ensures
            match (self.selected(meta), r) {
                (Ok(c), Ok((atg, language, anchor))) => {
                    &&& atg@ == c.atg
                    &&& language == c.language
                    &&& anchor == c.anchor
                },
                (Err(f), Err(e)) => e.reason@ == f && e.location is None,
                _ => false,
            },
    {
        let atg = match &self.atg {
            None => match meta.default_atg() {
                Some(x) => x,
                None => {
                    return Err(
                        FolioTranscriptParseError::new(FolioTranscriptParseErrorReason::NoAtg, None),
                    );
                },
            },
            Some(x) => x,
        };
        let language = match &self.language {
            None => match meta.default_language() {
                Some(x) => x,
                None => atg,
            },
            Some(x) => x,
        };
        let language = match Language::from_name(language.as_str()) {
            Some(l) => l,
            None => {
                return Err(
                    FolioTranscriptParseError::new(
                        FolioTranscriptParseErrorReason::LanguageUnknown(language.clone()),
                        None,
                    ),
                );
            },
        };
        let anchor = match &self.anchor {
            None => match meta.default_anchor() {
                Some(x) => x,
                None => {
                    return Err(
                        FolioTranscriptParseError::new(
                            FolioTranscriptParseErrorReason::NoAnchor,
                            None,
                        ),
                    );
                },
            },
            Some(x) => x,
        };
        let anchor_dialect = match AnchorDialect::get_by_name(anchor.as_str()) {
            Some(a) => a,
            None => {
                return Err(
                    FolioTranscriptParseError::new(
                        FolioTranscriptParseErrorReason::AnchorDialectUnknown(anchor.clone()),
                        None,
                    ),
                );
            },
        };
        Ok((atg.clone(), language, anchor_dialect))
    }
}

/// One table of a transcript file, as far as it could be read.
#[derive(Debug, PartialEq, Eq)]
pub enum FolioEntry {
    /// The table `metadata`.
    Metadata(Result<FolioTranscriptMetadata, toml::de::Error>),
    /// Any other table, with its name.
    Block(String, Result<TranscriptBlock, toml::de::Error>),
}

/// The model of an [`AtgBlock`].
pub struct BlockModel {
    pub text: Seq<PartView>,
    pub language: Language,
    pub atg_dialect: AtgDialectList,
}

impl View for AtgBlock {
    type V = BlockModel;

    open spec fn view(&self) -> BlockModel {
        BlockModel { text: self.text@, language: self.language, atg_dialect: self.atg_dialect }
    }
}

/// The models of a sequence of blocks.
pub open spec fn blocks_view(v: Seq<AtgBlock>) -> Seq<BlockModel> {
    Seq::new(v.len(), |i: int| v[i]@)
}

/// The transcript of one folio.
#[derive(Debug, PartialEq, Eq)]
pub struct FolioTranscript {
    /// What is known of the transcript.
    pub metadata: FolioTranscriptMetadata,
    /// The blocks of the folio. A folio has more than one where its
    /// language, its script or its anchors change.
    pub blocks: Vec<AtgBlock>,
}

/// What was gathered of a transcript file.
pub struct Gathered {
    pub metadata: Option<FolioMetadata>,
    pub blocks: Seq<BlockModel>,
}

/// The block that stands in the table `name`, when `count` blocks stand
/// before it. The name has to be the number `count + 1`, below 256; the
/// table has to be readable; its dialects have to be known; its transcript
/// has to be ATG with one version of each correction for each hand of the
/// witness. What is wrong is found in this order.
pub open spec fn block_of(
    name: Seq<char>,
    table: Result<TranscriptBlock, toml::de::Error>,
    count: nat,
    witness: &WitnessMetadata,
) -> Result<BlockModel, FolioFault> {
    match parsed_u8(name) {
        None => Err(FolioFault::BlockNameNotDecimal(name)),
        Some(number) => if number != count + 1 {
            Err(FolioFault::BlockNameNotInAscendingOrder(number))
        } else {
            match table {
                Err(e) => Err(FolioFault::Toml(e)),
                Ok(block) => match block.selected(witness) {
                    Err(f) => Err(f),
                    Ok(choice) => match AtgDialectList::by_name(choice.atg) {
                        None => Err(FolioFault::AtgDialectUnknown(choice.atg)),
                        Some(dialect) => match dialect.parsed(
                            block.transcript@,
                            choice.anchor,
                            witness.corrections.len() as nat,
                        ) {
                            Err(f) => Err(
                                FolioFault::TranscriptUnparsable(
                                    name,
                                    f.in_bytes(block.transcript@),
                                ),
                            ),
                            Ok(text) => Ok(
                                BlockModel { text, language: choice.language, atg_dialect: dialect },
                            ),
                        },
                    },
                },
            }
        },
    }
}

/// What the tables of a transcript file hold, taken in order. The first
/// table with which something is wrong ends the reading.
pub open spec fn gathered(entries: Seq<FolioEntry>, witness: &WitnessMetadata) -> Result<
    Gathered,
    FolioFault,
>
    decreases entries.len(),
{
    if entries.len() == 0 {
        Ok(Gathered { metadata: None, blocks: Seq::empty() })
    } else {
        match gathered(entries.drop_last(), witness) {
            Err(f) => Err(f),
            Ok(g) => match entries.last() {
                FolioEntry::Metadata(Ok(m)) => Ok(
                    Gathered { metadata: Some(m@), blocks: g.blocks },
                ),
                FolioEntry::Metadata(Err(e)) => Err(FolioFault::Toml(e)),
                FolioEntry::Block(name, table) => match block_of(
                    name@,
                    table,
                    g.blocks.len(),
                    witness,
                ) {
                    Err(f) => Err(f),
                    Ok(b) => Ok(Gathered { metadata: g.metadata, blocks: g.blocks.push(b) }),
                },
            },
        }
    }
}

/// The transcript that the tables of a file make up: their blocks, and the
/// metadata, which has to be there.
pub open spec fn transcript_of(entries: Seq<FolioEntry>, witness: &WitnessMetadata) -> Result<
    Gathered,
    FolioFault,
> {
    match gathered(entries, witness) {
        Err(f) => Err(f),
        Ok(g) => if g.metadata is None {
            Err(FolioFault::NoMetadata)
        } else {
            Ok(g)
        },
    }
}

impl FolioTranscript {
    /// A transcript of the given blocks.
    pub fn new(metadata: FolioTranscriptMetadata, blocks: Vec<AtgBlock>) -> (r: Self)
        ensures
            r.metadata == metadata,
            r.blocks == blocks,
    {
        Self { metadata, blocks }
    }

    /// Reads the block that stands in the table `name`, when `count` blocks
    /// stand before it.
    pub fn read_block(
        name: String,
        table: Result<TranscriptBlock, toml::de::Error>,
        count: usize,
        witness_metadata: &WitnessMetadata,
    ) -> (r: Result<AtgBlock, FolioTranscriptParseError>)
        ensures
            match (block_of(name@, table, count as nat, witness_metadata), r) {
                (Ok(b), Ok(block)) => block@ == b,
                (Err(f), Err(e)) => e.reason@ == f && (!(f is Toml) ==> e.location is None),
                _ => false,
            },
    {
        let digits = chars_of(name.as_str());
        let number = match parse_u8(&digits) {
            Some(number) => number,
            None => {
                return Err(
                    FolioTranscriptParseError::new(
                        FolioTranscriptParseErrorReason::BlockNameNotDecimal(name),
                        None,
                    ),
                );
            },
        };
        if count >= 255 || number as usize != count + 1 {
            return Err(
                FolioTranscriptParseError::new(
                    FolioTranscriptParseErrorReason::BlockNameNotInAscendingOrder(number),
                    None,
                ),
            );
        }
        let block = match table {
            Ok(block) => block,
            Err(e) => {
                return Err(FolioTranscriptParseError::from_toml(e));
            },
        };
        let (atg, language, anchor_dialect) = block.select_dialects(witness_metadata)?;
        let atg_dialect = match AtgDialectList::from_str(atg.as_str()) {
            Ok(d) => d,
            Err(unknown) => {
                return Err(
                    FolioTranscriptParseError::new(
                        FolioTranscriptParseErrorReason::AtgDialectUnknown(unknown.name),
                        None,
                    ),
                );
            },
        };
        let number_of_corrections = witness_metadata.number_of_corrections();
        match parse_by_dialect(
            block.transcript.as_str(),
            &atg_dialect,
            anchor_dialect,
            number_of_corrections,
        ) {
            Err(parse_error) => Err(
                FolioTranscriptParseError::new(
                    FolioTranscriptParseErrorReason::TranscriptUnparsable(name, parse_error),
                    None,
                ),
            ),
            Ok(text) => Ok(AtgBlock::new(text, language, atg_dialect)),
        }
    }

    /// Makes a transcript of the tables of a transcript file, given in the
    /// order of the file, for a witness with the given metadata.
    pub fn from_folio_file_content(entries: Vec<FolioEntry>, witness_metadata: &WitnessMetadata) -> (r:
        Result<Self, FolioTranscriptParseError>)
        ensures
            match (transcript_of(entries@, witness_metadata), r) {
                (Ok(g), Ok(t)) => Some(t.metadata@) == g.metadata && blocks_view(t.blocks@)
                    == g.blocks,
                (Err(f), Err(e)) => e.reason@ == f && (!(f is Toml) ==> e.location is None),
                _ => false,
            },
    {
        let ghost all = entries@;
        let mut remaining = entries;
        let mut metadata: Option<FolioTranscriptMetadata> = None;
        let mut blocks: Vec<AtgBlock> = Vec::new();
        let ghost mut done: int = 0;
        proof {
            assert(all.take(0) =~= Seq::<FolioEntry>::empty());
            assert(blocks_view(blocks@) =~= Seq::<BlockModel>::empty());
            assert(all.skip(0) =~= all);
        }
        while remaining.len() > 0
            invariant
                0 <= done <= all.len(),
                all == entries@,
                remaining@ == all.skip(done),
                match gathered(all.take(done), witness_metadata) {
                    Ok(g) => {
                        &&& g.blocks == blocks_view(blocks@)
                        &&& match metadata {
                            Some(m) => g.metadata == Some(m@),
                            None => g.metadata is None,
                        }
                    },
                    Err(_) => false,
                },
            decreases remaining.len(),
        {
            let entry = remaining.remove(0);
            proof {
                assert(entry == all[done]);
                assert(remaining@ =~= all.skip(done + 1));
                assert(all.take(done + 1).drop_last() =~= all.take(done));
                assert(all.take(done + 1).last() == entry);
            }
            let ghost g = gathered(all.take(done), witness_metadata)->Ok_0;
            match entry {
                FolioEntry::Metadata(Ok(m)) => {
                    metadata = Some(m);
                },
                FolioEntry::Metadata(Err(e)) => {
                    proof {
                        assert(gathered(all.take(done + 1), witness_metadata) == Err::<
                            Gathered,
                            FolioFault,
                        >(FolioFault::Toml(e)));
                        lemma_gathered_fails(all, done + 1, witness_metadata);
                    }
                    return Err(FolioTranscriptParseError::from_toml(e));
                },
                FolioEntry::Block(name, table) => {
                    let ghost outcome = block_of(name@, table, g.blocks.len(), witness_metadata);
                    match Self::read_block(name, table, blocks.len(), witness_metadata) {
                        Ok(block) => {
                            let ghost old_blocks = blocks_view(blocks@);
                            blocks.push(block);
                            proof {
                                assert(blocks_view(blocks@) =~= old_blocks.push(block@));
                            }
                        },
                        Err(e) => {
                            proof {
                                assert(gathered(all.take(done + 1), witness_metadata) == Err::<
                                    Gathered,
                                    FolioFault,
                                >(outcome->Err_0));
                                lemma_gathered_fails(all, done + 1, witness_metadata);
                            }
                            return Err(e);
                        },
                    }
                },
            }
            proof {
                done = done + 1;
            }
        }
        proof {
            assert(all.take(done) =~= all);
        }
        match metadata {
            Some(m) => Ok(FolioTranscript::new(m, blocks)),
            None => Err(
                FolioTranscriptParseError::new(FolioTranscriptParseErrorReason::NoMetadata, None),
            ),
        }
    }
}

/// What is wrong with the first tables of a file is wrong with the file.
pub proof fn lemma_gathered_fails(entries: Seq<FolioEntry>, k: int, witness: &WitnessMetadata)
    requires
        0 <= k <= entries.len(),
        gathered(entries.take(k), witness) is Err,
    ensures
        gathered(entries, witness) == gathered(entries.take(k), witness),
    decreases entries.len() - k,
{
    if k < entries.len() {
        assert(entries.take(k + 1).drop_last() =~= entries.take(k));
        lemma_gathered_fails(entries, k + 1, witness);
    } else {
        assert(entries.take(k) =~= entries);
    }
}

/// The transcript of one folio as one hand left it, cut into words in
/// their normal forms.
#[derive(Debug, PartialEq, Eq)]
pub struct NormalisedFolioTranscript {
    /// What is known of the transcript.
    pub metadata: FolioTranscriptMetadata,
    /// The blocks of the folio.
    pub blocks: Vec<NormalisedAtgBlock>,
}

/// The templates of the first `k` blocks, numbered from one.
pub open spec fn lex_blocks(blocks: Seq<NormalisedAtgBlock>, k: int) -> Seq<char>
    decreases k,
{
    if k <= 0 || k > blocks.len() {
        Seq::empty()
    } else {
        lex_blocks(blocks, k - 1) + blocks[k - 1].lex_block(k as nat)
    }
}

impl NormalisedFolioTranscript {
    /// A normalised transcript of the given blocks.
    pub fn new(metadata: FolioTranscriptMetadata, blocks: Vec<NormalisedAtgBlock>) -> (r: Self)
        ensures
            r.metadata == metadata,
            r.blocks == blocks,
    {
        Self { metadata, blocks }
    }

    /// In every block, every anchor stands at a place among the words.
    pub open spec fn well_formed(&self) -> bool {
        forall|i: int| 0 <= i < self.blocks.len() ==> (#[trigger] self.blocks[i]).text.well_formed()
    }

    /// Whether, in every block, every anchor stands at a place among the
    /// words.
    pub fn is_well_formed(&self) -> (b: bool)
        ensures
            b == self.well_formed(),
    {
        let mut i: usize = 0;
        while i < self.blocks.len()
            invariant
                i <= self.blocks.len(),
                forall|k: int| 0 <= k < i ==> (#[trigger] self.blocks[k]).text.well_formed(),
            decreases self.blocks.len() - i,
        {
            if !self.blocks[i].text.is_well_formed() {
                return false;
            }
            i += 1;
        }
        true
    }

    /// The template in which a human adds lexemes and morphology: the
    /// metadata as given in `metadata_header`, an empty line, and the
    /// templates of the blocks.
    pub fn render_lex_file(&self, metadata_header: &str) -> (r: String)
        requires
            self.well_formed(),
        ensures
            r@ == metadata_header@ + seq!['\n'] + lex_blocks(
                self.blocks@,
                self.blocks.len() as int,
            ),
    {
        let mut res = metadata_header.to_owned();
        res.push('\n');
        let mut i: usize = 0;
        proof {
            assert(res@ =~= metadata_header@ + seq!['\n'] + lex_blocks(self.blocks@, 0));
        }
        while i < self.blocks.len()
            invariant
                i <= self.blocks.len(),
                self.well_formed(),
                res@ == metadata_header@ + seq!['\n'] + lex_blocks(self.blocks@, i as int),
            decreases self.blocks.len() - i,
        {
            let block = self.blocks[i].render_for_lex_file(i + 1);
            res.append(block.as_str());
            i += 1;
            proof {
                assert(res@ =~= metadata_header@ + seq!['\n'] + lex_blocks(
                    self.blocks@,
                    i as int,
                ));
            }
        }
        res
    }
}

impl FolioTranscript {
    /// The number of hands of the transcript: that of its first block, and
    /// one where it has no block.
    pub open spec fn hands(&self) -> nat {
        if self.blocks.len() == 0 {
            1
        } else {
            self.blocks[0].hands()
        }
    }

    /// Whether the transcript can be normalised: every block can, and no
    /// block has fewer hands than the first.
    pub open spec fn normalisable(&self) -> bool {
        forall|b: int|
            0 <= b < self.blocks.len() ==> {
                &&& (#[trigger] self.blocks[b]).atg_dialect.normalisable(self.blocks[b].text)
                &&& self.blocks[b].hands() >= self.hands()
            }
    }

    /// Whether the transcript can be normalised.
    pub fn is_normalisable(&self) -> (r: bool)
        ensures
            r == self.normalisable(),
    {
        if self.blocks.len() == 0 {
            return true;
        }
        let hands = self.blocks[0].text.number_of_hands();
        let mut b: usize = 0;
        while b < self.blocks.len()
            invariant
                b <= self.blocks.len(),
                self.blocks.len() > 0,
                hands == self.hands(),
                forall|k: int|
                    0 <= k < b ==> {
                        &&& (#[trigger] self.blocks[k]).atg_dialect.normalisable(
                            self.blocks[k].text,
                        )
                        &&& self.blocks[k].hands() >= self.hands()
                    },
            decreases self.blocks.len() - b,
        {
            if !self.blocks[b].is_normalisable() || self.blocks[b].text.number_of_hands()
                < hands {
                return false;
            }
            b += 1;
        }
        true
    }

    /// Normalises the blocks of the folio: one transcript for each
    /// correcting hand, in the order of the hands, each with every block
    /// as that hand left it.
    pub fn normalise(self) -> (r: Vec<NormalisedFolioTranscript>)
        requires
            self.normalisable(),
        ensures
            r.len() == self.hands(),
            forall|hand: int|
                0 <= hand < r.len() ==> {
                    &&& (#[trigger] r[hand]).metadata@ == self.metadata@
                    &&& r[hand].blocks.len() == self.blocks.len()
                    &&& r[hand].well_formed()
                    &&& forall|b: int|
                        0 <= b < self.blocks.len() ==> {
                            &&& self.blocks[b].atg_dialect.normal_text(
                                flattened(self.blocks[b].text@, hand),
                                self.blocks[b].language,
                                (#[trigger] r[hand].blocks[b]).text,
                            )
                            &&& r[hand].blocks[b].language == self.blocks[b].language
                            &&& r[hand].blocks[b].atg_dialect == self.blocks[b].atg_dialect
                        }
                },
    {
        let hands = if self.blocks.len() == 0 {
            1
        } else {
            self.blocks[0].text.number_of_hands()
        };
        let mut res: Vec<NormalisedFolioTranscript> = Vec::new();
        let mut hand: usize = 0;
        while hand < hands
            invariant
                hand <= hands,
                hands == self.hands(),
                self.normalisable(),
                res.len() == hand,
                forall|h: int|
                    0 <= h < hand ==> {
                        &&& (#[trigger] res[h]).metadata@ == self.metadata@
                        &&& res[h].blocks.len() == self.blocks.len()
                        &&& res[h].well_formed()
                        &&& forall|b: int|
                            0 <= b < self.blocks.len() ==> {
                                &&& self.blocks[b].atg_dialect.normal_text(
                                    flattened(self.blocks[b].text@, h),
                                    self.blocks[b].language,
                                    (#[trigger] res[h].blocks[b]).text,
                                )
                                &&& res[h].blocks[b].language == self.blocks[b].language
                                &&& res[h].blocks[b].atg_dialect == self.blocks[b].atg_dialect
                            }
                    },
            decreases hands - hand,
        {
            let mut blocks: Vec<NormalisedAtgBlock> = Vec::new();
            let mut b: usize = 0;
            while b < self.blocks.len()
                invariant
                    b <= self.blocks.len(),
                    hand < hands,
                    hands == self.hands(),
                    self.normalisable(),
                    blocks.len() == b,
                    forall|k: int|
                        0 <= k < b ==> {
                            &&& self.blocks[k].atg_dialect.normal_text(
                                flattened(self.blocks[k].text@, hand as int),
                                self.blocks[k].language,
                                (#[trigger] blocks[k]).text,
                            )
                            &&& blocks[k].text.well_formed()
                            &&& blocks[k].language == self.blocks[k].language
                            &&& blocks[k].atg_dialect == self.blocks[k].atg_dialect
                        },
                decreases self.blocks.len() - b,
            {
                let block = &self.blocks[b];
                let unique = UniqueAtgBlock::new(
                    block.text.unique_text(hand),
                    block.language,
                    block.atg_dialect,
                );
                proof {
                    assert(self.blocks[b as int].hands() >= self.hands());
                    assert forall|j: int| 0 <= j < unique.text@.len() implies crate::atg::normalize::tokenize::splittable::<
                        crate::atg::dialect::ExampleAtgDialect,
                    >(#[trigger] unique.text@[j]) by {
                        assert(crate::atg::normalize::tokenize::splittable::<
                            crate::atg::dialect::ExampleAtgDialect,
                        >(flattened(block.text@, hand as int)[j]));
                    }
                }
                blocks.push(unique.normalise(block.language));
                b += 1;
            }
            res.push(NormalisedFolioTranscript::new(self.metadata.clone(), blocks));
            hand += 1;
        }
        res
    }
}

} // verus!
