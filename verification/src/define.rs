//! The definition of a witness: its name, its folios, its correcting hands
//! and the dialects that its blocks have unless they say otherwise.

use vstd::prelude::*;
use crate::transcribe::io::TranscriptIterator;

verus! {

/// What is known of a witness as a whole.
#[derive(Debug, PartialEq, Eq, Hash)]
pub struct WitnessMetadata {
    /// The name of the witness, which no other witness has.
    pub name: String,
    /// The names of the folios of the witness, in order.
    pub folios: Vec<String>,
    /// The names of the hands that corrected the witness. Every correction
    /// of the witness has one version for each of them.
    pub corrections: Vec<String>,
    /// The ATG dialect of the blocks that name none.
    pub default_atg: Option<String>,
    /// The anchor dialect of the blocks that name none.
    pub default_anchor: Option<String>,
    /// The language of the blocks that name none.
    pub default_language: Option<String>,
}

impl WitnessMetadata {
    /// The metadata of a witness.
    pub fn new(
        name: String,
        folios: Vec<String>,
        corrections: Vec<String>,
        default_atg: Option<String>,
        default_anchor: Option<String>,
        default_language: Option<String>,
    ) -> (r: Self)
        ensures
            r.name == name,
            r.folios == folios,
            r.corrections == corrections,
            r.default_atg == default_atg,
            r.default_anchor == default_anchor,
            r.default_language == default_language,
    {
        Self { name, folios, corrections, default_atg, default_anchor, default_language }
    }

    /// The names of the folios, in order.
    pub fn folios(&self) -> (r: &Vec<String>)
        ensures
            *r == self.folios,
    {
        &self.folios
    }

    /// The ATG dialect of the blocks that name none.
    pub fn default_atg(&self) -> (r: &Option<String>)
        ensures
            *r == self.default_atg,
    {
        &self.default_atg
    }

    /// The anchor dialect of the blocks that name none.
    pub fn default_anchor(&self) -> (r: &Option<String>)
        ensures
            *r == self.default_anchor,
    {
        &self.default_anchor
    }

    /// The language of the blocks that name none.
    pub fn default_language(&self) -> (r: &Option<String>)
        ensures
            *r == self.default_language,
    {
        &self.default_language
    }

    /// The number of hands that corrected the witness.
    pub fn number_of_corrections(&self) -> (r: usize)
        ensures
            r == self.corrections.len(),
    {
        self.corrections.len()
    }
}

/// A witness.
#[derive(Debug, PartialEq, Eq)]
pub struct Witness {
    pub metadata: WitnessMetadata,
}

impl Witness {
    /// The witness with the given metadata.
    pub fn new(metadata: WitnessMetadata) -> (r: Self)
        ensures
            r.metadata == metadata,
    {
        Self { metadata }
    }

    /// The names of the folios of the witness, in order.
    pub fn folio_names(&self) -> (r: &Vec<String>)
        ensures
            *r == self.metadata.folios,
    {
        &self.metadata.folios
    }

    /// A walk through the folios of the witness, from the first one on.
    pub fn get_folios(&self) -> (r: TranscriptIterator<'_>)
        ensures
            r.metadata() == self.metadata,
            r.current() == 0,
    {
        TranscriptIterator::new(&self.metadata)
    }
}

} // verus!
