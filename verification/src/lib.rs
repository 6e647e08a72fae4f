//! Transcription and normalisation of manuscript witnesses.
//!
//! A witness is transcribed in ATG, a markup of control points and escapes
//! whose concrete characters are fixed by a dialect. This crate parses ATG,
//! splits a text with scribal corrections into one text per correcting hand,
//! cuts each of those into words and supplies uncertain passages, so that the
//! words can be annotated and collated.

pub mod scalars;
pub mod numerals;
pub mod anchor;
pub mod atg;
pub mod language;
pub mod define;
pub mod transcribe;
pub mod lex;
