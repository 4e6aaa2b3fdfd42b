//! A reading-annotation and dictionary-lookup engine for Japanese text:
//! script classification, expansion of raw kanji readings into candidate
//! pronunciation fragments (gemination and voicing variants included), a
//! per-word candidate map for the external furigana alignment solver, a
//! tiered lexicon matcher with a strict-to-fuzzy fallback ladder, and the
//! lookup orchestrator that ties lemma and surface form together.
pub mod commands;
pub mod conversion;
pub mod entity;
pub mod errors;
pub mod heisig;
pub mod kanji;
pub mod kanjidic;
pub mod kanjis;
pub mod parser;
pub mod script;
pub mod text;
pub mod tokenize;
pub mod translation;
pub mod word;
pub mod words;
