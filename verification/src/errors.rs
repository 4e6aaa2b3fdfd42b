//! The recoverable failure conditions of the lookup and annotation engine.
use vstd::prelude::*;

verus! {

/// Everything that can go wrong while resolving readings or looking a word
/// up. All of these are recoverable at the call site; none aborts a batch.
#[derive(Debug, Clone, Copy, PartialEq, Eq)]
pub enum LookupError {
    /// A zero-length word was passed to resolution.
    EmptyInput,
    /// No explicit target reading was given and automatic conversion failed.
    ReadingNotProvided,
    /// The tokenizer produced no usable lemma for the word.
    NoLemma,
    /// The alignment solver found no partition reproducing the target reading.
    AlignmentFailed,
    /// A lexicon lookup exhausted every tier without a hit.
    NotFound,
}

impl LookupError {
    /// A short human-readable description of the failure.
    pub fn message(&self) -> (r: &'static str)
        ensures
            *self is EmptyInput ==> r@ == "Empty word"@,
            *self is ReadingNotProvided ==> r@ == "Reading not provided"@,
            *self is NoLemma ==> r@ == "No lemma found"@,
            *self is AlignmentFailed ==> r@ == "Failed to parse furigana"@,
            *self is NotFound ==> r@ == "Not found"@,
    {
        match self {
            LookupError::EmptyInput => "Empty word",
            LookupError::ReadingNotProvided => "Reading not provided",
            LookupError::NoLemma => "No lemma found",
            LookupError::AlignmentFailed => "Failed to parse furigana",
            LookupError::NotFound => "Not found",
        }
    }
}

} // verus!
