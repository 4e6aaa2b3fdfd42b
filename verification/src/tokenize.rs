//! The bridge to the external morphological tokenizer. The engine treats it
//! as a black box: a call that segments text into tokens, each carrying a
//! surface form and a list of detail fields (lemma and phonetic reading among
//! them). Everything the engine concludes from tokens is proved over the
//! token values themselves.
use vstd::prelude::*;

verus! {

/// One token as the tokenizer hands it out: the surface text and the raw
/// detail fields.
pub struct RawToken {
    pub text: String,
    pub details: Vec<String>,
}

/// The pair of character sequences a token stands for.
pub open spec fn token_view_fn() -> spec_fn(RawToken) -> (Seq<char>, Seq<Seq<char>>) {
    |t: RawToken| (t.text@, t.details.deep_view())
}

/// What the tokenizer returns for a text. The segmentation dictionary is
/// embedded and fixed, so the result is a function of the text alone.
pub uninterp spec fn tokenization(text: Seq<char>) -> Seq<(Seq<char>, Seq<Seq<char>>)>;

/// Relies on lindera's `Tokenizer::tokenize` over the embedded IPADIC
/// dictionary, and on `Token::details` for each token's detail fields. Yields
/// `None` when the embedded dictionary cannot be loaded or the text cannot be
/// tokenized; the segmentation itself is named by `tokenization`.
#[verifier::external_body]
pub(crate) fn tokenize_text(text: &str) -> (r: Option<Vec<RawToken>>)
    ensures
        r matches Some(v) ==> v@.map_values(token_view_fn()) == tokenization(text@),
{
    let kind = lindera::dictionary::DictionaryKind::IPADIC;
    let dict = lindera::dictionary::load_embedded_dictionary(kind).ok()?;
    let segmenter = lindera::segmenter::Segmenter::new(lindera::mode::Mode::Normal, dict, None);
    let tokenizer = lindera::tokenizer::Tokenizer::new(segmenter);
    let mut tokens = tokenizer.tokenize(text).ok()?;
    let mut out = Vec::new();
    for t in tokens.iter_mut() {
        let details = t.details().iter().map(|d| d.to_string()).collect();
        out.push(RawToken { text: t.text.to_string(), details });
    }
    Some(out)
}

} // verus!
