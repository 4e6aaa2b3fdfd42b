//! Deriving a hiragana reading for running text: tokenize it, then take each
//! token's phonetic reading field (converted from the primary to the
//! secondary syllabary) and fall back to its surface form where the
//! tokenizer provides no reading.
use vstd::prelude::*;

use crate::errors::LookupError;
use crate::parser::spec_to_secondary;
use crate::script::shift_to_secondary;
use crate::text::{chars_to_string, str_to_chars};
use crate::tokenize::{RawToken, token_view_fn, tokenization, tokenize_text};

verus! {

/// The index of the phonetic-reading field among a token's details.
pub const READING_DETAIL: usize = 7;

/// Converts every primary-block character of the input to the secondary
/// block; everything else passes through unchanged.
pub fn katakana_to_hiragana(input: &str) -> (r: String)
    ensures
        r@ == spec_to_secondary(input@),
{
    let cs = str_to_chars(input);
    let mut v: Vec<char> = Vec::new();
    let mut i: usize = 0;
    while i < cs.len()
        invariant
            i <= cs@.len(),
            cs@ == input@,
            v@ == input@.take(i as int).map_values(crate::parser::shift_fn()),
        decreases cs@.len() - i,
    {
        v.push(shift_to_secondary(cs[i]));
        proof {
            assert(v@ =~= input@.take(i + 1 as int).map_values(crate::parser::shift_fn()));
        }
        i = i + 1;
    }
    proof {
        assert(input@.take(input@.len() as int) =~= input@);
    }
    chars_to_string(&v)
}

/// The hiragana fragment one token contributes: its reading field converted
/// to the secondary block, or its surface form when it has no reading field.
pub open spec fn spec_token_hiragana(tv: (Seq<char>, Seq<Seq<char>>)) -> Seq<char> {
    if tv.1.len() > READING_DETAIL {
        spec_to_secondary(tv.1[READING_DETAIL as int])
    } else {
        tv.0
    }
}

/// The hiragana reading assembled from a token list, in token order.
pub open spec fn spec_hiragana_of_tokens(ts: Seq<(Seq<char>, Seq<Seq<char>>)>) -> Seq<char>
    decreases ts.len(),
{
    if ts.len() == 0 {
        Seq::empty()
    } else {
        spec_hiragana_of_tokens(ts.drop_last()) + spec_token_hiragana(ts.last())
    }
}

/// Assembles the hiragana reading of a token list, per
/// `spec_hiragana_of_tokens`.
pub fn hiragana_from_tokens(tokens: &Vec<RawToken>) -> (r: String)
    ensures
        r@ == spec_hiragana_of_tokens(tokens@.map_values(token_view_fn())),
{
    let ghost tv = tokens@.map_values(token_view_fn());
    let mut r = String::new();
    let mut i: usize = 0;
    while i < tokens.len()
        invariant
            i <= tokens@.len(),
            tv == tokens@.map_values(token_view_fn()),
            tv.len() == tokens@.len(),
            r@ == spec_hiragana_of_tokens(tv.take(i as int)),
        decreases tokens@.len() - i,
    {
        proof {
            assert(tv.take(i + 1 as int).drop_last() =~= tv.take(i as int));
            assert(tv.take(i + 1 as int).last() == tv[i as int]);
            assert(tv[i as int] == token_view_fn()(tokens@[i as int]));
        }
        let t = &tokens[i];
        if t.details.len() > READING_DETAIL {
            let h = katakana_to_hiragana(t.details[READING_DETAIL].as_str());
            r.append(h.as_str());
            proof {
                assert(t.details.deep_view()[READING_DETAIL as int]
                    == t.details@[READING_DETAIL as int]@);
                assert(h@ == spec_token_hiragana(tv[i as int]));
            }
        } else {
            r.append(t.text.as_str());
            proof {
                assert(t.text@ == spec_token_hiragana(tv[i as int]));
            }
        }
        i = i + 1;
    }
    proof {
        assert(tv.take(tv.len() as int) =~= tv);
    }
    r
}

/// Derives the hiragana reading of `text` through the external tokenizer.
/// On success the result is exactly the assembly of the named tokenization;
/// when the tokenizer is unavailable or fails, the reading cannot be derived.
pub fn convert(text: &String) -> (r: Result<String, LookupError>)
    ensures
        r matches Ok(h) ==> h@ == spec_hiragana_of_tokens(tokenization(text@)),
        r is Err ==> r == Err::<String, LookupError>(LookupError::ReadingNotProvided),
{
    match tokenize_text(text.as_str()) {
        Some(tokens) => Ok(hiragana_from_tokens(&tokens)),
        None => Err(LookupError::ReadingNotProvided),
    }
}

} // verus!
