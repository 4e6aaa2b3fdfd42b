//! Script classification for the three character classes the engine deals
//! with: logographic characters (kanji), the primary phonetic syllabary
//! (katakana) and the secondary phonetic syllabary (hiragana). The two
//! syllabary blocks are a fixed 0x60 code-point shift apart.
use vstd::prelude::*;

verus! {

/// First code point of the logographic block.
pub const LOGOGRAPHIC_FIRST: u32 = 0x4E00;

/// Last code point of the logographic block.
pub const LOGOGRAPHIC_LAST: u32 = 0x9FAF;

/// First code point of the primary phonetic block (katakana).
pub const PRIMARY_FIRST: u32 = 0x30A1;

/// Last code point of the primary phonetic block (katakana).
pub const PRIMARY_LAST: u32 = 0x30F3;

/// Distance between a primary-block character and its secondary-block
/// counterpart.
pub const BLOCK_SHIFT: u32 = 0x60;

/// The character standing in for a repeated preceding logographic character.
pub const REPETITION_MARK: char = '々';

/// True for code points in the logographic block.
pub open spec fn spec_is_logographic(c: char) -> bool {
    LOGOGRAPHIC_FIRST <= c as u32 <= LOGOGRAPHIC_LAST
}

/// True for code points in the primary phonetic block.
pub open spec fn spec_is_phonetic_primary(c: char) -> bool {
    PRIMARY_FIRST <= c as u32 <= PRIMARY_LAST
}

/// True for code points in the secondary phonetic block: the image of the
/// primary block under the fixed shift.
pub open spec fn spec_is_phonetic_secondary(c: char) -> bool {
    PRIMARY_FIRST - BLOCK_SHIFT <= c as u32 <= PRIMARY_LAST - BLOCK_SHIFT
}

/// A primary-block character maps to its secondary-block counterpart;
/// everything else passes through unchanged.
pub open spec fn spec_shift_to_secondary(c: char) -> char {
    if spec_is_phonetic_primary(c) {
        ((c as u32) - BLOCK_SHIFT) as char
    } else {
        c
    }
}

/// Classifies a character as logographic or not.
pub fn is_logographic(c: char) -> (r: bool)
    ensures
        r == spec_is_logographic(c),
{
    let v: u32 = c as u32;
    LOGOGRAPHIC_FIRST <= v && v <= LOGOGRAPHIC_LAST
}

/// Membership test for the primary phonetic block.
pub fn is_phonetic_primary(c: char) -> (r: bool)
    ensures
        r == spec_is_phonetic_primary(c),
{
    let v: u32 = c as u32;
    PRIMARY_FIRST <= v && v <= PRIMARY_LAST
}

/// Membership test for the secondary phonetic block.
pub fn is_phonetic_secondary(c: char) -> (r: bool)
    ensures
        r == spec_is_phonetic_secondary(c),
{
    let v: u32 = c as u32;
    PRIMARY_FIRST - BLOCK_SHIFT <= v && v <= PRIMARY_LAST - BLOCK_SHIFT
}

/// Relies on char::from_u32 of std: `Some` exactly for valid Unicode scalar
/// values (everything up to 0x10FFFF except the surrogate range), holding
/// the given code point.
pub assume_specification[ char::from_u32 ](i: u32) -> (r: Option<char>)
    ensures
        (r is Some) <==> (i < 0xD800 || (0xDFFF < i && i <= 0x10FFFF)),
        r matches Some(c) ==> c as u32 == i,
;

proof fn lemma_char_eq_by_code(a: char, b: char)
    requires
        a as u32 == b as u32,
    ensures
        a == b,
{
}

/// Converts a primary-block character to its secondary-block counterpart;
/// total: characters outside the primary block are returned unchanged.
pub fn shift_to_secondary(c: char) -> (r: char)
    ensures
        r == spec_shift_to_secondary(c),
{
    let v: u32 = c as u32;
    if PRIMARY_FIRST <= v && v <= PRIMARY_LAST {
        match char::from_u32(v - BLOCK_SHIFT) {
            Some(s) => {
                proof {
                    assert(spec_shift_to_secondary(c) as u32 == (c as u32) - BLOCK_SHIFT);
                    lemma_char_eq_by_code(s, spec_shift_to_secondary(c));
                }
                s
            },
            None => {
                proof {
                    assert(false);  // the shifted code point is a valid scalar
                }
                c
            },
        }
    } else {
        c
    }
}

/// Shifting stabilizes after one application: a second shift changes nothing,
/// and a primary-block character lands in the secondary block after one shift.
pub proof fn lemma_shift_stabilizes(c: char)
    ensures
        spec_shift_to_secondary(spec_shift_to_secondary(c)) == spec_shift_to_secondary(c),
        spec_is_phonetic_primary(c) ==> spec_is_phonetic_secondary(spec_shift_to_secondary(c)),
        !spec_is_phonetic_primary(c) ==> spec_shift_to_secondary(c) == c,
{
}

} // verus!
