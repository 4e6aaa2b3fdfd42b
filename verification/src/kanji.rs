//! A word broken into per-character slots, each awaiting a reading.
use vstd::prelude::*;

use crate::text::{chars_to_string, str_to_chars};

verus! {

/// One character of a word, with the reading assigned to it (initially
/// empty).
pub struct Char {
    pub char: String,
    pub reading: String,
}

/// A word as a list of per-character slots.
pub struct Word {
    pub vec: Vec<Char>,
}

/// Breaks a word into one slot per character, each with an empty reading.
pub fn parse_word(word: &String) -> (r: Word)
    ensures
        r.vec@.len() == word@.len(),
        forall|i: int|
            0 <= i < word@.len() ==> (#[trigger] r.vec@[i]).char@ == seq![word@[i]]
                && r.vec@[i].reading@ == Seq::<char>::empty(),
{
    let cs = str_to_chars(word.as_str());
    let mut vec: Vec<Char> = Vec::new();
    let mut i: usize = 0;
    while i < cs.len()
        invariant
            i <= cs@.len(),
            cs@ == word@,
            vec@.len() == i,
            forall|j: int|
                0 <= j < i ==> (#[trigger] vec@[j]).char@ == seq![word@[j]] && vec@[j].reading@
                    == Seq::<char>::empty(),
        decreases cs@.len() - i,
    {
        let one: Vec<char> = vec![cs[i]];
        let ch = chars_to_string(&one);
        proof {
            assert(ch@ =~= seq![word@[i as int]]);
        }
        vec.push(Char { char: ch, reading: String::new() });
        i = i + 1;
    }
    Word { vec }
}

} // verus!
