//! The user-curated word store: records keyed by their surface word, with
//! duplicate insertion refused. Loading and saving the records is the
//! embedding application's concern.
use vstd::prelude::*;

use crate::entity::{Entity, EntityCreatePayload, EntityError, fresh_id};

verus! {

/// One reading assigned to one logographic character of a stored word.
pub struct KanjiReading {
    pub reading: String,
}

/// One curated word record.
pub struct Word {
    pub id: String,
    pub word: String,
    pub meaning: String,
    pub kanji_readings: Vec<KanjiReading>,
}

impl Entity for Word {
    open spec fn spec_identifier(&self) -> Seq<char> {
        self.word@
    }

    fn identifier(&self) -> (r: String)
        ensures
            r@ == self.spec_identifier(),
    {
        self.word.clone()
    }
}

/// What a user supplies to create a word record.
pub struct WordCreatePayload {
    pub word: String,
    pub meaning: String,
    pub kanji_readings: Vec<KanjiReading>,
}

impl WordCreatePayload {
    /// The record this payload creates: a freshly minted identifier and the
    /// payload's fields.
    pub fn to_word(&self) -> (r: Word)
        ensures
            r.word@ == self.word@,
            r.meaning@ == self.meaning@,
            r.kanji_readings@.len() == self.kanji_readings@.len(),
            forall|i: int|
                0 <= i < self.kanji_readings@.len() ==> (#[trigger] r.kanji_readings@[i]).reading@
                    == self.kanji_readings@[i].reading@,
    {
        let mut kanji_readings: Vec<KanjiReading> = Vec::new();
        let mut i: usize = 0;
        while i < self.kanji_readings.len()
            invariant
                i <= self.kanji_readings@.len(),
                kanji_readings@.len() == i,
                forall|j: int|
                    0 <= j < i ==> (#[trigger] kanji_readings@[j]).reading@
                        == self.kanji_readings@[j].reading@,
            decreases self.kanji_readings@.len() - i,
        {
            kanji_readings.push(KanjiReading { reading: self.kanji_readings[i].reading.clone() });
            i = i + 1;
        }
        Word {
            id: fresh_id(),
            word: self.word.clone(),
            meaning: self.meaning.clone(),
            kanji_readings,
        }
    }
}

impl EntityCreatePayload<Word> for WordCreatePayload {
    fn to_entity(&self) -> Word {
        self.to_word()
    }
}

/// The in-memory store of curated word records.
pub struct Words {
    words: Vec<Word>,
}

/// Whether some record of `s` carries the surface word `w`.
pub open spec fn spec_has_word_record(s: Seq<Word>, w: Seq<char>) -> bool {
    exists|i: int| 0 <= i < s.len() && s[i].word@ == w
}

impl Words {
    /// The stored records, in insertion order.
    pub closed spec fn spec_words(&self) -> Seq<Word> {
        self.words@
    }

    /// An empty store.
    pub fn new() -> (r: Self)
        ensures
            r.spec_words().len() == 0,
    {
        Words { words: Vec::new() }
    }

    /// A store holding the given records, as loaded from persistence.
    pub fn from_words(words: Vec<Word>) -> (r: Self)
        ensures
            r.spec_words() == words@,
    {
        Words { words }
    }

    /// The stored records.
    pub fn get_words(&self) -> (r: &Vec<Word>)
        ensures
            r@ == self.spec_words(),
    {
        &self.words
    }

    /// Whether a record with this surface word is stored.
    pub fn has_word(&self, word: &String) -> (r: bool)
        ensures
            r == spec_has_word_record(self.spec_words(), word@),
    {
        let mut i: usize = 0;
        while i < self.words.len()
            invariant
                i <= self.words@.len(),
                forall|j: int| 0 <= j < i ==> (#[trigger] self.words@[j]).word@ != word@,
            decreases self.words@.len() - i,
        {
            if self.words[i].word.eq(word) {
                proof {
                    assert(spec_has_word_record(self.spec_words(), word@));
                }
                return true;
            }
            i = i + 1;
        }
        proof {
            if spec_has_word_record(self.spec_words(), word@) {
                let j = choose|j: int|
                    0 <= j < self.words@.len() && (#[trigger] self.words@[j]).word@ == word@;
                assert(false);
            }
        }
        false
    }

    /// Creates and stores the payload's record, unless a record with the
    /// same surface word is already stored; the store is unchanged on
    /// failure.
    pub fn add_word(&mut self, payload: &WordCreatePayload) -> (r: Result<&Word, EntityError>)
        ensures
            spec_has_word_record(old(self).spec_words(), payload.word@) ==> r
                is Err && final(self).spec_words() == old(self).spec_words(),
            !spec_has_word_record(old(self).spec_words(), payload.word@) ==> (r matches Ok(w) && {
                &&& final(self).spec_words().len() == old(self).spec_words().len() + 1
                &&& final(self).spec_words().drop_last() == old(self).spec_words()
                &&& *w == final(self).spec_words().last()
                &&& w.word@ == payload.word@
                &&& w.meaning@ == payload.meaning@
            }),
    {
        let word = payload.to_word();
        if self.has_word(&word.word) {
            return Err(EntityError::AlreadyExists);
        }
        self.words.push(word);
        proof {
            assert(self.words@.drop_last() =~= old(self).words@);
        }
        let n = self.words.len();
        Ok(&self.words[n - 1])
    }
}

} // verus!
