//! The per-character reading source: a table of kanji records, each carrying
//! the raw on-style and kun-style reading fields for one literal character.
//! Loading the table from its file is the embedding application's concern;
//! the engine only queries it.
use vstd::prelude::*;

use crate::text::{first_index_where, lemma_first_index_where_is};

verus! {

/// One record of the reading table: a literal character and its raw reading
/// fields, exactly as the corpus carries them.
#[derive(Debug, PartialEq, Eq)]
pub struct Kanjidic2Entry {
    pub literal: String,
    pub ja_on: String,
    pub ja_kun: String,
    pub heisig: String,
    pub heisig6: String,
}

/// The reading table, loaded once and queried read-only.
pub struct Kanjidic2 {
    entries: Vec<Kanjidic2Entry>,
}

/// The predicate of a literal-match scan for `key`.
pub open spec fn literal_matches(key: Seq<char>) -> spec_fn(Kanjidic2Entry) -> bool {
    |e: Kanjidic2Entry| e.literal@ == key
}

impl Kanjidic2 {
    /// The records the table holds, in order.
    pub closed spec fn spec_entries(&self) -> Seq<Kanjidic2Entry> {
        self.entries@
    }

    /// Builds the table from its records.
    pub fn new(entries: Vec<Kanjidic2Entry>) -> (r: Self)
        ensures
            r.spec_entries() == entries@,
    {
        Kanjidic2 { entries }
    }

    /// Returns the first record whose literal equals `kanji`, if any.
    pub fn find_by_kanji(&self, kanji: &String) -> (r: Option<&Kanjidic2Entry>)
        ensures
            match r {
                Some(e) => {
                    &&& first_index_where(self.spec_entries(), literal_matches(kanji@))
                        matches Some(i)
                    &&& 0 <= i < self.spec_entries().len()
                    &&& *e == self.spec_entries()[i]
                },
                None => first_index_where(self.spec_entries(), literal_matches(kanji@)) is None,
            },
    {
        let mut i: usize = 0;
        while i < self.entries.len()
            invariant
                i <= self.entries@.len(),
                forall|j: int| 0 <= j < i ==> !#[trigger] literal_matches(kanji@)(
                    self.entries@[j],
                ),
            decreases self.entries@.len() - i,
        {
            if self.entries[i].literal.eq(kanji) {
                proof {
                    assert(literal_matches(kanji@)(self.entries@[i as int]));
                    lemma_first_index_where_is(
                        self.entries@,
                        literal_matches(kanji@),
                        Some(i as int),
                    );
                }
                return Some(&self.entries[i]);
            }
            proof {
                assert(!literal_matches(kanji@)(self.entries@[i as int]));
            }
            i = i + 1;
        }
        proof {
            lemma_first_index_where_is(self.entries@, literal_matches(kanji@), None);
        }
        None
    }
}

} // verus!
