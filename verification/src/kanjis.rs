//! The user-curated kanji store: records keyed by their character, with
//! duplicate insertion refused. Loading and saving the records is the
//! embedding application's concern.
use vstd::prelude::*;

use crate::entity::{Entity, EntityCreatePayload, EntityError, fresh_id};

verus! {

/// One curated kanji record.
pub struct Kanji {
    pub id: String,
    pub kanji: String,
    pub readings: Vec<String>,
    pub tags: Vec<String>,
    pub writing_mnemonic: Option<String>,
    pub reading_mnemonic: Option<String>,
}

impl Entity for Kanji {
    open spec fn spec_identifier(&self) -> Seq<char> {
        self.kanji@
    }

    fn identifier(&self) -> (r: String)
        ensures
            r@ == self.spec_identifier(),
    {
        self.kanji.clone()
    }
}

/// What a user supplies to create a kanji record.
pub struct KanjiCreatePayload {
    pub kanji: String,
    pub meaning: String,
    pub readings: Vec<String>,
}

impl KanjiCreatePayload {
    /// The record this payload creates: a freshly minted identifier, the
    /// payload's character and readings, and empty remaining fields.
    pub fn to_entity(&self) -> (r: Kanji)
        ensures
            r.kanji@ == self.kanji@,
            r.readings.deep_view() == self.readings.deep_view(),
            r.tags@.len() == 0,
            r.writing_mnemonic is None,
            r.reading_mnemonic is None,
    {
        let readings = self.readings.clone();
        proof {
            assert(readings.deep_view() =~~= self.readings.deep_view()) by {
                assert(forall|i: int|
                    0 <= i < readings@.len() ==> readings@[i]@ == self.readings@[i]@);
            }
        }
        Kanji {
            id: fresh_id(),
            kanji: self.kanji.clone(),
            readings,
            tags: Vec::new(),
            writing_mnemonic: None,
            reading_mnemonic: None,
        }
    }
}

impl EntityCreatePayload<Kanji> for KanjiCreatePayload {
    fn to_entity(&self) -> Kanji {
        KanjiCreatePayload::to_entity(self)
    }
}

/// The in-memory store of curated kanji records.
pub struct Kanjis {
    kanjis: Vec<Kanji>,
}

/// Whether some record of `s` carries the identifier `id`.
pub open spec fn spec_has_kanji(s: Seq<Kanji>, id: Seq<char>) -> bool {
    exists|i: int| 0 <= i < s.len() && s[i].kanji@ == id
}

impl Kanjis {
    /// The stored records, in insertion order.
    pub closed spec fn spec_kanjis(&self) -> Seq<Kanji> {
        self.kanjis@
    }

    /// An empty store.
    pub fn new() -> (r: Self)
        ensures
            r.spec_kanjis().len() == 0,
    {
        Kanjis { kanjis: Vec::new() }
    }

    /// A store holding the given records, as loaded from persistence.
    pub fn from_entities(kanjis: Vec<Kanji>) -> (r: Self)
        ensures
            r.spec_kanjis() == kanjis@,
    {
        Kanjis { kanjis }
    }

    /// The stored records.
    pub fn get_entities(&self) -> (r: &Vec<Kanji>)
        ensures
            r@ == self.spec_kanjis(),
    {
        &self.kanjis
    }

    /// Whether a record with this identifier is stored.
    pub fn has_entity(&self, identifier: &String) -> (r: bool)
        ensures
            r == spec_has_kanji(self.spec_kanjis(), identifier@),
    {
        let mut i: usize = 0;
        while i < self.kanjis.len()
            invariant
                i <= self.kanjis@.len(),
                forall|j: int| 0 <= j < i ==> (#[trigger] self.kanjis@[j]).kanji@ != identifier@,
            decreases self.kanjis@.len() - i,
        {
            if self.kanjis[i].kanji.eq(identifier) {
                proof {
                    assert(spec_has_kanji(self.spec_kanjis(), identifier@));
                }
                return true;
            }
            i = i + 1;
        }
        proof {
            if spec_has_kanji(self.spec_kanjis(), identifier@) {
                let j = choose|j: int|
                    0 <= j < self.kanjis@.len() && (#[trigger] self.kanjis@[j]).kanji@
                        == identifier@;
                assert(false);
            }
        }
        false
    }

    /// Creates and stores the payload's record, unless a record with the
    /// same identifier is already stored; the store is unchanged on
    /// failure.
    pub fn add_entity(&mut self, payload: &KanjiCreatePayload) -> (r: Result<
        &Kanji,
        EntityError,
    >)
        ensures
            spec_has_kanji(old(self).spec_kanjis(), payload.kanji@) ==> r
                is Err && final(self).spec_kanjis() == old(self).spec_kanjis(),
            !spec_has_kanji(old(self).spec_kanjis(), payload.kanji@) ==> (r matches Ok(k) && {
                &&& final(self).spec_kanjis().len() == old(self).spec_kanjis().len() + 1
                &&& final(self).spec_kanjis().drop_last() == old(self).spec_kanjis()
                &&& *k == final(self).spec_kanjis().last()
                &&& k.kanji@ == payload.kanji@
                &&& k.readings.deep_view() == payload.readings.deep_view()
            }),
    {
        let entity = payload.to_entity();
        let id = entity.identifier();
        if self.has_entity(&id) {
            return Err(EntityError::AlreadyExists);
        }
        self.kanjis.push(entity);
        proof {
            assert(self.kanjis@.drop_last() =~= old(self).kanjis@);
        }
        let n = self.kanjis.len();
        Ok(&self.kanjis[n - 1])
    }
}

} // verus!
