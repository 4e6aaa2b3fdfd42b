//! The curated kanji table: one record per character with keyword, story
//! and reading fields, queried by identifier, by character, by reading
//! substring, or by keyword substrings. Parsing the table's file is the
//! embedding application's concern.
use vstd::prelude::*;

use crate::text::{
    contains_sub, last_index_where, lemma_last_index_where_is, spec_contains_sub, str_to_chars,
};

verus! {

/// One record of the curated kanji table, exactly as its source carries it.
#[allow(non_snake_case)]
pub struct HeisigKanji {
    pub id: String,
    pub frameNoV4: String,
    pub frameNoV6: String,
    pub keyword: String,
    pub kanji: String,
    pub strokeDiagram: String,
    pub hint: String,
    pub constituent: String,
    pub strokeCount: String,
    pub lessonNo: String,
    pub myStory: String,
    pub heisigStory: String,
    pub heisigComment: String,
    pub koohiiStory1: String,
    pub koohiiStory2: String,
    pub jouYou: String,
    pub jlpt: String,
    pub onYomi: String,
    pub kunYomi: String,
    pub words: String,
    pub readingExamples: String,
}

/// The identifier-match predicate.
pub open spec fn id_is(key: Seq<char>) -> spec_fn(HeisigKanji) -> bool {
    |k: HeisigKanji| k.id@ == key
}

/// The character-match predicate.
pub open spec fn kanji_is(key: Seq<char>) -> spec_fn(HeisigKanji) -> bool {
    |k: HeisigKanji| k.kanji@ == key
}

/// The reading-search predicate: the key occurs in either reading field.
pub open spec fn reading_has(key: Seq<char>) -> spec_fn(HeisigKanji) -> bool {
    |k: HeisigKanji| spec_contains_sub(k.onYomi@, key) || spec_contains_sub(k.kunYomi@, key)
}

/// The keyword-search predicate: every given keyword occurs in the record's
/// keyword field.
pub open spec fn keyword_has_all(keys: Seq<Seq<char>>) -> spec_fn(HeisigKanji) -> bool {
    |k: HeisigKanji| forall|i: int| 0 <= i < keys.len() ==> spec_contains_sub(k.keyword@, keys[i])
}

/// The loaded kanji table, read-only after construction.
pub struct HeisigKanjis {
    vec: Vec<HeisigKanji>,
}

impl HeisigKanjis {
    /// The records the table holds, in load order.
    pub closed spec fn spec_records(&self) -> Seq<HeisigKanji> {
        self.vec@
    }

    /// Builds the table from its records.
    pub fn new(vec: Vec<HeisigKanji>) -> (r: Self)
        ensures
            r.spec_records() == vec@,
    {
        HeisigKanjis { vec }
    }

    /// The record under this identifier; with duplicate identifiers the last
    /// record wins, as repeated index insertions leave it.
    pub fn get_by_id(&self, id: &String) -> (r: Option<&HeisigKanji>)
        ensures
            match r {
                Some(k) => (last_index_where(self.spec_records(), id_is(id@)) matches Some(i)
                    && *k == self.spec_records()[i]),
                None => last_index_where(self.spec_records(), id_is(id@)) is None,
            },
    {
        let ghost recs = self.vec@;
        let mut i: usize = self.vec.len();
        while i > 0
            invariant
                i <= recs.len(),
                recs == self.vec@,
                forall|j: int| i <= j < recs.len() ==> !#[trigger] id_is(id@)(recs[j]),
            decreases i,
        {
            i = i - 1;
            if self.vec[i].id.eq(id) {
                proof {
                    assert(id_is(id@)(recs[i as int]));
                    lemma_last_index_where_is(recs, id_is(id@), Some(i as int));
                }
                return Some(&self.vec[i]);
            }
            proof {
                assert(!id_is(id@)(recs[i as int]));
            }
        }
        proof {
            lemma_last_index_where_is(recs, id_is(id@), None);
        }
        None
    }

    /// The records for this exact character: one when the table knows it
    /// (with duplicates, the last record), none otherwise.
    pub fn get_by_kanji(&self, kanji: &String) -> (r: Vec<&HeisigKanji>)
        ensures
            match last_index_where(self.spec_records(), kanji_is(kanji@)) {
                Some(i) => r@.len() == 1 && *r@[0] == self.spec_records()[i],
                None => r@.len() == 0,
            },
    {
        let ghost recs = self.vec@;
        let mut i: usize = self.vec.len();
        while i > 0
            invariant
                i <= recs.len(),
                recs == self.vec@,
                forall|j: int| i <= j < recs.len() ==> !#[trigger] kanji_is(kanji@)(recs[j]),
            decreases i,
        {
            i = i - 1;
            if self.vec[i].kanji.eq(kanji) {
                proof {
                    assert(kanji_is(kanji@)(recs[i as int]));
                    lemma_last_index_where_is(recs, kanji_is(kanji@), Some(i as int));
                }
                let mut r: Vec<&HeisigKanji> = Vec::new();
                r.push(&self.vec[i]);
                return r;
            }
            proof {
                assert(!kanji_is(kanji@)(recs[i as int]));
            }
        }
        proof {
            lemma_last_index_where_is(recs, kanji_is(kanji@), None);
        }
        Vec::new()
    }

    /// Every record either of whose reading fields contains the key, in
    /// table order.
    pub fn get_by_reading(&self, reading: &String) -> (r: Vec<&HeisigKanji>)
        ensures
            r@.len() == self.spec_records().filter(reading_has(reading@)).len(),
            forall|k: int|
                0 <= k < r@.len() ==> *#[trigger] r@[k] == self.spec_records().filter(
                    reading_has(reading@),
                )[k],
    {
        let ghost recs = self.vec@;
        let key = str_to_chars(reading.as_str());
        let mut out: Vec<&HeisigKanji> = Vec::new();
        let ghost shadow = Seq::<HeisigKanji>::empty();
        let mut i: usize = 0;
        proof {
            reveal(Seq::filter);
            assert(recs.take(0).filter(reading_has(reading@)) =~= Seq::<HeisigKanji>::empty());
        }
        while i < self.vec.len()
            invariant
                i <= recs.len(),
                recs == self.vec@,
                key@ == reading@,
                out@.len() == shadow.len(),
                forall|k: int| 0 <= k < out@.len() ==> *#[trigger] out@[k] == shadow[k],
                shadow =~= recs.take(i as int).filter(reading_has(reading@)),
            decreases recs.len() - i,
        {
            proof {
                reveal(Seq::filter);
                assert(recs.take(i + 1 as int).drop_last() =~= recs.take(i as int));
                assert(recs.take(i + 1 as int).last() == recs[i as int]);
            }
            let on = str_to_chars(self.vec[i].onYomi.as_str());
            let kun = str_to_chars(self.vec[i].kunYomi.as_str());
            if contains_sub(&on, &key) || contains_sub(&kun, &key) {
                out.push(&self.vec[i]);
                proof {
                    shadow = shadow.push(recs[i as int]);
                }
            }
            proof {
                assert(shadow =~= recs.take(i + 1 as int).filter(reading_has(reading@)));
            }
            i = i + 1;
        }
        proof {
            assert(recs.take(recs.len() as int) =~= recs);
        }
        out
    }

    /// Every record whose keyword field contains each of the given keywords,
    /// in table order.
    pub fn get_by_keywords(&self, keywords: &Vec<String>) -> (r: Vec<&HeisigKanji>)
        ensures
            r@.len() == self.spec_records().filter(
                keyword_has_all(keywords.deep_view()),
            ).len(),
            forall|k: int|
                0 <= k < r@.len() ==> *#[trigger] r@[k] == self.spec_records().filter(
                    keyword_has_all(keywords.deep_view()),
                )[k],
    {
        let ghost recs = self.vec@;
        let ghost keys = keywords.deep_view();
        let mut out: Vec<&HeisigKanji> = Vec::new();
        let ghost shadow = Seq::<HeisigKanji>::empty();
        let mut i: usize = 0;
        proof {
            reveal(Seq::filter);
            assert(recs.take(0).filter(keyword_has_all(keys)) =~= Seq::<HeisigKanji>::empty());
        }
        while i < self.vec.len()
            invariant
                i <= recs.len(),
                recs == self.vec@,
                keys == keywords.deep_view(),
                keys.len() == keywords@.len(),
                out@.len() == shadow.len(),
                forall|k: int| 0 <= k < out@.len() ==> *#[trigger] out@[k] == shadow[k],
                shadow =~= recs.take(i as int).filter(keyword_has_all(keys)),
            decreases recs.len() - i,
        {
            proof {
                reveal(Seq::filter);
                assert(recs.take(i + 1 as int).drop_last() =~= recs.take(i as int));
                assert(recs.take(i + 1 as int).last() == recs[i as int]);
            }
            let field = str_to_chars(self.vec[i].keyword.as_str());
            let mut all = true;
            let mut j: usize = 0;
            while j < keywords.len()
                invariant
                    j <= keywords@.len(),
                    keys == keywords.deep_view(),
                    keys.len() == keywords@.len(),
                    i < recs.len(),
                    recs == self.vec@,
                    field@ == recs[i as int].keyword@,
                    all ==> forall|jj: int|
                        0 <= jj < j ==> spec_contains_sub(recs[i as int].keyword@, keys[jj]),
                    !all ==> !keyword_has_all(keys)(recs[i as int]),
                decreases keywords@.len() - j,
            {
                let kw = str_to_chars(keywords[j].as_str());
                proof {
                    assert(keys[j as int] == keywords@[j as int]@);
                }
                if !contains_sub(&field, &kw) {
                    proof {
                        assert(!keyword_has_all(keys)(recs[i as int]));
                    }
                    all = false;
                    j = keywords.len();
                } else {
                    j = j + 1;
                }
            }
            if all {
                proof {
                    assert(keyword_has_all(keys)(recs[i as int]));
                }
                out.push(&self.vec[i]);
                proof {
                    shadow = shadow.push(recs[i as int]);
                }
            }
            proof {
                assert(shadow =~= recs.take(i + 1 as int).filter(keyword_has_all(keys)));
            }
            i = i + 1;
        }
        proof {
            assert(recs.take(recs.len() as int) =~= recs);
        }
        out
    }

    /// All records, in load order.
    pub fn get_all(&self) -> (r: &Vec<HeisigKanji>)
        ensures
            r@ == self.spec_records(),
    {
        &self.vec
    }
}

} // verus!
