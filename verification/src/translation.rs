//! The tiered lexicon matcher: dictionary entries with logographic
//! spellings, phonetic spellings and glosses, an index from each entry's
//! canonical word to its position, and the strict-to-fuzzy fallback ladder
//! that resolves a lookup key (exact indexed word, then logographic spelling,
//! then phonetic spelling, then gloss).
use vstd::prelude::*;

use crate::text::{
    contains_sub, first_index_where, join_strings, last_index_where, lemma_first_index_where_is,
    lemma_last_index_where, lemma_last_index_where_is, spec_contains_sub, spec_join, str_to_chars,
};

verus! {

/// One sense group of an entry: its glosses, plain text.
pub struct Sense {
    pub glosses: Vec<String>,
}

/// One dictionary record: logographic spellings (first is canonical),
/// phonetic spellings (first is canonical), and sense groups. Read-only once
/// loaded.
pub struct MyEntry {
    pub kanji_elements: Vec<String>,
    pub reading_elements: Vec<String>,
    pub senses: Vec<Sense>,
}

/// The flattened, display-facing projection of an entry.
pub struct MyEntryDisplay {
    pub word: String,
    pub reading: String,
    pub translations: String,
}

/// The canonical logographic spelling: the first kanji element, if any.
pub open spec fn spec_kanji_element_string(e: MyEntry) -> Option<Seq<char>> {
    if e.kanji_elements@.len() > 0 {
        Some(e.kanji_elements@[0]@)
    } else {
        None
    }
}

/// The canonical phonetic spelling: the first reading element, if any.
pub open spec fn spec_reading_element_string(e: MyEntry) -> Option<Seq<char>> {
    if e.reading_elements@.len() > 0 {
        Some(e.reading_elements@[0]@)
    } else {
        None
    }
}

/// The canonical surface word: logographic if present, else phonetic.
pub open spec fn spec_word_string(e: MyEntry) -> Option<Seq<char>> {
    match spec_kanji_element_string(e) {
        Some(w) => Some(w),
        None => spec_reading_element_string(e),
    }
}

/// Tier-1 predicate: the entry's canonical word equals the key.
pub open spec fn word_is(key: Seq<char>) -> spec_fn(MyEntry) -> bool {
    |e: MyEntry| spec_word_string(e) == Some(key)
}

/// Tier-2 predicate: some logographic spelling equals the key exactly.
pub open spec fn has_kanji_element(key: Seq<char>) -> spec_fn(MyEntry) -> bool {
    |e: MyEntry|
        exists|i: int| 0 <= i < e.kanji_elements@.len() && e.kanji_elements@[i]@ == key
}

/// Tier-3 predicate: some phonetic spelling equals the key exactly.
pub open spec fn has_reading_element(key: Seq<char>) -> spec_fn(MyEntry) -> bool {
    |e: MyEntry|
        exists|i: int| 0 <= i < e.reading_elements@.len() && e.reading_elements@[i]@ == key
}

/// Tier-4 predicate, strict form: some gloss equals the key exactly.
pub open spec fn has_exact_gloss(key: Seq<char>) -> spec_fn(MyEntry) -> bool {
    |e: MyEntry|
        exists|i: int, j: int|
            0 <= i < e.senses@.len() && 0 <= j < e.senses@[i].glosses@.len()
                && e.senses@[i].glosses@[j]@ == key
}

/// Tier-4 predicate, relaxed form: some gloss contains the key.
pub open spec fn has_gloss_containing(key: Seq<char>) -> spec_fn(MyEntry) -> bool {
    |e: MyEntry|
        exists|i: int, j: int|
            0 <= i < e.senses@.len() && 0 <= j < e.senses@[i].glosses@.len()
                && spec_contains_sub(e.senses@[i].glosses@[j]@, key)
}

/// The single-hit ladder: the indexed canonical word (the last entry with
/// that word, as index overwrites leave it), then the first entry by
/// logographic spelling, phonetic spelling, and exact gloss, in that order;
/// the first tier with a hit wins.
pub open spec fn spec_find(entries: Seq<MyEntry>, key: Seq<char>) -> Option<MyEntry> {
    match last_index_where(entries, word_is(key)) {
        Some(i) => Some(entries[i]),
        None => match first_index_where(entries, has_kanji_element(key)) {
            Some(i) => Some(entries[i]),
            None => match first_index_where(entries, has_reading_element(key)) {
                Some(i) => Some(entries[i]),
                None => match first_index_where(entries, has_exact_gloss(key)) {
                    Some(i) => Some(entries[i]),
                    None => None,
                },
            },
        },
    }
}

/// The multi-hit ladder: the single hit first (if any), then every entry
/// matching by logographic spelling, by phonetic spelling, and by gloss
/// containment, in tier order, without deduplication.
pub open spec fn spec_find_all(entries: Seq<MyEntry>, key: Seq<char>) -> Seq<MyEntry> {
    (match spec_find(entries, key) {
        Some(e) => seq![e],
        None => Seq::<MyEntry>::empty(),
    }) + entries.filter(has_kanji_element(key)) + entries.filter(has_reading_element(key))
        + entries.filter(has_gloss_containing(key))
}

/// When the single-hit ladder finds an entry, the multi-hit ladder starts
/// with that same entry, so it never returns fewer matches.
pub proof fn lemma_find_all_covers_find(entries: Seq<MyEntry>, key: Seq<char>)
    ensures
        spec_find(entries, key) is Some ==> spec_find_all(entries, key).len() >= 1,
        spec_find(entries, key) matches Some(e) ==> spec_find_all(entries, key)[0] == e,
{
}

impl MyEntry {
    /// The canonical logographic spelling, per `spec_kanji_element_string`.
    pub fn kanji_element_string(&self) -> (r: Option<String>)
        ensures
            match r {
                Some(w) => spec_kanji_element_string(*self) == Some(w@),
                None => spec_kanji_element_string(*self) is None,
            },
    {
        if self.kanji_elements.len() > 0 {
            Some(self.kanji_elements[0].clone())
        } else {
            None
        }
    }

    /// The canonical phonetic spelling, per `spec_reading_element_string`.
    pub fn reading_element_string(&self) -> (r: Option<String>)
        ensures
            match r {
                Some(w) => spec_reading_element_string(*self) == Some(w@),
                None => spec_reading_element_string(*self) is None,
            },
    {
        if self.reading_elements.len() > 0 {
            Some(self.reading_elements[0].clone())
        } else {
            None
        }
    }

    /// The canonical surface word, per `spec_word_string`.
    pub fn word_string(&self) -> (r: Option<String>)
        ensures
            match r {
                Some(w) => spec_word_string(*self) == Some(w@),
                None => spec_word_string(*self) is None,
            },
    {
        let k = self.kanji_element_string();
        if k.is_some() {
            k
        } else {
            self.reading_element_string()
        }
    }

    /// All logographic spellings joined with ", ".
    pub fn kanji_elements_string(&self) -> (r: String)
        ensures
            r@ == spec_join(self.kanji_elements.deep_view(), ", "@),
    {
        join_strings(&self.kanji_elements, ", ")
    }

    /// All phonetic spellings joined with ", ".
    pub fn reading_elements_string(&self) -> (r: String)
        ensures
            r@ == spec_join(self.reading_elements.deep_view(), ", "@),
    {
        join_strings(&self.reading_elements, ", ")
    }

    /// All glosses, ", " between glosses of a sense and "; " between senses.
    pub fn translations_string(&self) -> (r: String)
        ensures
            r@ == spec_join(self.senses@.map_values(sense_glosses_fn()), "; "@),
    {
        let ghost target = self.senses@.map_values(sense_glosses_fn());
        let mut parts: Vec<String> = Vec::new();
        let mut i: usize = 0;
        while i < self.senses.len()
            invariant
                i <= self.senses@.len(),
                target == self.senses@.map_values(sense_glosses_fn()),
                target.len() == self.senses@.len(),
                parts.deep_view() =~= target.take(i as int),
            decreases self.senses@.len() - i,
        {
            let ghost pdv0 = parts.deep_view();
            let joined = join_strings(&self.senses[i].glosses, ", ");
            parts.push(joined);
            proof {
                assert(target[i as int] == sense_glosses_fn()(self.senses@[i as int]));
                assert(parts.deep_view().len() == pdv0.len() + 1);
                assert(forall|j: int| 0 <= j < pdv0.len() ==> parts.deep_view()[j] == pdv0[j]);
                assert(parts.deep_view()[pdv0.len() as int] == joined@);
                assert(parts.deep_view() =~= target.take(i + 1 as int));
            }
            i = i + 1;
        }
        proof {
            assert(target.take(target.len() as int) =~= target);
        }
        join_strings(&parts, "; ")
    }

    /// The display projection: canonical word (or a fixed placeholder when
    /// the entry has none), all readings, all glosses.
    pub fn entry_display(&self) -> (r: MyEntryDisplay)
        ensures
            spec_display(*self, r),
    {
        let word = match self.word_string() {
            Some(w) => w,
            None => {
                let mut s = String::new();
                s.append("No word found");
                s
            },
        };
        MyEntryDisplay {
            word,
            reading: self.reading_elements_string(),
            translations: self.translations_string(),
        }
    }
}

/// The joined gloss text of one sense.
pub open spec fn sense_glosses_fn() -> spec_fn(Sense) -> Seq<char> {
    |s: Sense| spec_join(s.glosses.deep_view(), ", "@)
}

/// `d` is the display projection of `e`: canonical word (or the fixed
/// placeholder), joined readings, joined glosses.
pub open spec fn spec_display(e: MyEntry, d: MyEntryDisplay) -> bool {
    &&& match spec_word_string(e) {
        Some(w) => d.word@ == w,
        None => d.word@ == "No word found"@,
    }
    &&& d.reading@ == spec_join(e.reading_elements.deep_view(), ", "@)
    &&& d.translations@ == spec_join(e.senses@.map_values(sense_glosses_fn()), "; "@)
}

/// One slot of the canonical-word index: a word and the position of the
/// entry it resolves to.
struct IndexSlot {
    word: String,
    idx: usize,
}

/// The index `index` correctly summarizes `entries`: every slot points at
/// the last entry carrying its word (as sequential overwrites leave it),
/// slot words are unique, and every entry that has a canonical word is
/// covered by some slot.
spec fn index_ok(entries: Seq<MyEntry>, index: Seq<IndexSlot>) -> bool {
    &&& (forall|k: int|
        0 <= k < index.len() ==> last_index_where(entries, word_is(#[trigger] index[k].word@))
            == Some(index[k].idx as int))
    &&& (forall|k1: int, k2: int|
        0 <= k1 < k2 < index.len() ==> index[k1].word@ != index[k2].word@)
    &&& (forall|i: int|
        0 <= i < entries.len() ==> match spec_word_string(#[trigger] entries[i]) {
            Some(w) => exists|k: int| 0 <= k < index.len() && #[trigger] index[k].word@ == w,
            None => true,
        })
}

/// The lexicon: the loaded records and the canonical-word index, built once
/// and queried read-only.
pub struct MyDictionary {
    entries: Vec<MyEntry>,
    index: Vec<IndexSlot>,
}

impl MyDictionary {
    /// The records the lexicon holds, in load order.
    pub closed spec fn spec_entries(&self) -> Seq<MyEntry> {
        self.entries@
    }

    /// The canonical words the index knows, in first-seen order.
    pub closed spec fn spec_words(&self) -> Seq<Seq<char>> {
        self.index@.map_values(|s: IndexSlot| s.word@)
    }

    /// The index matches the records.
    pub closed spec fn wf(&self) -> bool {
        index_ok(self.entries@, self.index@)
    }

    /// Builds the lexicon from its records, indexing each entry's canonical
    /// word as it goes; a later entry with an already-seen word takes over
    /// that word's slot.
    pub fn from_entries(entries: Vec<MyEntry>) -> (r: Self)
        ensures
            r.wf(),
            r.spec_entries() == entries@,
    {
        let mut index: Vec<IndexSlot> = Vec::new();
        let mut i: usize = 0;
        proof {
            assert(entries@.take(0) =~= Seq::<MyEntry>::empty());
        }
        while i < entries.len()
            invariant
                i <= entries@.len(),
                index_ok(entries@.take(i as int), index@),
                forall|k: int| 0 <= k < index@.len() ==> #[trigger] index@[k].idx < i,
            decreases entries@.len() - i,
        {
            let ghost pre = entries@.take(i as int);
            let ghost post = entries@.take(i + 1 as int);
            proof {
                assert(post.drop_last() =~= pre);
                assert(post.last() == entries@[i as int]);
            }
            let w_opt = entries[i].word_string();
            match w_opt {
                None => {
                    proof {
                        assert forall|k: int| 0 <= k < index@.len() implies last_index_where(
                            post,
                            word_is(#[trigger] index@[k].word@),
                        ) == Some(index@[k].idx as int) by {
                            assert(!word_is(index@[k].word@)(entries@[i as int]));
                        }
                        assert(index_ok(post, index@));
                    }
                },
                Some(w) => {
                    let ghost wv = w@;
                    let mut k: usize = 0;
                    while k < index.len()
                        invariant_except_break
                            k <= index@.len(),
                            forall|j: int| 0 <= j < k ==> #[trigger] index@[j].word@ != wv,
                            wv == w@,
                        ensures
                            k <= index@.len(),
                            forall|j: int| 0 <= j < k ==> #[trigger] index@[j].word@ != wv,
                            k < index@.len() ==> index@[k as int].word@ == wv,
                            wv == w@,
                        decreases index@.len() - k,
                    {
                        if index[k].word.eq(&w) {
                            break;
                        }
                        k = k + 1;
                    }
                    let ghost idx0 = index@;
                    if k < index.len() {
                        index.set(k, IndexSlot { word: w, idx: i });
                    } else {
                        index.push(IndexSlot { word: w, idx: i });
                    }
                    proof {
                        assert(word_is(wv)(entries@[i as int]));
                        assert forall|kk: int| 0 <= kk < index@.len() implies last_index_where(
                            post,
                            word_is(#[trigger] index@[kk].word@),
                        ) == Some(index@[kk].idx as int) by {
                            if kk == k {
                                assert(index@[kk].word@ == wv);
                                assert(index@[kk].idx == i);
                            } else {
                                assert(index@[kk] == idx0[kk]);
                                assert(idx0[kk].word@ != wv);
                                assert(spec_word_string(entries@[i as int]) == Some(wv));
                                assert(!word_is(idx0[kk].word@)(entries@[i as int]));
                            }
                        }
                        assert forall|i2: int| 0 <= i2 < post.len() implies match spec_word_string(
                            #[trigger] post[i2],
                        ) {
                            Some(w2) => exists|kk: int|
                                0 <= kk < index@.len() && #[trigger] index@[kk].word@ == w2,
                            None => true,
                        } by {
                            if i2 < i {
                                match spec_word_string(pre[i2]) {
                                    Some(w2) => {
                                        if w2 == wv {
                                            assert(index@[k as int].word@ == w2);
                                        } else {
                                            let kk = choose|kk: int|
                                                0 <= kk < idx0.len() && #[trigger] idx0[kk].word@
                                                    == w2;
                                            assert(index@[kk].word@ == w2);
                                        }
                                    },
                                    None => {},
                                }
                            } else {
                                assert(index@[k as int].word@ == wv);
                            }
                        }
                        assert(index_ok(post, index@));
                    }
                },
            }
            i = i + 1;
        }
        proof {
            assert(entries@.take(entries@.len() as int) =~= entries@);
        }
        MyDictionary { entries, index }
    }

    /// Loads the lexicon from the external corpus and indexes it.
    pub fn new() -> (r: Self)
        ensures
            r.wf(),
    {
        MyDictionary::from_entries(corpus_entries())
    }
}

/// Relies on jmdict::entries and the accessors of its records: each record's
/// kanji elements, reading elements, and glosses per sense, copied into the
/// engine's own entry type. What the corpus holds is not specified here;
/// every conclusion drawn from it is proved over the returned values.
#[verifier::external_body]
fn corpus_entries() -> Vec<MyEntry> {
    let mut out = Vec::new();
    for e in jmdict::entries() {
        let kanji_elements = e.kanji_elements().map(|k| k.text.to_string()).collect();
        let reading_elements = e.reading_elements().map(|re| re.text.to_string()).collect();
        let senses = e.senses().map(
            |sn| Sense { glosses: sn.glosses().map(|g| g.text.to_string()).collect() },
        ).collect();
        out.push(MyEntry { kanji_elements, reading_elements, senses });
    }
    out
}

/// Does some logographic spelling of `e` equal `key`?
fn entry_matches_kanji(e: &MyEntry, key: &String) -> (r: bool)
    ensures
        r == has_kanji_element(key@)(*e),
{
    let mut j: usize = 0;
    while j < e.kanji_elements.len()
        invariant
            j <= e.kanji_elements@.len(),
            forall|jj: int| 0 <= jj < j ==> e.kanji_elements@[jj]@ != key@,
        decreases e.kanji_elements@.len() - j,
    {
        if e.kanji_elements[j].eq(key) {
            proof {
                assert(has_kanji_element(key@)(*e));
            }
            return true;
        }
        j = j + 1;
    }
    proof {
        assert(!has_kanji_element(key@)(*e));
    }
    false
}

/// Does some phonetic spelling of `e` equal `key`?
fn entry_matches_reading(e: &MyEntry, key: &String) -> (r: bool)
    ensures
        r == has_reading_element(key@)(*e),
{
    let mut j: usize = 0;
    while j < e.reading_elements.len()
        invariant
            j <= e.reading_elements@.len(),
            forall|jj: int| 0 <= jj < j ==> e.reading_elements@[jj]@ != key@,
        decreases e.reading_elements@.len() - j,
    {
        if e.reading_elements[j].eq(key) {
            proof {
                assert(has_reading_element(key@)(*e));
            }
            return true;
        }
        j = j + 1;
    }
    proof {
        assert(!has_reading_element(key@)(*e));
    }
    false
}

/// Does some gloss of `e` equal `key` exactly?
fn entry_matches_exact_gloss(e: &MyEntry, key: &String) -> (r: bool)
    ensures
        r == has_exact_gloss(key@)(*e),
{
    let mut i: usize = 0;
    while i < e.senses.len()
        invariant
            i <= e.senses@.len(),
            forall|ii: int, jj: int|
                0 <= ii < i && 0 <= jj < e.senses@[ii].glosses@.len()
                    ==> e.senses@[ii].glosses@[jj]@ != key@,
        decreases e.senses@.len() - i,
    {
        let mut j: usize = 0;
        while j < e.senses[i].glosses.len()
            invariant
                i < e.senses@.len(),
                j <= e.senses@[i as int].glosses@.len(),
                forall|jj: int| 0 <= jj < j ==> e.senses@[i as int].glosses@[jj]@ != key@,
            decreases e.senses@[i as int].glosses@.len() - j,
        {
            if e.senses[i].glosses[j].eq(key) {
                proof {
                    assert(has_exact_gloss(key@)(*e));
                }
                return true;
            }
            j = j + 1;
        }
        i = i + 1;
    }
    proof {
        assert(!has_exact_gloss(key@)(*e));
    }
    false
}

/// Does some gloss of `e` contain `key`?
fn entry_matches_gloss_sub(e: &MyEntry, key: &Vec<char>) -> (r: bool)
    ensures
        r == has_gloss_containing(key@)(*e),
{
    let mut i: usize = 0;
    while i < e.senses.len()
        invariant
            i <= e.senses@.len(),
            forall|ii: int, jj: int|
                0 <= ii < i && 0 <= jj < e.senses@[ii].glosses@.len() ==> !spec_contains_sub(
                    e.senses@[ii].glosses@[jj]@,
                    key@,
                ),
        decreases e.senses@.len() - i,
    {
        let mut j: usize = 0;
        while j < e.senses[i].glosses.len()
            invariant
                i < e.senses@.len(),
                j <= e.senses@[i as int].glosses@.len(),
                forall|jj: int| 0 <= jj < j ==> !spec_contains_sub(
                    e.senses@[i as int].glosses@[jj]@,
                    key@,
                ),
        decreases e.senses@[i as int].glosses@.len() - j,
        {
            let gc = str_to_chars(e.senses[i].glosses[j].as_str());
            if contains_sub(&gc, key) {
                proof {
                    assert(has_gloss_containing(key@)(*e));
                }
                return true;
            }
            j = j + 1;
        }
        i = i + 1;
    }
    proof {
        assert(!has_gloss_containing(key@)(*e));
    }
    false
}

impl MyDictionary {
    /// Resolves `word` through the single-hit ladder, per `spec_find`:
    /// indexed canonical word first, then the scans, first hit wins; `None`
    /// when every tier misses.
    pub fn find(&self, word: &String) -> (r: Option<&MyEntry>)
        requires
            self.wf(),
        ensures
            match r {
                Some(e) => spec_find(self.spec_entries(), word@) == Some(*e),
                None => spec_find(self.spec_entries(), word@) is None,
            },
    {
        let ghost ents = self.entries@;
        // Tier 1: the canonical-word index.
        let mut k: usize = 0;
        while k < self.index.len()
            invariant
                self.wf(),
                ents == self.entries@,
                k <= self.index@.len(),
                forall|j: int| 0 <= j < k ==> #[trigger] self.index@[j].word@ != word@,
            decreases self.index@.len() - k,
        {
            if self.index[k].word.eq(word) {
                proof {
                    assert(last_index_where(ents, word_is(word@)) == Some(
                        self.index@[k as int].idx as int,
                    ));
                    lemma_last_index_where(ents, word_is(word@));
                }
                let e = &self.entries[self.index[k].idx];
                return Some(e);
            }
            k = k + 1;
        }
        proof {
            if last_index_where(ents, word_is(word@)) is Some {
                lemma_last_index_where(ents, word_is(word@));
                let i = last_index_where(ents, word_is(word@)).unwrap();
                assert(word_is(word@)(ents[i]));
                assert(spec_word_string(ents[i]) == Some(word@));
                let kk = choose|kk: int|
                    0 <= kk < self.index@.len() && #[trigger] self.index@[kk].word@ == word@;
                assert(false);
            }
        }
        // Tier 2: exact logographic spelling.
        let mut i: usize = 0;
        while i < self.entries.len()
            invariant
                i <= ents.len(),
                ents == self.entries@,
                last_index_where(ents, word_is(word@)) is None,
                forall|j: int| 0 <= j < i ==> !#[trigger] has_kanji_element(word@)(ents[j]),
            decreases ents.len() - i,
        {
            if entry_matches_kanji(&self.entries[i], word) {
                proof {
                    lemma_first_index_where_is(ents, has_kanji_element(word@), Some(i as int));
                }
                return Some(&self.entries[i]);
            }
            i = i + 1;
        }
        proof {
            lemma_first_index_where_is(ents, has_kanji_element(word@), None);
        }
        // Tier 3: exact phonetic spelling.
        let mut i: usize = 0;
        while i < self.entries.len()
            invariant
                i <= ents.len(),
                ents == self.entries@,
                last_index_where(ents, word_is(word@)) is None,
                first_index_where(ents, has_kanji_element(word@)) is None,
                forall|j: int| 0 <= j < i ==> !#[trigger] has_reading_element(word@)(ents[j]),
            decreases ents.len() - i,
        {
            if entry_matches_reading(&self.entries[i], word) {
                proof {
                    lemma_first_index_where_is(ents, has_reading_element(word@), Some(i as int));
                }
                return Some(&self.entries[i]);
            }
            i = i + 1;
        }
        proof {
            lemma_first_index_where_is(ents, has_reading_element(word@), None);
        }
        // Tier 4: exact gloss.
        let mut i: usize = 0;
        while i < self.entries.len()
            invariant
                i <= ents.len(),
                ents == self.entries@,
                last_index_where(ents, word_is(word@)) is None,
                first_index_where(ents, has_kanji_element(word@)) is None,
                first_index_where(ents, has_reading_element(word@)) is None,
                forall|j: int| 0 <= j < i ==> !#[trigger] has_exact_gloss(word@)(ents[j]),
            decreases ents.len() - i,
        {
            if entry_matches_exact_gloss(&self.entries[i], word) {
                proof {
                    lemma_first_index_where_is(ents, has_exact_gloss(word@), Some(i as int));
                }
                return Some(&self.entries[i]);
            }
            i = i + 1;
        }
        proof {
            lemma_first_index_where_is(ents, has_exact_gloss(word@), None);
        }
        None
    }

    /// Resolves `word` through the multi-hit ladder, per `spec_find_all`:
    /// the single hit first, then every entry by logographic spelling, by
    /// phonetic spelling, and by gloss containment, in tier order, without
    /// deduplication.
    pub fn find_all(&self, word: &String) -> (r: Vec<&MyEntry>)
        requires
            self.wf(),
        ensures
            r@.len() == spec_find_all(self.spec_entries(), word@).len(),
            forall|k: int|
                0 <= k < r@.len() ==> *#[trigger] r@[k] == spec_find_all(
                    self.spec_entries(),
                    word@,
                )[k],
    {
        let ghost ents = self.entries@;
        let ghost target = spec_find_all(ents, word@);
        let mut out: Vec<&MyEntry> = Vec::new();
        let ghost shadow = Seq::<MyEntry>::empty();
        match self.find(word) {
            Some(e) => {
                out.push(e);
                proof {
                    shadow = seq![*e];
                }
            },
            None => {},
        }
        let ghost head = shadow;
        proof {
            reveal(Seq::filter);
            assert(ents.take(0).filter(has_kanji_element(word@)) =~= Seq::<MyEntry>::empty());
            assert(shadow =~= head + ents.take(0).filter(has_kanji_element(word@)));
        }
        let mut i: usize = 0;
        while i < self.entries.len()
            invariant
                i <= ents.len(),
                ents == self.entries@,
                out@.len() == shadow.len(),
                forall|k: int| 0 <= k < out@.len() ==> *#[trigger] out@[k] == shadow[k],
                shadow =~= head + ents.take(i as int).filter(has_kanji_element(word@)),
            decreases ents.len() - i,
        {
            proof {
                reveal(Seq::filter);
                assert(ents.take(i + 1 as int).drop_last() =~= ents.take(i as int));
                assert(ents.take(i + 1 as int).last() == ents[i as int]);
            }
            if entry_matches_kanji(&self.entries[i], word) {
                out.push(&self.entries[i]);
                proof {
                    shadow = shadow.push(ents[i as int]);
                }
            }
            proof {
                assert(shadow =~= head + ents.take(i + 1 as int).filter(
                    has_kanji_element(word@),
                ));
            }
            i = i + 1;
        }
        let ghost head2 = shadow;
        proof {
            reveal(Seq::filter);
            assert(ents.take(ents.len() as int) =~= ents);
            assert(head2 =~= head + ents.filter(has_kanji_element(word@)));
            assert(ents.take(0).filter(has_reading_element(word@)) =~= Seq::<MyEntry>::empty());
            assert(shadow =~= head2 + ents.take(0).filter(has_reading_element(word@)));
        }
        let mut i: usize = 0;
        while i < self.entries.len()
            invariant
                i <= ents.len(),
                ents == self.entries@,
                out@.len() == shadow.len(),
                forall|k: int| 0 <= k < out@.len() ==> *#[trigger] out@[k] == shadow[k],
                shadow =~= head2 + ents.take(i as int).filter(has_reading_element(word@)),
            decreases ents.len() - i,
        {
            proof {
                reveal(Seq::filter);
                assert(ents.take(i + 1 as int).drop_last() =~= ents.take(i as int));
                assert(ents.take(i + 1 as int).last() == ents[i as int]);
            }
            if entry_matches_reading(&self.entries[i], word) {
                out.push(&self.entries[i]);
                proof {
                    shadow = shadow.push(ents[i as int]);
                }
            }
            proof {
                assert(shadow =~= head2 + ents.take(i + 1 as int).filter(
                    has_reading_element(word@),
                ));
            }
            i = i + 1;
        }
        let ghost head3 = shadow;
        let key_chars = str_to_chars(word.as_str());
        proof {
            reveal(Seq::filter);
            assert(ents.take(ents.len() as int) =~= ents);
            assert(head3 =~= head2 + ents.filter(has_reading_element(word@)));
            assert(ents.take(0).filter(has_gloss_containing(word@)) =~= Seq::<MyEntry>::empty());
            assert(shadow =~= head3 + ents.take(0).filter(has_gloss_containing(word@)));
        }
        let mut i: usize = 0;
        while i < self.entries.len()
            invariant
                i <= ents.len(),
                ents == self.entries@,
                key_chars@ == word@,
                out@.len() == shadow.len(),
                forall|k: int| 0 <= k < out@.len() ==> *#[trigger] out@[k] == shadow[k],
                shadow =~= head3 + ents.take(i as int).filter(has_gloss_containing(word@)),
            decreases ents.len() - i,
        {
            proof {
                reveal(Seq::filter);
                assert(ents.take(i + 1 as int).drop_last() =~= ents.take(i as int));
                assert(ents.take(i + 1 as int).last() == ents[i as int]);
            }
            if entry_matches_gloss_sub(&self.entries[i], &key_chars) {
                out.push(&self.entries[i]);
                proof {
                    shadow = shadow.push(ents[i as int]);
                }
            }
            proof {
                assert(shadow =~= head3 + ents.take(i + 1 as int).filter(
                    has_gloss_containing(word@),
                ));
            }
            i = i + 1;
        }
        proof {
            reveal(Seq::filter);
            assert(ents.take(ents.len() as int) =~= ents);
            assert(shadow =~= target);
        }
        out
    }

    /// One entry per indexed canonical word, in first-seen order: the
    /// entry each index slot points at.
    pub fn get_all(&self) -> (r: Vec<&MyEntry>)
        requires
            self.wf(),
        ensures
            r@.len() == self.spec_words().len(),
            forall|k: int|
                0 <= k < r@.len() ==> (last_index_where(
                    self.spec_entries(),
                    word_is(#[trigger] self.spec_words()[k]),
                ) matches Some(i) && *r@[k] == self.spec_entries()[i]),
    {
        let ghost ents = self.entries@;
        let mut out: Vec<&MyEntry> = Vec::new();
        let mut k: usize = 0;
        while k < self.index.len()
            invariant
                k <= self.index@.len(),
                self.wf(),
                ents == self.entries@,
                out@.len() == k,
                forall|j: int|
                    0 <= j < k ==> (last_index_where(
                        self.spec_entries(),
                        word_is(#[trigger] self.spec_words()[j]),
                    ) matches Some(i) && *out@[j] == self.spec_entries()[i]),
            decreases self.index@.len() - k,
        {
            proof {
                assert(self.spec_words()[k as int] == self.index@[k as int].word@);
                assert(last_index_where(ents, word_is(self.index@[k as int].word@)) == Some(
                    self.index@[k as int].idx as int,
                ));
                lemma_last_index_where(ents, word_is(self.index@[k as int].word@));
            }
            out.push(&self.entries[self.index[k].idx]);
            k = k + 1;
        }
        out
    }
}

} // verus!
