//! The query surface over the kanji tables: the display payload of a
//! curated record, the closed set of query modes, and the batch validation
//! of the lexicon against the reading tables.
use vstd::prelude::*;

use crate::heisig::{
    HeisigKanji, HeisigKanjis, kanji_is, keyword_has_all, reading_has,
};
use crate::kanjidic::{Kanjidic2, Kanjidic2Entry, literal_matches};
use crate::parser::parse_word;
use crate::text::{
    chars_to_string, empty_to_none, first_index_where, join_strings, last_index_where,
    parse_u8_chars, spec_join, spec_parse_u8, spec_split, spec_trim, split_chars, str_to_chars,
    trim_chars,
};
use crate::translation::{
    MyEntry, spec_kanji_element_string, spec_reading_element_string,
};

verus! {

/// Trimming, as applied to each piece of a split field.
pub open spec fn trim_fn() -> spec_fn(Seq<char>) -> Seq<char> {
    |p: Seq<char>| spec_trim(p)
}

/// The display payload of one curated kanji record.
pub struct HeisigKanjiPayload {
    pub id: String,
    pub kanji: String,
    pub pronunciation: String,
    pub primitives: Vec<String>,
    pub words: Vec<String>,
    pub jlpt_level: Option<u8>,
    pub heisig_mnemonic: Option<String>,
    pub koohii_mnemonic_1: Option<String>,
    pub koohii_mnemonic_2: Option<String>,
}

/// An optional story field: present exactly when the source field is
/// non-empty.
pub open spec fn spec_opt_field(src: Seq<char>, dst: Option<String>) -> bool {
    match dst {
        Some(s) => src.len() > 0 && s@ == src,
        None => src.len() == 0,
    }
}

/// `p` is the display payload of record `k`: identifier and character
/// copied; pronunciation the joined reading fields, kun first; primitives
/// the comma-split, trimmed constituents; words the "<br>"-split, trimmed
/// word list; the JLPT level parsed from its field; each story kept only
/// when non-empty.
pub open spec fn spec_payload(k: HeisigKanji, p: HeisigKanjiPayload) -> bool {
    &&& p.id@ == k.id@
    &&& p.kanji@ == k.kanji@
    &&& p.pronunciation@ == spec_join(seq![k.kunYomi@, k.onYomi@], ", "@)
    &&& p.primitives.deep_view() == spec_split(k.constituent@, seq![',']).map_values(trim_fn())
    &&& p.words.deep_view() == spec_split(k.words@, seq!['<', 'b', 'r', '>']).map_values(
        trim_fn(),
    )
    &&& p.jlpt_level == spec_parse_u8(k.jlpt@)
    &&& spec_opt_field(k.heisigStory@, p.heisig_mnemonic)
    &&& spec_opt_field(k.koohiiStory1@, p.koohii_mnemonic_1)
    &&& spec_opt_field(k.koohiiStory2@, p.koohii_mnemonic_2)
}

/// Splits a field on a separator and trims each piece.
fn split_trim(field: &String, sep: &Vec<char>) -> (r: Vec<String>)
    requires
        sep@.len() >= 1,
    ensures
        r.deep_view() == spec_split(field@, sep@).map_values(trim_fn()),
{
    let cs = str_to_chars(field.as_str());
    let pieces = split_chars(&cs, sep);
    let ghost sp = spec_split(field@, sep@);
    let mut r: Vec<String> = Vec::new();
    let mut i: usize = 0;
    while i < pieces.len()
        invariant
            i <= pieces@.len(),
            pieces.deep_view() == sp,
            sp == spec_split(field@, sep@),
            pieces@.len() == sp.len(),
            r.deep_view() =~= sp.map_values(trim_fn()).take(i as int),
        decreases pieces@.len() - i,
    {
        proof {
            assert(pieces.deep_view()[i as int] == pieces@[i as int]@);
        }
        let t = trim_chars(&pieces[i]);
        let s = chars_to_string(&t);
        let ghost rdv0 = r.deep_view();
        r.push(s);
        proof {
            let m = sp.map_values(trim_fn());
            assert(m[i as int] == trim_fn()(sp[i as int]));
            assert(trim_fn()(sp[i as int]) == spec_trim(sp[i as int]));
            assert(r.deep_view().len() == rdv0.len() + 1);
            assert(forall|j: int| 0 <= j < rdv0.len() ==> r.deep_view()[j] == rdv0[j]);
            assert(r.deep_view()[rdv0.len() as int] == s@);
            assert(r.deep_view() =~= m.take(i + 1 as int));
        }
        i = i + 1;
    }
    proof {
        assert(sp.map_values(trim_fn()).take(sp.len() as int) =~= sp.map_values(trim_fn()));
    }
    r
}

impl HeisigKanjiPayload {
    /// Builds the display payload of one record, per `spec_payload`.
    pub fn from_heisig_kanji(heisig_kanji: &HeisigKanji) -> (r: HeisigKanjiPayload)
        ensures
            spec_payload(*heisig_kanji, r),
    {
        let parts: Vec<String> = vec![
            heisig_kanji.kunYomi.clone(),
            heisig_kanji.onYomi.clone(),
        ];
        proof {
            assert(parts.deep_view() =~= seq![heisig_kanji.kunYomi@, heisig_kanji.onYomi@]);
        }
        let pronunciation = join_strings(&parts, ", ");
        let comma: Vec<char> = vec![','];
        let br: Vec<char> = vec!['<', 'b', 'r', '>'];
        proof {
            assert(comma@ =~= seq![',']);
            assert(br@ =~= seq!['<', 'b', 'r', '>']);
        }
        let primitives = split_trim(&heisig_kanji.constituent, &comma);
        let words = split_trim(&heisig_kanji.words, &br);
        let jl = str_to_chars(heisig_kanji.jlpt.as_str());
        let jlpt_level = parse_u8_chars(&jl);
        HeisigKanjiPayload {
            id: heisig_kanji.id.clone(),
            kanji: heisig_kanji.kanji.clone(),
            pronunciation,
            primitives,
            words,
            jlpt_level,
            heisig_mnemonic: empty_to_none(heisig_kanji.heisigStory.clone()),
            koohii_mnemonic_1: empty_to_none(heisig_kanji.koohiiStory1.clone()),
            koohii_mnemonic_2: empty_to_none(heisig_kanji.koohiiStory2.clone()),
        }
    }
}

/// The closed set of query modes against the curated kanji table.
pub enum HeisigKanjiQuery {
    Kanji(String),
    Reading(String),
    Keywords(Vec<String>),
}

/// Runs one query against the table and builds the payload of every hit,
/// in hit order.
pub fn search_heisig_kanji(kanjis: &HeisigKanjis, query: &HeisigKanjiQuery) -> (r: Vec<
    HeisigKanjiPayload,
>)
    ensures
        match query {
            HeisigKanjiQuery::Kanji(c) => match last_index_where(
                kanjis.spec_records(),
                kanji_is(c@),
            ) {
                Some(i) => r@.len() == 1 && spec_payload(kanjis.spec_records()[i], r@[0]),
                None => r@.len() == 0,
            },
            HeisigKanjiQuery::Reading(rd) => r@.len() == kanjis.spec_records().filter(
                reading_has(rd@),
            ).len() && forall|k: int|
                0 <= k < r@.len() ==> spec_payload(
                    kanjis.spec_records().filter(reading_has(rd@))[k],
                    #[trigger] r@[k],
                ),
            HeisigKanjiQuery::Keywords(ks) => r@.len() == kanjis.spec_records().filter(
                keyword_has_all(ks.deep_view()),
            ).len() && forall|k: int|
                0 <= k < r@.len() ==> spec_payload(
                    kanjis.spec_records().filter(keyword_has_all(ks.deep_view()))[k],
                    #[trigger] r@[k],
                ),
        },
{
    let hits: Vec<&HeisigKanji> = match query {
        HeisigKanjiQuery::Kanji(c) => kanjis.get_by_kanji(c),
        HeisigKanjiQuery::Reading(rd) => kanjis.get_by_reading(rd),
        HeisigKanjiQuery::Keywords(ks) => kanjis.get_by_keywords(ks),
    };
    let mut r: Vec<HeisigKanjiPayload> = Vec::new();
    let mut i: usize = 0;
    while i < hits.len()
        invariant
            i <= hits@.len(),
            r@.len() == i,
            forall|k: int|
                0 <= k < i ==> spec_payload(*hits@[k], #[trigger] r@[k]),
        decreases hits@.len() - i,
    {
        r.push(HeisigKanjiPayload::from_heisig_kanji(hits[i]));
        i = i + 1;
    }
    r
}

/// Builds the payload of every record of the table, in table order.
pub fn get_heisig_kanjis(kanjis: &HeisigKanjis) -> (r: Vec<HeisigKanjiPayload>)
    ensures
        r@.len() == kanjis.spec_records().len(),
        forall|k: int|
            0 <= k < r@.len() ==> spec_payload(kanjis.spec_records()[k], #[trigger] r@[k]),
{
    let all = kanjis.get_all();
    let mut r: Vec<HeisigKanjiPayload> = Vec::new();
    let mut i: usize = 0;
    while i < all.len()
        invariant
            i <= all@.len(),
            all@ == kanjis.spec_records(),
            r@.len() == i,
            forall|k: int|
                0 <= k < i ==> spec_payload(kanjis.spec_records()[k], #[trigger] r@[k]),
        decreases all@.len() - i,
    {
        r.push(HeisigKanjiPayload::from_heisig_kanji(&all[i]));
        i = i + 1;
    }
    r
}

/// The record each character resolves to: one payload per character the
/// table knows, in the characters' order, unknown characters skipped.
pub open spec fn spec_multi_hits(recs: Seq<HeisigKanji>, keys: Seq<Seq<char>>) -> Seq<
    HeisigKanji,
>
    decreases keys.len(),
{
    if keys.len() == 0 {
        Seq::empty()
    } else {
        spec_multi_hits(recs, keys.drop_last()) + (match last_index_where(
            recs,
            kanji_is(keys.last()),
        ) {
            Some(i) => seq![recs[i]],
            None => Seq::<HeisigKanji>::empty(),
        })
    }
}

/// Looks up each given character and builds the payload of every hit.
pub fn search_heisig_kanjis(kanjis: &HeisigKanjis, chars: &Vec<String>) -> (r: Vec<
    HeisigKanjiPayload,
>)
    ensures
        r@.len() == spec_multi_hits(kanjis.spec_records(), chars.deep_view()).len(),
        forall|k: int|
            0 <= k < r@.len() ==> spec_payload(
                spec_multi_hits(kanjis.spec_records(), chars.deep_view())[k],
                #[trigger] r@[k],
            ),
{
    let ghost keys = chars.deep_view();
    let ghost recs = kanjis.spec_records();
    let mut r: Vec<HeisigKanjiPayload> = Vec::new();
    let mut i: usize = 0;
    proof {
        assert(keys.take(0) =~= Seq::<Seq<char>>::empty());
    }
    while i < chars.len()
        invariant
            i <= chars@.len(),
            keys == chars.deep_view(),
            keys.len() == chars@.len(),
            recs == kanjis.spec_records(),
            r@.len() == spec_multi_hits(recs, keys.take(i as int)).len(),
            forall|k: int|
                0 <= k < r@.len() ==> spec_payload(
                    spec_multi_hits(recs, keys.take(i as int))[k],
                    #[trigger] r@[k],
                ),
        decreases chars@.len() - i,
    {
        proof {
            assert(keys.take(i + 1 as int).drop_last() =~= keys.take(i as int));
            assert(keys.take(i + 1 as int).last() == keys[i as int]);
            assert(keys[i as int] == chars@[i as int]@);
        }
        let hit = kanjis.get_by_kanji(&chars[i]);
        if hit.len() > 0 {
            r.push(HeisigKanjiPayload::from_heisig_kanji(hit[0]));
        }
        i = i + 1;
    }
    proof {
        assert(keys.take(keys.len() as int) =~= keys);
    }
    r
}

/// The matching reading-table records of one character: at most one, the
/// first record with that literal.
pub fn get_kanjidic2_by_kanji<'a>(kanjidic: &'a Kanjidic2, kanji: &String) -> (r: Vec<
    &'a Kanjidic2Entry,
>)
    ensures
        match first_index_where(kanjidic.spec_entries(), literal_matches(kanji@)) {
            Some(i) => r@.len() == 1 && *r@[0] == kanjidic.spec_entries()[i],
            None => r@.len() == 0,
        },
{
    let mut r: Vec<&Kanjidic2Entry> = Vec::new();
    match kanjidic.find_by_kanji(kanji) {
        Some(e) => {
            r.push(e);
        },
        None => {},
    }
    r
}

/// The errors an entry must contribute to validation: a missing canonical
/// logographic spelling is skipped, an empty one always fails preparation.
pub open spec fn spec_entry_min_err(e: MyEntry) -> int {
    match spec_kanji_element_string(e) {
        None => 0,
        Some(w) => if w.len() == 0 {
            1
        } else {
            0
        },
    }
}

/// The errors an entry may contribute: one more case, an entry without a
/// recorded reading, whose preparation depends on the external tokenizer.
pub open spec fn spec_entry_max_err(e: MyEntry) -> int {
    match spec_kanji_element_string(e) {
        None => 0,
        Some(w) => if w.len() == 0 {
            1
        } else if spec_reading_element_string(e) is Some {
            0
        } else {
            1
        },
    }
}

/// Lower bound on the failures of a batch validation.
pub open spec fn spec_min_errors(s: Seq<MyEntry>) -> int
    decreases s.len(),
{
    if s.len() == 0 {
        0
    } else {
        spec_min_errors(s.drop_last()) + spec_entry_min_err(s.last())
    }
}

/// Upper bound on the failures of a batch validation.
pub open spec fn spec_max_errors(s: Seq<MyEntry>) -> int
    decreases s.len(),
{
    if s.len() == 0 {
        0
    } else {
        spec_max_errors(s.drop_last()) + spec_entry_max_err(s.last())
    }
}

/// Walks every entry and checks that its canonical logographic spelling can
/// be prepared for alignment against the reading table. A failing entry is
/// counted, never aborts the batch. Returns how many entries were walked
/// and how many failed; the exact failure count can depend on the external
/// tokenizer where an entry records no reading, so it is bounded, not
/// pinned.
pub fn validate_dictionary(entries: &Vec<MyEntry>, kanjidic: &Kanjidic2) -> (r: (usize, usize))
    ensures
        r.0 == entries@.len(),
        spec_min_errors(entries@) <= r.1 <= spec_max_errors(entries@),
        r.1 <= entries@.len(),
{
    let mut errors: usize = 0;
    let mut i: usize = 0;
    proof {
        assert(entries@.take(0) =~= Seq::<MyEntry>::empty());
    }
    while i < entries.len()
        invariant
            i <= entries@.len(),
            errors <= i,
            spec_min_errors(entries@.take(i as int)) <= errors <= spec_max_errors(
                entries@.take(i as int),
            ),
        decreases entries@.len() - i,
    {
        proof {
            assert(entries@.take(i + 1 as int).drop_last() =~= entries@.take(i as int));
            assert(entries@.take(i + 1 as int).last() == entries@[i as int]);
        }
        let e = &entries[i];
        match e.kanji_element_string() {
            Some(w) => {
                let reading = e.reading_element_string();
                match parse_word(&w, reading, kanjidic) {
                    Ok(_) => {},
                    Err(_) => {
                        errors = errors + 1;
                    },
                }
            },
            None => {},
        }
        i = i + 1;
    }
    proof {
        assert(entries@.take(entries@.len() as int) =~= entries@);
    }
    (entries.len(), errors)
}

} // verus!
