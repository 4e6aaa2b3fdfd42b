//! The curated kanji table, its query payloads, the reading table, the
//! batch validation, and the user-curated entity stores.
use kanji_tool::commands::{
    HeisigKanjiPayload, HeisigKanjiQuery, get_heisig_kanjis, get_kanjidic2_by_kanji,
    search_heisig_kanji, search_heisig_kanjis, validate_dictionary,
};
use kanji_tool::entity::{Entity, EntityError};
use kanji_tool::heisig::{HeisigKanji, HeisigKanjis};
use kanji_tool::kanji::parse_word as parse_word_slots;
use kanji_tool::kanjidic::{Kanjidic2, Kanjidic2Entry};
use kanji_tool::kanjis::{Kanji, KanjiCreatePayload, Kanjis};
use kanji_tool::translation::{MyEntry, Sense};
use kanji_tool::words::{KanjiReading, WordCreatePayload, Words};

fn heisig(id: &str, kanji: &str, keyword: &str, on: &str, kun: &str) -> HeisigKanji {
    HeisigKanji {
        id: id.to_string(),
        frameNoV4: String::new(),
        frameNoV6: String::new(),
        keyword: keyword.to_string(),
        kanji: kanji.to_string(),
        strokeDiagram: String::new(),
        hint: String::new(),
        constituent: String::from("drop, one , mouth"),
        strokeCount: String::new(),
        lessonNo: String::new(),
        myStory: String::new(),
        heisigStory: String::from("a story"),
        heisigComment: String::new(),
        koohiiStory1: String::new(),
        koohiiStory2: String::from("another story"),
        jouYou: String::new(),
        jlpt: String::from("4"),
        onYomi: on.to_string(),
        kunYomi: kun.to_string(),
        words: String::from("日本 <br> 日曜日"),
        readingExamples: String::new(),
    }
}

fn sample_table() -> HeisigKanjis {
    HeisigKanjis::new(vec![
        heisig("1", "日", "day", "ニチ", "ひ"),
        heisig("2", "月", "month", "ゲツ", "つき"),
        heisig("3", "明", "bright", "メイ", "あ.かり"),
    ])
}

#[test]
fn payload_flattens_a_record() {
    let k = heisig("1", "日", "day", "ニチ", "ひ");
    let p = HeisigKanjiPayload::from_heisig_kanji(&k);
    assert_eq!(p.id, "1");
    assert_eq!(p.kanji, "日");
    assert_eq!(p.pronunciation, "ひ, ニチ");
    assert_eq!(p.primitives, vec!["drop", "one", "mouth"]);
    assert_eq!(p.words, vec!["日本", "日曜日"]);
    assert_eq!(p.jlpt_level, Some(4));
    assert_eq!(p.heisig_mnemonic, Some(String::from("a story")));
    assert_eq!(p.koohii_mnemonic_1, None);
    assert_eq!(p.koohii_mnemonic_2, Some(String::from("another story")));
}

#[test]
fn table_lookup_by_id_and_kanji() {
    let t = sample_table();
    assert_eq!(t.get_by_id(&String::from("2")).unwrap().kanji, "月");
    assert!(t.get_by_id(&String::from("9")).is_none());
    let hit = t.get_by_kanji(&String::from("明"));
    assert_eq!(hit.len(), 1);
    assert_eq!(hit[0].id, "3");
    assert!(t.get_by_kanji(&String::from("火")).is_empty());
    assert_eq!(t.get_all().len(), 3);
}

#[test]
fn table_search_by_reading_substring() {
    let t = sample_table();
    let hits = t.get_by_reading(&String::from("ひ"));
    assert_eq!(hits.len(), 1);
    assert_eq!(hits[0].kanji, "日");
    // A substring of an on reading also matches.
    let hits = t.get_by_reading(&String::from("メ"));
    assert_eq!(hits.len(), 1);
    assert_eq!(hits[0].kanji, "明");
}

#[test]
fn table_search_by_keywords_needs_all() {
    let t = sample_table();
    let hits = t.get_by_keywords(&vec![String::from("br"), String::from("ght")]);
    assert_eq!(hits.len(), 1);
    assert_eq!(hits[0].kanji, "明");
    let none = t.get_by_keywords(&vec![String::from("br"), String::from("day")]);
    assert!(none.is_empty());
    // No keywords at all: everything matches.
    assert_eq!(t.get_by_keywords(&Vec::new()).len(), 3);
}

#[test]
fn query_modes_dispatch_to_their_scan() {
    let t = sample_table();
    let by_kanji = search_heisig_kanji(&t, &HeisigKanjiQuery::Kanji(String::from("日")));
    assert_eq!(by_kanji.len(), 1);
    assert_eq!(by_kanji[0].id, "1");
    let by_reading = search_heisig_kanji(&t, &HeisigKanjiQuery::Reading(String::from("ツキ")));
    assert!(by_reading.is_empty());
    let by_keyword =
        search_heisig_kanji(&t, &HeisigKanjiQuery::Keywords(vec![String::from("mon")]));
    assert_eq!(by_keyword.len(), 1);
    assert_eq!(by_keyword[0].kanji, "月");
    assert_eq!(get_heisig_kanjis(&t).len(), 3);
}

#[test]
fn multi_character_search_skips_unknown() {
    let t = sample_table();
    let hits = search_heisig_kanjis(
        &t,
        &vec![String::from("月"), String::from("火"), String::from("日")],
    );
    let ids: Vec<String> = hits.iter().map(|p| p.id.clone()).collect();
    assert_eq!(ids, vec!["2", "1"]);
}

#[test]
fn reading_table_finds_first_literal_match() {
    let dic = Kanjidic2::new(vec![
        Kanjidic2Entry {
            literal: String::from("日"),
            ja_on: String::from("ニチ"),
            ja_kun: String::from("ひ"),
            heisig: String::new(),
            heisig6: String::new(),
        },
    ]);
    assert_eq!(dic.find_by_kanji(&String::from("日")).unwrap().ja_kun, "ひ");
    assert!(dic.find_by_kanji(&String::from("月")).is_none());
    let hits = get_kanjidic2_by_kanji(&dic, &String::from("日"));
    assert_eq!(hits.len(), 1);
    assert!(get_kanjidic2_by_kanji(&dic, &String::from("月")).is_empty());
}

#[test]
fn validation_counts_failures_without_aborting() {
    let dic = Kanjidic2::new(Vec::new());
    let entries = vec![
        // Has a kanji string and a recorded reading: prepares fine.
        MyEntry {
            kanji_elements: vec![String::from("犬")],
            reading_elements: vec![String::from("いぬ")],
            senses: vec![Sense { glosses: vec![String::from("dog")] }],
        },
        // An empty kanji string always fails preparation.
        MyEntry {
            kanji_elements: vec![String::new()],
            reading_elements: vec![String::from("x")],
            senses: Vec::new(),
        },
        // No kanji string at all: skipped, not an error.
        MyEntry {
            kanji_elements: Vec::new(),
            reading_elements: vec![String::from("ねこ")],
            senses: Vec::new(),
        },
    ];
    let (walked, errors) = validate_dictionary(&entries, &dic);
    assert_eq!(walked, 3);
    assert_eq!(errors, 1);
}

#[test]
fn word_slots_carry_empty_readings() {
    let w = parse_word_slots(&String::from("時計"));
    assert_eq!(w.vec.len(), 2);
    assert_eq!(w.vec[0].char, "時");
    assert_eq!(w.vec[1].char, "計");
    assert!(w.vec[0].reading.is_empty());
}

#[test]
fn kanji_store_refuses_duplicates() {
    let mut store = Kanjis::new();
    let payload = KanjiCreatePayload {
        kanji: String::from("日"),
        meaning: String::from("day"),
        readings: vec![String::from("ひ")],
    };
    {
        let created = store.add_entity(&payload).expect("first insertion");
        assert_eq!(created.kanji, "日");
        assert_eq!(created.readings, vec!["ひ"]);
        assert!(created.tags.is_empty());
        assert_eq!(created.identifier(), "日");
    }
    assert!(store.has_entity(&String::from("日")));
    assert!(!store.has_entity(&String::from("月")));
    assert_eq!(store.add_entity(&payload).err(), Some(EntityError::AlreadyExists));
    assert_eq!(store.get_entities().len(), 1);
    assert_eq!(EntityError::AlreadyExists.message(), "Entity already exists");
}

#[test]
fn word_store_refuses_duplicates() {
    let mut store = Words::new();
    let payload = WordCreatePayload {
        word: String::from("時計"),
        meaning: String::from("clock"),
        kanji_readings: vec![
            KanjiReading { reading: String::from("と") },
            KanjiReading { reading: String::from("けい") },
        ],
    };
    {
        let created = store.add_word(&payload).expect("first insertion");
        assert_eq!(created.word, "時計");
        assert_eq!(created.meaning, "clock");
        assert_eq!(created.kanji_readings.len(), 2);
        assert_eq!(created.kanji_readings[1].reading, "けい");
        assert_eq!(created.identifier(), "時計");
    }
    assert!(store.has_word(&String::from("時計")));
    assert_eq!(store.add_word(&payload).err(), Some(EntityError::AlreadyExists));
    assert_eq!(store.get_words().len(), 1);
}

#[test]
fn loaded_stores_keep_their_records() {
    let k = Kanji {
        id: String::from("i"),
        kanji: String::from("月"),
        readings: Vec::new(),
        tags: Vec::new(),
        writing_mnemonic: None,
        reading_mnemonic: None,
    };
    let store = Kanjis::from_entities(vec![k]);
    assert!(store.has_entity(&String::from("月")));
    let w = kanji_tool::words::Word {
        id: String::from("i"),
        word: String::from("犬"),
        meaning: String::from("dog"),
        kanji_readings: Vec::new(),
    };
    let store = Words::from_words(vec![w]);
    assert!(store.has_word(&String::from("犬")));
}

#[test]
fn minted_identifiers_differ() {
    // Two creations of the same payload draw different random identifiers.
    let payload = KanjiCreatePayload {
        kanji: String::from("日"),
        meaning: String::from("day"),
        readings: Vec::new(),
    };
    let mut a = Kanjis::new();
    let mut b = Kanjis::new();
    let ka = a.add_entity(&payload).unwrap().id.clone();
    let kb = b.add_entity(&payload).unwrap().id.clone();
    assert_ne!(ka, kb);
}
