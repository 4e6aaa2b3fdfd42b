//! The tiered lexicon matcher and the lookup orchestrator.
use kanji_tool::errors::LookupError;
use kanji_tool::translation::{MyDictionary, MyEntry, Sense};
use kanji_tool::word::{MyToken, Word, lemma_of_tokens, reading_of_tokens, unique_entries};

fn entry(kanji: &[&str], readings: &[&str], glosses: &[&str]) -> MyEntry {
    MyEntry {
        kanji_elements: kanji.iter().map(|s| s.to_string()).collect(),
        reading_elements: readings.iter().map(|s| s.to_string()).collect(),
        senses: vec![Sense { glosses: glosses.iter().map(|s| s.to_string()).collect() }],
    }
}

fn sample_dictionary() -> MyDictionary {
    MyDictionary::from_entries(vec![
        entry(&["時計"], &["とけい"], &["watch", "clock"]),
        entry(&["犬"], &["いぬ"], &["dog"]),
        entry(&[], &["ねこ"], &["cat"]),
        entry(&["犬", "狗"], &["いぬ"], &["hound"]),
    ])
}

fn token(details: &[&str]) -> MyToken {
    MyToken { details: details.iter().map(|s| s.to_string()).collect() }
}

/// A token whose lemma detail field is `lemma` and whose reading detail
/// field is katakana.
fn lemma_token(lemma: &str) -> MyToken {
    token(&["n", "a", "b", "c", "d", "e", lemma, "ヨミ"])
}

#[test]
fn entry_strings_flatten_the_record() {
    let e = entry(&["犬", "狗"], &["いぬ"], &["dog", "hound"]);
    assert_eq!(e.kanji_element_string(), Some(String::from("犬")));
    assert_eq!(e.reading_element_string(), Some(String::from("いぬ")));
    assert_eq!(e.word_string(), Some(String::from("犬")));
    assert_eq!(e.kanji_elements_string(), "犬, 狗");
    assert_eq!(e.reading_elements_string(), "いぬ");
    assert_eq!(e.translations_string(), "dog, hound");
    let d = e.entry_display();
    assert_eq!(d.word, "犬");
    assert_eq!(d.reading, "いぬ");
    assert_eq!(d.translations, "dog, hound");
}

#[test]
fn entry_without_spellings_displays_placeholder() {
    let e = entry(&[], &[], &["nothing"]);
    assert_eq!(e.word_string(), None);
    assert_eq!(e.entry_display().word, "No word found");
}

#[test]
fn multi_sense_glosses_join_with_semicolons() {
    let e = MyEntry {
        kanji_elements: vec![String::from("行")],
        reading_elements: vec![String::from("こう")],
        senses: vec![
            Sense { glosses: vec![String::from("to go"), String::from("to walk")] },
            Sense { glosses: vec![String::from("line")] },
        ],
    };
    assert_eq!(e.translations_string(), "to go, to walk; line");
}

#[test]
fn find_prefers_the_canonical_index() {
    let dic = sample_dictionary();
    let hit = dic.find(&String::from("時計")).expect("indexed word");
    assert_eq!(hit.word_string(), Some(String::from("時計")));
    assert_eq!(hit.translations_string(), "watch, clock");
}

#[test]
fn find_overwrite_keeps_the_last_entry_per_word() {
    // Two entries share the canonical word; the index keeps the later one.
    let dic = sample_dictionary();
    let hit = dic.find(&String::from("犬")).expect("indexed word");
    assert_eq!(hit.translations_string(), "hound");
}

#[test]
fn find_falls_back_to_spelling_scans() {
    let dic = sample_dictionary();
    // "狗" is nobody's canonical word, but a logographic spelling.
    let by_kanji = dic.find(&String::from("狗")).expect("spelling scan");
    assert_eq!(by_kanji.translations_string(), "hound");
    // "ねこ" is the canonical word of the kanji-less entry (tier 1 already).
    let by_reading = dic.find(&String::from("ねこ")).expect("reading");
    assert_eq!(by_reading.translations_string(), "cat");
    // A gloss matches only exactly in the single-hit ladder.
    let by_gloss = dic.find(&String::from("dog")).expect("gloss scan");
    assert_eq!(by_gloss.translations_string(), "dog");
    assert!(dic.find(&String::from("do")).is_none());
}

#[test]
fn find_all_never_returns_fewer_than_find() {
    let dic = sample_dictionary();
    for key in ["時計", "犬", "狗", "ねこ", "dog", "watch"] {
        let single = dic.find(&String::from(key));
        let all = dic.find_all(&String::from(key));
        if single.is_some() {
            assert!(!all.is_empty());
            // The single hit opens the multi-hit list.
            assert_eq!(
                all[0].translations_string(),
                single.unwrap().translations_string()
            );
        }
    }
}

#[test]
fn find_all_relaxes_gloss_matching_to_containment() {
    let dic = sample_dictionary();
    // "do" hits nothing exactly, but occurs inside "dog".
    assert!(dic.find(&String::from("do")).is_none());
    let all = dic.find_all(&String::from("do"));
    assert_eq!(all.len(), 1);
    assert_eq!(all[0].translations_string(), "dog");
}

#[test]
fn get_all_lists_one_entry_per_canonical_word() {
    let dic = sample_dictionary();
    let all = dic.get_all();
    let words: Vec<Option<String>> = all.iter().map(|e| e.word_string()).collect();
    assert_eq!(
        words,
        vec![
            Some(String::from("時計")),
            Some(String::from("犬")),
            Some(String::from("ねこ")),
        ]
    );
    // The slot of "犬" points at the later record.
    assert_eq!(all[1].translations_string(), "hound");
}

#[test]
fn corpus_backed_dictionary_loads() {
    // This build compiles the external corpus without its data, so the
    // loaded lexicon is simply empty.
    let dic = MyDictionary::new();
    assert!(dic.find(&String::from("時計")).is_none());
}

#[test]
fn lemma_comes_from_the_first_token() {
    let tokens = vec![lemma_token("時計"), lemma_token("です")];
    assert_eq!(lemma_of_tokens(&tokens), Ok(String::from("時計")));
    let short = vec![token(&["only", "six", "details", "x", "y", "z"])];
    assert_eq!(lemma_of_tokens(&short), Err(LookupError::NoLemma));
    assert_eq!(lemma_of_tokens(&Vec::new()), Err(LookupError::NoLemma));
}

#[test]
fn reading_concatenates_token_fragments() {
    let tokens = vec![lemma_token("時計"), token(&["です"])];
    // The first token has a reading field, the second falls back to its
    // first detail.
    assert_eq!(reading_of_tokens(&tokens), "ヨミです");
}

#[test]
fn token_accessors_expose_detail_fields() {
    let t = lemma_token("時計");
    assert_eq!(t.text(), "n");
    assert_eq!(t.lemma(), Some("時計"));
    assert_eq!(t.reading(), Some("ヨミ"));
    let bare = token(&["x"]);
    assert_eq!(bare.lemma(), None);
    assert_eq!(bare.reading(), None);
}

#[test]
fn resolve_prefers_lemma_then_surface() {
    let dic = sample_dictionary();
    // The lemma resolves: its hit wins.
    let w = Word::new(String::from("狗"));
    let tokens = vec![lemma_token("時計")];
    let hit = w
        .find_in_dictionary_with_tokens(&tokens, &dic)
        .expect("lemma resolves")
        .expect("a hit");
    assert_eq!(hit.word_string(), Some(String::from("時計")));
    // The lemma misses: the surface form is tried.
    let tokens = vec![lemma_token("nonsense")];
    let hit = w
        .find_in_dictionary_with_tokens(&tokens, &dic)
        .expect("surface resolves")
        .expect("a hit");
    assert_eq!(hit.translations_string(), "hound");
    // Both miss: that is a clean absence, not an error.
    let absent = Word::new(String::from("zzz"));
    let tokens = vec![lemma_token("nonsense")];
    assert_eq!(
        absent
            .find_in_dictionary_with_tokens(&tokens, &dic)
            .expect("no failure")
            .is_none(),
        true
    );
}

#[test]
fn resolve_without_lemma_reports_no_lemma() {
    // A token list without a usable lemma yields the NoLemma failure, not a
    // silent empty result.
    let dic = sample_dictionary();
    let w = Word::new(String::from("犬"));
    let r = w.find_in_dictionary_with_tokens(&Vec::new(), &dic);
    assert_eq!(r.err(), Some(LookupError::NoLemma));
    let all = w.find_all_candidates_with_tokens(&Vec::new(), &dic);
    assert_eq!(all.err(), Some(LookupError::NoLemma));
}

#[test]
fn candidates_deduplicate_by_canonical_word() {
    let dic = sample_dictionary();
    let w = Word::new(String::from("犬"));
    let tokens = vec![lemma_token("犬")];
    let cands = w
        .find_all_candidates_with_tokens(&tokens, &dic)
        .expect("lemma present");
    // Both passes hit the two 犬 entries repeatedly; one survivor per
    // canonical word.
    let words: Vec<Option<String>> = cands.iter().map(|e| e.word_string()).collect();
    for i in 0..words.len() {
        for j in (i + 1)..words.len() {
            assert_ne!(words[i], words[j]);
        }
    }
    assert_eq!(words, vec![Some(String::from("犬"))]);
}

#[test]
fn unique_entries_keeps_first_occurrence() {
    let a = entry(&["犬"], &["いぬ"], &["dog"]);
    let b = entry(&["犬"], &["いぬ"], &["hound"]);
    let c = entry(&["猫"], &["ねこ"], &["cat"]);
    let deduped = unique_entries(vec![&a, &b, &c]);
    assert_eq!(deduped.len(), 2);
    assert_eq!(deduped[0].translations_string(), "dog");
    assert_eq!(deduped[1].translations_string(), "cat");
}

#[test]
fn word_wraps_its_surface_form() {
    let w = Word::new(String::from("時計"));
    assert_eq!(w.as_str(), "時計");
}

#[test]
fn runtime_tokenizer_is_unavailable_in_this_build() {
    // This build carries no embedded segmentation dictionary: every path
    // that needs the tokenizer reports its failure kind, never a silent
    // empty result.
    let dic = sample_dictionary();
    let w = Word::new(String::from("時計"));
    assert!(w.tokenize().is_none());
    assert_eq!(w.get_lemma().err(), Some(LookupError::NoLemma));
    assert_eq!(w.to_hiragana().err(), Some(LookupError::ReadingNotProvided));
    assert_eq!(w.find_in_dictionary(&dic).err(), Some(LookupError::NoLemma));
    assert_eq!(w.find_all_candidates(&dic).err(), Some(LookupError::NoLemma));
    assert_eq!(
        kanji_tool::word::get_word_dict_entry(String::from("時計"), &dic).err(),
        Some(LookupError::NoLemma)
    );
    assert_eq!(
        kanji_tool::word::get_word_candidates(String::from("時計"), &dic).err(),
        Some(LookupError::NoLemma)
    );
}
