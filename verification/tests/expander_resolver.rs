//! The phonological variant expander and the reading-candidate resolver.
use kanji_tool::errors::LookupError;
use kanji_tool::kanjidic::{Kanjidic2, Kanjidic2Entry};
use kanji_tool::parser::{
    Furigana, FuriganaString, build_candidate_map, get_readings_for_kanji, parse_word,
    repetition_variants, transform_first_to_dakuten, transform_to_dakuten,
};

fn entry(literal: &str, ja_on: &str, ja_kun: &str) -> Kanjidic2Entry {
    Kanjidic2Entry {
        literal: literal.to_string(),
        ja_on: ja_on.to_string(),
        ja_kun: ja_kun.to_string(),
        heisig: String::new(),
        heisig6: String::new(),
    }
}

fn readings(word_char: char, dic: &Kanjidic2) -> Vec<String> {
    get_readings_for_kanji(word_char, dic).expect("character should have a record")
}

#[test]
fn voicing_table_covers_the_consonant_rows() {
    assert_eq!(transform_to_dakuten(&'か'), 'が');
    assert_eq!(transform_to_dakuten(&'と'), 'ど');
    assert_eq!(transform_to_dakuten(&'ほ'), 'ぼ');
    // No voiced counterpart: passes through.
    assert_eq!(transform_to_dakuten(&'あ'), 'あ');
    assert_eq!(transform_to_dakuten(&'ん'), 'ん');
}

#[test]
fn voices_only_the_first_syllable() {
    assert_eq!(transform_first_to_dakuten(&String::from("とき")), "どき");
    assert_eq!(transform_first_to_dakuten(&String::from("あめ")), "あめ");
    assert_eq!(transform_first_to_dakuten(&String::new()), "");
}

#[test]
fn expands_kun_before_on_and_appends_geminates() {
    // Kun "ま.つ" loses its delimiter; on "タイ" converts to the secondary
    // block; the "tsu"-final reading gains a geminate variant at the end,
    // with the original kept in place before it.
    let dic = Kanjidic2::new(vec![entry("待", "タイ", "ま.つ")]);
    assert_eq!(readings('待', &dic), vec!["まつ", "たい", "まっ"]);
}

#[test]
fn keeps_empty_fragments_and_hyphen_stripping() {
    // An empty on field still yields one (empty) fragment; hyphens are
    // dropped from kun readings; two kun readings stay in order.
    let dic = Kanjidic2::new(vec![entry("時", "", "とき;-どき")]);
    assert_eq!(readings('時', &dic), vec!["とき", "どき", ""]);
}

#[test]
fn expansion_misses_unknown_characters() {
    let dic = Kanjidic2::new(vec![entry("時", "ジ", "とき")]);
    assert!(get_readings_for_kanji('待', &dic).is_none());
}

#[test]
fn repetition_mark_variants_voice_first() {
    // The repetition-mark list of a single candidate "とき": the voiced
    // variant first, the original second.
    let vars = repetition_variants(&vec![String::from("とき")]);
    assert_eq!(vars, vec!["どき", "とき"]);
}

#[test]
fn scan_records_candidates_per_character() {
    let dic = Kanjidic2::new(vec![entry("時", "ジ", "とき"), entry("計", "ケイ", "はか.る")]);
    let map = build_candidate_map(&String::from("時計です"), &dic);
    assert_eq!(map.len(), 2);
    assert_eq!(map.get('時').unwrap(), &vec!["とき", "じ"]);
    assert_eq!(map.get('計').unwrap(), &vec!["はかる", "けい"]);
    assert!(map.get('で').is_none());
}

#[test]
fn scan_derives_repetition_mark_from_preceding_character() {
    let dic = Kanjidic2::new(vec![entry("時", "ジ", "とき")]);
    let map = build_candidate_map(&String::from("時々"), &dic);
    assert_eq!(map.get('時').unwrap(), &vec!["とき", "じ"]);
    assert_eq!(map.get('々').unwrap(), &vec!["どき", "とき", "じ", "じ"]);
}

#[test]
fn scan_skips_unresolvable_characters_silently() {
    let dic = Kanjidic2::new(vec![entry("時", "ジ", "とき")]);
    let map = build_candidate_map(&String::from("火時"), &dic);
    assert_eq!(map.len(), 1);
    assert!(map.get('火').is_none());
    assert_eq!(map.get('時').unwrap(), &vec!["とき", "じ"]);
}

#[test]
fn repetition_mark_without_preceding_kanji_is_ignored() {
    let dic = Kanjidic2::new(vec![entry("時", "ジ", "とき")]);
    let map = build_candidate_map(&String::from("々あ々"), &dic);
    assert_eq!(map.len(), 0);
}

#[test]
fn parse_word_rejects_the_empty_word() {
    let dic = Kanjidic2::new(Vec::new());
    let r = parse_word(&String::new(), Some(String::from("よみ")), &dic);
    assert_eq!(r.err(), Some(LookupError::EmptyInput));
}

#[test]
fn parse_word_prepares_reading_and_candidates() {
    let dic = Kanjidic2::new(vec![entry("時", "ジ", "とき"), entry("計", "ケイ", "はか.る")]);
    let req = parse_word(&String::from("時計"), Some(String::from("とけい")), &dic)
        .expect("an explicit reading must succeed");
    assert_eq!(req.word, "時計");
    assert_eq!(req.reading, "とけい");
    assert_eq!(req.candidates.get('時').unwrap(), &vec!["とき", "じ"]);
    assert_eq!(req.candidates.get('計').unwrap(), &vec!["はかる", "けい"]);
}

#[test]
fn parse_word_without_reading_needs_the_tokenizer() {
    // This build carries no embedded segmentation dictionary, so automatic
    // reading derivation fails and the engine reports exactly that.
    let dic = Kanjidic2::new(vec![entry("時", "ジ", "とき")]);
    let r = parse_word(&String::from("時"), None, &dic);
    assert_eq!(r.err(), Some(LookupError::ReadingNotProvided));
}

#[test]
fn candidate_map_insert_overwrites_by_key() {
    let mut map = kanji_tool::parser::ReadingCandidateMap::new();
    map.insert('時', vec![String::from("とき")]);
    map.insert('時', vec![String::from("じ")]);
    assert_eq!(map.len(), 1);
    assert_eq!(map.get('時').unwrap(), &vec!["じ"]);
}

#[test]
fn renders_ruby_markup() {
    let f = FuriganaString(vec![
        Furigana::Kanji { character: '時', reading: String::from("とき") },
        Furigana::Other('計'),
        Furigana::Other('!'),
    ]);
    assert_eq!(f.to_html(), "<ruby><rb>時</rb><rt>とき</rt></ruby>計!");
}
