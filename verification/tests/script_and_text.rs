//! The script classifier and the character-level string utilities.
use kanji_tool::conversion::{hiragana_from_tokens, katakana_to_hiragana};
use kanji_tool::errors::LookupError;
use kanji_tool::script::{
    is_logographic, is_phonetic_primary, is_phonetic_secondary, shift_to_secondary,
};
use kanji_tool::text::{
    chars_to_string, contains_sub, empty_to_none, find_sub, join_strings, parse_u8_chars,
    split_chars, str_to_chars, trim_chars,
};
use kanji_tool::tokenize::RawToken;

#[test]
fn classifies_logographic_characters() {
    assert!(is_logographic('日'));
    assert!(is_logographic('語'));
    assert!(!is_logographic('あ'));
    assert!(!is_logographic('ア'));
    assert!(!is_logographic('々'));
    assert!(!is_logographic('a'));
}

#[test]
fn classifies_syllabary_blocks() {
    assert!(is_phonetic_primary('ア'));
    assert!(is_phonetic_primary('ン'));
    assert!(!is_phonetic_primary('あ'));
    assert!(is_phonetic_secondary('あ'));
    assert!(is_phonetic_secondary('ん'));
    assert!(!is_phonetic_secondary('ア'));
}

#[test]
fn shift_moves_primary_to_secondary() {
    assert_eq!(shift_to_secondary('ア'), 'あ');
    assert_eq!(shift_to_secondary('タ'), 'た');
    assert_eq!(shift_to_secondary('ン'), 'ん');
}

#[test]
fn shift_stabilizes_after_one_application() {
    // Outside the primary block nothing changes; one shift of a
    // primary-block character lands in the secondary block and stays put.
    for c in ['あ', 'ん', 'z', '日', '。', 'ー'] {
        assert_eq!(shift_to_secondary(c), c);
        assert_eq!(shift_to_secondary(shift_to_secondary(c)), shift_to_secondary(c));
    }
    for c in ['ア', 'カ', 'ヂ', 'ン'] {
        let once = shift_to_secondary(c);
        assert!(is_phonetic_secondary(once));
        assert_eq!(shift_to_secondary(once), once);
    }
}

#[test]
fn katakana_to_hiragana_converts_only_primary() {
    let s = String::from("コーヒーとabc");
    assert_eq!(katakana_to_hiragana(s.as_str()), "こーひーとabc");
    assert_eq!(katakana_to_hiragana("タイ"), "たい");
    assert_eq!(katakana_to_hiragana(""), "");
}

#[test]
fn char_vector_round_trip() {
    let s = "日本語abc";
    let v = str_to_chars(s);
    assert_eq!(v.len(), 6);
    assert_eq!(chars_to_string(&v), s);
}

#[test]
fn substring_search_finds_first_occurrence() {
    let hay = str_to_chars("abcabc");
    let pat = str_to_chars("bc");
    assert_eq!(find_sub(&hay, &pat), Some(1));
    let missing = str_to_chars("xyz");
    assert_eq!(find_sub(&hay, &missing), None);
    assert!(contains_sub(&hay, &pat));
    assert!(!contains_sub(&hay, &missing));
    let empty: Vec<char> = Vec::new();
    assert!(contains_sub(&hay, &empty));
}

#[test]
fn split_keeps_empty_pieces() {
    let s = str_to_chars("a;;b;");
    let sep = vec![';'];
    let parts = split_chars(&s, &sep);
    let views: Vec<String> = parts.iter().map(|p| chars_to_string(p)).collect();
    assert_eq!(views, vec!["a", "", "b", ""]);
}

#[test]
fn split_on_multi_character_separator() {
    let s = str_to_chars("one<br>two<br>three");
    let sep = str_to_chars("<br>");
    let parts = split_chars(&s, &sep);
    let views: Vec<String> = parts.iter().map(|p| chars_to_string(p)).collect();
    assert_eq!(views, vec!["one", "two", "three"]);
}

#[test]
fn join_inserts_separator_between_pieces() {
    let parts = vec![String::from("a"), String::from("b"), String::from("c")];
    assert_eq!(join_strings(&parts, ", "), "a, b, c");
    let single = vec![String::from("x")];
    assert_eq!(join_strings(&single, ", "), "x");
    let none: Vec<String> = Vec::new();
    assert_eq!(join_strings(&none, ", "), "");
}

#[test]
fn trim_strips_surrounding_whitespace() {
    let v = str_to_chars("  water 水  ");
    assert_eq!(chars_to_string(&trim_chars(&v)), "water 水");
    let all = str_to_chars("   ");
    assert_eq!(chars_to_string(&trim_chars(&all)), "");
}

#[test]
fn parses_small_decimal_numbers() {
    assert_eq!(parse_u8_chars(&str_to_chars("4")), Some(4));
    assert_eq!(parse_u8_chars(&str_to_chars("+7")), Some(7));
    assert_eq!(parse_u8_chars(&str_to_chars("0007")), Some(7));
    assert_eq!(parse_u8_chars(&str_to_chars("255")), Some(255));
    assert_eq!(parse_u8_chars(&str_to_chars("256")), None);
    assert_eq!(parse_u8_chars(&str_to_chars("")), None);
    assert_eq!(parse_u8_chars(&str_to_chars("+")), None);
    assert_eq!(parse_u8_chars(&str_to_chars("4a")), None);
    assert_eq!(parse_u8_chars(&str_to_chars("00000000000000000000009")), Some(9));
}

#[test]
fn empty_to_none_drops_only_empty_strings() {
    assert_eq!(empty_to_none(String::new()), None);
    assert_eq!(empty_to_none(String::from("x")), Some(String::from("x")));
}

#[test]
fn error_messages_name_their_condition() {
    assert_eq!(LookupError::EmptyInput.message(), "Empty word");
    assert_eq!(LookupError::ReadingNotProvided.message(), "Reading not provided");
    assert_eq!(LookupError::NoLemma.message(), "No lemma found");
    assert_eq!(LookupError::AlignmentFailed.message(), "Failed to parse furigana");
    assert_eq!(LookupError::NotFound.message(), "Not found");
}

#[test]
fn hiragana_assembly_converts_token_readings() {
    // A token with a reading field contributes it converted to hiragana; a
    // token without one falls back to its surface text.
    let with_reading = RawToken {
        text: String::from("時計"),
        details: vec!["a", "b", "c", "d", "e", "f", "g", "トケイ"]
            .into_iter()
            .map(String::from)
            .collect(),
    };
    let without_reading = RawToken { text: String::from("です"), details: Vec::new() };
    assert_eq!(hiragana_from_tokens(&vec![with_reading, without_reading]), "とけいです");
}
