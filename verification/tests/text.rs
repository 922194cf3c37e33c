use arrpc::text::{
    chars_of, decimal_text, find, is_space, join_strings, parse_unsigned, replace_chars, rfind, signed_text,
    split_chars, split_lines, split_words, string_of, strip_bom, text_contains, text_ends_with,
    text_replace, text_starts_with, text_trim,
};
use arrpc::text_map::TextMap;

fn chars(text: &str) -> Vec<char> {
    chars_of(text)
}

fn strings(pieces: Vec<Vec<char>>) -> Vec<String> {
    pieces.iter().map(|piece| string_of(piece)).collect()
}

#[test]
fn texts_are_searched() {
    assert_eq!(find(&chars("aXbXc"), &chars("X")), Some(1));
    assert_eq!(rfind(&chars("aXbXc"), &chars("X")), Some(3));
    assert_eq!(find(&chars("abc"), &chars("d")), None);
    assert_eq!(rfind(&chars("abc"), &chars("d")), None);
    assert_eq!(find(&chars("abc"), &[]), Some(0));
    assert_eq!(rfind(&chars("abc"), &[]), Some(3));
    assert!(text_contains("äbc", "bc"));
    assert!(!text_contains("abc", "abcd"));
    assert!(text_starts_with("abc", "ab"));
    assert!(!text_starts_with("abc", "b"));
    assert!(text_ends_with("abc", "bc"));
    assert!(!text_ends_with("c", "bc"));
}

#[test]
fn texts_are_replaced_from_the_left() {
    assert_eq!(text_replace("aaa", "aa", "b"), "ba");
    assert_eq!(text_replace("x64x64", "x64", ""), "");
    assert_eq!(text_replace("abc", "d", "e"), "abc");
    assert_eq!(string_of(&replace_chars(&chars("a\\b"), &chars("\\"), &chars("//"))), "a//b");
}

#[test]
fn texts_are_cut() {
    assert_eq!(text_trim("\u{2003} a b \r\n"), "a b");
    assert_eq!(text_trim(" "), "");
    assert_eq!(strip_bom("\u{feff}a\u{feff}"), "a\u{feff}");
    assert_eq!(strings(split_chars(&chars("a,,b,"), ',')), vec!["a", "", "b", ""]);
    assert_eq!(strings(split_chars(&[], ',')), vec![""]);
    assert_eq!(split_words(&chars(" a\u{a0}b\n")), vec!["a", "b"]);
    assert_eq!(strings(split_lines(&chars("a\r\nb\n\nc\r"))), vec!["a", "b", "", "c\r"]);
    assert!(split_lines(&[]).is_empty());
}

#[test]
fn texts_are_joined() {
    let parts = vec!["a".to_owned(), String::new(), "b".to_owned()];
    assert_eq!(join_strings(&parts, ", "), "a, , b");
    assert_eq!(join_strings(&[], ", "), "");
}

#[test]
fn numbers_are_written_and_read() {
    assert_eq!(decimal_text(0), "0");
    assert_eq!(decimal_text(u64::MAX), "18446744073709551615");
    assert_eq!(signed_text(i64::MIN), "-9223372036854775808");
    assert_eq!(signed_text(-7), "-7");
    assert_eq!(signed_text(10), "10");
    assert_eq!(parse_unsigned(&chars("18446744073709551615"), u64::MAX), Some(u64::MAX));
    assert_eq!(parse_unsigned(&chars("18446744073709551616"), u64::MAX), None);
    assert_eq!(parse_unsigned(&chars("256"), 255), None);
    assert_eq!(parse_unsigned(&chars("+0255"), 255), Some(255));
    assert_eq!(parse_unsigned(&chars("٣"), 255), None);
    assert_eq!(parse_unsigned(&chars("++1"), 255), None);
}

#[test]
fn maps_hold_one_value_for_a_key() {
    let mut map: TextMap<u8> = TextMap::new();
    map.insert("a", 1);
    map.insert("b", 2);
    map.insert("a", 3);
    assert_eq!(map.get("a"), Some(&3));
    assert_eq!(map.keys(), vec!["a", "b"]);
    assert_eq!(map.remove("a"), Some(3));
    assert_eq!(map.remove("a"), None);
    assert_eq!(map.get("a"), None);
    assert_eq!(map.get("b"), Some(&2));
}

#[test]
fn white_space_is_that_of_unicode() {
    for c in '\0'..=char::MAX {
        assert_eq!(is_space(c), c.is_whitespace(), "{c:?}");
    }
}
