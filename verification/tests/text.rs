use opendr::string_map::StringMap;
use opendr::text::{
    bytes_of, decimal_of, eq_ignore_case, has_prefix, has_suffix, has_text, is_less, join_with,
    lines_of, lowercase, parse_integer, signed_decimal_of, split_on, split_once, take_word,
    trimmed,
};

#[test]
fn texts_are_trimmed_and_lowered() {
    assert_eq!(trimmed("\u{3000} a b\t\n"), "a b");
    assert_eq!(lowercase("A\u{c4}b"), "a\u{c4}b");
    assert!(eq_ignore_case("CN=a", "cn=A"));
    assert!(!eq_ignore_case("\u{c4}", "\u{e4}"));
}

#[test]
fn texts_are_split_and_joined() {
    let pieces = split_on("a,,b", ',');
    assert_eq!(pieces, vec!["a", "", "b"]);
    assert_eq!(join_with(&pieces, ","), "a,,b");
    assert_eq!(split_once("k=v=w", '='), Some(("k".to_string(), "v=w".to_string())));
    assert_eq!(split_once("k", '='), None);
    assert_eq!(lines_of("a\r\nb\n\nc\r"), vec!["a", "b", "", "c\r"]);
    assert!(lines_of("").is_empty());
    assert_eq!(take_word("  ab c"), Some(("ab".to_string(), " c".to_string())));
    assert_eq!(take_word(" "), None);
}

#[test]
fn pieces_of_texts_are_found() {
    assert!(has_prefix("abc", "ab"));
    assert!(has_suffix("abc", "bc"));
    assert!(has_text("abc", "b"));
    assert!(!has_text("abc", "ac"));
    assert!(is_less("a", "ab"));
    assert!(!is_less("b", "ab"));
}

#[test]
fn numbers_are_read_and_written() {
    assert_eq!(decimal_of(u64::MAX), "18446744073709551615");
    assert_eq!(signed_decimal_of(i32::MIN), "-2147483648");
    assert_eq!(parse_integer("-42"), Some(-42));
    assert_eq!(parse_integer("9223372036854775808"), None);
    assert_eq!(bytes_of("\u{e9}"), vec![0xc3, 0xa9]);
}

#[test]
fn maps_keep_their_order() {
    let mut map = StringMap::new();
    assert_eq!(map.insert("b".to_string(), 1), None);
    assert_eq!(map.insert("a".to_string(), 2), None);
    assert_eq!(map.insert("b".to_string(), 3), Some(1));
    assert_eq!(map.entry(0), (&"b".to_string(), &3));
    assert_eq!(map.get("a"), Some(&2));
    assert_eq!(map.remove("b"), Some(3));
    assert_eq!(map.len(), 1);
    assert!(!map.contains_key("b"));
}
