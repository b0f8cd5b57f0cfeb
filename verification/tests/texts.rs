//! Tests for text handling and for maps keyed by text.

use connector_sync::text::{
    decimal_text, is_white_space, parse_number, replace_char, rsplit_once, signed_decimal_text,
    split_once, trim, truncate,
};
use connector_sync::textmap::TextMap;

#[test]
fn white_space_is_what_std_says_it_is() {
    for code in 0..=0x10FFFFu32 {
        if let Some(c) = char::from_u32(code) {
            assert_eq!(is_white_space(c), c.is_whitespace(), "{code:x}");
        }
    }
}

#[test]
fn trimming_takes_white_space_from_both_ends() {
    for text in ["", " ", "a", " a", "a ", "\t\r\n a b \u{2003}\u{85}", "\u{200b}x"] {
        assert_eq!(trim(text), text.trim(), "{text:?}");
    }
}

#[test]
fn cutting_counts_characters() {
    assert_eq!(truncate("héllo", 3), "hél");
    assert_eq!(truncate("héllo", 5), "héllo");
    assert_eq!(truncate("héllo", 50), "héllo");
    assert_eq!(truncate("héllo", 0), "");
}

#[test]
fn splitting_agrees_with_std() {
    for text in ["", "|", "a", "a|", "|b", "a|b", "a|b|c", "é||ü"] {
        let owned = |pair: (&str, &str)| (pair.0.to_string(), pair.1.to_string());
        assert_eq!(split_once(text, '|'), text.split_once('|').map(owned), "{text}");
        assert_eq!(rsplit_once(text, '|'), text.rsplit_once('|').map(owned), "{text}");
    }
}

#[test]
fn replacing_agrees_with_std() {
    for text in ["", ".", "a.b", "..a..", "none"] {
        assert_eq!(replace_char(text, '.', '/'), text.replace('.', "/"), "{text}");
    }
}

#[test]
fn numbers_are_written_in_decimal() {
    for n in [0, 1, 9, 10, 99, 100, 4294967295, u64::MAX] {
        assert_eq!(decimal_text(n), n.to_string());
    }
    for n in [0, 7, -7, 1700000000, i64::MAX, i64::MIN + 1] {
        assert_eq!(signed_decimal_text(n), n.to_string());
    }
}

#[test]
fn numbers_are_read_as_std_reads_them() {
    for text in [
        "", "+", "-", "0", "-0", "+0", "007", "12", "+12", "-12", " 12", "12 ", "1_2", "12x", "x",
        "4294967295", "4294967296", "99999999999999999999999", "++1", "١",
    ] {
        let expected = text.parse::<u32>().ok().map(u64::from);
        assert_eq!(parse_number(text, u64::from(u32::MAX)), expected, "{text}");
        assert_eq!(parse_number(text, u64::MAX), text.parse::<u64>().ok(), "{text}");
    }
    assert_eq!(parse_number("18446744073709551615", u64::MAX), Some(u64::MAX));
    assert_eq!(parse_number("18446744073709551616", u64::MAX), None);
}

#[test]
fn a_text_map_holds_one_value_per_key() {
    let mut map: TextMap<String> = TextMap::new();
    assert!(map.is_empty());
    map.insert("a".to_string(), "1".to_string());
    map.insert("b".to_string(), "2".to_string());
    map.insert("a".to_string(), "3".to_string());
    assert!(!map.is_empty());
    assert_eq!(map.get("a").map(String::as_str), Some("3"));
    assert_eq!(map.get("b").map(String::as_str), Some("2"));
    assert_eq!(map.get("c"), None);
    assert_eq!(map.entries().len(), 2);
    assert_eq!(map.remove("a").as_deref(), Some("3"));
    assert_eq!(map.remove("a"), None);
    assert_eq!(map.get("a"), None);
    assert_eq!(map.get("b").map(String::as_str), Some("2"));
}
