use deckr_mirabox_manager::numeral::{hex_text, int_to_text, parse_int, push_hex4};
use deckr_mirabox_manager::text::{
    chars_of, contains, contains_char, ends_with, is_before, is_trimmed, join, split, starts_with,
};
use deckr_mirabox_manager::text_map::{TextMap, TextSet};

#[test]
fn texts_are_split_and_joined() {
    for text in ["", ".", "a", "a.b", ".a..b."] {
        let parts = split(text, '.');
        let expected: Vec<String> = text.split('.').map(str::to_string).collect();
        assert_eq!(parts, expected);
        assert_eq!(join(&parts, '.'), text);
    }
    assert_eq!(join(&Vec::new(), '.'), "");
}

#[test]
fn parts_of_texts() {
    assert!(starts_with("b64_x", "b64_"));
    assert!(!starts_with("b6", "b64_"));
    assert!(ends_with("a.", "."));
    assert!(!ends_with("", "."));
    assert!(contains("xvendor_idx", "vendor_id"));
    assert!(contains("", ""));
    assert!(!contains("vendor", "vendor_id"));
    assert!(contains_char("a:b", ':'));
    assert!(!contains_char("ab", ':'));
}

#[test]
fn white_space_at_the_ends() {
    for text in [
        "", "a", " a", "a ", "\u{85}a", "a\u{2009}", "a\u{1680}b", "\u{200b}a", "\t", "\u{feff}a",
    ] {
        assert_eq!(is_trimmed(text), text.trim() == text, "{:?}", text);
    }
}

#[test]
fn the_order_of_texts_is_that_of_strings() {
    let texts = ["", "a", "aa", "ab", "b", "é", "\u{ffff}", "\u{10000}", "Z"];
    for a in texts {
        for b in texts {
            assert_eq!(is_before(a, b), a < b, "{:?} {:?}", a, b);
        }
    }
}

#[test]
fn numerals_read_back() {
    for value in [0i64, 7, 10, -1, 65440, i64::MAX, i64::MIN] {
        let text = int_to_text(value);
        assert_eq!(text, value.to_string());
        let chars = chars_of(&text);
        assert_eq!(parse_int(&chars, 0, chars.len()), Some(value));
    }
    for text in ["", "-", "--1", "1-", "9223372036854775808", "-9223372036854775809"] {
        let chars = chars_of(text);
        assert_eq!(parse_int(&chars, 0, chars.len()), None, "{}", text);
    }
}

#[test]
fn hexadecimal_digits() {
    let mut text = String::new();
    push_hex4(&mut text, 0x0B0f);
    assert_eq!(text, "0B0F");
    assert_eq!(hex_text(&vec![0x00, 0x1f, 0xa0, 0xff]), "001fa0ff");
    assert_eq!(hex_text(&Vec::new()), "");
}

#[test]
fn maps_hold_one_value_for_a_key() {
    let mut map = TextMap::new();
    assert!(map.is_empty());
    map.insert("a".to_string(), 1);
    map.insert("b".to_string(), 2);
    map.insert("a".to_string(), 3);
    assert_eq!(map.len(), 2);
    assert_eq!(map.get("a"), Some(&3));
    assert_eq!(map.key_at(0), "a");
    assert_eq!(map.value_at(1), &2);
    map.remove("a");
    map.remove("missing");
    assert_eq!(map.get("a"), None);
    assert!(map.contains_key("b"));
    assert_eq!(map.len(), 1);
}

#[test]
fn sets_hold_a_member_once() {
    let mut set = TextSet::new();
    set.insert("a".to_string());
    set.insert("b".to_string());
    set.insert("a".to_string());
    assert_eq!(set.len(), 2);
    let copy = set.duplicate();
    set.remove("a");
    assert!(!set.contains("a"));
    assert!(copy.contains("a"));
    assert_eq!(copy.item_at(1), "b");
}
