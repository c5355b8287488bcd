//! Texts, ordered collections and errors, on concrete values.

use tunnel_test_harness::error::HarnessError;
use tunnel_test_harness::ordered::{sort_items, OrderedMap, OrderedSet};
use tunnel_test_harness::text::{
    decimal_text, join_texts, lines_of, option_text, signed_text, split_text, strip_text_prefix,
    strip_text_suffix, text_contains, text_starts_with, trim_text,
};

#[test]
fn numbers_print_as_std_prints_them() {
    for number in [0u128, 7, 10, 99, 100, u64::MAX as u128, u128::MAX] {
        assert_eq!(decimal_text(number), format!("{number}"));
    }
    for number in [0i64, -1, 42, i64::MIN, i64::MAX] {
        assert_eq!(signed_text(number), format!("{number}"));
    }
    for number in [None, Some(-5), Some(i32::MAX)] {
        assert_eq!(option_text(number), format!("{number:?}"));
    }
}

#[test]
fn texts_split_and_join_as_std_does() {
    for text in ["", "a", "a-b", "-a--b-", "\u{e9}-\u{1f600}"] {
        let pieces = split_text(text, '-');
        let expected: Vec<&str> = text.split('-').collect();
        assert_eq!(pieces, expected);
        assert_eq!(join_texts(&pieces, "-"), text);
    }
    for text in ["", "a", "a\n", "a\r\nb", "\n\n", "a\rb\n", "x\r"] {
        let expected: Vec<&str> = text.lines().collect();
        assert_eq!(lines_of(text), expected);
    }
    for text in ["", "  ", " a b ", "\t\u{a0}x\u{3000}\n", "\u{2028}y"] {
        assert_eq!(trim_text(text), text.trim());
    }
}

#[test]
fn prefixes_suffixes_and_parts_are_found_as_std_finds_them() {
    assert_eq!(
        strip_text_prefix("snapshot-a", "snapshot-"),
        Some("a".to_owned())
    );
    assert_eq!(strip_text_prefix("a", "ab"), None);
    assert_eq!(strip_text_suffix("a.bin", ".bin"), Some("a".to_owned()));
    assert_eq!(strip_text_suffix("bin", ".bin"), None);
    assert!(text_contains("abc", ""));
    assert!(text_contains("abc", "bc"));
    assert!(!text_contains("abc", "cb"));
    assert!(text_starts_with("abc", "ab"));
    assert!(!text_starts_with("abc", "b"));
}

#[test]
fn ordered_collections_walk_in_byte_order() {
    let mut map: OrderedMap<String, u64> = OrderedMap::new();
    for (key, value) in [("b", 1), ("a", 2), ("\u{e9}", 3), ("B", 4), ("a", 5)] {
        map.insert(key.to_owned(), value);
    }
    let keys: Vec<&str> = (0..map.len()).map(|i| map.key_at(i).as_str()).collect();
    assert_eq!(keys, vec!["B", "a", "b", "\u{e9}"]);
    assert_eq!(map.get(&"a".to_owned()), Some(&5));
    assert_eq!(map.remove(&"a".to_owned()), Some(5));
    assert!(!map.contains_key(&"a".to_owned()));
    let mut set: OrderedSet<String> = OrderedSet::new();
    set.insert("x".to_owned());
    set.insert("x".to_owned());
    set.insert("w".to_owned());
    assert_eq!(set.len(), 2);
    assert_eq!(set.at(0), "w");
    assert!(set.contains(&"x".to_owned()));
    let list = sort_items(vec!["b".to_owned(), "a".to_owned(), "b".to_owned()]);
    assert_eq!(list, vec!["a", "b", "b"]);
}

#[test]
fn errors_print_behind_their_class() {
    assert_eq!(HarnessError::timeout("x").message(), "harness timeout: x");
    assert_eq!(HarnessError::http("x").message(), "HTTP/TLS probe error: x");
    assert_eq!(
        HarnessError::invalid_input("x").message(),
        "invalid harness input: x"
    );
    assert_eq!(
        HarnessError::process("x").message(),
        "managed process error: x"
    );
    assert_eq!(
        HarnessError::Redis("x".to_owned()).message(),
        "Redis harness error: x"
    );
    assert_eq!(HarnessError::Io("x".to_owned()).message(), "x");
}
