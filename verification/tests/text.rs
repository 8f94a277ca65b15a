//! The order of strings, and substring search.
use aquery::text::{compare_texts, contains_text, Order};

#[test]
fn texts_are_ordered_by_their_bytes() {
    let sorted = ["", "-", "A", "Z", "a", "a-", "aa", "b", "\u{e9}", "\u{ffff}", "\u{10000}"];
    for (i, a) in sorted.iter().enumerate() {
        for (j, b) in sorted.iter().enumerate() {
            let expected = if i < j {
                Order::Before
            } else if i == j {
                Order::Same
            } else {
                Order::After
            };
            assert_eq!(compare_texts(a, b), expected);
            assert_eq!(a < b, expected == Order::Before);
        }
    }
}

#[test]
fn substrings_are_found_wherever_they_stand() {
    for (haystack, needle) in [
        ("", ""),
        ("abc", ""),
        ("abc", "abc"),
        ("abc", "a"),
        ("abc", "bc"),
        ("aab", "ab"),
        ("--opt-opt-exec-", "-opt-exec-"),
        ("\u{e9}t\u{e9}", "t\u{e9}"),
    ] {
        assert!(contains_text(haystack, needle));
        assert!(haystack.contains(needle));
    }
}

#[test]
fn absent_substrings_are_not_found() {
    for (haystack, needle) in [
        ("", "a"),
        ("ab", "abc"),
        ("abc", "ac"),
        ("-opt-exec", "-opt-exec-"),
        ("-opt-ex-ec-", "-opt-exec-"),
        ("\u{e9}", "e"),
    ] {
        assert!(!contains_text(haystack, needle));
        assert!(!haystack.contains(needle));
    }
}
