use min::order::{place, Place};
use min::text::{
    ends_with, from_chars, has_char, join, same, same_ignoring_case, starts_with, to_chars,
    to_lower, to_numeral, to_upper, trim_end,
};

#[test]
fn strings_are_the_same_only_when_equal() {
    assert!(same("", ""));
    assert!(same("grün", "grün"));
    assert!(!same("a", "b"));
    assert!(!same("a", "ab"));
}

#[test]
fn affixes_are_found() {
    assert!(starts_with("https://h", "https://"));
    assert!(!starts_with("http", "https"));
    assert!(ends_with("a/b", "/b"));
    assert!(!ends_with("b", "/b"));
    assert!(starts_with("x", "") && ends_with("x", ""));
    assert!(has_char("a?b", '?'));
    assert!(!has_char("ab", '?'));
}

#[test]
fn trimming_takes_the_run_at_the_end() {
    assert_eq!(trim_end("/a//", '/'), "/a");
    assert_eq!(trim_end("///", '/'), "");
    assert_eq!(trim_end("a", '/'), "a");
}

#[test]
fn letter_case_is_that_of_ascii() {
    assert_eq!(to_upper("get-ä9z"), "GET-ä9Z");
    assert_eq!(to_lower("AZaz-Ä"), "azaz-Ä");
    assert!(same_ignoring_case("Content-TYPE", "content-type"));
    assert!(!same_ignoring_case("content-typ", "content-type"));
}

#[test]
fn characters_go_in_and_out() {
    let v = to_chars("aüb");
    assert_eq!(v, vec!['a', 'ü', 'b']);
    assert_eq!(from_chars(&v, 1, 3), "üb");
    assert_eq!(from_chars(&v, 2, 2), "");
}

#[test]
fn joining_puts_the_separator_between() {
    let parts = |ps: &[&str]| ps.iter().map(|p| p.to_string()).collect::<Vec<_>>();
    assert_eq!(join(&parts(&[]), "&"), "");
    assert_eq!(join(&parts(&["a"]), "&"), "a");
    assert_eq!(join(&parts(&["", "b", ""]), "&"), "&b&");
}

#[test]
fn numerals_read_back() {
    assert_eq!(to_numeral(0, 16), "0");
    assert_eq!(to_numeral(26, 16), "1a");
    assert_eq!(to_numeral(255, 16), "ff");
    assert_eq!(to_numeral(1_000_000, 10), "1000000");
    for n in [0u64, 9, 10, 15, 16, 4095, u64::MAX] {
        assert_eq!(u64::from_str_radix(&to_numeral(n, 16), 16), Ok(n));
        assert_eq!(to_numeral(n, 10), format!("{n}"));
    }
}

#[test]
fn strings_are_ordered_by_their_bytes() {
    assert!(matches!(place("a", "b"), Place::Before));
    assert!(matches!(place("b", "a"), Place::After));
    assert!(matches!(place("a", "a"), Place::Same));
    assert!(matches!(place("", "a"), Place::Before));
    assert!(matches!(place("ab", "a"), Place::After));
    assert!(matches!(place("Z", "a"), Place::Before));
    assert!(matches!(place("z", "é"), Place::Before));
}

#[test]
fn the_order_is_transitive_and_total() {
    let words = ["", "A", "a", "aa", "ab", "b", "é", "中"];
    for i in 0..words.len() {
        for j in 0..words.len() {
            let p = place(words[i], words[j]);
            assert_eq!(matches!(p, Place::Before), i < j);
            assert_eq!(matches!(p, Place::Same), i == j);
            assert_eq!(matches!(p, Place::After), i > j);
        }
    }
}
