use wordle_finder::letters::contains_all;
use wordle_finder::letters::contains_any;
use wordle_finder::letters::contains_char;
use wordle_finder::letters::is_whitespace_char;
use wordle_finder::letters::lower_char;
use wordle_finder::letters::lowercase;
use wordle_finder::letters::remove_whitespace;

#[test]
fn contains_char_finds_each_position() {
    assert!(contains_char("apple", 'a'));
    assert!(contains_char("apple", 'p'));
    assert!(contains_char("apple", 'e'));
    assert!(!contains_char("apple", 'z'));
    assert!(!contains_char("", 'a'));
}

#[test]
fn contains_all_requires_every_letter() {
    assert!(contains_all("apple", "pl"));
    assert!(contains_all("apple", "aple"));
    assert!(!contains_all("apple", "plz"));
    assert!(!contains_all("", "a"));
}

#[test]
fn contains_all_with_no_letters_is_true() {
    assert!(contains_all("apple", ""));
    assert!(contains_all("", ""));
}

#[test]
fn contains_all_counts_duplicates_once() {
    // a duplicated requirement asks for nothing beyond one occurrence
    assert!(contains_all("apple", "ppp"));
    assert!(contains_all("angle", "aa"));
}

#[test]
fn contains_any_needs_one_letter() {
    assert!(contains_any("apple", "xyzp"));
    assert!(!contains_any("apple", "xyz"));
    assert!(!contains_any("apple", ""));
    assert!(!contains_any("", "abc"));
}

#[test]
fn whitespace_test_matches_std() {
    for c in [' ', '\t', '\n', '\r', '\u{a0}', '\u{2003}', '\u{3000}', 'a', '0', '-', '\u{1f600}']
    {
        assert_eq!(is_whitespace_char(c), c.is_whitespace(), "disagrees on {:?}", c);
    }
}

#[test]
fn remove_whitespace_strips_spaces() {
    assert_eq!(remove_whitespace("r e f"), "ref");
    assert_eq!(remove_whitespace("  ref  "), "ref");
    assert_eq!(remove_whitespace("\tr\ne f\r"), "ref");
    assert_eq!(remove_whitespace("a\u{a0}b\u{2003}c"), "abc");
    assert_eq!(remove_whitespace(""), "");
    assert_eq!(remove_whitespace(" \t\n"), "");
    assert_eq!(remove_whitespace("ref"), "ref");
}

#[test]
fn lower_char_maps_ascii_letters_only() {
    assert_eq!(lower_char('A'), 'a');
    assert_eq!(lower_char('Z'), 'z');
    assert_eq!(lower_char('a'), 'a');
    assert_eq!(lower_char('.'), '.');
    assert_eq!(lower_char('@'), '@');
    assert_eq!(lower_char('['), '[');
    assert_eq!(lower_char('\u{e9}'), '\u{e9}');
}

#[test]
fn lowercase_maps_whole_string() {
    assert_eq!(lowercase("AbC"), "abc");
    assert_eq!(lowercase("APPLE"), "apple");
    assert_eq!(lowercase("a-Z!"), "a-z!");
    assert_eq!(lowercase(""), "");
}
