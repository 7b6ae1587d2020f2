use wordle_finder::engine::find_matching_words;
use wordle_finder::engine::run_query;
use wordle_finder::pattern::Pattern;
use wordle_finder::pattern::Slot;

fn dict(words: &[&str]) -> Vec<String> {
    words.iter().map(|w| w.to_string()).collect()
}

fn expect(words: &[&str]) -> Vec<String> {
    dict(words)
}

#[test]
fn pattern_parse_accepts_letters_and_dots() {
    let p = Pattern::parse("a..le").unwrap();
    assert_eq!(p.slots.len(), 5);
    assert_eq!(p.slots[0], Slot::Fixed('a'));
    assert_eq!(p.slots[1], Slot::Free);
    assert_eq!(p.slots[2], Slot::Free);
    assert_eq!(p.slots[3], Slot::Fixed('l'));
    assert_eq!(p.slots[4], Slot::Fixed('e'));
    assert!(Pattern::parse("").is_some());
}

#[test]
fn pattern_parse_rejects_other_characters() {
    assert!(Pattern::parse("a..E").is_none());
    assert!(Pattern::parse("a.#e").is_none());
    assert!(Pattern::parse("a b").is_none());
    assert!(Pattern::parse("ap-le").is_none());
    assert!(Pattern::parse("[ab]..").is_none());
}

#[test]
fn pattern_admits_checks_each_position() {
    let p = Pattern::parse("a...e").unwrap();
    assert!(p.admits("apple"));
    assert!(p.admits("angle"));
    assert!(!p.admits("grape"));
    // a word of another length never matches
    assert!(!p.admits("ape"));
    assert!(!p.admits("apples"));
}

#[test]
fn wildcard_admits_any_word_of_its_length() {
    let p = Pattern::wildcard(5);
    assert!(p.admits("apple"));
    assert!(p.admits("zzzzz"));
    assert!(!p.admits("ape"));
    let empty = Pattern::wildcard(0);
    assert!(empty.admits(""));
    assert!(!empty.admits("a"));
}

#[test]
fn scenario_fixed_first_and_last_all_match() {
    // every word starts with 'a' and ends in 'e', so all four match
    let words = dict(&["apple", "angle", "ankle", "ample"]);
    let p = Pattern::parse("a...e").unwrap();
    let found = find_matching_words(&words, &p, "", "");
    assert_eq!(found, expect(&["apple", "angle", "ankle", "ample"]));
}

#[test]
fn scenario_excluding_n_leaves_apple_and_ample() {
    let words = dict(&["apple", "angle", "ankle", "ample"]);
    let p = Pattern::parse("a...e").unwrap();
    let found = find_matching_words(&words, &p, "n", "");
    assert_eq!(found, expect(&["apple", "ample"]));
}

#[test]
fn scenario_required_p_excluded_g() {
    let words = dict(&["apple", "grape", "plane"]);
    let p = Pattern::wildcard(5);
    let found = find_matching_words(&words, &p, "g", "p");
    assert_eq!(found, expect(&["apple", "plane"]));
}

#[test]
fn scenario_empty_dictionary_yields_empty_result() {
    let words = dict(&[]);
    let p = Pattern::wildcard(5);
    assert_eq!(find_matching_words(&words, &p, "", ""), expect(&[]));
    assert_eq!(find_matching_words(&words, &p, "xyz", "abc"), expect(&[]));
    let found = run_query(&words, "a...e", "n", "p").unwrap();
    assert_eq!(found, expect(&[]));
}

#[test]
fn no_constraints_return_dictionary_unchanged() {
    let words = dict(&["apple", "angle", "ankle", "ample"]);
    let p = Pattern::wildcard(5);
    let found = find_matching_words(&words, &p, "", "");
    assert_eq!(found, words);
}

#[test]
fn excluded_letter_always_rejects() {
    // "grape" holds the excluded 'g' even though it matches the pattern
    // and holds the required letter
    let words = dict(&["grape", "crate"]);
    let p = Pattern::parse("..a.e").unwrap();
    let found = find_matching_words(&words, &p, "g", "r");
    assert_eq!(found, expect(&["crate"]));
}

#[test]
fn missing_required_letter_always_rejects() {
    // "angle" matches the pattern and has no excluded letter, but lacks 'p'
    let words = dict(&["angle", "ample"]);
    let p = Pattern::parse("a...e").unwrap();
    let found = find_matching_words(&words, &p, "", "p");
    assert_eq!(found, expect(&["ample"]));
}

#[test]
fn output_preserves_dictionary_order() {
    let words = dict(&["zebra", "apple", "ample", "angle", "amble"]);
    let p = Pattern::wildcard(5);
    let found = find_matching_words(&words, &p, "n", "a");
    assert_eq!(found, expect(&["zebra", "apple", "ample", "amble"]));
}

#[test]
fn output_words_come_from_dictionary() {
    let words = dict(&["apple", "grape", "plane"]);
    let p = Pattern::wildcard(5);
    let found = find_matching_words(&words, &p, "", "e");
    for w in &found {
        assert!(words.contains(w));
    }
    // no word appears twice
    for (i, w) in found.iter().enumerate() {
        for (j, v) in found.iter().enumerate() {
            if i != j {
                assert_ne!(w, v);
            }
        }
    }
}

#[test]
fn excluding_a_required_letter_yields_empty() {
    // user error, not an engine error: no word can satisfy both
    let words = dict(&["apple", "grape", "plane"]);
    let p = Pattern::wildcard(5);
    let found = find_matching_words(&words, &p, "p", "p");
    assert_eq!(found, expect(&[]));
}

#[test]
fn engine_compares_characters_exactly() {
    // the engine itself does not fold case; callers normalize first
    let words = dict(&["apple"]);
    let p = Pattern::wildcard(5);
    assert_eq!(find_matching_words(&words, &p, "", "P"), expect(&[]));
    assert_eq!(find_matching_words(&words, &p, "P", ""), expect(&["apple"]));
}

#[test]
fn pattern_of_other_length_degenerates_to_empty() {
    let words = dict(&["apple", "grape"]);
    let p = Pattern::parse("a..le..").unwrap();
    assert_eq!(find_matching_words(&words, &p, "", ""), expect(&[]));
}

#[test]
fn run_query_normalizes_inputs() {
    let words = dict(&["apple", "angle", "ankle", "ample"]);
    // uppercase pattern text and spaced, uppercase letter lists
    let found = run_query(&words, "A...E", " N ", "").unwrap();
    assert_eq!(found, expect(&["apple", "ample"]));
    let found = run_query(&words, ".....", "", "P L e").unwrap();
    assert_eq!(found, expect(&["apple", "ample"]));
}

#[test]
fn run_query_rejects_invalid_pattern() {
    let words = dict(&["apple"]);
    assert!(run_query(&words, "a.#e.", "", "").is_none());
    assert!(run_query(&words, "[ab].(", "", "").is_none());
    assert!(run_query(&words, "a b.c", "", "").is_none());
}

#[test]
fn run_query_accepts_every_valid_pattern() {
    let words = dict(&["apple"]);
    assert!(run_query(&words, "", "", "").is_some());
    assert!(run_query(&words, ".....", "", "").is_some());
    assert!(run_query(&words, "QUEEN", "", "").is_some());
}
