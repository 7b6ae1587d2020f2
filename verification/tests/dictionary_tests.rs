use wordle_finder::dictionary::split_lines;

#[test]
fn split_lines_separates_words() {
    assert_eq!(split_lines("apple\nangle\nankle"), vec!["apple", "angle", "ankle"]);
    assert_eq!(split_lines("apple"), vec!["apple"]);
}

#[test]
fn split_lines_of_empty_text_is_one_empty_piece() {
    assert_eq!(split_lines(""), vec![""]);
}

#[test]
fn split_lines_keeps_empty_pieces() {
    assert_eq!(split_lines("apple\n"), vec!["apple", ""]);
    assert_eq!(split_lines("\n"), vec!["", ""]);
    assert_eq!(split_lines("a\n\nb"), vec!["a", "", "b"]);
}

#[test]
fn split_lines_agrees_with_std_split() {
    let text = "apple\nangle\n\nankle\n";
    let std_pieces: Vec<String> = text.split('\n').map(|s| s.to_string()).collect();
    assert_eq!(split_lines(text), std_pieces);
}
