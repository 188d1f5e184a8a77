use book::text_utils::fold;

#[test]
fn test_fold() {
    let lines = vec![
        "This is a long line that needs to be folded into multiple lines",
        "This is another line",
        "Short line",
    ];
    let max_line_width = 10;
    let folded_lines = fold(&lines, max_line_width);
    assert_eq!(
        folded_lines,
        vec![
            String::from("This is a"),
            String::from("long line"),
            String::from("that needs"),
            String::from("to be"),
            String::from("folded"),
            String::from("into"),
            String::from("multiple"),
            String::from("lines"),
            String::from("This is"),
            String::from("another"),
            String::from("line"),
            String::from("Short line"),
        ]
    );
}

#[test]
fn fold_ten_single_char_words_at_width_five() {
    let lines = vec!["a b c d e f g h i j"];
    let folded = fold(&lines, 5);
    assert_eq!(folded, vec!["a b c", "d e f", "g h i", "j"]);
    for line in &folded {
        assert!(line.chars().count() <= 5);
    }
}

#[test]
fn fold_empty_sequence_is_empty() {
    let lines: Vec<&str> = Vec::new();
    let folded = fold(&lines, 10);
    assert!(folded.is_empty());
}

#[test]
fn fold_blank_lines_stay_blank() {
    let lines = vec!["", "   ", "\t"];
    let folded = fold(&lines, 10);
    assert_eq!(folded, vec!["", "", ""]);
}

#[test]
fn fold_treats_unicode_whitespace_as_blank() {
    let lines = vec!["\u{a0}", "\u{2003}\u{2003}", "\u{3000}"];
    let folded = fold(&lines, 10);
    assert_eq!(folded, vec!["", "", ""]);
}

#[test]
fn fold_splits_words_at_unicode_whitespace() {
    let lines = vec!["alpha\u{a0}beta\u{2009}gamma"];
    let folded = fold(&lines, 5);
    assert_eq!(folded, vec!["alpha", "beta", "gamma"]);
}

#[test]
fn fold_width_bound_holds_for_ordinary_words() {
    let lines = vec!["the quick brown fox jumps over the lazy dog"];
    let folded = fold(&lines, 12);
    for line in &folded {
        assert!(line.chars().count() <= 12);
    }
}

#[test]
fn fold_is_idempotent_when_words_fit() {
    let lines = vec!["the quick brown fox jumps over the lazy dog", "", "second line here"];
    let once = fold(&lines, 12);
    let again = fold(&once.iter().map(|s| s.as_str()).collect(), 12);
    assert_eq!(once, again);
}

#[test]
fn fold_overlong_word_is_emitted_alone() {
    let lines = vec!["tiny incomprehensibilities end"];
    let folded = fold(&lines, 8);
    assert_eq!(folded, vec!["tiny", "incomprehensibilities", "end"]);
}

#[test]
fn fold_leading_overlong_word_flushes_an_empty_line() {
    let lines = vec!["incomprehensibilities end"];
    let folded = fold(&lines, 8);
    assert_eq!(folded, vec!["", "incomprehensibilities", "end"]);
}

#[test]
fn fold_width_zero_gives_one_word_per_line() {
    let lines = vec!["a bc d"];
    let folded = fold(&lines, 0);
    assert_eq!(folded, vec!["", "a", "bc", "d"]);
}

#[test]
fn usage_error_carries_the_extra_info() {
    let msg = book::get_usage_error("No file to render provided");
    assert_eq!(msg, "Usage: book <file_to_read> [OPTIONS]\nNo file to render provided");
}
