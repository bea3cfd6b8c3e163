use ajour::capitalize;
use ajour::text::{join_words, merge_messages, with_capital};

#[test]
fn capitalize_empty_is_empty() {
    assert_eq!(capitalize(""), "");
}

#[test]
fn capitalize_lowercase_word() {
    assert_eq!(capitalize("hello"), "Hello");
}

#[test]
fn capitalize_already_capitalized() {
    assert_eq!(capitalize("Hello"), "Hello");
}

#[test]
fn capitalize_leaves_the_remainder_unchanged() {
    assert_eq!(capitalize("hELLO wORLD"), "HELLO wORLD");
    assert_eq!(capitalize("a"), "A");
}

#[test]
fn capitalize_non_letter_start() {
    assert_eq!(capitalize("1 apple"), "1 apple");
    assert_eq!(capitalize(" leading space"), " leading space");
}

#[test]
fn capitalize_accented_letter() {
    assert_eq!(capitalize("\u{e9}t\u{e9}"), "\u{c9}t\u{e9}");
}

#[test]
fn capitalize_letter_with_longer_uppercase_form() {
    assert_eq!(capitalize("\u{df}a"), "SSa");
}

#[test]
fn capitalize_agrees_with_the_standard_mapping() {
    for word in ["hello", "\u{df}", "\u{149}x", "\u{1c6}", "z", "\u{3c9}mega"] {
        let mut chars = word.chars();
        let first = chars.next().unwrap();
        let expected: String = first.to_uppercase().chain(chars).collect();
        assert_eq!(capitalize(word), expected);
    }
}

#[test]
fn merge_two_messages() {
    assert_eq!(merge_messages("buy milk", "walk dog"), "Buy milk. Walk dog");
}

#[test]
fn merge_capitalizes_both_sides() {
    assert_eq!(merge_messages("Buy milk. Walk dog", "call mum"), "Buy milk. Walk dog. Call mum");
}

#[test]
fn merge_with_empty_messages() {
    assert_eq!(merge_messages("", ""), ". ");
    assert_eq!(merge_messages("a", ""), "A. ");
    assert_eq!(merge_messages("", "b"), ". B");
}

#[test]
fn join_no_words() {
    assert_eq!(join_words(&Vec::new()), "");
}

#[test]
fn join_one_word() {
    assert_eq!(join_words(&vec![String::from("milk")]), "milk");
}

#[test]
fn join_several_words() {
    let words = vec![String::from("buy"), String::from("some"), String::from("milk")];
    assert_eq!(join_words(&words), "buy some milk");
    assert_eq!(join_words(&words), words.join(" "));
}

#[test]
fn join_keeps_empty_words() {
    let words = vec![String::from(""), String::from("a"), String::from("")];
    assert_eq!(join_words(&words), " a ");
}

#[test]
fn with_capital_replaces_the_first_character() {
    assert_eq!(with_capital("H", "hello"), "Hello");
    assert_eq!(with_capital("SS", "\u{df}a"), "SSa");
    assert_eq!(with_capital("", "hello"), "ello");
    assert_eq!(with_capital("X", "y"), "X");
}

#[test]
fn with_capital_of_an_empty_text_is_the_capital() {
    assert_eq!(with_capital("H", ""), "H");
    assert_eq!(with_capital("", ""), "");
}
