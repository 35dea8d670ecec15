use lexicon::extra::normalize_input;

#[test]
fn empty_term_has_empty_key() {
    assert_eq!(normalize_input(""), "");
}

#[test]
fn punctuation_alone_has_empty_key() {
    assert_eq!(normalize_input("!!!"), "");
    assert_eq!(normalize_input(" \t-_.,;:'\"()[]{}"), "");
}

#[test]
fn key_drops_punctuation_and_lowercases() {
    assert_eq!(normalize_input("Running!!"), "running");
    assert_eq!(normalize_input("A!b"), "ab");
    assert_eq!(normalize_input("  Hello, World 42 "), "helloworld42");
}

#[test]
fn key_keeps_letters_and_digits_of_any_script() {
    assert_eq!(normalize_input("Über-Maß"), "übermaß");
    assert_eq!(normalize_input("ΣΟΦΟΣ"), "σοφος");
    assert_eq!(normalize_input("٣ apples"), "٣apples");
}

#[test]
fn key_of_a_key_is_the_key() {
    for raw in ["Running!!", "", "!!!", "Hello, World 42", "Über-Maß", "ΣΟΦΟΣ", "already"] {
        let key = normalize_input(raw);
        assert_eq!(normalize_input(&key), key);
    }
}

#[test]
fn key_is_unsettled_where_lowercasing_yields_a_mark() {
    let key = normalize_input("\u{130}");
    assert_eq!(key, "i\u{307}");
    assert_eq!(normalize_input(&key), "i");
}
