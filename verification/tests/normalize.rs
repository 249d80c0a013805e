use wordle::messages::message_or_key;
use wordle::norm::sanitize_word;

#[test]
fn normalize_uppercases_and_filters() {
    assert_eq!(sanitize_word(" crane \n"), "CRANE");
    assert_eq!(sanitize_word("cr4ne!"), "CRNE");
    assert_eq!(sanitize_word("  a b-c  "), "ABC");
    assert_eq!(sanitize_word(""), "");
    assert_eq!(sanitize_word(" \t\n"), "");
    assert_eq!(sanitize_word("12345"), "");
}

#[test]
fn normalize_handles_cyrillic() {
    assert_eq!(sanitize_word("круша"), "КРУША");
    assert_eq!(sanitize_word(" ЯбЪлка "), "ЯБЪЛКА");
}

#[test]
fn normalize_is_idempotent() {
    let samples = [
        "crane",
        " CRANE ",
        "cr4ne!",
        "",
        "  mixed CASE 42 words  ",
        "круша",
        "straße",
        "\n\t odd\u{00A0}spacing \n",
    ];
    for s in samples {
        let once = sanitize_word(s);
        let twice = sanitize_word(&once);
        assert_eq!(twice, once, "input {:?}", s);
    }
}

#[test]
fn unknown_message_key_falls_back_to_key() {
    assert_eq!(
        message_or_key(Some("Enter a word:".to_string()), "enter-word-message"),
        "Enter a word:"
    );
    assert_eq!(message_or_key(None, "enter-word-message"), "enter-word-message");
}
