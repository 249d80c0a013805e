use wordle::dict::{choose_random, words_list};
use wordle::game::{GameState, WordleGame};

#[test]
fn word_list_parsing() {
    let raw = "word list\nfive-letter words\ncrane\ntrace\nhi\nstones\ngrape";
    let words = words_list(raw);
    assert_eq!(
        words,
        vec!["CRANE".to_string(), "TRACE".to_string(), "GRAPE".to_string()]
    );
}

#[test]
fn word_list_skips_two_header_rows() {
    // The first two lines are dropped even when they look like words.
    let raw = "CRANE\nTRACE\nGRAPE";
    assert_eq!(words_list(raw), vec!["GRAPE".to_string()]);
}

#[test]
fn word_list_normalizes_entries() {
    let raw = "h\nh\n crane \ntr4ce!!\nappleS";
    // "tr4ce!!" normalizes to TRCE (4 letters) and is dropped;
    // "appleS" normalizes to APPLES (6 letters) and is dropped.
    assert_eq!(words_list(raw), vec!["CRANE".to_string()]);
}

#[test]
fn word_list_of_empty_text_is_empty() {
    let none: Vec<String> = Vec::new();
    assert_eq!(words_list(""), none);
    assert_eq!(words_list("header\nheader"), none);
}

#[test]
fn random_choice_comes_from_list() {
    let words = vec!["CRANE".to_string(), "TRACE".to_string(), "GRAPE".to_string()];
    for _ in 0..20 {
        let pick = choose_random(&words).expect("non-empty list");
        assert!(words.contains(&pick));
    }
    let empty: Vec<String> = Vec::new();
    assert_eq!(choose_random(&empty), None);
}

#[test]
fn game_runs_from_parsed_word_list() {
    let raw = "words\n3\ncrane\ntrace\ngrape";
    let words = words_list(raw);
    let game = WordleGame::new(words.clone()).expect("non-empty dictionary");
    assert!(words.contains(game.target_word()));
    assert_eq!(game.state(), GameState::InProgress);
}
