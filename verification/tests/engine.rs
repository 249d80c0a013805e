use wordle::game::{AlphabetTag, EmptyDictionaryError, GameState, GuessError, LetterTag, WordleGame};

fn dict(words: &[&str]) -> Vec<String> {
    words.iter().map(|w| w.to_string()).collect()
}

fn game_with(words: &[&str], target: &str) -> WordleGame {
    WordleGame::with_target(dict(words), target.to_string())
}

const WORDS: &[&str] = &["CRANE", "TRACE", "GRAPE", "APPLE", "STONE", "ROBIN", "ELBOW", "BRICK"];

#[test]
fn target_word_is_from_dictionary() {
    let game = WordleGame::new(dict(WORDS)).expect("non-empty dictionary");
    let target = game.target_word();
    assert!(WORDS.contains(&target.as_str()));
    assert_eq!(target.chars().count(), 5);
    assert_eq!(game.guess_count(), 0);
    assert_eq!(game.state(), GameState::InProgress);
}

#[test]
fn empty_dictionary_rejected() {
    let empty: Vec<String> = Vec::new();
    let result = WordleGame::new(empty);
    assert_eq!(result.err(), Some(EmptyDictionaryError));
}

#[test]
fn winning_guess_ends_game() {
    let mut game = game_with(WORDS, "APPLE");
    let tags = game.score_guess(&"APPLE".to_string());
    assert_eq!(
        tags,
        vec![
            LetterTag::Exact,
            LetterTag::Exact,
            LetterTag::Exact,
            LetterTag::Exact,
            LetterTag::Exact
        ]
    );
    let recorded = game.validate_and_record("APPLE".to_string());
    assert_eq!(recorded, Ok("APPLE".to_string()));
    assert!(game.is_terminal(&"APPLE".to_string()));
    assert_eq!(game.state(), GameState::Won);
    assert_eq!(game.guess_count(), 1);
}

#[test]
fn win_on_later_try_still_wins() {
    let mut game = game_with(WORDS, "APPLE");
    for miss in ["CRANE", "STONE", "ROBIN"] {
        let r = game.validate_and_record(miss.to_string());
        assert!(r.is_ok());
        assert!(!game.is_terminal(&miss.to_string()));
        assert_eq!(game.state(), GameState::InProgress);
    }
    let r = game.validate_and_record("APPLE".to_string());
    assert_eq!(r, Ok("APPLE".to_string()));
    assert!(game.is_terminal(&"APPLE".to_string()));
    assert_eq!(game.state(), GameState::Won);
    assert_eq!(game.guess_count(), 4);
}

#[test]
fn six_misses_lose() {
    let mut game = game_with(WORDS, "GRAPE");
    let misses = ["CRANE", "TRACE", "APPLE", "STONE", "ROBIN", "ELBOW"];
    for (i, miss) in misses.iter().enumerate() {
        assert_eq!(game.state(), GameState::InProgress);
        let r = game.validate_and_record(miss.to_string());
        assert!(r.is_ok());
        if i < misses.len() - 1 {
            assert!(!game.is_terminal(&miss.to_string()));
            assert_eq!(game.state(), GameState::InProgress);
        }
    }
    assert!(game.is_terminal(&"ELBOW".to_string()));
    assert_eq!(game.state(), GameState::Lost);
    assert_eq!(game.guess_count(), 6);
    assert_eq!(game.target_word(), "GRAPE");
}

#[test]
fn trace_against_crane_scoring() {
    let mut game = game_with(&["CRANE", "TRACE"], "CRANE");
    let tags = game.score_guess(&"TRACE".to_string());
    assert_eq!(
        tags,
        vec![
            LetterTag::Absent,
            LetterTag::Exact,
            LetterTag::Exact,
            LetterTag::Misplaced,
            LetterTag::Exact
        ]
    );
    let r = game.validate_and_record("TRACE".to_string());
    assert!(r.is_ok());
    assert_eq!(game.state(), GameState::InProgress);
    assert_eq!(game.guess_count(), 1);
}

#[test]
fn wrong_length_rejected() {
    let mut game = game_with(WORDS, "CRANE");
    let four = game.validate_and_record("CRAN".to_string());
    assert_eq!(four, Err(GuessError::WrongLength));
    assert_eq!(game.guess_count(), 0);
    let six = game.validate_and_record("CRANES".to_string());
    assert_eq!(six, Err(GuessError::WrongLength));
    assert_eq!(game.guess_count(), 0);
    assert_eq!(game.state(), GameState::InProgress);
}

#[test]
fn unknown_word_rejected() {
    let mut game = game_with(WORDS, "CRANE");
    let r = game.validate_and_record("BRAVE".to_string());
    assert_eq!(r, Err(GuessError::NotInDictionary));
    assert_eq!(game.guess_count(), 0);
    assert_eq!(game.state(), GameState::InProgress);
}

#[test]
fn present_letter_stays_present() {
    let mut game = game_with(WORDS, "CRANE");
    game.validate_and_record("TRACE".to_string()).unwrap();
    assert!(game.present_letter_list().contains(&'R'));
    assert!(game.absent_letter_list().contains(&'T'));
    // A later guess places R where it does not match the target; R must
    // still be classified present.
    game.validate_and_record("ROBIN".to_string()).unwrap();
    assert!(game.present_letter_list().contains(&'R'));
    assert!(!game.absent_letter_list().contains(&'R'));
    let status = game.alphabet_status("ABCDEFGHIJKLMNOPQRSTUVWXYZ");
    let r_entry = status.iter().find(|(c, _)| *c == 'R').unwrap();
    assert_eq!(r_entry.1, AlphabetTag::Present);
}

#[test]
fn alphabet_view_tracks_guesses() {
    let mut game = game_with(&["CRANE", "TRACE"], "CRANE");
    game.validate_and_record("TRACE".to_string()).unwrap();
    let status = game.alphabet_status("ABCDEFGHIJKLMNOPQRSTUVWXYZ");
    assert_eq!(status.len(), 26);
    for (c, tag) in status {
        let expected = match c {
            'T' => AlphabetTag::Absent,
            'R' | 'A' | 'C' | 'E' => AlphabetTag::Present,
            _ => AlphabetTag::Unseen,
        };
        assert_eq!(tag, expected, "letter {}", c);
    }
}

#[test]
fn guesses_are_recorded_in_order() {
    let mut game = game_with(WORDS, "GRAPE");
    game.validate_and_record("CRANE".to_string()).unwrap();
    game.validate_and_record("TRACE".to_string()).unwrap();
    let recorded: Vec<String> = game.guesses().clone();
    assert_eq!(recorded, vec!["CRANE".to_string(), "TRACE".to_string()]);
}
