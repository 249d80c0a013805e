//! The game engine: game state, guess validation and recording, scoring,
//! letter classification, and termination.

use vstd::prelude::*;
use crate::{MAX_TRIES, WORD_LENGTH};
use crate::dict::choose_random;

verus! {

/// Outcome tag for one letter of a scored guess.
#[derive(Clone, Copy, PartialEq, Eq, Structural, Debug)]
pub enum LetterTag {
    /// The letter stands at the same position in the target word.
    Exact,
    /// The letter occurs in the target word, at another position.
    Misplaced,
    /// The letter does not occur in the target word.
    Absent,
}

/// Status of one letter in the alphabet overview.
#[derive(Clone, Copy, PartialEq, Eq, Structural, Debug)]
pub enum AlphabetTag {
    /// Some guess showed that the letter occurs in the target word.
    Present,
    /// Some guess showed that the letter does not occur in the target word.
    Absent,
    /// No guess so far contained the letter.
    Unseen,
}

/// Phase of one game.
#[derive(Clone, Copy, PartialEq, Eq, Structural, Debug)]
pub enum GameState {
    InProgress,
    Won,
    Lost,
}

/// Why a candidate guess was rejected. Both rejections leave the game
/// unchanged; the caller should prompt for another guess.
#[derive(Clone, Copy, PartialEq, Eq, Structural, Debug)]
pub enum GuessError {
    /// The candidate does not have exactly `WORD_LENGTH` characters.
    WrongLength,
    /// The candidate is well-formed but not a word of the dictionary.
    NotInDictionary,
}

/// The dictionary was empty, so no game could start.
#[derive(Clone, Copy, PartialEq, Eq, Structural, Debug)]
pub struct EmptyDictionaryError;

/// Whether `w` is one of the words of `dict`.
pub open spec fn dict_has(dict: Seq<Seq<char>>, w: Seq<char>) -> bool {
    exists|i: int| 0 <= i < dict.len() && dict[i] == w
}

/// Whether some guess of `history` contains the letter `c`.
pub open spec fn letter_seen(history: Seq<Seq<char>>, c: char) -> bool {
    exists|i: int| 0 <= i < history.len() && #[trigger] history[i].contains(c)
}

/// A letter is classified present once some guess contained it and it occurs
/// in the target, whether at a matching position or elsewhere.
pub open spec fn letter_present(target: Seq<char>, history: Seq<Seq<char>>, c: char) -> bool {
    letter_seen(history, c) && target.contains(c)
}

/// A letter is classified absent once some guess contained it and it does not
/// occur in the target at all.
pub open spec fn letter_absent(target: Seq<char>, history: Seq<Seq<char>>, c: char) -> bool {
    letter_seen(history, c) && !target.contains(c)
}

/// The tag position `i` of `guess` earns against `target`: an exact match of
/// position, a match elsewhere in the target, or no match at all.
pub open spec fn tag_at(target: Seq<char>, guess: Seq<char>, i: int) -> LetterTag {
    if target[i] == guess[i] {
        LetterTag::Exact
    } else if target.contains(guess[i]) {
        LetterTag::Misplaced
    } else {
        LetterTag::Absent
    }
}

/// The status the alphabet overview shows for letter `c`: present wins over
/// absent, and letters never guessed are unseen.
pub open spec fn alphabet_tag(target: Seq<char>, history: Seq<Seq<char>>, c: char) -> AlphabetTag {
    if letter_present(target, history, c) {
        AlphabetTag::Present
    } else if letter_absent(target, history, c) {
        AlphabetTag::Absent
    } else {
        AlphabetTag::Unseen
    }
}

/// The state the game is in after the guesses of `history`: won as soon as
/// some guess equals the target, lost once the budget is spent without a win.
pub open spec fn phase_of(target: Seq<char>, history: Seq<Seq<char>>) -> GameState {
    if exists|i: int| 0 <= i < history.len() && history[i] == target {
        GameState::Won
    } else if history.len() >= MAX_TRIES {
        GameState::Lost
    } else {
        GameState::InProgress
    }
}

/// No letter occurs twice.
pub open spec fn no_dup(s: Seq<char>) -> bool {
    forall|i: int, j: int| 0 <= i < j < s.len() ==> s[i] != s[j]
}

/// One game: the dictionary, the secret target word, the guesses made so
/// far, and the letters so far classified present in or absent from the
/// target.
pub struct WordleGame {
    dictionary: Vec<String>,
    word: String,
    valid_letters: Vec<char>,
    invalid_letters: Vec<char>,
    guesses: Vec<String>,
}

/// Whether the letter `c` occurs in `s`.
fn str_has_char(s: &str, c: char) -> (r: bool)
    ensures
        r == s@.contains(c),
{
    let n: usize = s.unicode_len();
    let mut k: usize = 0;
    let mut found = false;
    while k < n
        invariant
            n == s@.len(),
            k <= n,
            found == exists|m: int| 0 <= m < k && s@[m] == c,
        decreases n - k,
    {
        if s.get_char(k) == c {
            proof {
                assert(s@[k as int] == c);
            }
            found = true;
        }
        k = k + 1;
    }
    found
}

/// Whether the letter `c` is one of `letters`.
fn vec_has_char(letters: &Vec<char>, c: char) -> (r: bool)
    ensures
        r == letters@.contains(c),
{
    let n: usize = letters.len();
    let mut k: usize = 0;
    let mut found = false;
    while k < n
        invariant
            n == letters@.len(),
            k <= n,
            found == exists|m: int| 0 <= m < k && letters@[m] == c,
        decreases n - k,
    {
        if letters[k] == c {
            found = true;
        }
        k = k + 1;
    }
    found
}

/// Adds the letter `c` to the classification set `letters` unless it is
/// already there, so the set never holds a letter twice.
fn insert_letter(letters: &mut Vec<char>, c: char)
    ensures
        final(letters)@ == (if old(letters)@.contains(c) {
            old(letters)@
        } else {
            old(letters)@.push(c)
        }),
        no_dup(old(letters)@) ==> no_dup(final(letters)@),
{
    let present = vec_has_char(letters, c);
    if !present {
        letters.push(c);
        proof {
            if no_dup(old(letters)@) {
                assert forall|i: int, j: int|
                    0 <= i < j < letters@.len() implies letters@[i] != letters@[j] by {
                    if j == letters@.len() - 1 {
                        assert(letters@[i] == old(letters)@[i]);
                        assert(!old(letters)@.contains(c));
                    }
                }
            }
        }
    }
}

proof fn lemma_contains_push(s: Seq<char>, x: char, d: char)
    ensures
        s.push(x).contains(d) == (s.contains(d) || d == x),
{
    if s.contains(d) {
        let i = choose|i: int| 0 <= i < s.len() && s[i] == d;
        assert(s.push(x)[i] == d);
    }
    assert(s.push(x)[s.len() as int] == x);
    if s.push(x).contains(d) {
        let i = choose|i: int| 0 <= i < s.push(x).len() && s.push(x)[i] == d;
        if i < s.len() {
            assert(s[i] == d);
        }
    }
}

proof fn lemma_seen_push(history: Seq<Seq<char>>, g: Seq<char>, c: char)
    ensures
        letter_seen(history.push(g), c) == (letter_seen(history, c) || g.contains(c)),
{
    if letter_seen(history, c) {
        let i = choose|i: int| 0 <= i < history.len() && #[trigger] history[i].contains(c);
        assert(history.push(g)[i].contains(c));
    }
    if g.contains(c) {
        assert(history.push(g)[history.len() as int].contains(c));
    }
    if letter_seen(history.push(g), c) {
        let i = choose|i: int|
            0 <= i < history.push(g).len() && #[trigger] history.push(g)[i].contains(c);
        if i < history.len() {
            assert(history[i].contains(c));
        } else {
            assert(history.push(g)[i] == g);
        }
    }
}

impl WordleGame {
    /// The dictionary, word by word, as sequences of characters.
    pub closed spec fn dict(&self) -> Seq<Seq<char>> {
        self.dictionary@.map_values(|w: String| w@)
    }

    /// The secret target word.
    pub closed spec fn target(&self) -> Seq<char> {
        self.word@
    }

    /// The guesses accepted so far, in submission order.
    pub closed spec fn history(&self) -> Seq<Seq<char>> {
        self.guesses@.map_values(|w: String| w@)
    }

    /// The letters classified present, in the order they were first
    /// classified.
    pub closed spec fn present_letters(&self) -> Seq<char> {
        self.valid_letters@
    }

    /// The letters classified absent, in the order they were first
    /// classified.
    pub closed spec fn absent_letters(&self) -> Seq<char> {
        self.invalid_letters@
    }

    /// The phase the game is in.
    pub open spec fn state_of(&self) -> GameState {
        phase_of(self.target(), self.history())
    }

    /// The game's invariant: the target is a dictionary word of the fixed
    /// length, every accepted guess is a dictionary word, the guess budget
    /// is respected, and the two classification sets hold exactly the
    /// letters that the guess history proves present in or absent from the
    /// target.
    pub closed spec fn wf(&self) -> bool {
        &&& self.word@.len() == WORD_LENGTH
        &&& dict_has(self.dict(), self.word@)
        &&& forall|i: int| 0 <= i < self.dict().len() ==> (#[trigger] self.dict()[i]).len()
            == WORD_LENGTH
        &&& self.guesses@.len() <= MAX_TRIES
        &&& forall|i: int|
            0 <= i < self.history().len() ==> dict_has(self.dict(), #[trigger] self.history()[i])
        &&& forall|c: char|
            self.present_letters().contains(c) <==> letter_present(
                self.target(),
                self.history(),
                c,
            )
        &&& forall|c: char|
            self.absent_letters().contains(c) <==> letter_absent(self.target(), self.history(), c)
        &&& no_dup(self.present_letters())
        &&& no_dup(self.absent_letters())
    }

    /// Starts a game over the given dictionary, drawing the target word from
    /// it at random. The one way this fails is an empty dictionary: no game
    /// can start without words.
    pub fn new(dictionary: Vec<String>) -> (r: Result<WordleGame, EmptyDictionaryError>)
        requires
            forall|i: int| 0 <= i < dictionary@.len() ==> (#[trigger] dictionary@[i])@.len()
                == WORD_LENGTH,
            dictionary@.len() < 0x7fff_ffff,
        ensures
            r is Ok <==> dictionary@.len() > 0,
            r matches Ok(g) ==> {
                &&& g.wf()
                &&& g.dict() == dictionary@.map_values(|w: String| w@)
                &&& dict_has(g.dict(), g.target())
                &&& g.target().len() == WORD_LENGTH
                &&& g.history() == Seq::<Seq<char>>::empty()
                &&& g.state_of() == GameState::InProgress
                &&& g.present_letters() == Seq::<char>::empty()
                &&& g.absent_letters() == Seq::<char>::empty()
            },
    {
        match choose_random(&dictionary) {
            None => Result::Err(EmptyDictionaryError),
            Some(word) => {
                let game = WordleGame {
                    dictionary,
                    word,
                    valid_letters: Vec::new(),
                    invalid_letters: Vec::new(),
                    guesses: Vec::new(),
                };
                proof {
                    assert(game.history() =~= Seq::<Seq<char>>::empty());
                    let i = choose|i: int|
                        0 <= i < game.dictionary@.len() && (#[trigger] game.dictionary@[i])@
                            == game.word@;
                    assert(game.dict()[i] == game.word@);
                    assert(game.dictionary@[i]@.len() == WORD_LENGTH);
                }
                Result::Ok(game)
            },
        }
    }

    /// Starts a game with a chosen target word, which must be one of the
    /// dictionary's words. This is the deterministic counterpart of `new`:
    /// the randomness source is replaced by an explicit choice.
    pub fn with_target(dictionary: Vec<String>, target: String) -> (r: WordleGame)
        requires
            forall|i: int| 0 <= i < dictionary@.len() ==> (#[trigger] dictionary@[i])@.len()
                == WORD_LENGTH,
            dict_has(dictionary@.map_values(|w: String| w@), target@),
        ensures
            r.wf(),
            r.dict() == dictionary@.map_values(|w: String| w@),
            r.target() == target@,
            r.history() == Seq::<Seq<char>>::empty(),
            r.state_of() == GameState::InProgress,
            r.present_letters() == Seq::<char>::empty(),
            r.absent_letters() == Seq::<char>::empty(),
    {
        let game = WordleGame {
            dictionary,
            word: target,
            valid_letters: Vec::new(),
            invalid_letters: Vec::new(),
            guesses: Vec::new(),
        };
        proof {
            assert(game.history() =~= Seq::<Seq<char>>::empty());
            let i = choose|i: int|
                0 <= i < game.dict().len() && game.dict()[i] == game.word@;
            assert(game.dict()[i].len() == WORD_LENGTH);
        }
        game
    }

    /// Scores one guess against the target, position by position, without
    /// touching the game's state.
    pub fn score_guess(&self, guess: &String) -> (r: Vec<LetterTag>)
        requires
            self.wf(),
            guess@.len() == WORD_LENGTH,
        ensures
            r@.len() == WORD_LENGTH,
            forall|i: int| 0 <= i < WORD_LENGTH ==> r@[i] == tag_at(self.target(), guess@, i),
    {
        let mut r: Vec<LetterTag> = Vec::new();
        let mut i: usize = 0;
        while i < WORD_LENGTH
            invariant
                self.wf(),
                guess@.len() == WORD_LENGTH,
                i <= WORD_LENGTH,
                r@.len() == i,
                forall|m: int| 0 <= m < i ==> r@[m] == tag_at(self.target(), guess@, m),
            decreases WORD_LENGTH - i,
        {
            let tc = self.word.as_str().get_char(i);
            let gc = guess.as_str().get_char(i);
            let tag = if tc == gc {
                LetterTag::Exact
            } else if str_has_char(self.word.as_str(), gc) {
                LetterTag::Misplaced
            } else {
                LetterTag::Absent
            };
            r.push(tag);
            i = i + 1;
        }
        r
    }

    /// Validates a candidate guess and, when it is acceptable, records it:
    /// a candidate of the wrong length or absent from the dictionary is
    /// rejected and nothing changes; otherwise it is appended to the guess
    /// history, the letter classification is brought up to date, and the
    /// recorded guess is handed back. Callers must stop submitting guesses
    /// once the game has been won or lost.
    pub fn validate_and_record(&mut self, candidate: String) -> (r: Result<String, GuessError>)
        requires
            old(self).wf(),
            old(self).state_of() == GameState::InProgress,
        ensures
            final(self).wf(),
            final(self).target() == old(self).target(),
            final(self).dict() == old(self).dict(),
            candidate@.len() != WORD_LENGTH ==> {
                &&& r == Result::<String, GuessError>::Err(GuessError::WrongLength)
                &&& final(self).history() == old(self).history()
                &&& final(self).present_letters() == old(self).present_letters()
                &&& final(self).absent_letters() == old(self).absent_letters()
            },
            candidate@.len() == WORD_LENGTH && !dict_has(old(self).dict(), candidate@) ==> {
                &&& r == Result::<String, GuessError>::Err(GuessError::NotInDictionary)
                &&& final(self).history() == old(self).history()
                &&& final(self).present_letters() == old(self).present_letters()
                &&& final(self).absent_letters() == old(self).absent_letters()
            },
            candidate@.len() == WORD_LENGTH && dict_has(old(self).dict(), candidate@) ==> {
                &&& r matches Result::Ok(g) && g@ == candidate@
                &&& final(self).history() == old(self).history().push(candidate@)
            },
    {
        let len: usize = candidate.as_str().unicode_len();
        if len != WORD_LENGTH {
            return Result::Err(GuessError::WrongLength);
        }
        let in_dict = self.dict_contains(&candidate);
        if !in_dict {
            return Result::Err(GuessError::NotInDictionary);
        }
        let recorded = candidate.clone();
        self.guesses.push(candidate.clone());
        proof {
            assert(self.history() =~= old(self).history().push(candidate@));
        }
        let ghost history_now: Seq<Seq<char>> = self.history();
        let ghost valid_before: Seq<char> = self.valid_letters@;
        let ghost invalid_before: Seq<char> = self.invalid_letters@;
        let mut j: usize = 0;
        while j < WORD_LENGTH
            invariant
                old(self).wf(),
                candidate@.len() == WORD_LENGTH,
                j <= WORD_LENGTH,
                self.word == old(self).word,
                self.dictionary == old(self).dictionary,
                self.guesses@ == old(self).guesses@.push(candidate),
                self.history() == history_now,
                history_now == old(self).history().push(candidate@),
                no_dup(self.valid_letters@),
                no_dup(self.invalid_letters@),
                forall|c: char|
                    #![trigger valid_before.contains(c)]
                    #![trigger self.valid_letters@.contains(c)]
                    self.valid_letters@.contains(c) <==> (valid_before.contains(c) || (
                    candidate@.take(j as int).contains(c) && self.word@.contains(c))),
                forall|c: char|
                    #![trigger invalid_before.contains(c)]
                    #![trigger self.invalid_letters@.contains(c)]
                    self.invalid_letters@.contains(c) <==> (invalid_before.contains(c) || (
                    candidate@.take(j as int).contains(c) && !self.word@.contains(c))),
                valid_before == old(self).valid_letters@,
                invalid_before == old(self).invalid_letters@,
            decreases WORD_LENGTH - j,
        {
            let c = candidate.as_str().get_char(j);
            let ghost valid_now: Seq<char> = self.valid_letters@;
            let ghost invalid_now: Seq<char> = self.invalid_letters@;
            let ghost taken: Seq<char> = candidate@.take(j as int);
            proof {
                assert(candidate@.take(j as int + 1) =~= taken.push(c));
            }
            let in_word = str_has_char(self.word.as_str(), c);
            if in_word {
                insert_letter(&mut self.valid_letters, c);
            } else {
                insert_letter(&mut self.invalid_letters, c);
            }
            proof {
                assert forall|d: char|
                    #![trigger valid_before.contains(d)]
                    #![trigger invalid_before.contains(d)]
                    #![trigger self.valid_letters@.contains(d)]
                    #![trigger self.invalid_letters@.contains(d)]
                    (self.valid_letters@.contains(d) <==> (valid_before.contains(d) || (
                    candidate@.take(j as int + 1).contains(d) && self.word@.contains(d))))
                        && (self.invalid_letters@.contains(d) <==> (invalid_before.contains(d)
                        || (candidate@.take(j as int + 1).contains(d) && !self.word@.contains(
                        d)))) by {
                    lemma_contains_push(taken, c, d);
                    assert(valid_now.contains(d) <==> (valid_before.contains(d) || (
                    taken.contains(d) && self.word@.contains(d))));
                    assert(invalid_now.contains(d) <==> (invalid_before.contains(d) || (
                    taken.contains(d) && !self.word@.contains(d))));
                    if in_word {
                        lemma_contains_push(valid_now, c, d);
                    } else {
                        lemma_contains_push(invalid_now, c, d);
                    }
                }
            }
            j = j + 1;
        }
        proof {
            assert(candidate@.take(WORD_LENGTH as int) =~= candidate@);
            assert forall|c: char| self.valid_letters@.contains(c) implies letter_present(
                self.target(),
                self.history(),
                c,
            ) by {
                lemma_seen_push(old(self).history(), candidate@, c);
            }
            assert forall|c: char| letter_present(self.target(), self.history(), c) implies self
                .valid_letters@.contains(c) by {
                lemma_seen_push(old(self).history(), candidate@, c);
            }
            assert forall|c: char| self.invalid_letters@.contains(c) implies letter_absent(
                self.target(),
                self.history(),
                c,
            ) by {
                lemma_seen_push(old(self).history(), candidate@, c);
            }
            assert forall|c: char| letter_absent(self.target(), self.history(), c) implies self
                .invalid_letters@.contains(c) by {
                lemma_seen_push(old(self).history(), candidate@, c);
            }
            assert(old(self).history().len() < MAX_TRIES);
        }
        Result::Ok(recorded)
    }

    /// Whether the game has ended with this guess: won when the guess equals
    /// the target, lost when the guess budget is spent. The winning test
    /// comes first, so a win on the last try is a win.
    pub fn is_terminal(&self, last_guess: &String) -> (r: bool)
        requires
            self.wf(),
        ensures
            r == (last_guess@ == self.target() || self.history().len() >= MAX_TRIES),
    {
        if *last_guess == self.word {
            true
        } else {
            self.guesses.len() >= MAX_TRIES
        }
    }

    /// The phase the game is in, computed from the guess history.
    pub fn state(&self) -> (r: GameState)
        requires
            self.wf(),
        ensures
            r == self.state_of(),
    {
        let n: usize = self.guesses.len();
        let mut k: usize = 0;
        let mut won = false;
        while k < n
            invariant
                self.wf(),
                n == self.guesses@.len(),
                k <= n,
                won == exists|m: int| 0 <= m < k && (#[trigger] self.history()[m]) == self.target(),
            decreases n - k,
        {
            if self.guesses[k] == self.word {
                proof {
                    assert(self.history()[k as int] == self.target());
                }
                won = true;
            }
            k = k + 1;
        }
        if won {
            GameState::Won
        } else if n >= MAX_TRIES {
            GameState::Lost
        } else {
            GameState::InProgress
        }
    }

    /// The alphabet overview: for each letter of the locale's alphabet, in
    /// the given order, the status the guesses so far have earned it.
    pub fn alphabet_status(&self, alphabet: &str) -> (r: Vec<(char, AlphabetTag)>)
        requires
            self.wf(),
        ensures
            r@.len() == alphabet@.len(),
            forall|i: int| 0 <= i < r@.len() ==> (#[trigger] r@[i]).0 == alphabet@[i],
            forall|i: int|
                0 <= i < r@.len() ==> (#[trigger] r@[i]).1 == alphabet_tag(
                    self.target(),
                    self.history(),
                    alphabet@[i],
                ),
    {
        let n: usize = alphabet.unicode_len();
        let mut r: Vec<(char, AlphabetTag)> = Vec::new();
        let mut i: usize = 0;
        while i < n
            invariant
                self.wf(),
                n == alphabet@.len(),
                i <= n,
                r@.len() == i,
                forall|m: int| 0 <= m < i ==> (#[trigger] r@[m]).0 == alphabet@[m],
                forall|m: int|
                    0 <= m < i ==> (#[trigger] r@[m]).1 == alphabet_tag(
                        self.target(),
                        self.history(),
                        alphabet@[m],
                    ),
            decreases n - i,
        {
            let c = alphabet.get_char(i);
            let tag = if vec_has_char(&self.valid_letters, c) {
                AlphabetTag::Present
            } else if vec_has_char(&self.invalid_letters, c) {
                AlphabetTag::Absent
            } else {
                AlphabetTag::Unseen
            };
            r.push((c, tag));
            i = i + 1;
        }
        r
    }

    /// Whether this word is in the game's dictionary.
    pub fn dict_contains(&self, word: &String) -> (r: bool)
        ensures
            r == dict_has(self.dict(), word@),
    {
        let n: usize = self.dictionary.len();
        let mut k: usize = 0;
        let mut found = false;
        while k < n
            invariant
                n == self.dictionary@.len(),
                k <= n,
                found == exists|m: int| 0 <= m < k && (#[trigger] self.dict()[m]) == word@,
            decreases n - k,
        {
            if self.dictionary[k] == *word {
                proof {
                    assert(self.dict()[k as int] == word@);
                }
                found = true;
            }
            k = k + 1;
        }
        found
    }

    /// The target word, for the final report once the game has ended.
    pub fn target_word(&self) -> (r: &String)
        ensures
            r@ == self.target(),
    {
        &self.word
    }

    /// The guesses accepted so far, in submission order.
    pub fn guesses(&self) -> (r: &Vec<String>)
        ensures
            r@.len() == self.history().len(),
            forall|i: int| 0 <= i < r@.len() ==> (#[trigger] r@[i])@ == self.history()[i],
    {
        &self.guesses
    }

    /// How many guesses have been accepted.
    pub fn guess_count(&self) -> (r: usize)
        ensures
            r == self.history().len(),
    {
        self.guesses.len()
    }

    /// The letters classified present in the target, each exactly once.
    pub fn present_letter_list(&self) -> (r: &Vec<char>)
        requires
            self.wf(),
        ensures
            r@ == self.present_letters(),
            forall|c: char|
                r@.contains(c) <==> letter_present(self.target(), self.history(), c),
    {
        &self.valid_letters
    }

    /// The letters classified absent from the target, each exactly once.
    pub fn absent_letter_list(&self) -> (r: &Vec<char>)
        requires
            self.wf(),
        ensures
            r@ == self.absent_letters(),
            forall|c: char| r@.contains(c) <==> letter_absent(self.target(), self.history(), c),
    {
        &self.invalid_letters
    }
}

/// Guessing the target word wins at once: whatever was guessed before, a
/// history whose newest guess equals the target is in the Won state.
pub proof fn lemma_winning_guess(target: Seq<char>, history: Seq<Seq<char>>, g: Seq<char>)
    requires
        g == target,
    ensures
        phase_of(target, history.push(g)) == GameState::Won,
{
    assert(history.push(g)[history.len() as int] == target);
}

/// Spending the whole guess budget without naming the target loses: a
/// history of `MAX_TRIES` guesses, none equal to the target, is in the Lost
/// state. Further guesses are excluded by `validate_and_record`'s
/// precondition, which demands a game still in progress.
pub proof fn lemma_out_of_tries(target: Seq<char>, history: Seq<Seq<char>>)
    requires
        history.len() == MAX_TRIES,
        forall|i: int| 0 <= i < history.len() ==> history[i] != target,
    ensures
        phase_of(target, history) == GameState::Lost,
{
}

/// Letter classification is monotonic: once the guesses of `history` have
/// classified a letter present, no later guesses can change that, and the
/// alphabet overview keeps showing it as present.
pub proof fn lemma_present_monotonic(
    target: Seq<char>,
    history: Seq<Seq<char>>,
    later: Seq<Seq<char>>,
    c: char,
)
    requires
        letter_present(target, history, c),
    ensures
        letter_present(target, history + later, c),
        alphabet_tag(target, history + later, c) == AlphabetTag::Present,
{
    let i = choose|i: int| 0 <= i < history.len() && #[trigger] history[i].contains(c);
    assert((history + later)[i] == history[i]);
    assert((history + later)[i].contains(c));
}

} // verus!
