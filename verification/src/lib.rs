//! A verified engine for a terminal word-guessing game.
//!
//! A hidden five-letter target word is drawn from a dictionary; the player
//! submits guesses until the word is found or the guess budget is spent.
//! Each guess is scored letter by letter, and a running alphabet view tracks
//! which letters are confirmed present in or absent from the target.

pub mod dict;
pub mod game;
pub mod messages;
pub mod norm;

use vstd::prelude::*;

verus! {

/// Every word in play has exactly this many characters.
pub const WORD_LENGTH: usize = 5;

/// The guess budget: after this many misses the game is lost.
pub const MAX_TRIES: usize = 6;

} // verus!
