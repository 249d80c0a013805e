//! The message-lookup decision of the localization interface.
//!
//! Looking a message up and interpolating its arguments is the message
//! catalog's own work, done outside this crate. What the game promises is
//! the degraded mode: when the catalog has no text for a key, the raw key
//! itself is shown rather than failing.

use vstd::prelude::*;

verus! {

/// The text the player is shown for a message key: the catalog's text when
/// the lookup found one, and the raw key as a non-fatal fallback when it did
/// not.
pub fn message_or_key(text: Option<String>, message_id: &str) -> (r: String)
    ensures
        text matches Some(t) ==> r == t,
        text is None ==> r@ == message_id@,
{
    match text {
        Some(t) => t,
        None => message_id.to_owned(),
    }
}

} // verus!
