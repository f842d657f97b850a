//! Plain configuration records.

use vstd::prelude::*;

verus! {

/// A legacy alias entry from the static configuration file: messages
/// matching `match_text` are replaced by `replace`.
pub struct DeprecatedAlias {
    pub match_text: String,
    pub replace: String,
}

impl DeprecatedAlias {
    pub fn new(match_text: String, replace: String) -> (r: DeprecatedAlias)
        ensures
            r.match_text == match_text,
            r.replace == replace,
    {
        DeprecatedAlias { match_text, replace }
    }
}

/// Marker for the music service's credential flow.
pub struct Spotify;

/// Marker for the chat service's credential flow.
pub struct Twitch;

} // verus!
