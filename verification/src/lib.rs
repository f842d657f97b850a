//! Core engine of a line-oriented chat bot: protocol tag parsing,
//! liveness tracking, alias expansion, command resolution and
//! authorization, moderation filtering, response formatting, and the
//! session event loop that composes them into one non-blocking control
//! loop, with a supervisor that retries failed sessions under
//! exponential backoff.

use vstd::prelude::*;

pub mod after_streams;
pub mod alias;
pub mod auth;
pub mod clock;
pub mod commands;
pub mod config;
pub mod currency;
pub mod dispatch;
pub mod engine;
pub mod format;
pub mod fuse;
pub mod members;
pub mod moderation;
pub mod poll;
pub mod promotions;
pub mod scripts;
pub mod supervisor;
pub mod tags;
pub mod template;
pub mod text;
pub mod theme_admin;
pub mod themes;

verus! {

/// A character is whitespace for the purposes of message tokenization.
pub open spec fn is_space_char(c: char) -> bool {
    c == ' ' || c == '\t' || c == '\r' || c == '\n'
}

} // verus!
