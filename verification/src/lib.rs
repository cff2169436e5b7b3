//! Redaction of game-server logs before they are published, and condensing of
//! repeated runtime-error reports into a counted summary.

pub mod ongoing_round_protection;
pub mod parsers;
pub mod pattern;
pub mod text;
