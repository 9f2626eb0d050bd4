//! Editing helpers for Stellaris save games.
//!
//! The game state of a save is a text of nested `key={ ... }` blocks. The
//! modules here split it into lines, look up map flags in it, and replay
//! espionage operations, dig sites and first contacts as if every roll had
//! come up ten, each edit following the brace depth line by line.
pub mod text;
pub mod lines;
pub mod pattern;
pub mod flags;
pub mod espionage;
pub mod archaeology;
pub mod first_contact;
