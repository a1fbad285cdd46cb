//! Core engine of a terminal typing trainer: the word grid, the keystroke
//! classifier, the countdown decision rule and the session-loop decisions,
//! all as pure verified state manipulation. Terminal and thread plumbing
//! stays with the caller.
pub mod text;
pub mod game;
pub mod stats;
pub mod keyboard;
pub mod timer;
pub mod session;
