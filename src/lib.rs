//! A turn-based word-guessing game: the scoring of a guess, the shared word
//! lists with their dirty marker, the line format the lists are saved in, and
//! the per-conversation dialogue state machine.

pub mod tile;
pub mod words;
pub mod store;
pub mod persist;
pub mod dialogue;
