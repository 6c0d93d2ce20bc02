//! A move-search engine for five-in-a-row on a fixed 20x20 grid.
//!
//! The board, win detection, Zobrist hashing, the transposition table,
//! position evaluation, candidate-move generation, threat classification,
//! the deadline-bounded search and the command handlers are all verified;
//! the line-oriented I/O loop around them is ordinary Rust and lives
//! outside this crate.

pub mod ai;
pub mod board;
pub mod game;
pub mod incremental;
pub mod protocol;
pub mod search;
pub mod text;
pub mod threat;
pub mod zobrist;

use vstd::prelude::*;

verus! {

} // verus!
