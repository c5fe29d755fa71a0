//! A verified engine for a dice-placement game on a fixed 3x3 board.
//!
//! Starting from a partially filled board, the engine enumerates every
//! sequence of legal moves up to a bounded depth (or until the board is
//! full), encodes each terminal board as a positional decimal number, and
//! folds all of those encodings into one checksum, reduced modulo 2^30
//! after every addition.  Identical (depth, board) states reached along
//! different move orders are shared through a memoization cache keyed by a
//! lossless 64-bit packing of the state.

pub mod combinations;
pub mod grid;
pub mod position;
pub mod search;
pub mod state;
