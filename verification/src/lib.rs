//! Exact solver for Connect Four on a 7x7 board.
//!
//! A position is packed into 64-bit words: each of the 7 columns owns 8
//! consecutive bits, the lowest 7 being cells and the 8th a sentinel that
//! marks a full column.  A negamax search with alpha-beta pruning,
//! principal-variation probes, threat-based move ordering and a two-tier
//! transposition cache computes the game-theoretic value of a position and
//! the set of optimal moves.

pub mod bits;
pub mod state;
pub mod threats;
pub mod caches;
pub mod engine;
pub mod error;
pub mod database;
pub mod value;
