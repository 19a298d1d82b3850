//! The search core of a chess engine: a fixed-depth negamax search, with and
//! without alpha-beta pruning, that keeps its best lines in a triangular
//! table, and the bitboard position that such an engine plays on.
//!
//! The search does not generate, make or score moves itself. It is a machine
//! that says what it needs next and is told the answer (`search`), specified
//! by a model of its steps (`model`). What the steps add up to when they are
//! taken on a game is stated and proved in `game`, `run` and `laws`.

pub mod bitboard;
pub mod game;
pub mod laws;
pub mod model;
pub mod piece;
pub mod position;
pub mod run;
pub mod score;
pub mod search;
pub mod table;
