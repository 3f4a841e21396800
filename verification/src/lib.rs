//! A bitboard chess engine core: position representation with reversible
//! moves and incremental hashing, pseudo-legal move generation, and an
//! iterative-deepening alpha-beta search with time management.

pub mod board;
pub mod defs;
pub mod engine;
pub mod evaluation;
pub mod fen;
pub mod misc;
pub mod move_boards;
pub mod movegen;
pub mod search;
