//! Definitions that are needed throughout the engine.

use vstd::prelude::*;

verus! {

/// A set of squares: bit `i` is set when square `i` belongs to it. Square 0
/// is a1, square 7 is h1, square 63 is h8.
pub type Bitboard = u64;

/// A kind of piece, from the king (0) to the pawn (5), or none (6).
pub type Piece = usize;

/// White (0) or black (1).
pub type Side = usize;

/// A square, from a1 (0) to h8 (63): its rank times eight and its file.
pub type Square = usize;

pub const WHITE: Side = 0;

pub const BLACK: Side = 1;

pub const KING: Piece = 0;

pub const QUEEN: Piece = 1;

pub const ROOK: Piece = 2;

pub const BISHOP: Piece = 3;

pub const KNIGHT: Piece = 4;

pub const PAWN: Piece = 5;

/// No piece.
pub const PNONE: Piece = 6;

/// White may castle to the king's side.
pub const CASTLE_WK: u8 = 1;

/// White may castle to the queen's side.
pub const CASTLE_WQ: u8 = 2;

/// Black may castle to the king's side.
pub const CASTLE_BK: u8 = 4;

/// Black may castle to the queen's side.
pub const CASTLE_BQ: u8 = 8;

/// The bitboard without squares.
pub const EMPTY: u64 = 0;

} // verus!
