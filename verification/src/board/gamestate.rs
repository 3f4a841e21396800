//! The part of a position that is not on the board.

use crate::movegen::movedefs::Move;
use vstd::prelude::*;

verus! {

/// Everything a move changes besides the places of the pieces. It is small,
/// so that a copy can be kept for each move made and put back when the move
/// is taken back.
#[derive(Clone, Copy, Debug, PartialEq, Eq)]
pub struct GameState {
    /// The side to move: 0 for white, 1 for black.
    pub active_color: u8,
    /// The castling rights that are left, one bit each.
    pub castling: u8,
    /// Half-moves since the last pawn move or capture.
    pub halfmove_clock: u8,
    /// The square behind a pawn that has just advanced two squares.
    pub en_passant: Option<u8>,
    /// The number of the move, which grows after each move of black.
    pub fullmove_number: u16,
    /// The key of the position.
    pub zobrist_key: u64,
    /// The move that led to this state.
    pub this_move: Move,
}

impl GameState {
    /// The state before anything has been set up: white to move, no rights,
    /// no target, every counter and the key at zero.
    pub open spec fn initial() -> GameState {
        GameState {
            active_color: 0,
            castling: 0,
            halfmove_clock: 0,
            en_passant: None,
            fullmove_number: 0,
            zobrist_key: 0,
            this_move: Move { data: 0 },
        }
    }

    /// The state before anything has been set up.
    pub fn new() -> (s: Self)
        ensures
            s == GameState::initial(),
    {
        Self {
            active_color: 0,
            castling: 0,
            en_passant: None,
            halfmove_clock: 0,
            fullmove_number: 0,
            zobrist_key: 0,
            this_move: Move { data: 0 },
        }
    }
}

} // verus!
