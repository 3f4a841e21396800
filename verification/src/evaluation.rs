//! The static evaluation of a position: the material of white less the
//! material of black.

use crate::board::{Board, Occupant};
use crate::defs::{Piece, Side, BISHOP, BLACK, KNIGHT, PAWN, QUEEN, ROOK, WHITE};
use vstd::prelude::*;

verus! {

/// No evaluation is further from zero than this.
pub const EVAL_LIMIT: i16 = 20_000;

/// What a piece is worth, in hundredths of a pawn.
pub open spec fn piece_value(piece: Piece) -> int {
    if piece == QUEEN {
        900
    } else if piece == ROOK {
        500
    } else if piece == BISHOP {
        320
    } else if piece == KNIGHT {
        310
    } else if piece == PAWN {
        100
    } else {
        0
    }
}

/// What the pieces of `side` on the squares below `n` are worth together.
pub open spec fn material(squares: Seq<Occupant>, side: Side, n: nat) -> int
    decreases n,
{
    if n == 0 {
        0
    } else {
        material(squares, side, (n - 1) as nat) + (match squares[n - 1] {
            Some((s, piece)) => if s == side {
                piece_value(piece)
            } else {
                0
            },
            None => 0,
        })
    }
}

/// The evaluation of a position as white sees it: the material of white
/// less that of black, but no further from zero than the limit.
pub open spec fn evaluation(squares: Seq<Occupant>) -> int {
    let balance = material(squares, WHITE, 64) - material(squares, BLACK, 64);
    if balance > EVAL_LIMIT {
        EVAL_LIMIT as int
    } else if balance < -EVAL_LIMIT {
        -EVAL_LIMIT
    } else {
        balance
    }
}

/// What a piece is worth, in hundredths of a pawn.
pub fn value_of(piece: Piece) -> (value: i32)
    ensures
        value == piece_value(piece),
        0 <= value <= 900,
{
    if piece == QUEEN {
        900
    } else if piece == ROOK {
        500
    } else if piece == BISHOP {
        320
    } else if piece == KNIGHT {
        310
    } else if piece == PAWN {
        100
    } else {
        0
    }
}

/// The evaluation of the position as white sees it.
pub fn evaluate_position(board: &Board) -> (value: i16)
    requires
        board.consistent(),
    ensures
        value == evaluation(board@.squares),
        -EVAL_LIMIT <= value <= EVAL_LIMIT,
{
    let mut w_material: i32 = 0;
    let mut b_material: i32 = 0;
    let mut square: usize = 0;
    while square < 64
        invariant
            board.consistent(),
            square <= 64,
            w_material == material(board@.squares, WHITE, square as nat),
            b_material == material(board@.squares, BLACK, square as nat),
            0 <= w_material <= 900 * square,
            0 <= b_material <= 900 * square,
        decreases 64 - square,
    {
        match board.piece_on(square) {
            Some((side, piece)) => {
                if side == WHITE {
                    w_material += value_of(piece);
                } else {
                    b_material += value_of(piece);
                }
            },
            None => {},
        }
        square += 1;
    }
    let balance: i32 = w_material - b_material;
    if balance > EVAL_LIMIT as i32 {
        EVAL_LIMIT
    } else if balance < -(EVAL_LIMIT as i32) {
        -EVAL_LIMIT
    } else {
        balance as i16
    }
}

} // verus!
