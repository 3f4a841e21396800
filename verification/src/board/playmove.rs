//! Making a move and taking it back.

use crate::board::gamestate::GameState;
use crate::board::zobrist::ZobristRandoms;
use crate::board::{
    has_right, key_of, pieces_hash, rights_ok, spec_castling_perm, square_term, state_hash, Board,
    BoardView, Occupant,
};
use crate::defs::{
    Piece, Side, BLACK, CASTLE_BK, CASTLE_BQ, CASTLE_WK, CASTLE_WQ, KING, PAWN, PNONE, ROOK, WHITE,
};
use crate::misc::bits::{
    lemma_member_ops, lemma_right_masks, lemma_rights_and, lemma_xor_laws, lemma_xor_reorder,
    lemma_xor_state,
};
use crate::move_boards::MoveBoard;
use crate::movegen::info::{in_check, king_attacked};
use crate::movegen::movedefs::{Move, NO_CAPTURE, NO_PROMOTION};
use vstd::prelude::*;

verus! {

/// The square of the pawn that an en-passant capture landing on `to` takes
/// when `us` moves; also the square that a double step to `to` passes over.
pub open spec fn behind(us: Side, to: int) -> int {
    if us == WHITE {
        to - 8
    } else {
        to + 8
    }
}

/// Where the rook comes from when the king castles to `to`.
pub open spec fn rook_from(to: int) -> int {
    if to == 6 {
        7
    } else if to == 2 {
        0
    } else if to == 62 {
        63
    } else {
        56
    }
}

/// Where the rook goes when the king castles to `to`.
pub open spec fn rook_to(to: int) -> int {
    if to == 6 {
        5
    } else if to == 2 {
        3
    } else if to == 62 {
        61
    } else {
        59
    }
}

impl BoardView {
    /// The castling that a king move from `from` to `to` is, with the right
    /// for it and the rook's landing square empty.
    pub open spec fn castle_shape(self, from: int, to: int) -> bool {
        let c = self.state.castling;
        ||| (self.us() == WHITE && from == 4 && to == 6 && has_right(c, CASTLE_WK)
            && self.squares[5] is None)
        ||| (self.us() == WHITE && from == 4 && to == 2 && has_right(c, CASTLE_WQ)
            && self.squares[3] is None)
        ||| (self.us() == BLACK && from == 60 && to == 62 && has_right(c, CASTLE_BK)
            && self.squares[61] is None)
        ||| (self.us() == BLACK && from == 60 && to == 58 && has_right(c, CASTLE_BQ)
            && self.squares[59] is None)
    }

    /// The fields of `m` fit the position: the piece stands on the
    /// from-square, the captured piece on the to-square, and each flag is
    /// set only on a move of its kind.
    pub open spec fn accepts(self, m: Move) -> bool {
        let piece = m.spec_piece() as usize;
        let from = m.spec_from() as int;
        let to = m.spec_to() as int;
        let captured = m.spec_captured();
        let promoted = m.spec_promoted();
        &&& piece < 6
        &&& from != to
        &&& self.squares[from] == Some((self.us(), piece))
        &&& if captured == NO_CAPTURE {
            self.squares[to] is None
        } else {
            captured < 6 && self.squares[to] == Some((self.them(), captured as usize))
        }
        &&& (promoted != NO_PROMOTION ==> piece == PAWN && 1 <= promoted <= 4)
        &&& (m.spec_en_passant() ==> piece == PAWN && captured == NO_CAPTURE && promoted
            == NO_PROMOTION && !m.spec_double_step() && self.state.en_passant == Some(to as u8))
        &&& (m.spec_double_step() ==> piece == PAWN && captured == NO_CAPTURE && promoted
            == NO_PROMOTION && self.squares[behind(self.us(), to)] is None && if self.us()
            == WHITE {
            8 <= from < 16 && to == from + 16
        } else {
            48 <= from < 56 && to == from - 16
        })
        &&& (m.spec_castling() ==> piece == KING && captured == NO_CAPTURE && self.castle_shape(
            from,
            to,
        ))
    }

    /// Where the pieces stand after `m`.
    pub open spec fn squares_after(self, m: Move) -> Seq<Occupant> {
        let piece = m.spec_piece() as usize;
        let from = m.spec_from() as int;
        let to = m.spec_to() as int;
        let placed = if m.spec_promoted() != NO_PROMOTION {
            m.spec_promoted() as usize
        } else {
            piece
        };
        let moved = self.squares.update(from, None).update(to, Some((self.us(), placed)));
        let taken = if m.spec_en_passant() {
            moved.update(behind(self.us(), to), None)
        } else {
            moved
        };
        if m.spec_castling() {
            taken.update(rook_from(to), None).update(rook_to(to), Some((self.us(), ROOK)))
        } else {
            taken
        }
    }

    /// The position after `m`: the piece has moved (a pawn that promotes is
    /// replaced), what it captured is gone, a castling king has taken its
    /// rook along, the rights of a king or rook that left or was taken at
    /// home are gone, the en-passant target is set by a double step and
    /// cleared by any other move, the clocks have advanced, the other side
    /// is to move, the key is that of the new position, and the state
    /// before the move lies on top of the history.
    pub open spec fn make(self, m: Move) -> BoardView {
        let piece = m.spec_piece() as usize;
        let from = m.spec_from() as int;
        let to = m.spec_to() as int;
        let squares = self.squares_after(m);
        let castling = (self.state.castling & spec_castling_perm(from)) & spec_castling_perm(to);
        let active_color = (1 - self.state.active_color) as u8;
        let en_passant = if m.spec_double_step() {
            Some(behind(self.us(), to) as u8)
        } else {
            None
        };
        let halfmove_clock = if piece == PAWN || m.spec_captured() != NO_CAPTURE {
            0u8
        } else if self.state.halfmove_clock == u8::MAX {
            u8::MAX
        } else {
            (self.state.halfmove_clock + 1) as u8
        };
        let fullmove_number = if self.us() == BLACK && self.state.fullmove_number < u16::MAX {
            (self.state.fullmove_number + 1) as u16
        } else {
            self.state.fullmove_number
        };
        BoardView {
            squares,
            state: GameState {
                active_color,
                castling,
                halfmove_clock,
                en_passant,
                fullmove_number,
                zobrist_key: key_of(self.zr, squares, castling, active_color, en_passant),
                this_move: m,
            },
            history: self.history.push(self.state),
            zr: self.zr,
        }
    }

    /// The position came about by a move from a well-formed position.
    pub open spec fn made(self) -> bool {
        exists|before: BoardView|
            before.wf() && before.accepts(self.state.this_move) && #[trigger] before.make(
                self.state.this_move,
            ) == self
    }

    /// Every state of the history was left by a move that leads to the
    /// state after it: the moves can be taken back one by one, down to the
    /// position that was set up.
    pub open spec fn played(self) -> bool
        decreases self.history.len(),
    {
        self.history.len() == 0 || (self.made() && self.unmake().played())
    }

    /// The position before the move that led to this one: the piece is back
    /// (a promoted piece is a pawn again), what it captured stands again, a
    /// castled rook is home, and the state is the one on top of the history.
    pub open spec fn unmake(self) -> BoardView {
        let m = self.state.this_move;
        let before = self.history.last();
        let mover = before.active_color as usize;
        let other = (1 - before.active_color) as usize;
        let from = m.spec_from() as int;
        let to = m.spec_to() as int;
        let unrooked = if m.spec_castling() {
            self.squares.update(rook_to(to), None).update(rook_from(to), Some((mover, ROOK)))
        } else {
            self.squares
        };
        let untaken = if m.spec_en_passant() {
            unrooked.update(behind(mover, to), Some((other, PAWN)))
        } else {
            unrooked
        };
        let squares = untaken.update(
            to,
            if m.spec_captured() != NO_CAPTURE {
                Some((other, m.spec_captured() as usize))
            } else {
                None
            },
        ).update(from, Some((mover, m.spec_piece() as usize)));
        BoardView { squares, state: before, history: self.history.drop_last(), zr: self.zr }
    }
}

/// Replacing what stands on one square changes the pieces' part of the key
/// by what stood there and what stands there now.
pub proof fn lemma_pieces_hash_update(
    zr: ZobristRandoms,
    squares: Seq<Occupant>,
    square: int,
    occupant: Occupant,
    n: nat,
)
    requires
        0 <= square < squares.len(),
        n <= squares.len(),
    ensures
        pieces_hash(zr, squares.update(square, occupant), n) == if square < n {
            (pieces_hash(zr, squares, n) ^ square_term(zr, squares[square], square)) ^ square_term(
                zr,
                occupant,
                square,
            )
        } else {
            pieces_hash(zr, squares, n)
        },
    decreases n,
{
    if n > 0 {
        let m = (n - 1) as nat;
        lemma_pieces_hash_update(zr, squares, square, occupant, m);
        let h = pieces_hash(zr, squares, m);
        let o = square_term(zr, squares[square], square);
        let x = square_term(zr, occupant, square);
        let t = square_term(zr, squares[m as int], m as int);
        if square == m {
            lemma_xor_laws(h, o, x);
        } else if square < m {
            lemma_xor_reorder(h, o, x, t);
        }
    }
}

/// Taking a move back after making it gives the position before the move.
pub proof fn lemma_make_unmake(before: BoardView, m: Move)
    requires
        before.wf(),
        before.accepts(m),
    ensures
        before.make(m).made(),
        before.make(m).unmake() == before,
{
    let after = before.make(m);
    assert(after.history.last() == before.state);
    assert(after.history.drop_last() =~= before.history);
    assert(after.unmake().squares =~= before.squares);
}

/// A move from a position whose moves can all be taken back leads to such a
/// position.
pub proof fn lemma_make_played(before: BoardView, m: Move)
    requires
        before.wf(),
        before.played(),
        before.accepts(m),
    ensures
        before.make(m).played(),
{
    lemma_make_unmake(before, m);
}

impl BoardView {
    /// The moves lead one after the other from this position on, each
    /// accepted by the position it is made from.
    pub open spec fn accepts_all(self, moves: Seq<Move>) -> bool
        decreases moves.len(),
    {
        moves.len() == 0 || (self.accepts(moves[0]) && self.make(moves[0]).accepts_all(
            moves.drop_first(),
        ))
    }

    /// The position after the moves.
    pub open spec fn make_all(self, moves: Seq<Move>) -> BoardView
        decreases moves.len(),
    {
        if moves.len() == 0 {
            self
        } else {
            self.make(moves[0]).make_all(moves.drop_first())
        }
    }
}

/// After any number of moves, each accepted where it is made, the position
/// is well-formed: among the rest, its key is the key computed from
/// nothing but the position.
pub proof fn lemma_key_after_moves(start: BoardView, moves: Seq<Move>)
    requires
        start.wf(),
        start.accepts_all(moves),
    ensures
        start.make_all(moves).wf(),
        start.make_all(moves).state.zobrist_key == key_of(
            start.zr,
            start.make_all(moves).squares,
            start.make_all(moves).state.castling,
            start.make_all(moves).state.active_color,
            start.make_all(moves).state.en_passant,
        ),
        start.make_all(moves).zr == start.zr,
    decreases moves.len(),
{
    if moves.len() > 0 {
        lemma_make_wf(start, moves[0]);
        lemma_key_after_moves(start.make(moves[0]), moves.drop_first());
    }
}

/// After a move that the position accepts, the castling rights that are left
/// still have king and rook at home.
proof fn lemma_rights_after(before: BoardView, m: Move)
    requires
        before.wf(),
        before.accepts(m),
    ensures
        before.make(m).state.castling < 16,
        rights_ok(before.make(m).squares, before.make(m).state.castling),
{
    let from = m.spec_from() as int;
    let to = m.spec_to() as int;
    let c = before.state.castling;
    let c1 = c & spec_castling_perm(from);
    lemma_rights_and(c, spec_castling_perm(from));
    lemma_rights_and(c1, spec_castling_perm(to));
    lemma_right_masks();
}

/// A move that the position accepts leads to a well-formed position.
pub proof fn lemma_make_wf(before: BoardView, m: Move)
    requires
        before.wf(),
        before.accepts(m),
    ensures
        before.make(m).wf(),
{
    lemma_rights_after(before, m);
    let after = before.make(m);
    assert forall|i: int| 0 <= i < 64 implies (#[trigger] after.squares[i] matches Some((s, p))
        ==> s < 2 && p < 6) by {
        assert(before.squares[i] matches Some((s, p)) ==> s < 2 && p < 6);
    }
}

/// The pieces' part of the key of the empty board is zero.
pub proof fn lemma_pieces_hash_empty(zr: ZobristRandoms, squares: Seq<Occupant>, n: nat)
    requires
        n <= squares.len(),
        forall|i: int| 0 <= i < n ==> squares[i] is None,
    ensures
        pieces_hash(zr, squares, n) == 0,
    decreases n,
{
    if n > 0 {
        lemma_pieces_hash_empty(zr, squares, (n - 1) as nat);
        lemma_xor_laws(0, 0, 0);
    }
}

/// The castling rights that a move from or to `square` leaves standing.
pub fn castling_perm(square: usize) -> (mask: u8)
    ensures
        mask == spec_castling_perm(square as int),
{
    if square == 0 {
        13
    } else if square == 4 {
        12
    } else if square == 7 {
        14
    } else if square == 56 {
        7
    } else if square == 60 {
        3
    } else if square == 63 {
        11
    } else {
        15
    }
}

impl Board {
    /// The empty board with white to move, no castling rights, no
    /// en-passant target and no history, whose keys are built from `zr`.
    pub fn with_randoms(zr: ZobristRandoms) -> (board: Board)
        ensures
            board.wf(),
            board.zr == zr,
            board@.history.len() == 0,
            forall|i: int| 0 <= i < 64 ==> board@.squares[i] is None,
            board.game_state == (GameState {
                zobrist_key: board.game_state.zobrist_key,
                ..GameState::initial()
            }),
    {
        let mut game_state = GameState::new();
        game_state.zobrist_key = (zr.castling(0) ^ zr.white(0)) ^ zr.en_passant(None);
        let board = Board {
            bb_pieces: [[0;6];2],
            bb_side: [0;2],
            piece_list: [PNONE;64],
            game_state,
            history: Vec::new(),
            zr,
        };
        proof {
            lemma_member_ops(0, 0);
            lemma_pieces_hash_empty(zr, board@.squares, 64);
            lemma_xor_laws(game_state.zobrist_key, 0, 0);
            lemma_right_masks();
        }
        board
    }

    /// The empty board, with random numbers drawn anew.
    pub fn new() -> (board: Board)
        ensures
            board.wf(),
            board@.history.len() == 0,
            forall|i: int| 0 <= i < 64 ==> board@.squares[i] is None,
            board.game_state == (GameState {
                zobrist_key: board.game_state.zobrist_key,
                ..GameState::initial()
            }),
    {
        Board::with_randoms(ZobristRandoms::new())
    }

    /// The key of the position, computed from nothing but the position.
    pub fn init_zobrist_key(&self) -> (key: u64)
        requires
            self.consistent(),
            self.game_state.castling < 16,
        ensures
            key == key_of(
                self.zr,
                self@.squares,
                self.game_state.castling,
                self.game_state.active_color,
                self.game_state.en_passant,
            ),
    {
        let mut key: u64 = 0;
        let mut square: usize = 0;
        while square < 64
            invariant
                self.consistent(),
                square <= 64,
                key == pieces_hash(self.zr, self@.squares, square as nat),
            decreases 64 - square,
        {
            let piece: Piece = self.piece_list[square];
            proof {
                assert(self.piece_list[square as int] <= PNONE);
                lemma_xor_laws(key, 0, 0);
            }
            if piece != PNONE {
                let side: Side = if (self.bb_side[0] >> square) & 1 == 1 {
                    WHITE
                } else {
                    BLACK
                };
                key = key ^ self.zr.piece(side, piece, square as u8);
            }
            square += 1;
        }
        key ^ ((self.zr.castling(self.game_state.castling) ^ self.zr.white(
            self.game_state.active_color,
        )) ^ self.zr.en_passant(self.game_state.en_passant))
    }

    /// Takes `piece` of `side` off `square`, and its part out of the key.
    fn remove_piece(&mut self, side: Side, piece: Piece, square: usize)
        requires
            old(self).consistent(),
            side < 2,
            piece < 6,
            square < 64,
            old(self)@.squares[square as int] == Some((side, piece)),
        ensures
            final(self).consistent(),
            final(self)@.squares == old(self)@.squares.update(square as int, None),
            final(self)@.residue() == old(self)@.residue(),
            final(self).game_state == (GameState {
                zobrist_key: final(self).game_state.zobrist_key,
                ..old(self).game_state
            }),
            final(self).history == old(self).history,
            final(self).zr == old(self).zr,
    {
        proof {
            lemma_pieces_hash_update(self.zr, self@.squares, square as int, None, 64);
            lemma_xor_reorder(
                self.game_state.zobrist_key,
                pieces_hash(self.zr, self@.squares, 64),
                0,
                self.zr.piece_key(side as int, piece as int, square as int),
            );
        }
        self.remove_raw(side, piece, square);
        self.game_state.zobrist_key = self.game_state.zobrist_key ^ self.zr.piece(
            side,
            piece,
            square as u8,
        );
    }

    /// Puts `piece` of `side` on the empty `square`, and its part into the
    /// key.
    fn put_piece(&mut self, side: Side, piece: Piece, square: usize)
        requires
            old(self).consistent(),
            side < 2,
            piece < 6,
            square < 64,
            old(self)@.squares[square as int] is None,
        ensures
            final(self).consistent(),
            final(self)@.squares == old(self)@.squares.update(square as int, Some((side, piece))),
            final(self)@.residue() == old(self)@.residue(),
            final(self).game_state == (GameState {
                zobrist_key: final(self).game_state.zobrist_key,
                ..old(self).game_state
            }),
            final(self).history == old(self).history,
            final(self).zr == old(self).zr,
    {
        proof {
            lemma_pieces_hash_update(
                self.zr,
                self@.squares,
                square as int,
                Some((side, piece)),
                64,
            );
            lemma_xor_reorder(
                self.game_state.zobrist_key,
                pieces_hash(self.zr, self@.squares, 64),
                0,
                self.zr.piece_key(side as int, piece as int, square as int),
            );
        }
        self.put_raw(side, piece, square);
        self.game_state.zobrist_key = self.game_state.zobrist_key ^ self.zr.piece(
            side,
            piece,
            square as u8,
        );
    }

    /// Whether the fields of `m` fit the position, so that the move can be
    /// made.
    pub fn accepts(&self, m: Move) -> (ok: bool)
        requires
            self.wf(),
        ensures
            ok == self@.accepts(m),
    {
        let us: usize = self.game_state.active_color as usize;
        let them: usize = 1 - us;
        let piece: usize = m.piece() as usize;
        let from: usize = m.from() as usize;
        let to: usize = m.to() as usize;
        let captured: u8 = m.captured();
        let promoted: u8 = m.promoted();
        if piece >= 6 || from == to || !self.stands_on(from, us, piece) {
            return false;
        }
        let target: Occupant = self.piece_on(to);
        let capture_fits: bool = if captured == NO_CAPTURE {
            target.is_none()
        } else {
            captured < 6 && self.stands_on(to, them, captured as usize)
        };
        if !capture_fits {
            return false;
        }
        if promoted != NO_PROMOTION && !(piece == PAWN && 1 <= promoted && promoted <= 4) {
            return false;
        }
        if m.en_passant() {
            let target_fits: bool = match self.game_state.en_passant {
                Some(ep) => ep as usize == to,
                None => false,
            };
            if !(piece == PAWN && captured == NO_CAPTURE && promoted == NO_PROMOTION
                && !m.double_step() && target_fits) {
                return false;
            }
        }
        if m.double_step() {
            let shape: bool = if us == WHITE {
                8 <= from && from < 16 && to == from + 16
            } else {
                48 <= from && from < 56 && to + 16 == from
            };
            if !(piece == PAWN && captured == NO_CAPTURE && promoted == NO_PROMOTION && shape) {
                return false;
            }
            let passed: usize = if us == WHITE {
                to - 8
            } else {
                to + 8
            };
            if self.piece_on(passed).is_some() {
                return false;
            }
        }
        if m.castling() {
            if !(piece == KING && captured == NO_CAPTURE) {
                return false;
            }
            let c: u8 = self.game_state.castling;
            let shape: bool = (us == WHITE && from == 4 && to == 6 && c & CASTLE_WK != 0
                && self.piece_on(5).is_none()) || (us == WHITE && from == 4 && to == 2 && c
                & CASTLE_WQ != 0 && self.piece_on(3).is_none()) || (us == BLACK && from == 60 && to
                == 62 && c & CASTLE_BK != 0 && self.piece_on(61).is_none()) || (us == BLACK && from
                == 60 && to == 58 && c & CASTLE_BQ != 0 && self.piece_on(59).is_none());
            if !shape {
                return false;
            }
        }
        true
    }

    /// Makes the move `m`, whether or not it leaves the mover's king
    /// attacked. The key is brought up to date part by part: what left the
    /// board goes out of it, what came goes in.
    pub fn apply(&mut self, m: Move)
        requires
            old(self).wf(),
            old(self)@.accepts(m),
        ensures
            final(self).wf(),
            final(self)@ == old(self)@.make(m),
    {
        let ghost before = self@;
        let us: usize = self.game_state.active_color as usize;
        let them: usize = 1 - us;
        let piece: usize = m.piece() as usize;
        let from: usize = m.from() as usize;
        let to: usize = m.to() as usize;
        let captured: u8 = m.captured();
        let promoted: u8 = m.promoted();
        let snapshot = self.game_state;
        proof {
            lemma_make_wf(before, m);
            lemma_xor_laws(
                state_hash(
                    self.zr,
                    snapshot.castling,
                    snapshot.active_color,
                    snapshot.en_passant,
                ),
                pieces_hash(self.zr, before.squares, 64),
                snapshot.zobrist_key,
            );
            lemma_xor_laws(
                pieces_hash(self.zr, before.squares, 64),
                state_hash(
                    self.zr,
                    snapshot.castling,
                    snapshot.active_color,
                    snapshot.en_passant,
                ),
                snapshot.zobrist_key,
            );
        }
        self.history.push(snapshot);

        if captured != NO_CAPTURE {
            self.remove_piece(them, captured as usize, to);
        }
        self.remove_piece(us, piece, from);
        let placed: usize = if promoted != NO_PROMOTION {
            promoted as usize
        } else {
            piece
        };
        self.put_piece(us, placed, to);
        let behind_to: usize = if m.en_passant() || m.double_step() {
            if us == WHITE {
                to - 8
            } else {
                to + 8
            }
        } else {
            to
        };
        if m.en_passant() {
            self.remove_piece(them, PAWN, behind_to);
        }
        if m.castling() {
            let rook_start: usize = if to == 6 {
                7
            } else if to == 2 {
                0
            } else if to == 62 {
                63
            } else {
                56
            };
            let rook_end: usize = if to == 6 {
                5
            } else if to == 2 {
                3
            } else if to == 62 {
                61
            } else {
                59
            };
            self.remove_piece(us, ROOK, rook_start);
            self.put_piece(us, ROOK, rook_end);
        }
        assert(self@.squares =~= before.squares_after(m));

        let castling: u8 = (snapshot.castling & castling_perm(from)) & castling_perm(to);
        let active_color: u8 = 1 - snapshot.active_color;
        let en_passant: Option<u8> = if m.double_step() {
            Some(behind_to as u8)
        } else {
            None
        };
        let halfmove_clock: u8 = if piece == PAWN || captured != NO_CAPTURE {
            0
        } else if snapshot.halfmove_clock == u8::MAX {
            u8::MAX
        } else {
            snapshot.halfmove_clock + 1
        };
        let fullmove_number: u16 = if us == BLACK && snapshot.fullmove_number < u16::MAX {
            snapshot.fullmove_number + 1
        } else {
            snapshot.fullmove_number
        };
        let key_pieces: u64 = self.game_state.zobrist_key;
        let key_castling: u64 = key_pieces ^ (self.zr.castling(snapshot.castling)
            ^ self.zr.castling(castling));
        let key_side: u64 = key_castling ^ (self.zr.white(snapshot.active_color) ^ self.zr.white(
            active_color,
        ));
        let zobrist_key: u64 = key_side ^ (self.zr.en_passant(snapshot.en_passant)
            ^ self.zr.en_passant(en_passant));
        proof {
            lemma_xor_state(
                key_pieces,
                pieces_hash(self.zr, self@.squares, 64),
                self.zr.castling_key(snapshot.castling as int),
                self.zr.side_term(snapshot.active_color),
                self.zr.en_passant_term(snapshot.en_passant),
                self.zr.castling_key(castling as int),
                self.zr.side_term(active_color),
                self.zr.en_passant_term(en_passant),
            );
        }
        self.game_state = GameState {
            active_color,
            castling,
            halfmove_clock,
            en_passant,
            fullmove_number,
            zobrist_key,
            this_move: m,
        };
    }

    /// Makes the move `m`, and says whether it is legal: whether it leaves
    /// no king of the side that moved attacked. The move is made either way.
    pub fn make(&mut self, m: Move, mb: &MoveBoard) -> (legal: bool)
        requires
            old(self).wf(),
            old(self)@.accepts(m),
            mb.wf(),
        ensures
            final(self).wf(),
            final(self)@ == old(self)@.make(m),
            legal == !in_check(final(self)@.squares, old(self)@.us()),
    {
        let us: usize = self.us();
        self.apply(m);
        !king_attacked(self, mb, us)
    }

    /// Takes back the move that led to this position.
    pub fn unmake(&mut self)
        requires
            old(self).wf(),
            old(self)@.made(),
        ensures
            final(self).wf(),
            final(self)@ == old(self)@.unmake(),
            final(self)@.accepts(old(self).game_state.this_move),
            final(self)@.make(old(self).game_state.this_move) == old(self)@,
    {
        let m = self.game_state.this_move;
        let ghost after = self@;
        let ghost before = choose|before: BoardView|
            before.wf() && before.accepts(m) && #[trigger] before.make(m) == after;
        proof {
            lemma_make_unmake(before, m);
        }
        let popped = self.history.pop();
        let snapshot = popped.unwrap();
        let mover: usize = snapshot.active_color as usize;
        let other: usize = 1 - mover;
        let piece: usize = m.piece() as usize;
        let from: usize = m.from() as usize;
        let to: usize = m.to() as usize;
        let captured: u8 = m.captured();
        let promoted: u8 = m.promoted();
        if m.castling() {
            let rook_start: usize = if to == 6 {
                7
            } else if to == 2 {
                0
            } else if to == 62 {
                63
            } else {
                56
            };
            let rook_end: usize = if to == 6 {
                5
            } else if to == 2 {
                3
            } else if to == 62 {
                61
            } else {
                59
            };
            self.remove_raw(mover, ROOK, rook_end);
            self.put_raw(mover, ROOK, rook_start);
        }
        if m.en_passant() {
            let victim: usize = if mover == WHITE {
                to - 8
            } else {
                to + 8
            };
            self.put_raw(other, PAWN, victim);
        }
        let placed: usize = if promoted != NO_PROMOTION {
            promoted as usize
        } else {
            piece
        };
        self.remove_raw(mover, placed, to);
        if captured != NO_CAPTURE {
            self.put_raw(other, captured as usize, to);
        }
        self.put_raw(mover, piece, from);
        self.game_state = snapshot;
        proof {
            assert(self@.squares =~= before.squares);
            assert(self@.history =~= before.history);
        }
    }
}

} // verus!
