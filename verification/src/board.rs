//! The position: where the pieces stand, whose move it is, and how the
//! position was reached.

pub mod gamestate;
pub mod playmove;
pub mod zobrist;

use crate::board::gamestate::GameState;
use crate::board::zobrist::ZobristRandoms;
use crate::defs::{
    Bitboard, Piece, Side, BLACK, CASTLE_BK, CASTLE_BQ, CASTLE_WK, CASTLE_WQ, KING, PAWN, PNONE,
    ROOK, WHITE,
};
use crate::misc::bits::{lemma_member_ops, lemma_toggle, member};
use crate::move_boards::squares_in;
use vstd::prelude::*;

verus! {

/// The room that a copy of a position keeps for moves to come.
pub const HISTORY_ROOM: usize = 128;

/// What stands on a square: nothing, or a piece of a side.
pub type Occupant = Option<(Side, Piece)>;

/// A position as a value: the 64 squares from a1 to h8, the state of the
/// game, and the states that led to it, oldest first.
pub struct BoardView {
    pub squares: Seq<Occupant>,
    pub state: GameState,
    pub history: Seq<GameState>,
    pub zr: ZobristRandoms,
}

/// A position. The pieces are kept three times over: one bitboard for each
/// kind of piece of each side, one bitboard for each side, and the piece
/// that stands on each square.
pub struct Board {
    pub bb_pieces: [[Bitboard; 6]; 2],
    pub bb_side: [Bitboard; 2],
    pub piece_list: [Piece; 64],
    pub game_state: GameState,
    pub history: Vec<GameState>,
    pub zr: ZobristRandoms,
}

/// Whether the castling rights `castling` hold the right `flag`.
pub open spec fn has_right(castling: u8, flag: u8) -> bool {
    castling & flag != 0
}

/// The castling rights that a move from or to `square` leaves standing.
pub open spec fn spec_castling_perm(square: int) -> u8 {
    if square == 0 {
        13
    } else if square == 4 {
        12
    } else if square == 7 {
        14
    } else if square == 56 {
        7
    } else if square == 60 {
        3
    } else if square == 63 {
        11
    } else {
        15
    }
}

/// What a square adds to the key of a position.
pub open spec fn square_term(zr: ZobristRandoms, occupant: Occupant, square: int) -> u64 {
    match occupant {
        None => 0,
        Some((side, piece)) => zr.piece_key(side as int, piece as int, square),
    }
}

/// What the squares below `n` add to the key of a position.
pub open spec fn pieces_hash(zr: ZobristRandoms, squares: Seq<Occupant>, n: nat) -> u64
    decreases n,
{
    if n == 0 {
        0
    } else {
        pieces_hash(zr, squares, (n - 1) as nat) ^ square_term(zr, squares[n - 1], n - 1)
    }
}

/// What the castling rights, the side to move and the en-passant target add
/// to the key of a position.
pub open spec fn state_hash(
    zr: ZobristRandoms,
    castling: u8,
    active_color: u8,
    en_passant: Option<u8>,
) -> u64 {
    (zr.castling_key(castling as int) ^ zr.side_term(active_color)) ^ zr.en_passant_term(
        en_passant,
    )
}

/// The key of a position, computed from nothing but the position.
pub open spec fn key_of(
    zr: ZobristRandoms,
    squares: Seq<Occupant>,
    castling: u8,
    active_color: u8,
    en_passant: Option<u8>,
) -> u64 {
    pieces_hash(zr, squares, 64) ^ state_hash(zr, castling, active_color, en_passant)
}

/// A castling right stands only while king and rook are on their home squares.
pub open spec fn rights_ok(squares: Seq<Occupant>, castling: u8) -> bool {
    &&& has_right(castling, CASTLE_WK) ==> squares[4] == Some((WHITE, KING)) && squares[7] == Some(
        (WHITE, ROOK),
    )
    &&& has_right(castling, CASTLE_WQ) ==> squares[4] == Some((WHITE, KING)) && squares[0] == Some(
        (WHITE, ROOK),
    )
    &&& has_right(castling, CASTLE_BK) ==> squares[60] == Some((BLACK, KING)) && squares[63]
        == Some((BLACK, ROOK))
    &&& has_right(castling, CASTLE_BQ) ==> squares[60] == Some((BLACK, KING)) && squares[56]
        == Some((BLACK, ROOK))
}

/// An en-passant target is the empty square behind a pawn of the side that
/// has just moved.
pub open spec fn en_passant_ok(
    squares: Seq<Occupant>,
    active_color: u8,
    en_passant: Option<u8>,
) -> bool {
    match en_passant {
        None => true,
        Some(ep) => if active_color == 0 {
            40 <= ep < 48 && squares[ep as int] is None && squares[ep - 8] == Some((BLACK, PAWN))
        } else {
            16 <= ep < 24 && squares[ep as int] is None && squares[ep + 8] == Some((WHITE, PAWN))
        },
    }
}

/// What stands on square `i`, read from the piece on each square and from
/// the squares of the white pieces.
pub open spec fn occupant_of(piece_list: [Piece; 64], white: Bitboard, i: int) -> Occupant {
    if piece_list[i] == PNONE {
        None
    } else {
        Some((if member(white, i) {
            WHITE
        } else {
            BLACK
        }, piece_list[i]))
    }
}

/// The 64 squares, read from the piece on each square and from the squares
/// of the white pieces.
pub open spec fn squares_of(piece_list: [Piece; 64], white: Bitboard) -> Seq<Occupant> {
    Seq::new(64, |i: int| occupant_of(piece_list, white, i))
}

/// The squares on which something stands.
pub open spec fn occupied(squares: Seq<Occupant>) -> Set<int> {
    Set::new(|i: int| 0 <= i < 64 && squares[i] is Some)
}

impl BoardView {
    /// The side to move.
    pub open spec fn us(self) -> Side {
        self.state.active_color as usize
    }

    /// The side that is not to move.
    pub open spec fn them(self) -> Side {
        (1 - self.state.active_color) as usize
    }

    /// The squares hold pieces that exist, the state fits the squares, and
    /// the key is the key of the position.
    pub open spec fn wf(self) -> bool {
        &&& self.squares.len() == 64
        &&& forall|i: int|
            0 <= i < 64 ==> (#[trigger] self.squares[i] matches Some((s, p)) ==> s < 2 && p < 6)
        &&& self.state.active_color < 2
        &&& self.state.castling < 16
        &&& rights_ok(self.squares, self.state.castling)
        &&& en_passant_ok(self.squares, self.state.active_color, self.state.en_passant)
        &&& self.state.zobrist_key == key_of(
            self.zr,
            self.squares,
            self.state.castling,
            self.state.active_color,
            self.state.en_passant,
        )
    }

    /// The key with the part of the pieces taken out again.
    pub open spec fn residue(self) -> u64 {
        self.state.zobrist_key ^ pieces_hash(self.zr, self.squares, 64)
    }
}

impl View for Board {
    type V = BoardView;

    open spec fn view(&self) -> BoardView {
        BoardView {
            squares: squares_of(self.piece_list, self.bb_side[0]),
            state: self.game_state,
            history: self.history@,
            zr: self.zr,
        }
    }
}

impl Board {
    /// What stands on square `i`.
    pub open spec fn occupant(&self, i: int) -> Occupant {
        occupant_of(self.piece_list, self.bb_side[0], i)
    }

    /// The three ways in which the pieces are kept agree.
    pub open spec fn consistent(&self) -> bool {
        &&& forall|i: int| 0 <= i < 64 ==> #[trigger] self.piece_list[i] <= PNONE
        &&& forall|s: int, p: int, i: int|
            0 <= s < 2 && 0 <= p < 6 && 0 <= i < 64 ==> (#[trigger] member(self.bb_pieces[s][p], i)
                <==> self.occupant(i) == Some((s as usize, p as usize)))
        &&& forall|s: int, i: int|
            0 <= s < 2 && 0 <= i < 64 ==> (#[trigger] member(self.bb_side[s], i) <==> (
            self.occupant(i) matches Some((side, _)) && side == s))
    }

    /// The position is one that moves can be made from.
    pub open spec fn wf(&self) -> bool {
        self.consistent() && self@.wf()
    }

    /// The side to move.
    pub fn us(&self) -> (side: Side)
        ensures
            side == self@.us(),
    {
        self.game_state.active_color as usize
    }

    /// The side that is not to move.
    pub fn opponent(&self) -> (side: Side)
        requires
            self.game_state.active_color < 2,
        ensures
            side == self@.them(),
    {
        (1 - self.game_state.active_color) as usize
    }

    /// What stands on `square`.
    pub fn piece_on(&self, square: usize) -> (occupant: Occupant)
        requires
            self.consistent(),
            square < 64,
        ensures
            occupant == self@.squares[square as int],
            occupant matches Some((side, piece)) ==> side < 2 && piece < 6,
    {
        let piece: Piece = self.piece_list[square];
        proof {
            assert(self.piece_list[square as int] <= PNONE);
        }
        if piece == PNONE {
            None
        } else if (self.bb_side[0] >> square) & 1 == 1 {
            Some((WHITE, piece))
        } else {
            Some((BLACK, piece))
        }
    }

    /// The squares on which `piece` of `side` stands.
    pub fn get_pieces(&self, piece: Piece, side: Side) -> (bb: Bitboard)
        requires
            piece < 6,
            side < 2,
        ensures
            bb == self.bb_pieces[side as int][piece as int],
    {
        self.bb_pieces[side][piece]
    }

    /// The squares on which anything stands.
    pub fn occupancy(&self) -> (bb: Bitboard)
        requires
            self.consistent(),
        ensures
            forall|i: int| 0 <= i < 64 ==> (#[trigger] member(bb, i) <==> self@.squares[i] is Some),
            squares_in(bb) == occupied(self@.squares),
    {
        proof {
            lemma_member_ops(self.bb_side[0], self.bb_side[1]);
            assert forall|i: int| 0 <= i < 64 implies (#[trigger] member(
                self.bb_side[0] | self.bb_side[1],
                i,
            ) <==> self@.squares[i] is Some) by {
                assert(member(self.bb_side[0], i) <==> (self.occupant(i) matches Some((sd, _))
                    && sd == 0));
                assert(member(self.bb_side[1], i) <==> (self.occupant(i) matches Some((sd, _))
                    && sd == 1));
                assert(self.occupant(i) matches Some((sd, p)) ==> member(
                    self.bb_pieces[sd as int][p as int],
                    i,
                ) || p >= 6 || sd >= 2);
                assert(self.piece_list[i] <= PNONE);
            }
            assert(squares_in(self.bb_side[0] | self.bb_side[1]) =~= occupied(self@.squares));
        }
        self.bb_side[0] | self.bb_side[1]
    }

    /// Whether `piece` of `side` stands on `square`.
    pub fn stands_on(&self, square: usize, side: Side, piece: Piece) -> (yes: bool)
        requires
            self.consistent(),
            square < 64,
        ensures
            yes == (self@.squares[square as int] == Some((side, piece))),
    {
        match self.piece_on(square) {
            Some((s, p)) => s == side && p == piece,
            None => false,
        }
    }

    /// Whether each castling right of the board has its king and rook at home.
    pub fn rights_fit(&self) -> (ok: bool)
        requires
            self.consistent(),
        ensures
            ok == rights_ok(self@.squares, self.game_state.castling),
    {
        let c: u8 = self.game_state.castling;
        let white_king: bool = self.stands_on(4, WHITE, KING);
        let black_king: bool = self.stands_on(60, BLACK, KING);
        (c & CASTLE_WK == 0 || (white_king && self.stands_on(7, WHITE, ROOK))) && (c & CASTLE_WQ == 0
            || (white_king && self.stands_on(0, WHITE, ROOK))) && (c & CASTLE_BK == 0 || (black_king
            && self.stands_on(63, BLACK, ROOK))) && (c & CASTLE_BQ == 0 || (black_king && self.stands_on(
            56,
            BLACK,
            ROOK,
        )))
    }

    /// Whether the en-passant target of the board is the empty square behind a
    /// pawn of the side that has just moved.
    pub fn en_passant_fits(&self) -> (ok: bool)
        requires
            self.consistent(),
        ensures
            ok == en_passant_ok(
                self@.squares,
                self.game_state.active_color,
                self.game_state.en_passant,
            ),
    {
        match self.game_state.en_passant {
            None => true,
            Some(ep) => {
                if self.game_state.active_color == 0 {
                    40 <= ep && ep < 48 && self.piece_on(ep as usize).is_none() && self.stands_on((ep - 8) as usize,
                        BLACK,
                        PAWN,
                    )
                } else {
                    16 <= ep && ep < 24 && self.piece_on(ep as usize).is_none() && self.stands_on((ep + 8) as usize,
                        WHITE,
                        PAWN,
                    )
                }
            },
        }
    }


    /// A copy of the position, with a history of its own.
    pub fn copy(&self) -> (copy: Board)
        ensures
            copy@ == self@,
            copy.bb_pieces == self.bb_pieces,
            copy.bb_side == self.bb_side,
            copy.piece_list == self.piece_list,
            copy.game_state == self.game_state,
            copy.zr == self.zr,
            self.consistent() ==> copy.consistent(),
            self.wf() ==> copy.wf(),
    {
        // Room for the moves of a search, so that making them allocates nothing.
        let length: usize = self.history.len();
        let mut history: Vec<GameState> = if length <= usize::MAX - HISTORY_ROOM {
            Vec::with_capacity(length + HISTORY_ROOM)
        } else {
            Vec::new()
        };
        let mut i: usize = 0;
        while i < self.history.len()
            invariant
                i <= self.history@.len(),
                history@ == self.history@.take(i as int),
            decreases self.history@.len() - i,
        {
            history.push(self.history[i]);
            assert(self.history@.take(i + 1) =~= self.history@.take(i as int).push(
                self.history@[i as int],
            ));
            i += 1;
        }
        assert(self.history@.take(self.history@.len() as int) =~= self.history@);
        let copy = Board {
            bb_pieces: self.bb_pieces,
            bb_side: self.bb_side,
            piece_list: self.piece_list,
            game_state: self.game_state,
            history,
            zr: self.zr,
        };
        proof {
            assert forall|i: int| copy.occupant(i) == self.occupant(i) by {}
            if self.consistent() {
                assert(copy.consistent());
            }
        }
        copy
    }

    /// Whether the three ways in which the pieces are kept agree.
    pub fn is_consistent(&self) -> (ok: bool)
        ensures
            ok == self.consistent(),
    {
        let mut i: usize = 0;
        while i < 64
            invariant
                i <= 64,
                forall|j: int| 0 <= j < i ==> #[trigger] self.piece_list[j] <= PNONE,
                forall|s: int, p: int, j: int|
                    0 <= s < 2 && 0 <= p < 6 && 0 <= j < i ==> (#[trigger] member(
                        self.bb_pieces[s][p],
                        j,
                    ) <==> self.occupant(j) == Some((s as usize, p as usize))),
                forall|s: int, j: int|
                    0 <= s < 2 && 0 <= j < i ==> (#[trigger] member(self.bb_side[s], j) <==> (
                    self.occupant(j) matches Some((side, _)) && side == s)),
            decreases 64 - i,
        {
            let piece: Piece = self.piece_list[i];
            if piece > PNONE {
                return false;
            }
            let white: bool = (self.bb_side[0] >> i) & 1 == 1;
            let black: bool = (self.bb_side[1] >> i) & 1 == 1;
            if piece == PNONE {
                if white || black {
                    assert(member(self.bb_side[0], i as int) || member(self.bb_side[1], i as int));
                    return false;
                }
            } else if white == black {
                assert(member(self.bb_side[0], i as int) == member(self.bb_side[1], i as int));
                return false;
            }
            let mut s: usize = 0;
            while s < 2
                invariant
                    s <= 2,
                    i < 64,
                    piece == self.piece_list[i as int],
                    white == member(self.bb_side[0], i as int),
                    forall|t: int, p: int|
                        0 <= t < s && 0 <= p < 6 ==> (#[trigger] member(
                            self.bb_pieces[t][p],
                            i as int,
                        ) <==> self.occupant(i as int) == Some((t as usize, p as usize))),
                decreases 2 - s,
            {
                let mut p: usize = 0;
                while p < 6
                    invariant
                        s < 2,
                        p <= 6,
                        i < 64,
                        piece == self.piece_list[i as int],
                        white == member(self.bb_side[0], i as int),
                        forall|q: int|
                            0 <= q < p ==> (#[trigger] member(self.bb_pieces[s as int][q], i as int)
                                <==> self.occupant(i as int) == Some((s, q as usize))),
                    decreases 6 - p,
                {
                    let here: bool = (self.bb_pieces[s][p] >> i) & 1 == 1;
                    let expected: bool = piece == p && (if s == WHITE {
                        white
                    } else {
                        !white
                    });
                    if here != expected {
                        assert(member(self.bb_pieces[s as int][p as int], i as int) != (
                        self.occupant(i as int) == Some((s, p))));
                        return false;
                    }
                    p += 1;
                }
                s += 1;
            }
            i += 1;
        }
        true
    }

    /// Whether the position is one that moves can be made from.
    pub fn is_wf(&self) -> (ok: bool)
        ensures
            ok == self.wf(),
    {
        if !self.is_consistent() {
            return false;
        }
        proof {
            assert forall|i: int| 0 <= i < 64 implies (#[trigger] self@.squares[i] matches Some(
                (sd, p),
            ) ==> sd < 2 && p < 6) by {
                assert(self.piece_list[i] <= PNONE);
            }
        }
        self.game_state.active_color < 2 && self.game_state.castling < 16 && self.rights_fit()
            && self.en_passant_fits() && self.game_state.zobrist_key == self.init_zobrist_key()
    }

    /// Takes `piece` of `side` off `square`, and leaves the key as it is.
    pub(crate) fn remove_raw(&mut self, side: Side, piece: Piece, square: usize)
        requires
            old(self).consistent(),
            side < 2,
            piece < 6,
            square < 64,
            old(self)@.squares[square as int] == Some((side, piece)),
        ensures
            final(self).consistent(),
            final(self)@.squares == old(self)@.squares.update(square as int, None),
            final(self).game_state == old(self).game_state,
            final(self).history == old(self).history,
            final(self).zr == old(self).zr,
    {
        proof {
            lemma_toggle(self.bb_pieces[side as int][piece as int], square as u64);
            lemma_toggle(self.bb_side[side as int], square as u64);
        }
        self.bb_pieces[side][piece] = self.bb_pieces[side][piece] ^ (1u64 << square);
        self.bb_side[side] = self.bb_side[side] ^ (1u64 << square);
        self.piece_list[square] = PNONE;
        proof {
            assert forall|i: int| 0 <= i < 64 implies #[trigger] self.occupant(i) == old(
                self,
            )@.squares.update(square as int, None)[i] by {
                assert(member(old(self).bb_side[0], i) <==> (old(self).occupant(i) matches Some(
                    (sd, _),
                ) && sd == 0));
            }
            assert(self@.squares =~= old(self)@.squares.update(square as int, None));
            assert forall|s: int, p: int, i: int|
                0 <= s < 2 && 0 <= p < 6 && 0 <= i < 64 implies (#[trigger] member(
                self.bb_pieces[s][p],
                i,
            ) <==> self.occupant(i) == Some((s as usize, p as usize))) by {
                assert(member(old(self).bb_pieces[s][p], i) <==> old(self).occupant(i) == Some(
                    (s as usize, p as usize),
                ));
            }
            assert forall|s: int, i: int| 0 <= s < 2 && 0 <= i < 64 implies (#[trigger] member(
                self.bb_side[s],
                i,
            ) <==> (self.occupant(i) matches Some((sd, _)) && sd == s)) by {
                assert(member(old(self).bb_side[s], i) <==> (old(self).occupant(i) matches Some(
                    (sd, _),
                ) && sd == s));
            }
        }
    }

    /// Puts `piece` of `side` on the empty `square`, and leaves the key as
    /// it is.
    pub(crate) fn put_raw(&mut self, side: Side, piece: Piece, square: usize)
        requires
            old(self).consistent(),
            side < 2,
            piece < 6,
            square < 64,
            old(self)@.squares[square as int] is None,
        ensures
            final(self).consistent(),
            final(self)@.squares == old(self)@.squares.update(square as int, Some((side, piece))),
            final(self).game_state == old(self).game_state,
            final(self).history == old(self).history,
            final(self).zr == old(self).zr,
    {
        proof {
            lemma_toggle(self.bb_pieces[side as int][piece as int], square as u64);
            lemma_toggle(self.bb_side[side as int], square as u64);
            assert(member(self.bb_side[0], square as int) <==> (self.occupant(
                square as int,
            ) matches Some((sd, _)) && sd == 0));
            assert(member(self.bb_side[side as int], square as int) <==> (self.occupant(
                square as int,
            ) matches Some((sd, _)) && sd == side));
        }
        self.bb_pieces[side][piece] = self.bb_pieces[side][piece] ^ (1u64 << square);
        self.bb_side[side] = self.bb_side[side] ^ (1u64 << square);
        self.piece_list[square] = piece;
        proof {
            assert forall|i: int| 0 <= i < 64 implies #[trigger] self.occupant(i) == old(
                self,
            )@.squares.update(square as int, Some((side, piece)))[i] by {
                assert(member(old(self).bb_side[0], i) <==> (old(self).occupant(i) matches Some(
                    (sd, _),
                ) && sd == 0));
            }
            assert(self@.squares =~= old(self)@.squares.update(
                square as int,
                Some((side, piece)),
            ));
            assert forall|s: int, p: int, i: int|
                0 <= s < 2 && 0 <= p < 6 && 0 <= i < 64 implies (#[trigger] member(
                self.bb_pieces[s][p],
                i,
            ) <==> self.occupant(i) == Some((s as usize, p as usize))) by {
                assert(member(old(self).bb_pieces[s][p], i) <==> old(self).occupant(i) == Some(
                    (s as usize, p as usize),
                ));
            }
            assert forall|s: int, i: int| 0 <= s < 2 && 0 <= i < 64 implies (#[trigger] member(
                self.bb_side[s],
                i,
            ) <==> (self.occupant(i) matches Some((sd, _)) && sd == s)) by {
                assert(member(old(self).bb_side[s], i) <==> (old(self).occupant(i) matches Some(
                    (sd, _),
                ) && sd == s));
            }
        }
    }
}

/// The bitboard of a side is the union of the bitboards of its pieces, and
/// no two of those share a square.
pub proof fn lemma_occupancy(board: Board, side: int)
    requires
        board.consistent(),
        0 <= side < 2,
    ensures
        board.bb_side[side] == ((((board.bb_pieces[side][0] | board.bb_pieces[side][1])
            | board.bb_pieces[side][2]) | board.bb_pieces[side][3]) | board.bb_pieces[side][4])
            | board.bb_pieces[side][5],
        forall|p: int, q: int|
            0 <= p < 6 && 0 <= q < 6 && p != q ==> #[trigger] board.bb_pieces[side][p]
                & #[trigger] board.bb_pieces[side][q] == 0,
{
    let b = board.bb_pieces[side];
    let u1 = b[0] | b[1];
    let u2 = u1 | b[2];
    let u3 = u2 | b[3];
    let u4 = u3 | b[4];
    let u5 = u4 | b[5];
    lemma_member_ops(b[0], b[1]);
    lemma_member_ops(u1, b[2]);
    lemma_member_ops(u2, b[3]);
    lemma_member_ops(u3, b[4]);
    lemma_member_ops(u4, b[5]);
    assert forall|i: int| 0 <= i < 64 implies member(board.bb_side[side], i) == member(u5, i) by {
        assert(member(board.bb_side[side], i) <==> (board.occupant(i) matches Some((sd, _))
            && sd == side));
        assert(forall|p: int|
            0 <= p < 6 ==> (member(#[trigger] board.bb_pieces[side][p], i) <==> board.occupant(i)
                == Some((side as usize, p as usize))));
        assert(board.piece_list[i] <= PNONE);
    }
    crate::misc::bits::lemma_member_ext(board.bb_side[side], u5);
    assert forall|p: int, q: int| 0 <= p < 6 && 0 <= q < 6 && p != q implies #[trigger] board.bb_pieces[side][p]
        & #[trigger] board.bb_pieces[side][q] == 0 by {
        let x = board.bb_pieces[side][p] & board.bb_pieces[side][q];
        lemma_member_ops(board.bb_pieces[side][p], board.bb_pieces[side][q]);
        assert forall|i: int| 0 <= i < 64 implies !member(x, i) by {
            assert(member(board.bb_pieces[side][p], i) <==> board.occupant(i) == Some(
                (side as usize, p as usize),
            ));
            assert(member(board.bb_pieces[side][q], i) <==> board.occupant(i) == Some(
                (side as usize, q as usize),
            ));
        }
        crate::misc::bits::lemma_empty_is_zero(x);
    }
}

/// The position fixes every field of a board whose three ways of keeping the
/// pieces agree: two such boards of one position are the same, bit for bit.
pub proof fn lemma_position_fixes_board(a: Board, b: Board)
    requires
        a.consistent(),
        b.consistent(),
        a@ == b@,
    ensures
        a.bb_pieces == b.bb_pieces,
        a.bb_side == b.bb_side,
        a.piece_list == b.piece_list,
        a.game_state == b.game_state,
        a.history@ == b.history@,
        a.zr == b.zr,
{
    assert forall|i: int| 0 <= i < 64 implies a.piece_list[i] == b.piece_list[i] by {
        assert(a@.squares[i] == b@.squares[i]);
        assert(a.piece_list[i] <= PNONE && b.piece_list[i] <= PNONE);
    }
    assert(a.piece_list =~= b.piece_list);
    assert forall|s: int| 0 <= s < 2 implies a.bb_side[s] == b.bb_side[s] by {
        assert forall|i: int| 0 <= i < 64 implies member(a.bb_side[s], i) == member(
            b.bb_side[s],
            i,
        ) by {
            assert(a.occupant(i) == a@.squares[i]);
            assert(b.occupant(i) == b@.squares[i]);
        }
        crate::misc::bits::lemma_member_ext(a.bb_side[s], b.bb_side[s]);
    }
    assert(a.bb_side =~= b.bb_side);
    assert forall|s: int| 0 <= s < 2 implies a.bb_pieces[s] == b.bb_pieces[s] by {
        assert forall|p: int| 0 <= p < 6 implies a.bb_pieces[s][p] == b.bb_pieces[s][p] by {
            assert forall|i: int| 0 <= i < 64 implies member(a.bb_pieces[s][p], i) == member(
                b.bb_pieces[s][p],
                i,
            ) by {
                assert(a.occupant(i) == a@.squares[i]);
                assert(b.occupant(i) == b@.squares[i]);
            }
            crate::misc::bits::lemma_member_ext(a.bb_pieces[s][p], b.bb_pieces[s][p]);
        }
        assert(a.bb_pieces[s] =~= b.bb_pieces[s]);
    }
    assert(a.bb_pieces =~= b.bb_pieces);
}

} // verus!
