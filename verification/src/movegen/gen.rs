//! The generator of pseudo-legal moves: moves that obey how the pieces
//! move, whether or not they leave the own king attacked.

use crate::board::{occupied, Board, BoardView, Occupant};
use crate::defs::{
    Bitboard, Piece, Side, Square, BISHOP, BLACK, CASTLE_BK, CASTLE_BQ, CASTLE_WK, CASTLE_WQ, KING,
    KNIGHT, PAWN, PNONE, QUEEN, ROOK, WHITE,
};
use crate::misc::bits;
use crate::misc::bits::{lemma_member_ops, lemma_member_single, member};
use crate::move_boards::{distance, pawn_attack, rank_of, squares_in, MoveBoard};
use crate::movegen::info::{attacked, piece_attacks, square_attacked};
use crate::movegen::movedefs::{
    lemma_pack_bound, pack, Move, MoveList, MAX_LEGAL_MOVES, NO_CAPTURE, NO_PROMOTION,
};
use vstd::prelude::*;

verus! {

/// The fourth rank, which a white double step reaches.
pub const BB_RANK_4: Bitboard = 0xFF00_0000;

/// The fifth rank, which a black double step reaches.
pub const BB_RANK_5: Bitboard = 0xFF_0000_0000;

/// The list `list` after `more` has been added to it as far as there is
/// room.
pub open spec fn fill(list: Seq<Move>, more: Seq<Move>) -> Seq<Move> {
    let all = list + more;
    if all.len() <= MAX_LEGAL_MOVES {
        all
    } else {
        all.take(MAX_LEGAL_MOVES as int)
    }
}

/// The value of the captured field for what stands on the to-square.
pub open spec fn capture_code(occupant: Occupant) -> u8 {
    match occupant {
        Some((_, piece)) => piece as u8,
        None => NO_CAPTURE,
    }
}

/// The square one step ahead of `square`, as `us` sees it.
pub open spec fn ahead(us: Side, square: int) -> int {
    if us == WHITE {
        square + 8
    } else {
        square - 8
    }
}

/// The rank on which the pawns of `us` start.
pub open spec fn start_rank(us: Side) -> int {
    if us == WHITE {
        1
    } else {
        6
    }
}

/// The rank on which the pawns of `us` promote.
pub open spec fn promotion_rank(us: Side) -> int {
    if us == WHITE {
        7
    } else {
        0
    }
}

impl BoardView {
    /// A piece of the side to move stands on `square`.
    pub open spec fn own(self, square: int) -> bool {
        self.squares[square] matches Some((side, _)) && side == self.us()
    }

    /// A piece of the other side stands on `square`.
    pub open spec fn enemy(self, square: int) -> bool {
        self.squares[square] matches Some((side, _)) && side != self.us()
    }

    /// The squares that a king, queen, rook, bishop or knight on `from` can
    /// move to: those it attacks, but for the ones its own side holds.
    pub open spec fn piece_targets(self, piece: Piece, from: int) -> Set<int> {
        Set::new(
            |to: int|
                0 <= to < 64 && piece_attacks(piece, self.us(), from, to, occupied(self.squares))
                    && !self.own(to),
        )
    }

    /// The pawn on `from` can advance one square to `to`.
    pub open spec fn pawn_push(self, from: int, to: int) -> bool {
        to == ahead(self.us(), from) && self.squares[to] is None
    }

    /// The pawn on `from` can advance two squares to `to`.
    pub open spec fn pawn_double(self, from: int, to: int) -> bool {
        &&& rank_of(from) == start_rank(self.us())
        &&& self.squares[ahead(self.us(), from)] is None
        &&& to == ahead(self.us(), ahead(self.us(), from))
        &&& self.squares[to] is None
    }

    /// The pawn on `from` can capture on `to`, a piece or en passant.
    pub open spec fn pawn_takes(self, from: int, to: int) -> bool {
        pawn_attack(self.us(), from, to) && (self.enemy(to) || self.state.en_passant == Some(
            to as u8,
        ))
    }

    /// The squares that the pawn on `from` can move to.
    pub open spec fn pawn_targets(self, from: int) -> Set<int> {
        Set::new(
            |to: int|
                0 <= to < 64 && (self.pawn_push(from, to) || self.pawn_double(from, to)
                    || self.pawn_takes(from, to)),
        )
    }

    /// The squares that `piece` on `from` can move to, castling apart.
    pub open spec fn targets(self, piece: Piece, from: int) -> Set<int> {
        if piece == PAWN {
            self.pawn_targets(from)
        } else {
            self.piece_targets(piece, from)
        }
    }

    /// The move of `piece` from `from` to `to`, with each field as the
    /// position gives it.
    pub open spec fn encode(self, piece: Piece, from: int, to: int, promoted: u8) -> Move {
        Move {
            data: pack(
                piece as int,
                from,
                to,
                capture_code(self.squares[to]) as int,
                promoted as int,
                piece == PAWN && self.state.en_passant == Some(to as u8),
                piece == PAWN && distance(from, to) == 16,
                piece == KING && distance(from, to) == 2,
            ) as u64,
        }
    }

    /// The moves of `piece` from `from` to `to`: one, or one for each piece
    /// that a pawn reaching its last rank can become.
    pub open spec fn moves_to(self, piece: Piece, from: int, to: int) -> Seq<Move> {
        if piece == PAWN && rank_of(to) == promotion_rank(self.us()) {
            seq![
                self.encode(piece, from, to, QUEEN as u8),
                self.encode(piece, from, to, ROOK as u8),
                self.encode(piece, from, to, BISHOP as u8),
                self.encode(piece, from, to, KNIGHT as u8),
            ]
        } else {
            seq![self.encode(piece, from, to, NO_PROMOTION)]
        }
    }

    /// The moves of `piece` from `from` to the squares of `targets` below
    /// `n`, lowest square first.
    pub open spec fn moves_upto(self, piece: Piece, from: int, targets: Set<int>, n: nat) -> Seq<
        Move,
    >
        decreases n,
    {
        if n == 0 {
            Seq::empty()
        } else {
            self.moves_upto(piece, from, targets, (n - 1) as nat) + (if targets.contains(n - 1) {
                self.moves_to(piece, from, n - 1)
            } else {
                Seq::empty()
            })
        }
    }

    /// The moves of the pieces of kind `piece` that stand below square `n`,
    /// lowest square first.
    pub open spec fn class_upto(self, piece: Piece, n: nat) -> Seq<Move>
        decreases n,
    {
        if n == 0 {
            Seq::empty()
        } else {
            self.class_upto(piece, (n - 1) as nat) + (if self.squares[n - 1] == Some(
                (self.us(), piece),
            ) {
                self.moves_upto(piece, n - 1, self.targets(piece, n - 1), 64)
            } else {
                Seq::empty()
            })
        }
    }

    /// The home square of the king of the side to move.
    pub open spec fn home(self) -> int {
        if self.us() == WHITE {
            4
        } else {
            60
        }
    }

    /// Castling to the king's side is open: the right is there, the squares
    /// between king and rook are empty, and neither the king's square nor
    /// the one it passes is attacked. Whether the square on which the king
    /// lands is attacked plays no part.
    pub open spec fn can_castle_kingside(self) -> bool {
        let home = self.home();
        &&& self.state.castling & (if self.us() == WHITE {
            CASTLE_WK
        } else {
            CASTLE_BK
        }) != 0
        &&& self.squares[home + 1] is None && self.squares[home + 2] is None
        &&& !attacked(self.squares, self.them(), home)
        &&& !attacked(self.squares, self.them(), home + 1)
    }

    /// Castling to the queen's side is open, in the same sense.
    pub open spec fn can_castle_queenside(self) -> bool {
        let home = self.home();
        &&& self.state.castling & (if self.us() == WHITE {
            CASTLE_WQ
        } else {
            CASTLE_BQ
        }) != 0
        &&& self.squares[home - 1] is None && self.squares[home - 2] is None
            && self.squares[home - 3] is None
        &&& !attacked(self.squares, self.them(), home)
        &&& !attacked(self.squares, self.them(), home - 1)
    }

    /// The castling moves, to the king's side first.
    pub open spec fn castling_moves(self) -> Seq<Move> {
        let home = self.home();
        (if self.can_castle_kingside() {
            self.moves_to(KING, home, home + 2)
        } else {
            Seq::empty()
        }) + (if self.can_castle_queenside() {
            self.moves_to(KING, home, home - 2)
        } else {
            Seq::empty()
        })
    }

    /// All pseudo-legal moves, in the order in which they are generated:
    /// king, knights, rooks, bishops, queens, pawns, castling; for each kind
    /// the pieces from a1 to h8, and for each piece its target squares from
    /// a1 to h8.
    pub open spec fn all_moves(self) -> Seq<Move> {
        self.class_upto(KING, 64) + self.class_upto(KNIGHT, 64) + self.class_upto(ROOK, 64)
            + self.class_upto(BISHOP, 64) + self.class_upto(QUEEN, 64) + self.class_upto(PAWN, 64)
            + self.castling_moves()
    }
}

/// Filling a list twice is filling it once with both.
pub proof fn lemma_fill_fill(list: Seq<Move>, a: Seq<Move>, b: Seq<Move>)
    requires
        list.len() <= MAX_LEGAL_MOVES,
    ensures
        fill(fill(list, a), b) == fill(list, a + b),
        fill(list, a).len() <= MAX_LEGAL_MOVES,
        fill(list, Seq::empty()) == list,
{
    assert((list + a) + b =~= list + (a + b));
    assert(list + Seq::<Move>::empty() =~= list);
    if (list + a).len() > MAX_LEGAL_MOVES {
        let full = (list + a).take(MAX_LEGAL_MOVES as int);
        assert((full + b).take(MAX_LEGAL_MOVES as int) =~= full);
        assert((list + (a + b)).take(MAX_LEGAL_MOVES as int) =~= full);
    }
}

/// Filling a list with one move is pushing it if there is room.
pub proof fn lemma_fill_one(list: Seq<Move>, m: Move)
    requires
        list.len() <= MAX_LEGAL_MOVES,
    ensures
        fill(list, seq![m]) == if list.len() < MAX_LEGAL_MOVES {
            list.push(m)
        } else {
            list
        },
{
    assert(list + seq![m] =~= list.push(m));
    if list.len() == MAX_LEGAL_MOVES {
        assert((list + seq![m]).take(MAX_LEGAL_MOVES as int) =~= list);
    }
}

/// Squares that are no targets add no moves.
pub proof fn lemma_moves_upto_skip(
    v: BoardView,
    piece: Piece,
    from: int,
    targets: Set<int>,
    a: nat,
    b: nat,
)
    requires
        a <= b,
        forall|i: int| a <= i < b ==> !targets.contains(i),
    ensures
        v.moves_upto(piece, from, targets, b) == v.moves_upto(piece, from, targets, a),
    decreases b,
{
    if a < b {
        lemma_moves_upto_skip(v, piece, from, targets, a, (b - 1) as nat);
        assert(v.moves_upto(piece, from, targets, (b - 1) as nat) + Seq::<Move>::empty()
            =~= v.moves_upto(piece, from, targets, (b - 1) as nat));
    }
}

/// Squares without a piece of the kind add no moves.
pub proof fn lemma_class_upto_skip(v: BoardView, piece: Piece, a: nat, b: nat)
    requires
        a <= b,
        forall|i: int| a <= i < b ==> v.squares[i] != Some((v.us(), piece)),
    ensures
        v.class_upto(piece, b) == v.class_upto(piece, a),
    decreases b,
{
    if a < b {
        lemma_class_upto_skip(v, piece, a, (b - 1) as nat);
        assert(v.class_upto(piece, (b - 1) as nat) + Seq::<Move>::empty() =~= v.class_upto(
            piece,
            (b - 1) as nat,
        ));
    }
}

/// Adds a move to the list if there is room for it.
fn push_move(list: &mut MoveList, m: Move)
    ensures
        final(list)@ == fill(old(list)@, seq![m]),
{
    proof {
        list.lemma_capacity();
        lemma_fill_one(list@, m);
    }
    if list.len() < MAX_LEGAL_MOVES {
        list.push(m);
    }
}

/// The move of `piece` from `from` to `to_square`, with the capture and the
/// flags that the position gives it.
fn encode_move(board: &Board, piece: Piece, from: Square, to_square: Square, promoted: u8) -> (m:
    Move)
    requires
        board.consistent(),
        piece < 6,
        from < 64,
        to_square < 64,
        promoted < 8,
    ensures
        m == board@.encode(piece, from as int, to_square as int, promoted),
{
    let is_pawn: bool = piece == PAWN;
    proof {
        assert(board.piece_list[to_square as int] <= PNONE);
    }
    let on_square: Piece = board.piece_list[to_square];
    let capture: u8 = if on_square == PNONE {
        NO_CAPTURE
    } else {
        on_square as u8
    };
    let en_passant: bool = match board.game_state.en_passant {
        Some(square) => is_pawn && (square as usize == to_square),
        None => false,
    };
    let gap: usize = if to_square >= from {
        to_square - from
    } else {
        from - to_square
    };
    let double_step: bool = is_pawn && gap == 16;
    let castling: bool = (piece == KING) && gap == 2;
    proof {
        lemma_pack_bound(
            piece as int,
            from as int,
            to_square as int,
            capture as int,
            promoted as int,
            en_passant,
            double_step,
            castling,
        );
    }
    Move::new(
        piece as u8,
        from as u8,
        to_square as u8,
        capture,
        promoted,
        en_passant,
        double_step,
        castling,
    )
}

/// Adds the moves of `piece` from `from` to `to_square` to the list, as far
/// as there is room: one move, or the four promotions.
fn add_moves_to(board: &Board, piece: Piece, from: Square, to_square: Square, list: &mut MoveList)
    requires
        board.consistent(),
        piece < 6,
        from < 64,
        to_square < 64,
    ensures
        final(list)@ == fill(old(list)@, board@.moves_to(piece, from as int, to_square as int)),
{
    let us: usize = board.game_state.active_color as usize;
    let last_rank: usize = if us == WHITE {
        7
    } else {
        0
    };
    let promotion: bool = piece == PAWN && to_square / 8 == last_rank;
    let ghost before = list@;
    proof {
        list.lemma_capacity();
    }

    if !promotion {
        push_move(list, encode_move(board, piece, from, to_square, NO_PROMOTION));
    } else {
        let queen = encode_move(board, piece, from, to_square, QUEEN as u8);
        let rook = encode_move(board, piece, from, to_square, ROOK as u8);
        let bishop = encode_move(board, piece, from, to_square, BISHOP as u8);
        let knight = encode_move(board, piece, from, to_square, KNIGHT as u8);
        proof {
            lemma_fill_fill(before, seq![queen], seq![rook]);
            lemma_fill_fill(before, seq![queen, rook], seq![bishop]);
            lemma_fill_fill(before, seq![queen, rook, bishop], seq![knight]);
            assert(seq![queen] + seq![rook] =~= seq![queen, rook]);
            assert(seq![queen, rook] + seq![bishop] =~= seq![queen, rook, bishop]);
            assert(seq![queen, rook, bishop] + seq![knight] =~= seq![queen, rook, bishop, knight]);
        }
        push_move(list, queen);
        push_move(list, rook);
        push_move(list, bishop);
        push_move(list, knight);
    }
}

/// Turns the squares of `to` into moves of `piece` from `from`, and adds
/// them to the list as far as there is room.
fn add_move(board: &Board, piece: Piece, from: Square, to: Bitboard, list: &mut MoveList)
    requires
        board.consistent(),
        piece < 6,
        from < 64,
    ensures
        final(list)@ == fill(
            old(list)@,
            board@.moves_upto(piece, from as int, squares_in(to), 64),
        ),
{
    let mut bb_to: Bitboard = to;
    let ghost v = board@;
    let ghost targets = squares_in(to);
    let ghost mut done: nat = 0;
    proof {
        list.lemma_capacity();
        lemma_fill_fill(list@, Seq::empty(), Seq::empty());
    }

    while bb_to > 0
        invariant
            board.consistent(),
            v == board@,
            targets == squares_in(to),
            piece < 6,
            from < 64,
            done <= 64,
            forall|i: int| 0 <= i < done ==> !member(bb_to, i),
            forall|i: int| done <= i < 64 ==> member(bb_to, i) == member(to, i),
            old(list)@.len() <= MAX_LEGAL_MOVES,
            list@ == fill(old(list)@, v.moves_upto(piece, from as int, targets, done)),
        decreases bb_to,
    {
        let ghost bb_before = bb_to;
        let ghost list_before = list@;
        let to_square: usize = bits::next(&mut bb_to);
        proof {
            bits::lemma_xor_clears(bb_before, to_square as u64);
            lemma_moves_upto_skip(v, piece, from as int, targets, done, to_square as nat);
        }
        add_moves_to(board, piece, from, to_square, list);
        proof {
            let earlier = v.moves_upto(piece, from as int, targets, to_square as nat);
            let here = v.moves_to(piece, from as int, to_square as int);
            lemma_fill_fill(old(list)@, earlier, here);
            assert(targets.contains(to_square as int));
            done = (to_square + 1) as nat;
        }
    }
    proof {
        bits::lemma_empty_is_zero(bb_to);
        lemma_moves_upto_skip(v, piece, from as int, targets, done, 64);
    }
}

/// The moves to a single target square.
pub proof fn lemma_moves_upto_single(v: BoardView, piece: Piece, from: int, targets: Set<int>, to: int)
    requires
        0 <= to < 64,
        forall|i: int| 0 <= i < 64 ==> (targets.contains(i) <==> i == to),
    ensures
        v.moves_upto(piece, from, targets, 64) == v.moves_to(piece, from, to),
{
    lemma_moves_upto_skip(v, piece, from, targets, 0, to as nat);
    lemma_moves_upto_skip(v, piece, from, targets, (to + 1) as nat, 64);
    assert(Seq::<Move>::empty() + v.moves_to(piece, from, to) =~= v.moves_to(piece, from, to));
}

/// Adds the moves of the pieces of kind `piece` of the side to move: a
/// king, queen, rook, bishop or knight.
fn piece(board: &Board, mb: &MoveBoard, piece: Piece, list: &mut MoveList)
    requires
        board.wf(),
        mb.wf(),
        piece < 5,
    ensures
        final(list)@ == fill(old(list)@, board@.class_upto(piece, 64)),
{
    let us: usize = board.game_state.active_color as usize;
    let bb_occupancy: Bitboard = board.occupancy();
    let bb_own_pieces: Bitboard = board.bb_side[us];
    let all_pieces: Bitboard = board.get_pieces(piece, us);
    let mut bb_pieces: Bitboard = all_pieces;
    let ghost v = board@;
    let ghost mut done: nat = 0;
    proof {
        list.lemma_capacity();
        lemma_fill_fill(list@, Seq::empty(), Seq::empty());
    }

    while bb_pieces > 0
        invariant
            board.wf(),
            mb.wf(),
            v == board@,
            piece < 5,
            us == v.us(),
            squares_in(bb_occupancy) == occupied(v.squares),
            bb_own_pieces == board.bb_side[us as int],
            all_pieces == board.bb_pieces[us as int][piece as int],
            done <= 64,
            forall|i: int| 0 <= i < done ==> !member(bb_pieces, i),
            forall|i: int| done <= i < 64 ==> member(bb_pieces, i) == member(all_pieces, i),
            old(list)@.len() <= MAX_LEGAL_MOVES,
            list@ == fill(old(list)@, v.class_upto(piece, done)),
        decreases bb_pieces,
    {
        let ghost bb_before = bb_pieces;
        let from: usize = bits::next(&mut bb_pieces);
        let bb_target: Bitboard = if piece == KING || piece == KNIGHT {
            mb.get_non_slider_attacks(piece, from)
        } else {
            mb.get_slider_attacks(piece, from, bb_occupancy)
        };
        let bb_moves: Bitboard = bb_target & !bb_own_pieces;
        proof {
            bits::lemma_xor_clears(bb_before, from as u64);
            assert forall|i: int| done <= i < from implies v.squares[i] != Some((us, piece)) by {
                assert(member(board.bb_pieces[us as int][piece as int], i) <==> board.occupant(i)
                    == Some((us, piece)));
            }
            assert(v.squares[from as int] == Some((us, piece))) by {
                assert(member(board.bb_pieces[us as int][piece as int], from as int)
                    <==> board.occupant(from as int) == Some((us, piece)));
            }
            lemma_class_upto_skip(v, piece, done, from as nat);
            lemma_member_ops(bb_own_pieces, bb_own_pieces);
            lemma_member_ops(bb_target, !bb_own_pieces);
            assert forall|t: int| squares_in(bb_moves).contains(t) == v.targets(
                piece,
                from as int,
            ).contains(t) by {
                if 0 <= t < 64 {
                    assert(member(board.bb_side[us as int], t) <==> (board.occupant(t) matches Some(
                        (sd, _),
                    ) && sd == us));
                    assert(member(mb.king[from as int], t) <==> crate::move_boards::king_step(
                        from as int,
                        t,
                    ));
                    assert(member(mb.knight[from as int], t) <==> crate::move_boards::knight_step(
                        from as int,
                        t,
                    ));
                }
            }
            assert(squares_in(bb_moves) =~= v.targets(piece, from as int));
        }
        add_move(board, piece, from, bb_moves, list);
        proof {
            lemma_fill_fill(
                old(list)@,
                v.class_upto(piece, from as nat),
                v.moves_upto(piece, from as int, v.targets(piece, from as int), 64),
            );
            done = (from + 1) as nat;
        }
    }
    proof {
        bits::lemma_empty_is_zero(bb_pieces);
        assert forall|i: int| done <= i < 64 implies v.squares[i] != Some((us, piece)) by {
            assert(member(board.bb_pieces[us as int][piece as int], i) <==> board.occupant(i)
                == Some((us, piece)));
        }
        lemma_class_upto_skip(v, piece, done, 64);
    }
}

/// Adds the moves of the pawns of the side to move.
fn pawns(board: &Board, mb: &MoveBoard, list: &mut MoveList)
    requires
        board.wf(),
        mb.wf(),
    ensures
        final(list)@ == fill(old(list)@, board@.class_upto(PAWN, 64)),
{
    let us: usize = board.game_state.active_color as usize;
    let bb_opponent_pieces: Bitboard = board.bb_side[1 - us];
    let bb_occupancy: Bitboard = board.occupancy();
    let bb_empty: Bitboard = !bb_occupancy;
    let bb_fourth: Bitboard = if us == WHITE {
        BB_RANK_4
    } else {
        BB_RANK_5
    };
    let all_pawns: Bitboard = board.get_pieces(PAWN, us);
    let mut bb_pawns: Bitboard = all_pawns;
    let ghost v = board@;
    let ghost mut done: nat = 0;
    proof {
        list.lemma_capacity();
        lemma_fill_fill(list@, Seq::empty(), Seq::empty());
        lemma_member_ops(bb_occupancy, bb_occupancy);
    }

    while bb_pawns > 0
        invariant
            board.wf(),
            mb.wf(),
            v == board@,
            us == v.us(),
            us < 2,
            forall|i: int| 0 <= i < 64 ==> (#[trigger] member(bb_empty, i) <==> v.squares[i] is None),
            bb_opponent_pieces == board.bb_side[1 - us],
            bb_fourth == (if us == WHITE {
                BB_RANK_4
            } else {
                BB_RANK_5
            }),
            all_pawns == board.bb_pieces[us as int][PAWN as int],
            done <= 64,
            forall|i: int| 0 <= i < done ==> !member(bb_pawns, i),
            forall|i: int| done <= i < 64 ==> member(bb_pawns, i) == member(all_pawns, i),
            old(list)@.len() <= MAX_LEGAL_MOVES,
            list@ == fill(old(list)@, v.class_upto(PAWN, done)),
        decreases bb_pawns,
    {
        let ghost bb_before = bb_pawns;
        let from: usize = bits::next(&mut bb_pawns);
        let bb_push: Bitboard = if us == WHITE {
            if from < 56 {
                1u64 << (from + 8)
            } else {
                0
            }
        } else {
            if from >= 8 {
                1u64 << (from - 8)
            } else {
                0
            }
        };
        let bb_one_step: Bitboard = bb_push & bb_empty;
        let bb_shifted: Bitboard = if us == WHITE {
            bb_one_step << 8
        } else {
            bb_one_step >> 8
        };
        let bb_two_step: Bitboard = (bb_shifted & bb_empty) & bb_fourth;
        let bb_targets: Bitboard = mb.get_pawn_attacks(us, from);
        let bb_captures: Bitboard = bb_targets & bb_opponent_pieces;
        let bb_ep_capture: Bitboard = match board.game_state.en_passant {
            Some(ep) => bb_targets & (1u64 << ep),
            None => 0,
        };

        // Gather all moves for the pawn into one bitboard.
        let bb_moves: Bitboard = ((bb_one_step | bb_two_step) | bb_captures) | bb_ep_capture;
        proof {
            bits::lemma_xor_clears(bb_before, from as u64);
            assert forall|i: int| done <= i < from implies v.squares[i] != Some((us, PAWN)) by {
                assert(member(board.bb_pieces[us as int][PAWN as int], i) <==> board.occupant(i)
                    == Some((us, PAWN)));
            }
            assert(v.squares[from as int] == Some((us, PAWN))) by {
                assert(member(board.bb_pieces[us as int][PAWN as int], from as int)
                    <==> board.occupant(from as int) == Some((us, PAWN)));
            }
            lemma_class_upto_skip(v, PAWN, done, from as nat);
            lemma_member_ops(bb_push, bb_empty);
            lemma_member_ops(bb_shifted, bb_empty);
            lemma_member_ops(bb_shifted & bb_empty, bb_fourth);
            lemma_member_ops(bb_targets, bb_opponent_pieces);
            lemma_member_ops(bb_one_step, bb_two_step);
            lemma_member_ops(bb_one_step | bb_two_step, bb_captures);
            lemma_member_ops((bb_one_step | bb_two_step) | bb_captures, bb_ep_capture);
            if us == WHITE && from < 56 {
                lemma_member_single((from + 8) as u64);
            }
            if us == BLACK && from >= 8 {
                lemma_member_single((from - 8) as u64);
            }
            match board.game_state.en_passant {
                Some(ep) => {
                    lemma_member_single(ep as u64);
                    lemma_member_ops(bb_targets, 1u64 << ep);
                },
                None => {},
            }
            assert forall|t: int| squares_in(bb_moves).contains(t) == v.targets(
                PAWN,
                from as int,
            ).contains(t) by {
                if 0 <= t < 64 {
                    bits::lemma_rank_shift(bb_one_step, t as u64);
                    assert(member(board.bb_side[1 - us], t) <==> (board.occupant(t) matches Some(
                        (sd, _),
                    ) && sd == 1 - us));
                    assert(member(mb.pawns[us as int][from as int], t) <==> pawn_attack(
                        us,
                        from as int,
                        t,
                    ));
                    assert(member(bb_fourth, t) <==> (if us == WHITE {
                        24 <= t < 32
                    } else {
                        32 <= t < 40
                    }));
                    if us == WHITE {
                        assert(member(bb_shifted, t) <==> (t >= 8 && member(bb_one_step, t - 8)));
                    } else {
                        assert(member(bb_shifted, t) <==> (t < 56 && member(bb_one_step, t + 8)));
                    }
                    assert(member(bb_one_step, t) <==> v.pawn_push(from as int, t));
                    assert(member(bb_two_step, t) <==> v.pawn_double(from as int, t));
                    assert((member(bb_captures, t) || member(bb_ep_capture, t)) <==> v.pawn_takes(
                        from as int,
                        t,
                    ));
                }
            }
            assert(squares_in(bb_moves) =~= v.targets(PAWN, from as int));
        }
        add_move(board, PAWN, from, bb_moves, list);
        proof {
            lemma_fill_fill(
                old(list)@,
                v.class_upto(PAWN, from as nat),
                v.moves_upto(PAWN, from as int, v.targets(PAWN, from as int), 64),
            );
            done = (from + 1) as nat;
        }
    }
    proof {
        bits::lemma_empty_is_zero(bb_pawns);
        assert forall|i: int| done <= i < 64 implies v.squares[i] != Some((us, PAWN)) by {
            assert(member(board.bb_pieces[us as int][PAWN as int], i) <==> board.occupant(i)
                == Some((us, PAWN)));
        }
        lemma_class_upto_skip(v, PAWN, done, 64);
    }
}

/// Adds the castling move to one side, if it is open: the king's move of
/// two squares from its home square.
fn castle_to(
    board: &Board,
    mb: &MoveBoard,
    kingside: bool,
    list: &mut MoveList,
)
    requires
        board.wf(),
        mb.wf(),
    ensures
        final(list)@ == fill(
            old(list)@,
            if kingside {
                if board@.can_castle_kingside() {
                    board@.moves_to(KING, board@.home(), board@.home() + 2)
                } else {
                    Seq::empty()
                }
            } else {
                if board@.can_castle_queenside() {
                    board@.moves_to(KING, board@.home(), board@.home() - 2)
                } else {
                    Seq::empty()
                }
            },
        ),
{
    let us: usize = board.game_state.active_color as usize;
    let opponent: usize = 1 - us;
    let from: usize = if us == WHITE {
        4
    } else {
        60
    };
    let right: u8 = if us == WHITE {
        if kingside {
            CASTLE_WK
        } else {
            CASTLE_WQ
        }
    } else {
        if kingside {
            CASTLE_BK
        } else {
            CASTLE_BQ
        }
    };
    let bb_occupancy: Bitboard = board.occupancy();
    let ghost v = board@;
    proof {
        list.lemma_capacity();
        lemma_fill_fill(list@, Seq::empty(), Seq::empty());
    }
    if board.game_state.castling & right > 0 {
        let bb_blockers: Bitboard = if kingside {
            (1u64 << (from + 1)) | (1u64 << (from + 2))
        } else {
            ((1u64 << (from - 1)) | (1u64 << (from - 2))) | (1u64 << (from - 3))
        };
        let is_blocked: bool = (bb_occupancy & bb_blockers) > 0;
        proof {
            lemma_member_single((from + 1) as u64);
            lemma_member_single((from + 2) as u64);
            lemma_member_single((from - 1) as u64);
            lemma_member_single((from - 2) as u64);
            lemma_member_single((from - 3) as u64);
            lemma_member_ops(1u64 << (from + 1), 1u64 << (from + 2));
            lemma_member_ops(1u64 << (from - 1), 1u64 << (from - 2));
            lemma_member_ops((1u64 << (from - 1)) | (1u64 << (from - 2)), 1u64 << (from - 3));
            lemma_member_ops(bb_occupancy, bb_blockers);
            bits::lemma_empty_is_zero(bb_occupancy & bb_blockers);
            if kingside {
                assert(is_blocked <==> !(v.squares[from + 1] is None && v.squares[from + 2] is None))
                    by {
                    if !is_blocked {
                        assert(!member(bb_occupancy & bb_blockers, from + 1));
                        assert(!member(bb_occupancy & bb_blockers, from + 2));
                    }
                }
            } else {
                assert(is_blocked <==> !(v.squares[from - 1] is None && v.squares[from - 2] is None
                    && v.squares[from - 3] is None)) by {
                    if !is_blocked {
                        assert(!member(bb_occupancy & bb_blockers, from - 1));
                        assert(!member(bb_occupancy & bb_blockers, from - 2));
                        assert(!member(bb_occupancy & bb_blockers, from - 3));
                    }
                }
            }
        }
        let passed: usize = if kingside {
            from + 1
        } else {
            from - 1
        };
        if !is_blocked && !square_attacked(board, mb, opponent, from) && !square_attacked(
            board,
            mb,
            opponent,
            passed,
        ) {
            let landing: usize = if kingside {
                from + 2
            } else {
                from - 2
            };
            let to: Bitboard = 1u64 << landing;
            proof {
                lemma_member_single(landing as u64);
                lemma_moves_upto_single(v, KING, from as int, squares_in(to), landing as int);
            }
            add_move(board, KING, from, to, list);
        }
    }
}

/// Adds the castling moves of the side to move, to the king's side first.
fn castling(board: &Board, mb: &MoveBoard, list: &mut MoveList)
    requires
        board.wf(),
        mb.wf(),
    ensures
        final(list)@ == fill(old(list)@, board@.castling_moves()),
{
    let us: usize = board.game_state.active_color as usize;
    let castle_perms_white: bool = (board.game_state.castling & (CASTLE_WK | CASTLE_WQ)) > 0;
    let castle_perms_black: bool = (board.game_state.castling & (CASTLE_BK | CASTLE_BQ)) > 0;
    let ghost v = board@;
    let ghost both = v.castling_moves();
    proof {
        list.lemma_capacity();
        lemma_fill_fill(list@, Seq::empty(), Seq::empty());
        bits::lemma_right_pairs(board.game_state.castling);
    }

    if (us == WHITE && castle_perms_white) || (us == BLACK && castle_perms_black) {
        let ghost kingside: Seq<Move> = if v.can_castle_kingside() {
            v.moves_to(KING, v.home(), v.home() + 2)
        } else {
            Seq::empty()
        };
        let ghost queenside: Seq<Move> = if v.can_castle_queenside() {
            v.moves_to(KING, v.home(), v.home() - 2)
        } else {
            Seq::empty()
        };
        proof {
            lemma_fill_fill(list@, kingside, queenside);
        }
        castle_to(board, mb, true, list);
        castle_to(board, mb, false, list);
    } else {
        assert(both =~= Seq::<Move>::empty());
    }
}

/// Adds all pseudo-legal moves of the side to move to the list, as far as
/// there is room. No position of a game of chess has more moves than the
/// list holds.
pub fn all_moves(board: &Board, mb: &MoveBoard, list: &mut MoveList)
    requires
        board.wf(),
        mb.wf(),
    ensures
        final(list)@ == fill(old(list)@, board@.all_moves()),
{
    let ghost v = board@;
    let ghost start = list@;
    proof {
        list.lemma_capacity();
        let k = v.class_upto(KING, 64);
        let n = v.class_upto(KNIGHT, 64);
        let r = v.class_upto(ROOK, 64);
        let b = v.class_upto(BISHOP, 64);
        let q = v.class_upto(QUEEN, 64);
        let p = v.class_upto(PAWN, 64);
        let c = v.castling_moves();
        lemma_fill_fill(start, k, n);
        lemma_fill_fill(start, k + n, r);
        lemma_fill_fill(start, k + n + r, b);
        lemma_fill_fill(start, k + n + r + b, q);
        lemma_fill_fill(start, k + n + r + b + q, p);
        lemma_fill_fill(start, k + n + r + b + q + p, c);
    }
    piece(board, mb, KING, list);
    piece(board, mb, KNIGHT, list);
    piece(board, mb, ROOK, list);
    piece(board, mb, BISHOP, list);
    piece(board, mb, QUEEN, list);
    pawns(board, mb, list);
    castling(board, mb, list);
}

} // verus!
