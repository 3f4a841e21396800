//! Which squares a side attacks.

use crate::board::{occupied, Board, Occupant};
use crate::defs::{Bitboard, Piece, Side, BISHOP, KING, KNIGHT, PAWN, QUEEN, ROOK};
use crate::misc::bits::{lemma_empty_is_zero, lemma_member_ops, member};
use crate::move_boards::{
    bishop_sees, king_step, knight_step, pawn_attack, ray_sees, ray_square, rook_sees, slider_sees,
    steps, MoveBoard,
};
use vstd::prelude::*;

verus! {

/// `piece` of `side` on `from` attacks `to` when the squares of `occupied`
/// are occupied.
pub open spec fn piece_attacks(
    piece: Piece,
    side: Side,
    from: int,
    to: int,
    occupied: Set<int>,
) -> bool {
    if piece == KING {
        king_step(from, to)
    } else if piece == KNIGHT {
        knight_step(from, to)
    } else if piece == PAWN {
        pawn_attack(side, from, to)
    } else {
        slider_sees(piece, from, to, occupied)
    }
}

/// Some piece of `attacker` attacks `square`.
pub open spec fn attacked(squares: Seq<Occupant>, attacker: Side, square: int) -> bool {
    exists|from: int|
        0 <= from < 64 && attacks_from(squares, attacker, square, from)
}

/// On `from` stands a piece of `attacker` that attacks `square`.
pub open spec fn attacks_from(
    squares: Seq<Occupant>,
    attacker: Side,
    square: int,
    from: int,
) -> bool {
    squares[from] matches Some((side, piece)) && side == attacker && piece_attacks(
        piece,
        side,
        from,
        square,
        occupied(squares),
    )
}

/// A ray that sees `to` from `from` is seen from `to` the other way.
pub proof fn lemma_ray_symmetric(from: int, to: int, df: int, dr: int, occupied: Set<int>)
    requires
        -1 <= df <= 1,
        -1 <= dr <= 1,
        df != 0 || dr != 0,
        ray_sees(from, to, df, dr, occupied),
    ensures
        ray_sees(to, from, -df, -dr, occupied),
{
    let k = steps(from, to);
    assert(steps(to, from) == k);
    assert forall|j: int| 1 <= j < k implies !occupied.contains(
        #[trigger] ray_square(to, -df, -dr, j),
    ) by {
        assert(ray_square(to, -df, -dr, j) == ray_square(from, df, dr, k - j));
    }
}

/// A sliding piece sees along its lines both ways.
pub proof fn lemma_slider_symmetric(piece: Piece, from: int, to: int, occupied: Set<int>)
    ensures
        slider_sees(piece, from, to, occupied) == slider_sees(piece, to, from, occupied),
{
    if rook_sees(from, to, occupied) {
        if ray_sees(from, to, 1, 0, occupied) {
            lemma_ray_symmetric(from, to, 1, 0, occupied);
        } else if ray_sees(from, to, -1, 0, occupied) {
            lemma_ray_symmetric(from, to, -1, 0, occupied);
        } else if ray_sees(from, to, 0, 1, occupied) {
            lemma_ray_symmetric(from, to, 0, 1, occupied);
        } else {
            lemma_ray_symmetric(from, to, 0, -1, occupied);
        }
    }
    if rook_sees(to, from, occupied) {
        if ray_sees(to, from, 1, 0, occupied) {
            lemma_ray_symmetric(to, from, 1, 0, occupied);
        } else if ray_sees(to, from, -1, 0, occupied) {
            lemma_ray_symmetric(to, from, -1, 0, occupied);
        } else if ray_sees(to, from, 0, 1, occupied) {
            lemma_ray_symmetric(to, from, 0, 1, occupied);
        } else {
            lemma_ray_symmetric(to, from, 0, -1, occupied);
        }
    }
    if bishop_sees(from, to, occupied) {
        if ray_sees(from, to, 1, 1, occupied) {
            lemma_ray_symmetric(from, to, 1, 1, occupied);
        } else if ray_sees(from, to, -1, 1, occupied) {
            lemma_ray_symmetric(from, to, -1, 1, occupied);
        } else if ray_sees(from, to, 1, -1, occupied) {
            lemma_ray_symmetric(from, to, 1, -1, occupied);
        } else {
            lemma_ray_symmetric(from, to, -1, -1, occupied);
        }
    }
    if bishop_sees(to, from, occupied) {
        if ray_sees(to, from, 1, 1, occupied) {
            lemma_ray_symmetric(to, from, 1, 1, occupied);
        } else if ray_sees(to, from, -1, 1, occupied) {
            lemma_ray_symmetric(to, from, -1, 1, occupied);
        } else if ray_sees(to, from, 1, -1, occupied) {
            lemma_ray_symmetric(to, from, 1, -1, occupied);
        } else {
            lemma_ray_symmetric(to, from, -1, -1, occupied);
        }
    }
}

/// Whether a piece of `attacker` attacks `square`. The pieces are found by
/// looking from `square` along the ways of each kind of piece.
pub fn square_attacked(board: &Board, mb: &MoveBoard, attacker: Side, square: usize) -> (hit: bool)
    requires
        board.consistent(),
        mb.wf(),
        attacker < 2,
        square < 64,
    ensures
        hit == attacked(board@.squares, attacker, square as int),
{
    let occupancy: Bitboard = board.occupancy();
    let bb_king: Bitboard = mb.get_non_slider_attacks(KING, square) & board.get_pieces(
        KING,
        attacker,
    );
    let bb_knight: Bitboard = mb.get_non_slider_attacks(KNIGHT, square) & board.get_pieces(
        KNIGHT,
        attacker,
    );
    let bb_pawns: Bitboard = mb.get_pawn_attacks(1 - attacker, square) & board.get_pieces(
        PAWN,
        attacker,
    );
    let lines: Bitboard = mb.get_slider_attacks(ROOK, square, occupancy);
    let diagonals: Bitboard = mb.get_slider_attacks(BISHOP, square, occupancy);
    let bb_rooks: Bitboard = lines & (board.get_pieces(ROOK, attacker) | board.get_pieces(
        QUEEN,
        attacker,
    ));
    let bb_bishops: Bitboard = diagonals & (board.get_pieces(BISHOP, attacker) | board.get_pieces(
        QUEEN,
        attacker,
    ));
    let attackers: Bitboard = (((bb_king | bb_knight) | bb_pawns) | bb_rooks) | bb_bishops;
    proof {
        let a = attacker as int;
        let sq = square as int;
        let squares = board@.squares;
        let occ = occupied(squares);
        lemma_member_ops(mb.king[sq], board.bb_pieces[a][KING as int]);
        lemma_member_ops(mb.knight[sq], board.bb_pieces[a][KNIGHT as int]);
        lemma_member_ops(mb.pawns[1 - a][sq], board.bb_pieces[a][PAWN as int]);
        lemma_member_ops(board.bb_pieces[a][ROOK as int], board.bb_pieces[a][QUEEN as int]);
        lemma_member_ops(board.bb_pieces[a][BISHOP as int], board.bb_pieces[a][QUEEN as int]);
        lemma_member_ops(
            lines,
            board.bb_pieces[a][ROOK as int] | board.bb_pieces[a][QUEEN as int],
        );
        lemma_member_ops(
            diagonals,
            board.bb_pieces[a][BISHOP as int] | board.bb_pieces[a][QUEEN as int],
        );
        lemma_member_ops(bb_king, bb_knight);
        lemma_member_ops(bb_king | bb_knight, bb_pawns);
        lemma_member_ops((bb_king | bb_knight) | bb_pawns, bb_rooks);
        lemma_member_ops(((bb_king | bb_knight) | bb_pawns) | bb_rooks, bb_bishops);
        lemma_empty_is_zero(attackers);
        assert forall|from: int| 0 <= from < 64 implies (#[trigger] member(attackers, from)
            <==> attacks_from(squares, attacker, sq, from)) by {
            lemma_slider_symmetric(ROOK, from, sq, occ);
            lemma_slider_symmetric(BISHOP, from, sq, occ);
            lemma_slider_symmetric(QUEEN, from, sq, occ);
            assert(forall|p: int|
                0 <= p < 6 ==> (member(#[trigger] board.bb_pieces[a][p], from) <==> board.occupant(
                    from,
                ) == Some((attacker, p as usize))));
            assert(member(mb.king[sq], from) <==> king_step(sq, from));
            assert(member(mb.knight[sq], from) <==> knight_step(sq, from));
            assert(member(mb.pawns[1 - a][sq], from) <==> pawn_attack(
                (1 - a) as usize,
                sq,
                from,
            ));
            assert(squares[from] matches Some((s, p)) ==> s < 2 && p < 6) by {
                assert(board.piece_list[from] <= 6);
            }
        }
        if attacked(squares, attacker, sq) {
            let from = choose|from: int| 0 <= from < 64 && attacks_from(squares, attacker, sq, from);
            assert(member(attackers, from));
        }
    }
    attackers != 0
}

/// A king of `side` stands on a square that the other side attacks.
pub open spec fn in_check(squares: Seq<Occupant>, side: Side) -> bool {
    exists|k: int|
        0 <= k < 64 && #[trigger] squares[k] == Some((side, KING)) && attacked(
            squares,
            (1 - side) as usize,
            k,
        )
}

/// Whether a king of `side` is attacked.
pub fn king_attacked(board: &Board, mb: &MoveBoard, side: Side) -> (hit: bool)
    requires
        board.consistent(),
        mb.wf(),
        side < 2,
    ensures
        hit == in_check(board@.squares, side),
{
    let all_kings: Bitboard = board.get_pieces(KING, side);
    let mut kings: Bitboard = all_kings;
    let mut hit: bool = false;
    let ghost squares = board@.squares;
    while kings != 0
        invariant
            board.consistent(),
            mb.wf(),
            side < 2,
            squares == board@.squares,
            all_kings == board.bb_pieces[side as int][KING as int],
            forall|i: int| member(kings, i) ==> member(all_kings, i),
            hit <==> exists|k: int|
                0 <= k < 64 && member(all_kings, k) && !member(kings, k) && #[trigger] attacked(
                    squares,
                    (1 - side) as usize,
                    k,
                ),
        decreases kings,
    {
        let ghost before = kings;
        let square: usize = crate::misc::bits::next(&mut kings);
        proof {
            crate::misc::bits::lemma_xor_clears(before, square as u64);
        }
        if square_attacked(board, mb, 1 - side, square) {
            hit = true;
        }
    }
    proof {
        lemma_empty_is_zero(kings);
        assert forall|k: int| 0 <= k < 64 implies (member(all_kings, k) <==> squares[k] == Some(
            (side, KING),
        )) by {
            assert(member(board.bb_pieces[side as int][KING as int], k) <==> board.occupant(k)
                == Some((side, KING)));
        }
        if in_check(squares, side) {
            let k = choose|k: int|
                0 <= k < 64 && #[trigger] squares[k] == Some((side, KING)) && attacked(
                    squares,
                    (1 - side) as usize,
                    k,
                );
            assert(member(all_kings, k) && !member(kings, k) && attacked(
                squares,
                (1 - side) as usize,
                k,
            ));
        }
    }
    hit
}

} // verus!
