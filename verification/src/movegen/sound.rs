//! What the generator gives: the moves by which a piece of the side to move
//! can move, all of them and no others; and each fits the position it was
//! generated from, so that it can be made.

use crate::board::{has_right, BoardView};
use crate::defs::{Piece, BISHOP, KING, KNIGHT, PAWN, QUEEN, ROOK, WHITE};
use crate::misc::bits::lemma_right_masks;
use crate::movegen::movedefs::{lemma_pack_unpack, Move, NO_PROMOTION};
use vstd::prelude::*;

verus! {

/// The position accepts every move of the sequence.
pub open spec fn all_accepted(v: BoardView, moves: Seq<Move>) -> bool {
    forall|i: int| 0 <= i < moves.len() ==> v.accepts(#[trigger] moves[i])
}

/// `piece` can move from `from` to `to`: by its ordinary moves, or, a king,
/// by castling.
pub open spec fn can_move(v: BoardView, piece: Piece, from: int, to: int) -> bool {
    &&& piece < 6
    &&& 0 <= from < 64
    &&& 0 <= to < 64
    &&& v.squares[from] == Some((v.us(), piece))
    &&& {
        ||| v.targets(piece, from).contains(to)
        ||| (piece == KING && from == v.home() && to == v.home() + 2 && v.can_castle_kingside())
        ||| (piece == KING && from == v.home() && to == v.home() - 2 && v.can_castle_queenside())
    }
}

/// The fields of an encoded move are the ones it was encoded from.
proof fn lemma_encode_fields(v: BoardView, piece: Piece, from: int, to: int, promoted: u8)
    requires
        v.wf(),
        piece < 6,
        0 <= from < 64,
        0 <= to < 64,
        promoted < 8,
    ensures
        ({
            let m = v.encode(piece, from, to, promoted);
            &&& m.spec_piece() == piece
            &&& m.spec_from() == from
            &&& m.spec_to() == to
            &&& m.spec_captured() == crate::movegen::gen::capture_code(v.squares[to])
            &&& m.spec_promoted() == promoted
            &&& m.spec_en_passant() == (piece == PAWN && v.state.en_passant == Some(to as u8))
            &&& m.spec_double_step() == (piece == PAWN && crate::move_boards::distance(from, to)
                == 16)
            &&& m.spec_castling() == (piece == KING && crate::move_boards::distance(from, to) == 2)
        }),
{
    assert(v.squares[to] matches Some((s, p)) ==> s < 2 && p < 6);
    lemma_pack_unpack(
        piece as int,
        from,
        to,
        crate::movegen::gen::capture_code(v.squares[to]) as int,
        promoted as int,
        piece == PAWN && v.state.en_passant == Some(to as u8),
        piece == PAWN && crate::move_boards::distance(from, to) == 16,
        piece == KING && crate::move_boards::distance(from, to) == 2,
    );
}

/// A move of a piece to a square it can move to is accepted, whatever it
/// promotes to, if it promotes only where a pawn reaches its last rank.
proof fn lemma_encode_accepted(v: BoardView, piece: Piece, from: int, to: int, promoted: u8)
    requires
        v.wf(),
        can_move(v, piece, from, to),
        promoted == NO_PROMOTION || (piece == PAWN && 1 <= promoted <= 4 && crate::move_boards::rank_of(
            to,
        ) == crate::movegen::gen::promotion_rank(v.us())),
    ensures
        v.accepts(v.encode(piece, from, to, promoted)),
{
    lemma_encode_fields(v, piece, from, to, promoted);
    lemma_right_masks();
    assert(v.squares[to] matches Some((s, p)) ==> s < 2 && p < 6);
    assert(v.squares[from] matches Some((s, p)) ==> s < 2 && p < 6);
}

/// The moves of a piece to a square it can move to are accepted.
proof fn lemma_moves_to_accepted(v: BoardView, piece: Piece, from: int, to: int)
    requires
        v.wf(),
        can_move(v, piece, from, to),
    ensures
        all_accepted(v, v.moves_to(piece, from, to)),
{
    if piece == PAWN && crate::move_boards::rank_of(to) == crate::movegen::gen::promotion_rank(
        v.us(),
    ) {
        lemma_encode_accepted(v, piece, from, to, QUEEN as u8);
        lemma_encode_accepted(v, piece, from, to, ROOK as u8);
        lemma_encode_accepted(v, piece, from, to, BISHOP as u8);
        lemma_encode_accepted(v, piece, from, to, KNIGHT as u8);
    } else {
        lemma_encode_accepted(v, piece, from, to, NO_PROMOTION);
    }
}

/// The moves of a piece to its targets are accepted.
proof fn lemma_moves_upto_accepted(v: BoardView, piece: Piece, from: int, n: nat)
    requires
        v.wf(),
        piece < 6,
        0 <= from < 64,
        n <= 64,
        v.squares[from] == Some((v.us(), piece)),
    ensures
        all_accepted(v, v.moves_upto(piece, from, v.targets(piece, from), n)),
    decreases n,
{
    if n > 0 {
        lemma_moves_upto_accepted(v, piece, from, (n - 1) as nat);
        if v.targets(piece, from).contains(n - 1) {
            lemma_moves_to_accepted(v, piece, from, n - 1);
        }
    }
}

/// The moves of the pieces of a kind are accepted.
proof fn lemma_class_accepted(v: BoardView, piece: Piece, n: nat)
    requires
        v.wf(),
        piece < 6,
        n <= 64,
    ensures
        all_accepted(v, v.class_upto(piece, n)),
    decreases n,
{
    if n > 0 {
        lemma_class_accepted(v, piece, (n - 1) as nat);
        if v.squares[n - 1] == Some((v.us(), piece)) {
            lemma_moves_upto_accepted(v, piece, n - 1, 64);
        }
    }
}

/// The castling moves are accepted.
proof fn lemma_castling_accepted(v: BoardView)
    requires
        v.wf(),
    ensures
        all_accepted(v, v.castling_moves()),
{
    lemma_right_masks();
    if v.can_castle_kingside() {
        assert(has_right(v.state.castling, if v.us() == WHITE {
            crate::defs::CASTLE_WK
        } else {
            crate::defs::CASTLE_BK
        }));
        lemma_moves_to_accepted(v, KING, v.home(), v.home() + 2);
    }
    if v.can_castle_queenside() {
        assert(has_right(v.state.castling, if v.us() == WHITE {
            crate::defs::CASTLE_WQ
        } else {
            crate::defs::CASTLE_BQ
        }));
        lemma_moves_to_accepted(v, KING, v.home(), v.home() - 2);
    }
}

/// Every generated move fits the position: it can be made, and taken back
/// again.
pub proof fn lemma_all_moves_accepted(v: BoardView)
    requires
        v.wf(),
    ensures
        all_accepted(v, v.all_moves()),
{
    lemma_class_accepted(v, KING, 64);
    lemma_class_accepted(v, KNIGHT, 64);
    lemma_class_accepted(v, ROOK, 64);
    lemma_class_accepted(v, BISHOP, 64);
    lemma_class_accepted(v, QUEEN, 64);
    lemma_class_accepted(v, PAWN, 64);
    lemma_castling_accepted(v);
}

/// Making a generated move leads to a well-formed position, and taking it
/// back from there gives the position before the move, history and all.
pub proof fn lemma_generated_round_trip(v: BoardView, i: int)
    requires
        v.wf(),
        0 <= i < v.all_moves().len(),
    ensures
        v.accepts(v.all_moves()[i]),
        v.make(v.all_moves()[i]).wf(),
        v.make(v.all_moves()[i]).made(),
        v.make(v.all_moves()[i]).unmake() == v,
        v.make(v.all_moves()[i]).history.len() == v.history.len() + 1,
{
    lemma_all_moves_accepted(v);
    let m = v.all_moves()[i];
    crate::board::playmove::lemma_make_wf(v, m);
    crate::board::playmove::lemma_make_unmake(v, m);
}

/// `m` is a pseudo-legal move: a move of a piece of the side to move to a
/// square to which it can move.
pub open spec fn pseudo_legal(v: BoardView, m: Move) -> bool {
    exists|piece: Piece, from: int, to: int|
        can_move(v, piece, from, to) && #[trigger] v.moves_to(piece, from, to).contains(m)
}

/// Every move of the sequence is pseudo-legal.
pub open spec fn all_pseudo_legal(v: BoardView, moves: Seq<Move>) -> bool {
    forall|i: int| 0 <= i < moves.len() ==> pseudo_legal(v, #[trigger] moves[i])
}

/// The moves of a piece to its targets below `n` are pseudo-legal, and
/// every move to such a target is among them.
proof fn lemma_moves_upto_exact(v: BoardView, piece: Piece, from: int, n: nat)
    requires
        piece < 6,
        0 <= from < 64,
        n <= 64,
        v.squares[from] == Some((v.us(), piece)),
    ensures
        all_pseudo_legal(v, v.moves_upto(piece, from, v.targets(piece, from), n)),
        forall|to: int, m: Move|
            0 <= to < n && v.targets(piece, from).contains(to) && #[trigger] v.moves_to(
                piece,
                from,
                to,
            ).contains(m) ==> v.moves_upto(piece, from, v.targets(piece, from), n).contains(m),
    decreases n,
{
    if n > 0 {
        let targets = v.targets(piece, from);
        let earlier = v.moves_upto(piece, from, targets, (n - 1) as nat);
        let here = if targets.contains(n - 1) {
            v.moves_to(piece, from, n - 1)
        } else {
            Seq::empty()
        };
        let now = v.moves_upto(piece, from, targets, n);
        lemma_moves_upto_exact(v, piece, from, (n - 1) as nat);
        assert forall|i: int| 0 <= i < now.len() implies pseudo_legal(v, #[trigger] now[i]) by {
            if i >= earlier.len() {
                let m = here[i - earlier.len()];
                assert(can_move(v, piece, from, n - 1));
                assert(v.moves_to(piece, from, n - 1).contains(m));
            } else {
                assert(now[i] == earlier[i]);
            }
        }
        assert forall|to: int, m: Move|
            0 <= to < n && targets.contains(to) && #[trigger] v.moves_to(piece, from, to).contains(
                m,
            ) implies now.contains(m) by {
            if to == n - 1 {
                let k = choose|k: int| 0 <= k < here.len() && here[k] == m;
                assert(now[earlier.len() + k] == m);
            } else {
                assert(earlier.contains(m));
                let k = choose|k: int| 0 <= k < earlier.len() && earlier[k] == m;
                assert(now[k] == m);
            }
        }
    }
}

/// The moves of the pieces of a kind that stand below `n` are pseudo-legal,
/// and every move of such a piece to one of its targets is among them.
proof fn lemma_class_exact(v: BoardView, piece: Piece, n: nat)
    requires
        piece < 6,
        n <= 64,
    ensures
        all_pseudo_legal(v, v.class_upto(piece, n)),
        forall|from: int, to: int, m: Move|
            0 <= from < n && 0 <= to < 64 && v.squares[from] == Some((v.us(), piece))
                && v.targets(piece, from).contains(to) && #[trigger] v.moves_to(
                piece,
                from,
                to,
            ).contains(m) ==> v.class_upto(piece, n).contains(m),
    decreases n,
{
    if n > 0 {
        let earlier = v.class_upto(piece, (n - 1) as nat);
        let here = if v.squares[n - 1] == Some((v.us(), piece)) {
            v.moves_upto(piece, n - 1, v.targets(piece, n - 1), 64)
        } else {
            Seq::empty()
        };
        let now = v.class_upto(piece, n);
        lemma_class_exact(v, piece, (n - 1) as nat);
        if v.squares[n - 1] == Some((v.us(), piece)) {
            lemma_moves_upto_exact(v, piece, n - 1, 64);
        }
        assert forall|i: int| 0 <= i < now.len() implies pseudo_legal(v, #[trigger] now[i]) by {
            if i >= earlier.len() {
                assert(now[i] == here[i - earlier.len()]);
            } else {
                assert(now[i] == earlier[i]);
            }
        }
        assert forall|from: int, to: int, m: Move|
            0 <= from < n && 0 <= to < 64 && v.squares[from] == Some((v.us(), piece))
                && v.targets(piece, from).contains(to) && #[trigger] v.moves_to(
                piece,
                from,
                to,
            ).contains(m) implies now.contains(m) by {
            if from == n - 1 {
                assert(here.contains(m));
                let k = choose|k: int| 0 <= k < here.len() && here[k] == m;
                assert(now[earlier.len() + k] == m);
            } else {
                assert(earlier.contains(m));
                let k = choose|k: int| 0 <= k < earlier.len() && earlier[k] == m;
                assert(now[k] == m);
            }
        }
    }
}

/// Two sequences one after the other hold what either holds.
proof fn lemma_joined_contains(a: Seq<Move>, b: Seq<Move>, m: Move)
    ensures
        (a + b).contains(m) <==> a.contains(m) || b.contains(m),
{
    let whole = a + b;
    if a.contains(m) {
        let k = choose|k: int| 0 <= k < a.len() && a[k] == m;
        assert(whole[k] == m);
    }
    if b.contains(m) {
        let k = choose|k: int| 0 <= k < b.len() && b[k] == m;
        assert(whole[a.len() + k] == m);
    }
    if whole.contains(m) {
        let k = choose|k: int| 0 <= k < whole.len() && whole[k] == m;
        if k < a.len() {
            assert(a[k] == m);
        } else {
            assert(b[k - a.len()] == m);
        }
    }
}

/// The generated moves are those of the seven parts.
proof fn lemma_all_moves_parts(v: BoardView, m: Move)
    ensures
        v.all_moves().contains(m) <==> (v.class_upto(KING, 64).contains(m) || v.class_upto(
            KNIGHT,
            64,
        ).contains(m) || v.class_upto(ROOK, 64).contains(m) || v.class_upto(BISHOP, 64).contains(m)
            || v.class_upto(QUEEN, 64).contains(m) || v.class_upto(PAWN, 64).contains(m)
            || v.castling_moves().contains(m)),
{
    let k = v.class_upto(KING, 64);
    let n = v.class_upto(KNIGHT, 64);
    let r = v.class_upto(ROOK, 64);
    let b = v.class_upto(BISHOP, 64);
    let q = v.class_upto(QUEEN, 64);
    let p = v.class_upto(PAWN, 64);
    let c = v.castling_moves();
    lemma_joined_contains(k, n, m);
    lemma_joined_contains(k + n, r, m);
    lemma_joined_contains(k + n + r, b, m);
    lemma_joined_contains(k + n + r + b, q, m);
    lemma_joined_contains(k + n + r + b + q, p, m);
    lemma_joined_contains(k + n + r + b + q + p, c, m);
}

/// The castling moves are the moves of the king from its home square two
/// squares to a side to which castling is open.
proof fn lemma_castling_parts(v: BoardView, m: Move)
    ensures
        v.castling_moves().contains(m) <==> ((v.can_castle_kingside() && v.moves_to(
            KING,
            v.home(),
            v.home() + 2,
        ).contains(m)) || (v.can_castle_queenside() && v.moves_to(
            KING,
            v.home(),
            v.home() - 2,
        ).contains(m))),
{
    let e = Seq::<Move>::empty();
    let short = if v.can_castle_kingside() {
        v.moves_to(KING, v.home(), v.home() + 2)
    } else {
        e
    };
    let long = if v.can_castle_queenside() {
        v.moves_to(KING, v.home(), v.home() - 2)
    } else {
        e
    };
    lemma_joined_contains(short, long, m);
}

/// Where castling is open, the king stands at home and can castle.
proof fn lemma_castling_can_move(v: BoardView)
    requires
        v.wf(),
    ensures
        v.can_castle_kingside() ==> can_move(v, KING, v.home(), v.home() + 2),
        v.can_castle_queenside() ==> can_move(v, KING, v.home(), v.home() - 2),
{
    lemma_right_masks();
    if v.can_castle_kingside() {
        assert(has_right(v.state.castling, if v.us() == WHITE {
            crate::defs::CASTLE_WK
        } else {
            crate::defs::CASTLE_BK
        }));
    }
    if v.can_castle_queenside() {
        assert(has_right(v.state.castling, if v.us() == WHITE {
            crate::defs::CASTLE_WQ
        } else {
            crate::defs::CASTLE_BQ
        }));
    }
}

/// A move of one of the kinds that is pseudo-legal as listed.
proof fn lemma_class_member(v: BoardView, piece: Piece, m: Move)
    requires
        piece < 6,
        v.class_upto(piece, 64).contains(m),
    ensures
        pseudo_legal(v, m),
{
    lemma_class_exact(v, piece, 64);
    let part = v.class_upto(piece, 64);
    let j = choose|j: int| 0 <= j < part.len() && part[j] == m;
    assert(pseudo_legal(v, part[j]));
}

/// Every generated move is pseudo-legal.
pub proof fn lemma_all_moves_sound(v: BoardView, m: Move)
    requires
        v.wf(),
        v.all_moves().contains(m),
    ensures
        pseudo_legal(v, m),
{
    lemma_all_moves_parts(v, m);
    lemma_castling_parts(v, m);
    lemma_castling_can_move(v);
    if v.class_upto(KING, 64).contains(m) {
        lemma_class_member(v, KING, m);
    } else if v.class_upto(KNIGHT, 64).contains(m) {
        lemma_class_member(v, KNIGHT, m);
    } else if v.class_upto(ROOK, 64).contains(m) {
        lemma_class_member(v, ROOK, m);
    } else if v.class_upto(BISHOP, 64).contains(m) {
        lemma_class_member(v, BISHOP, m);
    } else if v.class_upto(QUEEN, 64).contains(m) {
        lemma_class_member(v, QUEEN, m);
    } else if v.class_upto(PAWN, 64).contains(m) {
        lemma_class_member(v, PAWN, m);
    } else if v.can_castle_kingside() && v.moves_to(KING, v.home(), v.home() + 2).contains(m) {
        assert(can_move(v, KING, v.home(), v.home() + 2));
    } else {
        assert(can_move(v, KING, v.home(), v.home() - 2));
    }
}

/// Every pseudo-legal move is generated.
pub proof fn lemma_all_moves_complete(v: BoardView, m: Move)
    requires
        v.wf(),
        pseudo_legal(v, m),
    ensures
        v.all_moves().contains(m),
{
    lemma_all_moves_parts(v, m);
    lemma_castling_parts(v, m);
    let (piece, from, to) = choose|piece: Piece, from: int, to: int|
        can_move(v, piece, from, to) && #[trigger] v.moves_to(piece, from, to).contains(m);
    if v.targets(piece, from).contains(to) {
        lemma_class_exact(v, piece, 64);
        assert(v.class_upto(piece, 64).contains(m));
    }
}

} // verus!
