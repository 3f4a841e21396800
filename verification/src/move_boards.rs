//! The attack tables: for each square, the squares that a king, a knight
//! or a pawn standing there attacks; and the squares that a sliding piece
//! attacks, which depend on what stands in its way.

use crate::defs::{Bitboard, Piece, Side, BISHOP, BLACK, KING, KNIGHT, QUEEN, ROOK, WHITE};
use crate::misc::bits::{lemma_member_ops, lemma_member_single, member};
use vstd::prelude::*;

verus! {

/// The files of the mailbox: the eight of the board, and one on each side.
pub const MAILBOX_FILES: u8 = 10;

/// The ranks of the mailbox: the eight of the board, and two on each side.
pub const MAILBOX_RANKS: u8 = 12;

/// What the mailbox holds outside the board.
pub const INVALID_SQUARE: u8 = 255;

/// For each square, the squares that a piece on it attacks.
pub type NonSliderAttacks = [Bitboard; 64];

/// The file of a square, 0 for the a-file.
pub open spec fn file_of(square: int) -> int {
    square % 8
}

/// The rank of a square, 0 for the first rank.
pub open spec fn rank_of(square: int) -> int {
    square / 8
}

/// How far two numbers are apart.
pub open spec fn distance(a: int, b: int) -> int {
    if a >= b {
        a - b
    } else {
        b - a
    }
}

/// `to` is next to `from`, along a line or a diagonal.
pub open spec fn king_step(from: int, to: int) -> bool {
    &&& 0 <= from < 64 && 0 <= to < 64 && from != to
    &&& distance(file_of(from), file_of(to)) <= 1
    &&& distance(rank_of(from), rank_of(to)) <= 1
}

/// `to` is a knight's jump away from `from`.
pub open spec fn knight_step(from: int, to: int) -> bool {
    &&& 0 <= from < 64 && 0 <= to < 64
    &&& {
        let df = distance(file_of(from), file_of(to));
        let dr = distance(rank_of(from), rank_of(to));
        (df == 1 && dr == 2) || (df == 2 && dr == 1)
    }
}

/// `to` is one rank ahead of `from`, as `side` sees it, and on a file next
/// to it.
pub open spec fn pawn_attack(side: Side, from: int, to: int) -> bool {
    &&& 0 <= from < 64 && 0 <= to < 64
    &&& distance(file_of(from), file_of(to)) == 1
    &&& rank_of(to) == rank_of(from) + (if side == WHITE {
        1int
    } else {
        -1int
    })
}

/// The real square that the mailbox holds at `index`, or 255 on the rim.
pub open spec fn spec_mailbox(index: int) -> u8 {
    if 1 <= index % 10 <= 8 && 2 <= index / 10 <= 9 {
        ((index / 10 - 2) * 8 + index % 10 - 1) as u8
    } else {
        INVALID_SQUARE
    }
}

/// The place in the mailbox of the real square `square`.
pub open spec fn spec_real(square: int) -> u8 {
    ((square / 8 + 2) * 10 + square % 8 + 1) as u8
}

/// The square that lies `offset` mailbox places from `square`, if that
/// place is on the board.
pub open spec fn offset_target(square: int, offset: int) -> Option<int> {
    let index = spec_real(square) + offset;
    if 0 <= index < 120 && spec_mailbox(index) != INVALID_SQUARE {
        Some(spec_mailbox(index) as int)
    } else {
        None
    }
}

/// One of the first `n` offsets leads from `square` to `to`.
pub open spec fn reached(square: int, offsets: Seq<i8>, n: int, to: int) -> bool {
    exists|k: int| 0 <= k < n && #[trigger] offset_target(square, offsets[k] as int) == Some(to)
}

/// A board of ten files and twelve ranks with the real board in its middle.
/// A step off the real board, by up to two files or ranks, lands on its rim,
/// where the mailbox says so.
pub struct HelperBoard {
    pub mailbox: [u8; 120],
    pub real: [u8; 64],
}

impl HelperBoard {
    /// Each place of the mailbox holds its square, and each square its place.
    pub open spec fn wf(&self) -> bool {
        &&& forall|i: int| 0 <= i < 120 ==> #[trigger] self.mailbox[i] == spec_mailbox(i)
        &&& forall|i: int| 0 <= i < 64 ==> #[trigger] self.real[i] == spec_real(i)
    }
}

impl Default for HelperBoard {
    fn default() -> (helper_board: HelperBoard)
        ensures
            helper_board.wf(),
    {
        let mut helper_board: HelperBoard = HelperBoard { mailbox: [0;120], real: [0;64] };
        let mut real_board_square: usize = 0;
        let mut rank: u8 = 0;
        while rank < MAILBOX_RANKS
            invariant
                rank <= 12,
                real_board_square == (if rank < 2 {
                    0int
                } else if rank > 9 {
                    64int
                } else {
                    (rank - 2) * 8
                }),
                forall|i: int| 0 <= i < rank * 10 ==> #[trigger] helper_board.mailbox[i]
                    == spec_mailbox(i),
                forall|i: int|
                    0 <= i < real_board_square ==> #[trigger] helper_board.real[i] == spec_real(i),
            decreases 12 - rank,
        {
            let mut file: u8 = 0;
            while file < MAILBOX_FILES
                invariant
                    rank < 12,
                    file <= 10,
                    real_board_square == (if rank < 2 {
                        0int
                    } else if rank > 9 {
                        64int
                    } else {
                        (rank - 2) * 8 + (if file == 0 {
                            0int
                        } else if file > 8 {
                            8int
                        } else {
                            file - 1
                        })
                    }),
                    forall|i: int|
                        0 <= i < rank * 10 + file ==> #[trigger] helper_board.mailbox[i]
                            == spec_mailbox(i),
                    forall|i: int|
                        0 <= i < real_board_square ==> #[trigger] helper_board.real[i]
                            == spec_real(i),
                decreases 10 - file,
            {
                let square: usize = ((rank * MAILBOX_FILES) + file) as usize;
                if file == 0 || file == 9 || rank < 2 || rank > 9 {
                    helper_board.mailbox[square] = INVALID_SQUARE;
                } else {
                    helper_board.mailbox[square] = real_board_square as u8;
                    helper_board.real[real_board_square] = square as u8;
                    real_board_square += 1;
                }
                file += 1;
            }
            rank += 1;
        }
        helper_board
    }
}

/// The offsets in the mailbox of the eight steps of a king.
pub open spec fn king_offsets() -> Seq<i8> {
    seq![-11i8, -10i8, -9i8, -1i8, 1i8, 9i8, 10i8, 11i8]
}

/// The offsets in the mailbox of the eight jumps of a knight.
pub open spec fn knight_offsets() -> Seq<i8> {
    seq![-21i8, -19i8, -12i8, -8i8, 8i8, 12i8, 19i8, 21i8]
}

/// The offsets in the mailbox of the two captures of a pawn of `side`.
pub open spec fn pawn_offsets(side: Side) -> Seq<i8> {
    if side == WHITE {
        seq![9i8, 11i8]
    } else {
        seq![-9i8, -11i8]
    }
}

/// A mailbox offset of `dr` ranks and `df` files leads to the square that
/// many ranks and files away, if there is one.
pub proof fn lemma_offset_target(square: int, df: int, dr: int)
    requires
        0 <= square < 64,
        -2 <= df <= 2,
        -2 <= dr <= 2,
    ensures
        offset_target(square, 10 * dr + df) == if 0 <= file_of(square) + df < 8 && 0 <= rank_of(
            square,
        ) + dr < 8 {
            Some((rank_of(square) + dr) * 8 + file_of(square) + df)
        } else {
            None
        },
{
    let f = square % 8;
    let r = square / 8;
    let column = f + 1 + df;
    let row = r + 2 + dr;
    let index = spec_real(square) + (10 * dr + df);
    assert(index == row * 10 + column);
    if column == -1 {
        assert(index == (row - 1) * 10 + 9);
        assert(index < 0 || index % 10 == 9);
    } else if column == 10 {
        assert(index == (row + 1) * 10 + 0);
        assert(index % 10 == 0);
    } else {
        assert(0 <= column <= 9);
        if index >= 0 {
            assert(index % 10 == column && index / 10 == row);
        } else {
            assert(row < 0);
        }
    }
}

/// The step of `df` files and `dr` ranks leads from `from` to `to`.
pub open spec fn is_step(from: int, to: int, df: int, dr: int) -> bool {
    file_of(to) == file_of(from) + df && rank_of(to) == rank_of(from) + dr
}

proof fn lemma_reached_step(square: int, to: int, offsets: Seq<i8>, k: int, df: int, dr: int)
    requires
        0 <= square < 64,
        0 <= to < 64,
        -2 <= df <= 2,
        -2 <= dr <= 2,
        0 <= k < offsets.len(),
        offsets[k] == 10 * dr + df,
    ensures
        offset_target(square, offsets[k] as int) == Some(to) <==> is_step(square, to, df, dr),
{
    lemma_offset_target(square, df, dr);
}

/// The eight king offsets lead to the squares next to `square`, and to no
/// others.
pub proof fn lemma_king_offsets(square: int, to: int)
    requires
        0 <= square < 64,
        0 <= to < 64,
    ensures
        reached(square, king_offsets(), 8, to) <==> king_step(square, to),
{
    let o = king_offsets();
    lemma_reached_step(square, to, o, 0, -1, -1);
    lemma_reached_step(square, to, o, 1, 0, -1);
    lemma_reached_step(square, to, o, 2, 1, -1);
    lemma_reached_step(square, to, o, 3, -1, 0);
    lemma_reached_step(square, to, o, 4, 1, 0);
    lemma_reached_step(square, to, o, 5, -1, 1);
    lemma_reached_step(square, to, o, 6, 0, 1);
    lemma_reached_step(square, to, o, 7, 1, 1);
    if king_step(square, to) {
        let df = file_of(to) - file_of(square);
        let dr = rank_of(to) - rank_of(square);
        let k: int = (dr + 1) * 3 + (df + 1) - (if dr > 0 || (dr == 0 && df > 0) {
            1int
        } else {
            0int
        });
        assert(offset_target(square, o[k] as int) == Some(to));
    }
}

/// The eight knight offsets lead to the squares a knight's jump from
/// `square`, and to no others.
pub proof fn lemma_knight_offsets(square: int, to: int)
    requires
        0 <= square < 64,
        0 <= to < 64,
    ensures
        reached(square, knight_offsets(), 8, to) <==> knight_step(square, to),
{
    let o = knight_offsets();
    lemma_reached_step(square, to, o, 0, -1, -2);
    lemma_reached_step(square, to, o, 1, 1, -2);
    lemma_reached_step(square, to, o, 2, -2, -1);
    lemma_reached_step(square, to, o, 3, 2, -1);
    lemma_reached_step(square, to, o, 4, -2, 1);
    lemma_reached_step(square, to, o, 5, 2, 1);
    lemma_reached_step(square, to, o, 6, -1, 2);
    lemma_reached_step(square, to, o, 7, 1, 2);
    if knight_step(square, to) {
        let df = file_of(to) - file_of(square);
        let dr = rank_of(to) - rank_of(square);
        let k: int = if dr == -2 {
            if df == -1 {
                0
            } else {
                1
            }
        } else if dr == -1 {
            if df == -2 {
                2
            } else {
                3
            }
        } else if dr == 1 {
            if df == -2 {
                4
            } else {
                5
            }
        } else {
            if df == -1 {
                6
            } else {
                7
            }
        };
        assert(offset_target(square, o[k] as int) == Some(to));
    }
}

/// The pawn offsets of `side` lead to the squares that a pawn of `side` on
/// `square` attacks, and to no others.
pub proof fn lemma_pawn_offsets(side: Side, square: int, to: int)
    requires
        side < 2,
        0 <= square < 64,
        0 <= to < 64,
    ensures
        reached(square, pawn_offsets(side), 2, to) <==> pawn_attack(side, square, to),
{
    let o = pawn_offsets(side);
    let dr: int = if side == WHITE {
        1
    } else {
        -1
    };
    let d0: int = if side == WHITE {
        -1
    } else {
        1
    };
    lemma_reached_step(square, to, o, 0, d0, dr);
    lemma_reached_step(square, to, o, 1, -d0, dr);
    if pawn_attack(side, square, to) {
        let df = file_of(to) - file_of(square);
        let k: int = if df == d0 {
            0
        } else {
            1
        };
        assert(offset_target(square, o[k] as int) == Some(to));
    }
}

/// The squares that the offsets lead to from `square`.
fn offset_targets(helper: &HelperBoard, square: usize, directions: &[i8]) -> (targets: Bitboard)
    requires
        helper.wf(),
        square < 64,
        forall|k: int| 0 <= k < directions.len() ==> -21 <= #[trigger] directions[k] <= 21,
    ensures
        forall|t: int|
            0 <= t < 64 ==> (#[trigger] member(targets, t) <==> reached(
                square as int,
                directions@,
                directions.len() as int,
                t,
            )),
{
    let mut targets: Bitboard = 0;
    let mut k: usize = 0;
    proof {
        lemma_member_ops(0, 0);
    }
    while k < directions.len()
        invariant
            helper.wf(),
            square < 64,
            k <= directions.len(),
            forall|k: int| 0 <= k < directions.len() ==> -21 <= #[trigger] directions[k] <= 21,
            forall|t: int|
                0 <= t < 64 ==> (#[trigger] member(targets, t) <==> reached(
                    square as int,
                    directions@,
                    k as int,
                    t,
                )),
        decreases directions.len() - k,
    {
        let d: i8 = directions[k];
        let mailbox_square: i8 = helper.real[square] as i8;
        let try_square: usize = (mailbox_square + d) as usize;
        let legal_square: u8 = helper.mailbox[try_square];
        let ghost before = targets;
        if legal_square != INVALID_SQUARE {
            targets = targets | (1u64 << legal_square);
            proof {
                lemma_member_ops(before, 1u64 << legal_square);
                lemma_member_single(legal_square as u64);
            }
        }
        proof {
            let here = offset_target(square as int, d as int);
            assert forall|t: int| 0 <= t < 64 implies (#[trigger] member(targets, t) <==> reached(
                square as int,
                directions@,
                k + 1,
                t,
            )) by {
                if reached(square as int, directions@, k + 1, t) {
                    let j = choose|j: int|
                        0 <= j < k + 1 && #[trigger] offset_target(
                            square as int,
                            directions@[j] as int,
                        ) == Some(t);
                    if j < k {
                        assert(reached(square as int, directions@, k as int, t));
                    }
                }
                if member(before, t) {
                    let j = choose|j: int|
                        0 <= j < k && #[trigger] offset_target(
                            square as int,
                            directions@[j] as int,
                        ) == Some(t);
                    assert(offset_target(square as int, directions@[j] as int) == Some(t));
                }
                if here == Some(t) {
                    assert(offset_target(square as int, directions@[k as int] as int) == Some(t));
                }
            }
        }
        k += 1;
    }
    targets
}

/// `k` steps in a direction: `k`, nothing, or `k` the other way.
pub open spec fn scale(d: int, k: int) -> int {
    if d == 0 {
        0
    } else if d > 0 {
        k
    } else {
        -k
    }
}

/// The number of king steps from `from` to `to`.
pub open spec fn steps(from: int, to: int) -> int {
    let df = distance(file_of(from), file_of(to));
    let dr = distance(rank_of(from), rank_of(to));
    if df >= dr {
        df
    } else {
        dr
    }
}

/// The square `k` steps from `from` in the direction of `df` files and
/// `dr` ranks.
pub open spec fn ray_square(from: int, df: int, dr: int, k: int) -> int {
    (rank_of(from) + scale(dr, k)) * 8 + file_of(from) + scale(df, k)
}

/// `to` lies on the ray from `from` in the direction of `df` files and `dr`
/// ranks.
pub open spec fn on_ray(from: int, to: int, df: int, dr: int) -> bool {
    let k = steps(from, to);
    &&& k >= 1
    &&& file_of(to) == file_of(from) + scale(df, k)
    &&& rank_of(to) == rank_of(from) + scale(dr, k)
}

/// None of the first `k - 1` squares of the ray is occupied.
pub open spec fn ray_clear(from: int, df: int, dr: int, k: int, occupied: Set<int>) -> bool {
    forall|j: int| 1 <= j < k ==> !occupied.contains(#[trigger] ray_square(from, df, dr, j))
}

/// `to` lies on the ray from `from`, and nothing stands between them.
pub open spec fn ray_sees(from: int, to: int, df: int, dr: int, occupied: Set<int>) -> bool {
    &&& 0 <= from < 64 && 0 <= to < 64
    &&& on_ray(from, to, df, dr)
    &&& ray_clear(from, df, dr, steps(from, to), occupied)
}

/// `to` is on the rank or file of `from`, and nothing stands between them.
pub open spec fn rook_sees(from: int, to: int, occupied: Set<int>) -> bool {
    ||| ray_sees(from, to, 1, 0, occupied)
    ||| ray_sees(from, to, -1, 0, occupied)
    ||| ray_sees(from, to, 0, 1, occupied)
    ||| ray_sees(from, to, 0, -1, occupied)
}

/// `to` is on a diagonal of `from`, and nothing stands between them.
pub open spec fn bishop_sees(from: int, to: int, occupied: Set<int>) -> bool {
    ||| ray_sees(from, to, 1, 1, occupied)
    ||| ray_sees(from, to, -1, 1, occupied)
    ||| ray_sees(from, to, 1, -1, occupied)
    ||| ray_sees(from, to, -1, -1, occupied)
}

/// A queen, rook or bishop on `from` attacks `to`.
pub open spec fn slider_sees(piece: Piece, from: int, to: int, occupied: Set<int>) -> bool {
    if piece == ROOK {
        rook_sees(from, to, occupied)
    } else if piece == BISHOP {
        bishop_sees(from, to, occupied)
    } else {
        rook_sees(from, to, occupied) || bishop_sees(from, to, occupied)
    }
}

/// The squares of a bitboard, as a set.
pub open spec fn squares_in(bb: Bitboard) -> Set<int> {
    Set::new(|i: int| member(bb, i))
}

/// The squares that a piece on `square` attacks along one ray: those up to
/// and with the first occupied one.
fn ray(square: usize, df: i8, dr: i8, occupancy: Bitboard) -> (bb: Bitboard)
    requires
        square < 64,
        -1 <= df <= 1,
        -1 <= dr <= 1,
        df != 0 || dr != 0,
    ensures
        forall|t: int|
            0 <= t < 64 ==> (#[trigger] member(bb, t) <==> ray_sees(
                square as int,
                t,
                df as int,
                dr as int,
                squares_in(occupancy),
            )),
{
    let ghost occupied = squares_in(occupancy);
    let ghost from = square as int;
    let mut bb: Bitboard = 0;
    let mut f: i8 = (square % 8) as i8 + df;
    let mut r: i8 = (square / 8) as i8 + dr;
    let mut blocked: bool = false;
    let ghost mut k: int = 1;
    proof {
        lemma_member_ops(0, 0);
    }
    while !blocked && 0 <= f && f < 8 && 0 <= r && r < 8
        invariant
            square < 64,
            from == square,
            occupied == squares_in(occupancy),
            -1 <= df <= 1,
            -1 <= dr <= 1,
            df != 0 || dr != 0,
            1 <= k <= 9,
            f == file_of(from) + scale(df as int, k),
            r == rank_of(from) + scale(dr as int, k),
            -1 <= f <= 8,
            -1 <= r <= 8,
            !blocked ==> ray_clear(from, df as int, dr as int, k, occupied),
            blocked ==> k >= 2 && occupied.contains(ray_square(from, df as int, dr as int, k - 1)),
            forall|t: int|
                0 <= t < 64 ==> (#[trigger] member(bb, t) <==> (ray_sees(
                    from,
                    t,
                    df as int,
                    dr as int,
                    occupied,
                ) && steps(from, t) < k)),
        decreases
                (if blocked {
                    0int
                } else {
                    10 - k
                }),
    {
        let sq: usize = (r * 8 + f) as usize;
        let ghost before = bb;
        proof {
            lemma_member_ops(before, 1u64 << sq);
            lemma_member_single(sq as u64);
            assert(sq == ray_square(from, df as int, dr as int, k));
            assert(file_of(sq as int) == f && rank_of(sq as int) == r);
            assert(steps(from, sq as int) == k);
        }
        bb = bb | (1u64 << sq);
        if (occupancy >> sq) & 1 == 1 {
            blocked = true;
            assert(member(occupancy, sq as int));
        } else {
            assert(!member(occupancy, sq as int));
        }
        proof {
            assert forall|t: int| 0 <= t < 64 implies (#[trigger] member(bb, t) <==> (ray_sees(
                from,
                t,
                df as int,
                dr as int,
                occupied,
            ) && steps(from, t) < k + 1)) by {
                if steps(from, t) == k && on_ray(from, t, df as int, dr as int) {
                    assert(t == rank_of(t) * 8 + file_of(t));
                    assert(t == sq);
                }
            }
            if !blocked {
                assert forall|j: int| 1 <= j < k + 1 implies !occupied.contains(
                    #[trigger] ray_square(from, df as int, dr as int, j),
                ) by {
                    if j == k {
                    }
                }
            }
        }
        f = f + df;
        r = r + dr;
        proof {
            k = k + 1;
        }
    }
    proof {
        assert forall|t: int| 0 <= t < 64 implies (#[trigger] member(bb, t) <==> ray_sees(
            from,
            t,
            df as int,
            dr as int,
            occupied,
        )) by {
            if ray_sees(from, t, df as int, dr as int, occupied) && steps(from, t) >= k {
                if blocked {
                    assert(!occupied.contains(ray_square(from, df as int, dr as int, k - 1)));
                }
            }
        }
    }
    bb
}

/// For each square, the squares that a king, a knight, or a pawn of either
/// side attacks from it.
pub struct MoveBoard {
    pub king: NonSliderAttacks,
    pub knight: NonSliderAttacks,
    pub pawns: [NonSliderAttacks; 2],
}

impl Default for MoveBoard {
    fn default() -> (move_board: MoveBoard)
        ensures
            forall|i: int| 0 <= i < 64 ==> #[trigger] move_board.king[i] == 0,
            forall|i: int| 0 <= i < 64 ==> #[trigger] move_board.knight[i] == 0,
            forall|s: int, i: int|
                0 <= s < 2 && 0 <= i < 64 ==> #[trigger] move_board.pawns[s][i] == 0,
    {
        MoveBoard { king: [0;64], knight: [0;64], pawns: [[0;64];2] }
    }
}

impl MoveBoard {
    /// Each table holds the attacks of its piece, and nothing more.
    pub open spec fn wf(&self) -> bool {
        &&& forall|sq: int, t: int|
            0 <= sq < 64 && 0 <= t < 64 ==> (#[trigger] member(self.king[sq], t) <==> king_step(
                sq,
                t,
            ))
        &&& forall|sq: int, t: int|
            0 <= sq < 64 && 0 <= t < 64 ==> (#[trigger] member(self.knight[sq], t) <==> knight_step(
                sq,
                t,
            ))
        &&& forall|s: int, sq: int, t: int|
            0 <= s < 2 && 0 <= sq < 64 && 0 <= t < 64 ==> (#[trigger] member(self.pawns[s][sq], t)
                <==> pawn_attack(s as usize, sq, t))
    }

    /// Adds to the table of `piece`, a king or a knight, the squares that
    /// the offsets lead to from each square. For another piece nothing is
    /// done.
    fn non_slider(&mut self, piece: usize, directions: [i8; 8], helper: &HelperBoard)
        requires
            helper.wf(),
            forall|k: int| 0 <= k < 8 ==> -21 <= #[trigger] directions[k] <= 21,
        ensures
            final(self).pawns == old(self).pawns,
            piece != KING ==> final(self).king == old(self).king,
            piece != KNIGHT ==> final(self).knight == old(self).knight,
            piece == KING ==> forall|sq: int, t: int|
                0 <= sq < 64 && 0 <= t < 64 ==> (#[trigger] member(final(self).king[sq], t) <==> (
                member(old(self).king[sq], t) || reached(sq, directions@, 8, t))),
            piece == KNIGHT ==> forall|sq: int, t: int|
                0 <= sq < 64 && 0 <= t < 64 ==> (#[trigger] member(final(self).knight[sq], t) <==> (
                member(old(self).knight[sq], t) || reached(sq, directions@, 8, t))),
    {
        let mut sq: usize = 0;
        while sq < 64
            invariant
                sq <= 64,
                helper.wf(),
                forall|k: int| 0 <= k < 8 ==> -21 <= #[trigger] directions[k] <= 21,
                self.pawns == old(self).pawns,
                piece != KING ==> self.king == old(self).king,
                piece != KNIGHT ==> self.knight == old(self).knight,
                piece == KING ==> forall|s: int, t: int|
                    0 <= s < 64 && 0 <= t < 64 ==> (#[trigger] member(self.king[s], t) <==> (member(
                        old(self).king[s],
                        t,
                    ) || (s < sq && reached(s, directions@, 8, t)))),
                piece == KNIGHT ==> forall|s: int, t: int|
                    0 <= s < 64 && 0 <= t < 64 ==> (#[trigger] member(self.knight[s], t) <==> (
                    member(old(self).knight[s], t) || (s < sq && reached(s, directions@, 8, t)))),
            decreases 64 - sq,
        {
            let targets: Bitboard = offset_targets(helper, sq, directions.as_slice());
            if piece == KING {
                proof {
                    lemma_member_ops(self.king[sq as int], targets);
                }
                self.king[sq] = self.king[sq] | targets;
            } else if piece == KNIGHT {
                proof {
                    lemma_member_ops(self.knight[sq as int], targets);
                }
                self.knight[sq] = self.knight[sq] | targets;
            }
            sq += 1;
        }
    }

    /// Adds to the pawn tables the squares that a pawn of either side
    /// attacks from each square.
    fn pawn_captures(&mut self, helper: &HelperBoard)
        requires
            helper.wf(),
        ensures
            final(self).king == old(self).king,
            final(self).knight == old(self).knight,
            forall|s: int, sq: int, t: int|
                0 <= s < 2 && 0 <= sq < 64 && 0 <= t < 64 ==> (#[trigger] member(
                    final(self).pawns[s][sq],
                    t,
                ) <==> (member(old(self).pawns[s][sq], t) || pawn_attack(s as usize, sq, t))),
    {
        let white: [i8; 2] = [9, 11];
        let black: [i8; 2] = [-9, -11];
        assert(white@ =~= pawn_offsets(WHITE));
        assert(black@ =~= pawn_offsets(BLACK));
        let mut sq: usize = 0;
        while sq < 64
            invariant
                sq <= 64,
                helper.wf(),
                white@ == pawn_offsets(WHITE),
                black@ == pawn_offsets(BLACK),
                self.king == old(self).king,
                self.knight == old(self).knight,
                forall|s: int, q: int, t: int|
                    0 <= s < 2 && 0 <= q < 64 && 0 <= t < 64 ==> (#[trigger] member(
                        self.pawns[s][q],
                        t,
                    ) <==> (member(old(self).pawns[s][q], t) || (q < sq && pawn_attack(
                        s as usize,
                        q,
                        t,
                    )))),
            decreases 64 - sq,
        {
            let up: Bitboard = offset_targets(helper, sq, white.as_slice());
            let down: Bitboard = offset_targets(helper, sq, black.as_slice());
            proof {
                lemma_member_ops(self.pawns[0][sq as int], up);
                lemma_member_ops(self.pawns[1][sq as int], down);
                assert forall|t: int| 0 <= t < 64 implies (member(up, t) <==> pawn_attack(
                    WHITE,
                    sq as int,
                    t,
                )) by {
                    lemma_pawn_offsets(WHITE, sq as int, t);
                }
                assert forall|t: int| 0 <= t < 64 implies (member(down, t) <==> pawn_attack(
                    BLACK,
                    sq as int,
                    t,
                )) by {
                    lemma_pawn_offsets(BLACK, sq as int, t);
                }
            }
            self.pawns[WHITE][sq] = self.pawns[WHITE][sq] | up;
            self.pawns[BLACK][sq] = self.pawns[BLACK][sq] | down;
            sq += 1;
        }
    }

    /// Adds to each table the attacks of its piece.
    pub fn initialize(&mut self)
        ensures
            forall|sq: int, t: int|
                0 <= sq < 64 && 0 <= t < 64 ==> (#[trigger] member(final(self).king[sq], t) <==> (
                member(old(self).king[sq], t) || king_step(sq, t))),
            forall|sq: int, t: int|
                0 <= sq < 64 && 0 <= t < 64 ==> (#[trigger] member(final(self).knight[sq], t) <==> (
                member(old(self).knight[sq], t) || knight_step(sq, t))),
            forall|s: int, sq: int, t: int|
                0 <= s < 2 && 0 <= sq < 64 && 0 <= t < 64 ==> (#[trigger] member(
                    final(self).pawns[s][sq],
                    t,
                ) <==> (member(old(self).pawns[s][sq], t) || pawn_attack(s as usize, sq, t))),
    {
        let helper_board: HelperBoard = Default::default();
        let directions_king: [i8; 8] = [-11, -10, -9, -1, 1, 9, 10, 11];
        let directions_knight: [i8; 8] = [-21, -19, -12, -8, 8, 12, 19, 21];
        assert(directions_king@ =~= king_offsets());
        assert(directions_knight@ =~= knight_offsets());

        self.non_slider(KING, directions_king, &helper_board);
        self.non_slider(KNIGHT, directions_knight, &helper_board);
        self.pawn_captures(&helper_board);
        proof {
            assert forall|sq: int, t: int| 0 <= sq < 64 && 0 <= t < 64 implies (#[trigger] member(
                self.king[sq],
                t,
            ) <==> (member(old(self).king[sq], t) || king_step(sq, t))) by {
                lemma_king_offsets(sq, t);
            }
            assert forall|sq: int, t: int| 0 <= sq < 64 && 0 <= t < 64 implies (#[trigger] member(
                self.knight[sq],
                t,
            ) <==> (member(old(self).knight[sq], t) || knight_step(sq, t))) by {
                lemma_knight_offsets(sq, t);
            }
        }
    }

    /// The attack tables, filled in.
    pub fn new() -> (move_board: MoveBoard)
        ensures
            move_board.wf(),
    {
        let mut move_board: MoveBoard = Default::default();
        proof {
            lemma_member_ops(0, 0);
        }
        move_board.initialize();
        move_board
    }

    /// Whether each table holds the attacks of its piece, and nothing more.
    pub fn is_wf(&self) -> (ok: bool)
        ensures
            ok == self.wf(),
    {
        let mut sq: usize = 0;
        while sq < 64
            invariant
                sq <= 64,
                forall|s: int, t: int|
                    0 <= s < sq && 0 <= t < 64 ==> (#[trigger] member(self.king[s], t)
                        <==> king_step(s, t)),
                forall|s: int, t: int|
                    0 <= s < sq && 0 <= t < 64 ==> (#[trigger] member(self.knight[s], t)
                        <==> knight_step(s, t)),
                forall|c: int, s: int, t: int|
                    0 <= c < 2 && 0 <= s < sq && 0 <= t < 64 ==> (#[trigger] member(
                        self.pawns[c][s],
                        t,
                    ) <==> pawn_attack(c as usize, s, t)),
            decreases 64 - sq,
        {
            let mut t: usize = 0;
            while t < 64
                invariant
                    sq < 64,
                    t <= 64,
                    forall|u: int|
                        0 <= u < t ==> (#[trigger] member(self.king[sq as int], u) <==> king_step(
                            sq as int,
                            u,
                        )),
                    forall|u: int|
                        0 <= u < t ==> (#[trigger] member(self.knight[sq as int], u)
                            <==> knight_step(sq as int, u)),
                    forall|c: int, u: int|
                        0 <= c < 2 && 0 <= u < t ==> (#[trigger] member(
                            self.pawns[c][sq as int],
                            u,
                        ) <==> pawn_attack(c as usize, sq as int, u)),
                decreases 64 - t,
            {
                let file_gap: usize = if sq % 8 >= t % 8 {
                    sq % 8 - t % 8
                } else {
                    t % 8 - sq % 8
                };
                let rank_gap: usize = if sq / 8 >= t / 8 {
                    sq / 8 - t / 8
                } else {
                    t / 8 - sq / 8
                };
                let king: bool = sq != t && file_gap <= 1 && rank_gap <= 1;
                let knight: bool = (file_gap == 1 && rank_gap == 2) || (file_gap == 2 && rank_gap
                    == 1);
                let white: bool = file_gap == 1 && t / 8 == sq / 8 + 1;
                let black: bool = file_gap == 1 && t / 8 + 1 == sq / 8;
                if ((self.king[sq] >> t) & 1 == 1) != king || ((self.knight[sq] >> t) & 1 == 1)
                    != knight || ((self.pawns[WHITE][sq] >> t) & 1 == 1) != white || ((
                self.pawns[BLACK][sq] >> t) & 1 == 1) != black {
                    assert(member(self.king[sq as int], t as int) != king_step(sq as int, t as int)
                        || member(self.knight[sq as int], t as int) != knight_step(
                        sq as int,
                        t as int,
                    ) || member(self.pawns[0][sq as int], t as int) != pawn_attack(
                        WHITE,
                        sq as int,
                        t as int,
                    ) || member(self.pawns[1][sq as int], t as int) != pawn_attack(
                        BLACK,
                        sq as int,
                        t as int,
                    ));
                    return false;
                }
                t += 1;
            }
            sq += 1;
        }
        true
    }

    /// The squares that a king or a knight on `square` attacks.
    pub fn get_non_slider_attacks(&self, piece: Piece, square: usize) -> (bb: Bitboard)
        requires
            piece == KING || piece == KNIGHT,
            square < 64,
        ensures
            bb == if piece == KING {
                self.king[square as int]
            } else {
                self.knight[square as int]
            },
    {
        if piece == KING {
            self.king[square]
        } else {
            self.knight[square]
        }
    }

    /// The squares that a pawn of `side` on `square` attacks.
    pub fn get_pawn_attacks(&self, side: Side, square: usize) -> (bb: Bitboard)
        requires
            side < 2,
            square < 64,
        ensures
            bb == self.pawns[side as int][square as int],
    {
        self.pawns[side][square]
    }

    /// The squares that a queen, rook or bishop on `square` attacks when
    /// the squares of `occupancy` are occupied: along each of its lines,
    /// the squares up to and with the first occupied one.
    pub fn get_slider_attacks(&self, piece: Piece, square: usize, occupancy: Bitboard) -> (bb:
        Bitboard)
        requires
            piece == QUEEN || piece == ROOK || piece == BISHOP,
            square < 64,
        ensures
            forall|t: int|
                0 <= t < 64 ==> (#[trigger] member(bb, t) <==> slider_sees(
                    piece,
                    square as int,
                    t,
                    squares_in(occupancy),
                )),
    {
        let mut bb: Bitboard = 0;
        proof {
            lemma_member_ops(0, 0);
        }
        if piece != BISHOP {
            let east: Bitboard = ray(square, 1, 0, occupancy);
            let west: Bitboard = ray(square, -1, 0, occupancy);
            let north: Bitboard = ray(square, 0, 1, occupancy);
            let south: Bitboard = ray(square, 0, -1, occupancy);
            proof {
                lemma_member_ops(east, west);
                lemma_member_ops(east | west, north);
                lemma_member_ops((east | west) | north, south);
            }
            bb = ((east | west) | north) | south;
        }
        if piece != ROOK {
            let north_east: Bitboard = ray(square, 1, 1, occupancy);
            let north_west: Bitboard = ray(square, -1, 1, occupancy);
            let south_east: Bitboard = ray(square, 1, -1, occupancy);
            let south_west: Bitboard = ray(square, -1, -1, occupancy);
            proof {
                lemma_member_ops(north_east, north_west);
                lemma_member_ops(north_east | north_west, south_east);
                lemma_member_ops((north_east | north_west) | south_east, south_west);
                lemma_member_ops(bb, ((north_east | north_west) | south_east) | south_west);
            }
            bb = bb | (((north_east | north_west) | south_east) | south_west);
        }
        bb
    }
}

} // verus!
