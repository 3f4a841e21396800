//! Reading a position from its notation: six fields with one space between
//! each two. The pieces by rank from the eighth down, with `/` between ranks
//! and a digit for a run of empty squares; the side to move; the castling
//! rights; the en-passant target; the half-move clock; the number of the
//! move.

use crate::board::gamestate::GameState;
use crate::board::{en_passant_ok, rights_ok, Board, Occupant};
use crate::defs::{
    Piece, Side, BISHOP, BLACK, CASTLE_BK, CASTLE_BQ, CASTLE_WK, CASTLE_WQ, KING, KNIGHT, PAWN,
    QUEEN, ROOK, WHITE,
};
use crate::move_boards::{file_of, rank_of};
use crate::movegen::movedefs::Move;
use vstd::prelude::*;
use vstd::slice::slice_subrange;
use vstd::string::StringSliceAdditionalSpecFns;

verus! {

/// The position from which a game begins.
pub const FEN_START_POSITION: &'static str = "rnbqkbnr/pppppppp/8/8/8/8/PPPPPPPP/RNBQKBNR w KQkq - 0 1";

/// The largest half-move clock that is read.
pub const MAX_HALF_MOVES: u8 = 50;

/// The largest move number that is read.
pub const MAX_FULL_MOVES: u16 = 9999;

/// Why a position was not read.
#[derive(Clone, Copy, Debug, PartialEq, Eq)]
pub enum FenError {
    /// There are not six fields.
    FieldCount,
    /// The first field does not describe eight ranks of eight squares.
    PiecePlacement,
    /// The second field is neither `w` nor `b`.
    SideToMove,
    /// The third field is neither `-` nor some of `KQkq`, each at most once.
    CastlingRights,
    /// The fourth field is neither `-` nor a square of the third or sixth
    /// rank.
    EnPassant,
    /// The fifth field is no number from 0 to 50.
    HalfMoveClock,
    /// The sixth field is no number of up to four digits.
    FullMoveNumber,
    /// A castling right is given whose king or rook is not at home.
    RightsWithoutPieces,
    /// The en-passant target is not the empty square behind a pawn of the
    /// side that has just moved.
    EnPassantWithoutPawn,
}

/// What the six fields say.
pub struct FenPosition {
    pub squares: Seq<Occupant>,
    pub active_color: u8,
    pub castling: u8,
    pub en_passant: Option<u8>,
    pub halfmove_clock: u8,
    pub fullmove_number: u16,
}

/// The place of the first space at or after `from`, or the length.
pub open spec fn next_space(s: Seq<u8>, from: int) -> int
    decreases s.len() - from,
{
    if from >= s.len() {
        s.len() as int
    } else if s[from] == 32 {
        from
    } else {
        next_space(s, from + 1)
    }
}

/// Where field `k` starts.
pub open spec fn field_start(s: Seq<u8>, k: nat) -> int
    decreases k,
{
    if k == 0 {
        0
    } else {
        next_space(s, field_start(s, (k - 1) as nat)) + 1
    }
}

/// Where field `k` ends.
pub open spec fn field_end(s: Seq<u8>, k: nat) -> int {
    next_space(s, field_start(s, k))
}

/// The text is six fields: five spaces, the sixth field ending the text.
pub open spec fn six_fields(s: Seq<u8>) -> bool {
    &&& forall|k: nat| k < 5 ==> #[trigger] field_end(s, k) < s.len()
    &&& field_end(s, 5) == s.len()
}

/// Field `k` of the text.
pub open spec fn field(s: Seq<u8>, k: nat) -> Seq<u8> {
    s.subrange(field_start(s, k), field_end(s, k))
}

/// The piece that a letter stands for.
pub open spec fn piece_of(letter: u8) -> Occupant {
    if letter == 'K' as u8 {
        Some((WHITE, KING))
    } else if letter == 'Q' as u8 {
        Some((WHITE, QUEEN))
    } else if letter == 'R' as u8 {
        Some((WHITE, ROOK))
    } else if letter == 'B' as u8 {
        Some((WHITE, BISHOP))
    } else if letter == 'N' as u8 {
        Some((WHITE, KNIGHT))
    } else if letter == 'P' as u8 {
        Some((WHITE, PAWN))
    } else if letter == 'k' as u8 {
        Some((BLACK, KING))
    } else if letter == 'q' as u8 {
        Some((BLACK, QUEEN))
    } else if letter == 'r' as u8 {
        Some((BLACK, ROOK))
    } else if letter == 'b' as u8 {
        Some((BLACK, BISHOP))
    } else if letter == 'n' as u8 {
        Some((BLACK, KNIGHT))
    } else if letter == 'p' as u8 {
        Some((BLACK, PAWN))
    } else {
        None
    }
}

/// How far the first field has been read: the next square, and the pieces
/// placed so far.
pub struct Cursor {
    pub rank: int,
    pub file: int,
    pub squares: Seq<Occupant>,
}

/// One character of the first field: a piece is placed and the file
/// advances; a digit from 1 to 8 advances the file by that much; `/` after
/// a full rank starts the rank below. Anything else, a step off the
/// rank's end or below the first rank, is an error.
pub open spec fn placement_step(c: Cursor, ch: u8) -> Option<Cursor> {
    if piece_of(ch) is Some {
        if c.file < 8 {
            Some(
                Cursor {
                    rank: c.rank,
                    file: c.file + 1,
                    squares: c.squares.update(c.rank * 8 + c.file, piece_of(ch)),
                },
            )
        } else {
            None
        }
    } else if '1' as u8 <= ch <= '8' as u8 {
        if c.file + (ch - '0' as u8) <= 8 {
            Some(Cursor { rank: c.rank, file: c.file + (ch - '0' as u8), squares: c.squares })
        } else {
            None
        }
    } else if ch == '/' as u8 {
        if c.file == 8 && c.rank > 0 {
            Some(Cursor { rank: c.rank - 1, file: 0, squares: c.squares })
        } else {
            None
        }
    } else {
        None
    }
}

/// The first `n` characters of the first field, read from the empty board.
pub open spec fn placement_upto(p: Seq<u8>, n: nat) -> Option<Cursor>
    decreases n,
{
    if n == 0 {
        Some(Cursor { rank: 7, file: 0, squares: Seq::new(64, |i: int| None::<(Side, Piece)>) })
    } else {
        match placement_upto(p, (n - 1) as nat) {
            Some(c) => placement_step(c, p[n - 1]),
            None => None,
        }
    }
}

/// The squares that the first field describes, if it ends with the first
/// rank full.
pub open spec fn parse_placement(p: Seq<u8>) -> Option<Seq<Occupant>> {
    match placement_upto(p, p.len()) {
        Some(c) => if c.rank == 0 && c.file == 8 {
            Some(c.squares)
        } else {
            None
        },
        None => None,
    }
}

/// The side that the second field names.
pub open spec fn parse_side(p: Seq<u8>) -> Option<u8> {
    if p.len() == 1 && p[0] == 'w' as u8 {
        Some(0u8)
    } else if p.len() == 1 && p[0] == 'b' as u8 {
        Some(1u8)
    } else {
        None
    }
}

/// How often `letter` stands among the first `n` characters.
pub open spec fn occurrences(p: Seq<u8>, letter: u8, n: nat) -> nat
    decreases n,
{
    if n == 0 {
        0
    } else {
        occurrences(p, letter, (n - 1) as nat) + (if p[n - 1] == letter {
            1nat
        } else {
            0nat
        })
    }
}

/// The castling rights that the third field gives: none for `-`, else one
/// for each of its letters, which are among `KQkq` and all different.
pub open spec fn parse_castling(p: Seq<u8>) -> Option<u8> {
    let wk = occurrences(p, 'K' as u8, p.len());
    let wq = occurrences(p, 'Q' as u8, p.len());
    let bk = occurrences(p, 'k' as u8, p.len());
    let bq = occurrences(p, 'q' as u8, p.len());
    if p.len() == 1 && p[0] == '-' as u8 {
        Some(0u8)
    } else if 1 <= p.len() <= 4 && wk <= 1 && wq <= 1 && bk <= 1 && bq <= 1 && wk + wq + bk + bq
        == p.len() {
        Some((wk + 2 * wq + 4 * bk + 8 * bq) as u8)
    } else {
        None
    }
}

/// The en-passant target that the fourth field gives: none for `-`, else
/// the square of the third or sixth rank that it names.
pub open spec fn parse_en_passant(p: Seq<u8>) -> Option<Option<u8>> {
    if p.len() == 1 && p[0] == '-' as u8 {
        Some(None)
    } else if p.len() == 2 && 'a' as u8 <= p[0] <= 'h' as u8 && (p[1] == '3' as u8 || p[1]
        == '6' as u8) {
        Some(Some(((p[1] - '1' as u8) * 8 + (p[0] - 'a' as u8)) as u8))
    } else {
        None
    }
}

/// Every character is a digit.
pub open spec fn all_digits(p: Seq<u8>) -> bool {
    forall|i: int| 0 <= i < p.len() ==> '0' as u8 <= #[trigger] p[i] <= '9' as u8
}

/// The number that the first `n` digits write.
pub open spec fn decimal(p: Seq<u8>, n: nat) -> nat
    decreases n,
{
    if n == 0 {
        0
    } else {
        (decimal(p, (n - 1) as nat) * 10 + (p[n - 1] - '0' as u8)) as nat
    }
}

/// The half-move clock that the fifth field gives: one or two digits that
/// write a number up to 50.
pub open spec fn parse_halfmove(p: Seq<u8>) -> Option<u8> {
    if 1 <= p.len() <= 2 && all_digits(p) && decimal(p, p.len()) <= MAX_HALF_MOVES {
        Some(decimal(p, p.len()) as u8)
    } else {
        None
    }
}

/// The move number that the sixth field gives: one to four digits.
pub open spec fn parse_fullmove(p: Seq<u8>) -> Option<u16> {
    if 1 <= p.len() <= 4 && all_digits(p) && decimal(p, p.len()) <= MAX_FULL_MOVES {
        Some(decimal(p, p.len()) as u16)
    } else {
        None
    }
}

/// What the text says: the position, or the first thing that is wrong with
/// it. The fields are judged from the first to the sixth, each by itself;
/// then the castling rights and the en-passant target are held against the
/// pieces.
pub open spec fn parse_fen(s: Seq<u8>) -> Result<FenPosition, FenError> {
    if !six_fields(s) {
        Err(FenError::FieldCount)
    } else if parse_placement(field(s, 0)) is None {
        Err(FenError::PiecePlacement)
    } else if parse_side(field(s, 1)) is None {
        Err(FenError::SideToMove)
    } else if parse_castling(field(s, 2)) is None {
        Err(FenError::CastlingRights)
    } else if parse_en_passant(field(s, 3)) is None {
        Err(FenError::EnPassant)
    } else if parse_halfmove(field(s, 4)) is None {
        Err(FenError::HalfMoveClock)
    } else if parse_fullmove(field(s, 5)) is None {
        Err(FenError::FullMoveNumber)
    } else {
        let position = FenPosition {
            squares: parse_placement(field(s, 0))->0,
            active_color: parse_side(field(s, 1))->0,
            castling: parse_castling(field(s, 2))->0,
            en_passant: parse_en_passant(field(s, 3))->0,
            halfmove_clock: parse_halfmove(field(s, 4))->0,
            fullmove_number: parse_fullmove(field(s, 5))->0,
        };
        if !rights_ok(position.squares, position.castling) {
            Err(FenError::RightsWithoutPieces)
        } else if !en_passant_ok(position.squares, position.active_color, position.en_passant) {
            Err(FenError::EnPassantWithoutPawn)
        } else {
            Ok(position)
        }
    }
}

/// Once a character cannot be read, no longer text can.
proof fn lemma_placement_stuck(p: Seq<u8>, n: nat, m: nat)
    requires
        n <= m,
        placement_upto(p, n) is None,
    ensures
        placement_upto(p, m) is None,
    decreases m,
{
    if n < m {
        lemma_placement_stuck(p, n, (m - 1) as nat);
    }
}

/// Where each of the six fields starts and ends.
pub struct Fields {
    pub start: [usize; 6],
    pub end: [usize; 6],
}

/// Finds the six fields of the text.
fn split_fields(bytes: &[u8]) -> (fields: Option<Fields>)
    ensures
        fields is Some <==> six_fields(bytes@),
        fields matches Some(f) ==> forall|k: int|
            0 <= k < 6 ==> #[trigger] f.start[k] == field_start(bytes@, k as nat) && f.end[k]
                == field_end(bytes@, k as nat) && f.start[k] <= f.end[k] <= bytes@.len(),
{
    let mut fields = Fields { start: [0;6], end: [0;6] };
    let mut k: usize = 0;
    let mut start: usize = 0;
    while k < 6
        invariant
            k <= 6,
            k < 6 ==> start == field_start(bytes@, k as nat),
            start <= bytes@.len(),
            forall|j: nat| j < k && j < 5 ==> #[trigger] field_end(bytes@, j) < bytes@.len(),
            forall|j: int|
                0 <= j < k ==> #[trigger] fields.start[j] == field_start(bytes@, j as nat)
                    && fields.end[j] == field_end(bytes@, j as nat) && fields.start[j]
                    <= fields.end[j] <= bytes@.len(),
            k == 6 ==> field_end(bytes@, 5) == bytes@.len(),
        decreases 6 - k,
    {
        let mut end: usize = start;
        while end < bytes.len() && bytes[end] != 32
            invariant
                start <= end <= bytes@.len(),
                next_space(bytes@, start as int) == next_space(bytes@, end as int),
            decreases bytes@.len() - end,
        {
            end += 1;
        }
        assert(next_space(bytes@, end as int) == end);
        assert(field_end(bytes@, k as nat) == end);
        assert(field_start(bytes@, (k + 1) as nat) == end + 1);
        let ghost earlier = fields;
        fields.start[k] = start;
        fields.end[k] = end;
        assert forall|j: int| 0 <= j < k + 1 implies #[trigger] fields.start[j] == field_start(
            bytes@,
            j as nat,
        ) && fields.end[j] == field_end(bytes@, j as nat) && fields.start[j] <= fields.end[j]
            <= bytes@.len() by {
            if j < k {
                assert(earlier.start[j] == field_start(bytes@, j as nat));
            }
        }
        if k < 5 {
            if end == bytes.len() {
                return None;
            }
            start = end + 1;
        } else if end != bytes.len() {
            return None;
        }
        k += 1;
    }
    Some(fields)
}

/// Reads the pieces into the empty board.
fn part_0(part: &[u8], board: &mut Board) -> (ok: bool)
    requires
        old(board).consistent(),
        forall|i: int| 0 <= i < 64 ==> old(board)@.squares[i] is None,
    ensures
        ok == parse_placement(part@) is Some,
        final(board).consistent(),
        ok ==> final(board)@.squares == parse_placement(part@)->0,
        final(board).game_state == old(board).game_state,
        final(board).history == old(board).history,
        final(board).zr == old(board).zr,
{
    let mut rank: usize = 7;
    let mut file: usize = 0;
    let mut i: usize = 0;
    assert(board@.squares =~= placement_upto(part@, 0)->0.squares);
    while i < part.len()
        invariant
            i <= part@.len(),
            rank <= 7,
            file <= 8,
            board.consistent(),
            placement_upto(part@, i as nat) == Some(
                Cursor { rank: rank as int, file: file as int, squares: board@.squares },
            ),
            forall|sq: int|
                0 <= sq < 64 && (rank_of(sq) < rank || (rank_of(sq) == rank && file_of(sq) >= file))
                    ==> board@.squares[sq] is None,
            board.game_state == old(board).game_state,
            board.history == old(board).history,
            board.zr == old(board).zr,
        decreases part@.len() - i,
    {
        let c: u8 = part[i];
        let square: usize = if file < 8 {
            (rank * 8) + file
        } else {
            0
        };
        let placed: Option<(Side, Piece)> = if c == 'K' as u8 {
            Some((WHITE, KING))
        } else if c == 'Q' as u8 {
            Some((WHITE, QUEEN))
        } else if c == 'R' as u8 {
            Some((WHITE, ROOK))
        } else if c == 'B' as u8 {
            Some((WHITE, BISHOP))
        } else if c == 'N' as u8 {
            Some((WHITE, KNIGHT))
        } else if c == 'P' as u8 {
            Some((WHITE, PAWN))
        } else if c == 'k' as u8 {
            Some((BLACK, KING))
        } else if c == 'q' as u8 {
            Some((BLACK, QUEEN))
        } else if c == 'r' as u8 {
            Some((BLACK, ROOK))
        } else if c == 'b' as u8 {
            Some((BLACK, BISHOP))
        } else if c == 'n' as u8 {
            Some((BLACK, KNIGHT))
        } else if c == 'p' as u8 {
            Some((BLACK, PAWN))
        } else {
            None
        };
        let mut read: bool = false;
        match placed {
            Some((side, piece)) => {
                if file < 8 {
                    assert(rank_of(square as int) == rank && file_of(square as int) == file);
                    board.put_raw(side, piece, square);
                    file += 1;
                    read = true;
                }
            },
            None => {
                if '1' as u8 <= c && c <= '8' as u8 {
                    let run: usize = (c - '0' as u8) as usize;
                    if file + run <= 8 {
                        file += run;
                        read = true;
                    }
                } else if c == '/' as u8 {
                    if file == 8 && rank > 0 {
                        rank -= 1;
                        file = 0;
                        read = true;
                    }
                }
            },
        }
        if !read {
            proof {
                lemma_placement_stuck(part@, (i + 1) as nat, part@.len());
            }
            return false;
        }
        i += 1;
    }
    rank == 0 && file == 8
}

/// Reads the side to move.
fn part_1(part: &[u8], board: &mut Board) -> (ok: bool)
    ensures
        ok == parse_side(part@) is Some,
        final(board).game_state == (if ok {
            GameState { active_color: parse_side(part@)->0, ..old(board).game_state }
        } else {
            old(board).game_state
        }),
        final(board).bb_pieces == old(board).bb_pieces,
        final(board).bb_side == old(board).bb_side,
        final(board).piece_list == old(board).piece_list,
        final(board).history == old(board).history,
        final(board).zr == old(board).zr,
{
    if part.len() == 1 {
        let x: u8 = part[0];
        if x == 'w' as u8 {
            board.game_state.active_color = 0;
            return true;
        }
        if x == 'b' as u8 {
            board.game_state.active_color = 1;
            return true;
        }
    }
    false
}

/// Reads the castling rights.
fn part_2(part: &[u8], board: &mut Board) -> (ok: bool)
    ensures
        ok == parse_castling(part@) is Some,
        final(board).game_state == (if ok {
            GameState { castling: parse_castling(part@)->0, ..old(board).game_state }
        } else {
            old(board).game_state
        }),
        final(board).bb_pieces == old(board).bb_pieces,
        final(board).bb_side == old(board).bb_side,
        final(board).piece_list == old(board).piece_list,
        final(board).history == old(board).history,
        final(board).zr == old(board).zr,
{
    let length: usize = part.len();
    if length == 1 && part[0] == '-' as u8 {
        board.game_state.castling = 0;
        return true;
    }
    if length < 1 || length > 4 {
        return false;
    }
    let mut wk: u8 = 0;
    let mut wq: u8 = 0;
    let mut bk: u8 = 0;
    let mut bq: u8 = 0;
    let mut i: usize = 0;
    while i < length
        invariant
            length == part@.len(),
            length <= 4,
            i <= length,
            wk == occurrences(part@, 'K' as u8, i as nat),
            wq == occurrences(part@, 'Q' as u8, i as nat),
            bk == occurrences(part@, 'k' as u8, i as nat),
            bq == occurrences(part@, 'q' as u8, i as nat),
            wk + wq + bk + bq <= i,
        decreases length - i,
    {
        let c: u8 = part[i];
        if c == 'K' as u8 {
            wk += 1;
        } else if c == 'Q' as u8 {
            wq += 1;
        } else if c == 'k' as u8 {
            bk += 1;
        } else if c == 'q' as u8 {
            bq += 1;
        }
        i += 1;
    }
    if wk <= 1 && wq <= 1 && bk <= 1 && bq <= 1 && (wk + wq + bk + bq) as usize == length {
        board.game_state.castling = wk * CASTLE_WK + wq * CASTLE_WQ + bk * CASTLE_BK + bq
            * CASTLE_BQ;
        true
    } else {
        false
    }
}

/// Reads the en-passant target.
fn part_3(part: &[u8], board: &mut Board) -> (ok: bool)
    ensures
        ok == parse_en_passant(part@) is Some,
        final(board).game_state == (if ok {
            GameState { en_passant: parse_en_passant(part@)->0, ..old(board).game_state }
        } else {
            old(board).game_state
        }),
        final(board).bb_pieces == old(board).bb_pieces,
        final(board).bb_side == old(board).bb_side,
        final(board).piece_list == old(board).piece_list,
        final(board).history == old(board).history,
        final(board).zr == old(board).zr,
{
    let length: usize = part.len();
    if length == 1 && part[0] == '-' as u8 {
        board.game_state.en_passant = None;
        return true;
    }
    if length == 2 {
        let letter: u8 = part[0];
        let digit: u8 = part[1];
        if 'a' as u8 <= letter && letter <= 'h' as u8 && (digit == '3' as u8 || digit
            == '6' as u8) {
            let file: u8 = letter - 'a' as u8;
            let rank: u8 = digit - '1' as u8;
            board.game_state.en_passant = Some((rank * 8) + file);
            return true;
        }
    }
    false
}

/// The number that the digits write, if they are one to four digits.
fn read_number(part: &[u8]) -> (number: Option<u16>)
    ensures
        number is Some <==> (1 <= part@.len() <= 4 && all_digits(part@)),
        number matches Some(n) ==> n == decimal(part@, part@.len()),
{
    let length: usize = part.len();
    if length < 1 || length > 4 {
        return None;
    }
    let mut value: u16 = 0;
    let mut i: usize = 0;
    while i < length
        invariant
            length == part@.len(),
            length <= 4,
            i <= length,
            value == decimal(part@, i as nat),
            i == 0 ==> value == 0,
            i == 1 ==> value <= 9,
            i == 2 ==> value <= 99,
            i == 3 ==> value <= 999,
            i == 4 ==> value <= 9999,
            forall|j: int| 0 <= j < i ==> '0' as u8 <= #[trigger] part@[j] <= '9' as u8,
        decreases length - i,
    {
        let c: u8 = part[i];
        if c < '0' as u8 || c > '9' as u8 {
            return None;
        }
        value = value * 10 + (c - '0' as u8) as u16;
        i += 1;
    }
    Some(value)
}

/// Reads the half-move clock.
fn part_4(part: &[u8], board: &mut Board) -> (ok: bool)
    ensures
        ok == parse_halfmove(part@) is Some,
        final(board).game_state == (if ok {
            GameState { halfmove_clock: parse_halfmove(part@)->0, ..old(board).game_state }
        } else {
            old(board).game_state
        }),
        final(board).bb_pieces == old(board).bb_pieces,
        final(board).bb_side == old(board).bb_side,
        final(board).piece_list == old(board).piece_list,
        final(board).history == old(board).history,
        final(board).zr == old(board).zr,
{
    if part.len() > 2 {
        return false;
    }
    match read_number(part) {
        Some(x) => {
            if x <= MAX_HALF_MOVES as u16 {
                board.game_state.halfmove_clock = x as u8;
                true
            } else {
                false
            }
        },
        None => false,
    }
}

/// Reads the number of the move.
fn part_5(part: &[u8], board: &mut Board) -> (ok: bool)
    ensures
        ok == parse_fullmove(part@) is Some,
        final(board).game_state == (if ok {
            GameState { fullmove_number: parse_fullmove(part@)->0, ..old(board).game_state }
        } else {
            old(board).game_state
        }),
        final(board).bb_pieces == old(board).bb_pieces,
        final(board).bb_side == old(board).bb_side,
        final(board).piece_list == old(board).piece_list,
        final(board).history == old(board).history,
        final(board).zr == old(board).zr,
{
    match read_number(part) {
        Some(x) => {
            if x <= MAX_FULL_MOVES {
                board.game_state.fullmove_number = x;
                true
            } else {
                false
            }
        },
        None => false,
    }
}

/// Reads a position from its notation. If the text is in order, the board
/// is the position it describes, with an empty history and the key of the
/// position; if not, the board is as it was, and the error says what is
/// wrong.
pub fn fen_read(fen_string: &str, board: &mut Board) -> (result: Result<(), FenError>)
    ensures
        match parse_fen(fen_string.spec_bytes()) {
            Ok(position) => {
                &&& result is Ok
                &&& final(board).wf()
                &&& final(board)@.squares == position.squares
                &&& final(board).game_state.active_color == position.active_color
                &&& final(board).game_state.castling == position.castling
                &&& final(board).game_state.en_passant == position.en_passant
                &&& final(board).game_state.halfmove_clock == position.halfmove_clock
                &&& final(board).game_state.fullmove_number == position.fullmove_number
                &&& final(board).game_state.this_move == (Move { data: 0 })
                &&& final(board)@.history.len() == 0
                &&& final(board).zr == old(board).zr
            },
            Err(e) => result == Err::<(), FenError>(e) && *final(board) == *old(board),
        },
{
    let bytes: &[u8] = fen_string.as_bytes();
    let fields: Fields = match split_fields(bytes) {
        Some(f) => f,
        None => {
            return Err(FenError::FieldCount);
        },
    };
    let ghost s = bytes@;
    proof {
        assert(fields.start[0] == field_start(s, 0));
        assert(fields.start[1] == field_start(s, 1));
        assert(fields.start[2] == field_start(s, 2));
        assert(fields.start[3] == field_start(s, 3));
        assert(fields.start[4] == field_start(s, 4));
        assert(fields.start[5] == field_start(s, 5));
    }
    let mut scratch: Board = Board::with_randoms(board.zr);

    if !part_0(slice_subrange(bytes, fields.start[0], fields.end[0]), &mut scratch) {
        return Err(FenError::PiecePlacement);
    }
    if !part_1(slice_subrange(bytes, fields.start[1], fields.end[1]), &mut scratch) {
        return Err(FenError::SideToMove);
    }
    if !part_2(slice_subrange(bytes, fields.start[2], fields.end[2]), &mut scratch) {
        return Err(FenError::CastlingRights);
    }
    if !part_3(slice_subrange(bytes, fields.start[3], fields.end[3]), &mut scratch) {
        return Err(FenError::EnPassant);
    }
    if !part_4(slice_subrange(bytes, fields.start[4], fields.end[4]), &mut scratch) {
        return Err(FenError::HalfMoveClock);
    }
    if !part_5(slice_subrange(bytes, fields.start[5], fields.end[5]), &mut scratch) {
        return Err(FenError::FullMoveNumber);
    }
    if !scratch.rights_fit() {
        return Err(FenError::RightsWithoutPieces);
    }
    if !scratch.en_passant_fits() {
        return Err(FenError::EnPassantWithoutPawn);
    }
    scratch.game_state.zobrist_key = scratch.init_zobrist_key();
    proof {
        assert forall|i: int| 0 <= i < 64 implies (#[trigger] scratch@.squares[i] matches Some(
            (sd, p),
        ) ==> sd < 2 && p < 6) by {
            assert(scratch.piece_list[i] <= 6);
        }
    }
    *board = scratch;
    Ok(())
}

} // verus!
