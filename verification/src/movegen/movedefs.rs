//! The packed move and the fixed-capacity move list.
//!
//! A move is one integer. Starting from the least significant bit:
//!
//! | field      | width | offset | values                         |
//! |------------|-------|--------|--------------------------------|
//! | piece      | 3     | 0      | 0-6                            |
//! | from       | 6     | 3      | 0-63                           |
//! | to         | 6     | 9      | 0-63                           |
//! | captured   | 3     | 15     | 0-7, 7 when nothing is taken   |
//! | promotion  | 3     | 18     | 0-7, 6 when nothing is promoted|
//! | en passant | 1     | 21     | 0-1                            |
//! | double step| 1     | 22     | 0-1                            |
//! | castling   | 1     | 23     | 0-1                            |

use vstd::prelude::*;

verus! {

/// The offsets of the fields inside a move.
#[derive(Clone, Copy, Debug, PartialEq, Eq)]
pub enum Shift {
    Piece,
    FromSq,
    ToSq,
    Capture,
    Promotion,
    EnPassant,
    DoubleStep,
    Castling,
}

impl Shift {
    /// The number of bits below the field.
    pub open spec fn spec_bits(self) -> u64 {
        match self {
            Shift::Piece => 0,
            Shift::FromSq => 3,
            Shift::ToSq => 9,
            Shift::Capture => 15,
            Shift::Promotion => 18,
            Shift::EnPassant => 21,
            Shift::DoubleStep => 22,
            Shift::Castling => 23,
        }
    }

    #[verifier::when_used_as_spec(spec_bits)]
    pub fn bits(self) -> (r: u64)
        ensures
            r == self.spec_bits(),
    {
        match self {
            Shift::Piece => 0,
            Shift::FromSq => 3,
            Shift::ToSq => 9,
            Shift::Capture => 15,
            Shift::Promotion => 18,
            Shift::EnPassant => 21,
            Shift::DoubleStep => 22,
            Shift::Castling => 23,
        }
    }
}

/// The value of the captured field of a move that takes nothing.
pub const NO_CAPTURE: u8 = 7;

/// The value of the promotion field of a move that promotes nothing.
pub const NO_PROMOTION: u8 = 6;

/// The number of moves a list can hold.
pub const MAX_LEGAL_MOVES: u8 = 255;

/// The integer that packs the given fields.
pub open spec fn pack(
    piece: int,
    from: int,
    to: int,
    captured: int,
    promoted: int,
    en_passant: bool,
    double_step: bool,
    castling: bool,
) -> int {
    piece + from * 0x8 + to * 0x200 + captured * 0x8000 + promoted * 0x4_0000 + (if en_passant {
        0x20_0000int
    } else {
        0
    }) + (if double_step {
        0x40_0000int
    } else {
        0
    }) + (if castling {
        0x80_0000int
    } else {
        0
    })
}

/// A move, packed into one integer.
#[derive(Clone, Copy, Debug, PartialEq, Eq, Structural)]
pub struct Move {
    pub data: u64,
}

/// Shifting a field down and masking it is dividing by the weight of its
/// lowest bit and taking the rest modulo its size.
proof fn lemma_fields(d: u64)
    by (bit_vector)
    ensures
        (d >> 0) & 0x7 == d % 8,
        (d >> 3) & 0x3F == (d / 0x8) % 64,
        (d >> 9) & 0x3F == (d / 0x200) % 64,
        (d >> 15) & 0x7 == (d / 0x8000) % 8,
        (d >> 18) & 0x7 == (d / 0x4_0000) % 8,
        (d >> 21) & 0x1 == (d / 0x20_0000) % 2,
        (d >> 22) & 0x1 == (d / 0x40_0000) % 2,
        (d >> 23) & 0x1 == (d / 0x80_0000) % 2,
{
}

/// Fields put side by side are their sum, each weighted by its lowest bit,
/// and each comes back from the sum.
proof fn lemma_pack_bits(p: u64, f: u64, t: u64, c: u64, r: u64, e: u64, d: u64, k: u64)
    by (bit_vector)
    requires
        p < 8,
        f < 64,
        t < 64,
        c < 8,
        r < 8,
        e < 2,
        d < 2,
        k < 2,
    ensures
        ({
            let x = p | f << 3 | t << 9 | c << 15 | r << 18 | e << 21 | d << 22 | k << 23;
            &&& x == p + f * 0x8 + t * 0x200 + c * 0x8000 + r * 0x4_0000 + e * 0x20_0000 + d
                * 0x40_0000 + k * 0x80_0000
            &&& x < 0x100_0000
            &&& x % 8 == p
            &&& (x / 0x8) % 64 == f
            &&& (x / 0x200) % 64 == t
            &&& (x / 0x8000) % 8 == c
            &&& (x / 0x4_0000) % 8 == r
            &&& (x / 0x20_0000) % 2 == e
            &&& (x / 0x40_0000) % 2 == d
            &&& (x / 0x80_0000) % 2 == k
        }),
{
}

impl Move {
    /// The piece that moves.
    pub open spec fn spec_piece(self) -> u8 {
        (self.data % 8) as u8
    }

    /// The square that the piece leaves.
    pub open spec fn spec_from(self) -> u8 {
        ((self.data / 0x8) % 64) as u8
    }

    /// The square that the piece goes to.
    pub open spec fn spec_to(self) -> u8 {
        ((self.data / 0x200) % 64) as u8
    }

    /// The piece that is taken, or 7.
    pub open spec fn spec_captured(self) -> u8 {
        ((self.data / 0x8000) % 8) as u8
    }

    /// The piece that the pawn becomes, or 6.
    pub open spec fn spec_promoted(self) -> u8 {
        ((self.data / 0x4_0000) % 8) as u8
    }

    /// Whether the move takes a pawn en passant.
    pub open spec fn spec_en_passant(self) -> bool {
        (self.data / 0x20_0000) % 2 == 1
    }

    /// Whether the move is the double step of a pawn.
    pub open spec fn spec_double_step(self) -> bool {
        (self.data / 0x40_0000) % 2 == 1
    }

    /// Whether the move is the king's move of a castling.
    pub open spec fn spec_castling(self) -> bool {
        (self.data / 0x80_0000) % 2 == 1
    }

    /// Packs the fields of a move into one integer.
    pub fn new(
        piece: u8,
        from: u8,
        to: u8,
        captured: u8,
        promoted: u8,
        en_passant: bool,
        double_step: bool,
        castling: bool,
    ) -> (m: Move)
        requires
            piece < 8,
            from < 64,
            to < 64,
            captured < 8,
            promoted < 8,
        ensures
            m.data == pack(
                piece as int,
                from as int,
                to as int,
                captured as int,
                promoted as int,
                en_passant,
                double_step,
                castling,
            ),
            m.piece() == piece,
            m.from() == from,
            m.to() == to,
            m.captured() == captured,
            m.promoted() == promoted,
            m.en_passant() == en_passant,
            m.double_step() == double_step,
            m.castling() == castling,
    {
        let e: u64 = if en_passant {
            1
        } else {
            0
        };
        let d: u64 = if double_step {
            1
        } else {
            0
        };
        let k: u64 = if castling {
            1
        } else {
            0
        };
        proof {
            lemma_pack_bits(
                piece as u64,
                from as u64,
                to as u64,
                captured as u64,
                promoted as u64,
                e,
                d,
                k,
            );
        }
        let data: u64 = (piece as u64) | (from as u64) << Shift::FromSq.bits() | (to as u64)
            << Shift::ToSq.bits() | (captured as u64) << Shift::Capture.bits() | (promoted as u64)
            << Shift::Promotion.bits() | e << Shift::EnPassant.bits() | d
            << Shift::DoubleStep.bits() | k << Shift::Castling.bits();
        Move { data }
    }

    /// The piece that moves.
    #[verifier::when_used_as_spec(spec_piece)]
    pub fn piece(self) -> (r: u8)
        ensures
            r == self.spec_piece(),
            r < 8,
    {
        proof {
            lemma_fields(self.data);
        }
        ((self.data >> Shift::Piece.bits()) & 0x7) as u8
    }

    /// The square that the piece leaves.
    #[verifier::when_used_as_spec(spec_from)]
    pub fn from(self) -> (r: u8)
        ensures
            r == self.spec_from(),
            r < 64,
    {
        proof {
            lemma_fields(self.data);
        }
        ((self.data >> Shift::FromSq.bits()) & 0x3F) as u8
    }

    /// The square that the piece goes to.
    #[verifier::when_used_as_spec(spec_to)]
    pub fn to(self) -> (r: u8)
        ensures
            r == self.spec_to(),
            r < 64,
    {
        proof {
            lemma_fields(self.data);
        }
        ((self.data >> Shift::ToSq.bits()) & 0x3F) as u8
    }

    /// The piece that is taken, or 7.
    #[verifier::when_used_as_spec(spec_captured)]
    pub fn captured(self) -> (r: u8)
        ensures
            r == self.spec_captured(),
            r < 8,
    {
        proof {
            lemma_fields(self.data);
        }
        ((self.data >> Shift::Capture.bits()) & 0x7) as u8
    }

    /// The piece that the pawn becomes, or 6.
    #[verifier::when_used_as_spec(spec_promoted)]
    pub fn promoted(self) -> (r: u8)
        ensures
            r == self.spec_promoted(),
            r < 8,
    {
        proof {
            lemma_fields(self.data);
        }
        ((self.data >> Shift::Promotion.bits()) & 0x7) as u8
    }

    /// Whether the move takes a pawn en passant.
    #[verifier::when_used_as_spec(spec_en_passant)]
    pub fn en_passant(self) -> (r: bool)
        ensures
            r == self.spec_en_passant(),
    {
        proof {
            lemma_fields(self.data);
        }
        ((self.data >> Shift::EnPassant.bits()) & 0x1) as u8 == 1
    }

    /// Whether the move is the double step of a pawn.
    #[verifier::when_used_as_spec(spec_double_step)]
    pub fn double_step(self) -> (r: bool)
        ensures
            r == self.spec_double_step(),
    {
        proof {
            lemma_fields(self.data);
        }
        ((self.data >> Shift::DoubleStep.bits()) & 0x1) as u8 == 1
    }

    /// Whether the move is the king's move of a castling.
    #[verifier::when_used_as_spec(spec_castling)]
    pub fn castling(self) -> (r: bool)
        ensures
            r == self.spec_castling(),
    {
        proof {
            lemma_fields(self.data);
        }
        ((self.data >> Shift::Castling.bits()) & 0x1) as u8 == 1
    }
}

/// A packed move fits in 24 bits.
pub proof fn lemma_pack_bound(
    piece: int,
    from: int,
    to: int,
    captured: int,
    promoted: int,
    en_passant: bool,
    double_step: bool,
    castling: bool,
)
    requires
        0 <= piece < 8,
        0 <= from < 64,
        0 <= to < 64,
        0 <= captured < 8,
        0 <= promoted < 8,
    ensures
        0 <= pack(piece, from, to, captured, promoted, en_passant, double_step, castling)
            < 0x100_0000,
{
}

/// Unpacking a packed move gives back each field.
pub proof fn lemma_pack_unpack(
    piece: int,
    from: int,
    to: int,
    captured: int,
    promoted: int,
    en_passant: bool,
    double_step: bool,
    castling: bool,
)
    requires
        0 <= piece < 8,
        0 <= from < 64,
        0 <= to < 64,
        0 <= captured < 8,
        0 <= promoted < 8,
    ensures
        ({
            let d = pack(piece, from, to, captured, promoted, en_passant, double_step, castling);
            let m = Move { data: d as u64 };
            &&& 0 <= d < 0x100_0000
            &&& m.spec_piece() == piece
            &&& m.spec_from() == from
            &&& m.spec_to() == to
            &&& m.spec_captured() == captured
            &&& m.spec_promoted() == promoted
            &&& m.spec_en_passant() == en_passant
            &&& m.spec_double_step() == double_step
            &&& m.spec_castling() == castling
        }),
{
    let e: u64 = if en_passant {
        1
    } else {
        0
    };
    let d: u64 = if double_step {
        1
    } else {
        0
    };
    let k: u64 = if castling {
        1
    } else {
        0
    };
    lemma_pack_bits(piece as u64, from as u64, to as u64, captured as u64, promoted as u64, e, d, k);
}

/// A move list of fixed capacity, in the order in which the moves were added.
#[derive(Clone, Copy)]
pub struct MoveList {
    list: [Move; 255],
    count: u8,
}

impl View for MoveList {
    type V = Seq<Move>;

    closed spec fn view(&self) -> Seq<Move> {
        self.list@.take(self.count as int)
    }
}

impl MoveList {
    /// The empty list.
    pub fn new() -> (l: MoveList)
        ensures
            l@ == Seq::<Move>::empty(),
    {
        MoveList { list: [Move { data: 0 };255], count: 0 }
    }

    /// Appends a move. The list must have room for it.
    pub fn push(&mut self, m: Move)
        requires
            old(self)@.len() < MAX_LEGAL_MOVES,
        ensures
            final(self)@ == old(self)@.push(m),
    {
        self.list[self.count as usize] = m;
        self.count += 1;
    }

    /// The number of moves in the list.
    pub fn len(&self) -> (n: u8)
        ensures
            n == self@.len(),
    {
        self.count
    }

    /// The move at `index`, counted from zero.
    pub fn get_move(&self, index: u8) -> (m: Move)
        requires
            index < self@.len(),
        ensures
            m == self@[index as int],
    {
        self.list[index as usize]
    }

    /// A list never holds more moves than it has room for.
    pub proof fn lemma_capacity(self)
        ensures
            self@.len() <= MAX_LEGAL_MOVES,
    {
    }

    /// Empties the list.
    pub fn clear(&mut self)
        ensures
            final(self)@ == Seq::<Move>::empty(),
    {
        self.count = 0;
    }
}

} // verus!
