//! The random numbers from which position keys are built.

use crate::defs::{Piece, Side, EMPTY, WHITE};
use rand::rngs::SmallRng;
use rand::{Rng, SeedableRng};
use vstd::prelude::*;

verus! {

/// The key of a position: one number that all but stands for it.
pub type ZobristKey = u64;

/// Each byte of the seed from which the generator of the random numbers starts.
pub const ZOBRIST_SEED_BYTE: u8 = 128;

/// `SmallRng` of rand: a generator of random numbers. Nothing of what is
/// inside it is known here.
#[verifier::external_type_specification]
#[verifier::external_body]
pub struct ExSmallRng(SmallRng);

/// `SmallRng::from_seed` of rand: a generator that starts from `seed`.
/// Nothing is claimed of the generator that comes back.
#[verifier::external_body]
fn rng_from_seed(seed: [u8; 16]) -> SmallRng {
    SmallRng::from_seed(seed)
}

/// `Rng::gen::<u64>` of rand, on a `SmallRng`: the generator's next number.
/// Nothing is claimed of the number: which one comes depends on the
/// generator that rand picks for the machine.
#[verifier::external_body]
fn next_random(rng: &mut SmallRng) -> u64 {
    rng.gen::<u64>()
}

/// One random number for each piece of each side on each square, one for
/// each set of castling rights, one for white to move, and one for each file
/// on which an en-passant capture can be open.
#[derive(Clone, Copy)]
pub struct ZobristRandoms {
    rnd_pieces: [[[u64; 64]; 6]; 2],
    rnd_castling: [u64; 16],
    rnd_white: u64,
    rnd_en_passant: [u64; 8],
}

impl ZobristRandoms {
    /// The number that stands for `piece` of `side` on `square`.
    pub closed spec fn piece_key(&self, side: int, piece: int, square: int) -> u64 {
        self.rnd_pieces[side][piece][square]
    }

    /// The number that stands for the castling rights `permissions`.
    pub closed spec fn castling_key(&self, permissions: int) -> u64 {
        self.rnd_castling[permissions]
    }

    /// The number that stands for white being the side to move.
    pub closed spec fn white_key(&self) -> u64 {
        self.rnd_white
    }

    /// The number that stands for an en-passant target on `file`.
    pub closed spec fn file_key(&self, file: int) -> u64 {
        self.rnd_en_passant[file]
    }

    /// What the side to move adds to a key.
    pub open spec fn side_term(&self, active_color: u8) -> u64 {
        if active_color as int == WHITE {
            self.white_key()
        } else {
            0
        }
    }

    /// What the en-passant target adds to a key.
    pub open spec fn en_passant_term(&self, en_passant: Option<u8>) -> u64 {
        match en_passant {
            Some(ep) => self.file_key(ep as int % 8),
            None => 0,
        }
    }

    /// Draws every number from a generator that starts from a fixed seed.
    pub fn new() -> ZobristRandoms {
        let mut random = rng_from_seed([ZOBRIST_SEED_BYTE;16]);
        let mut zobrist_randoms = ZobristRandoms {
            rnd_pieces: [[[EMPTY;64];6];2],
            rnd_castling: [EMPTY;16],
            rnd_white: EMPTY,
            rnd_en_passant: [EMPTY;8],
        };

        for side in 0..2usize {
            for piece in 0..6usize
                invariant
                    side < 2,
            {
                for square in 0..64usize
                    invariant
                        side < 2,
                        piece < 6,
                {
                    zobrist_randoms.rnd_pieces[side][piece][square] = next_random(&mut random);
                }
            }
        }

        for permission in 0..16usize {
            zobrist_randoms.rnd_castling[permission] = next_random(&mut random);
        }

        for file in 0..8usize {
            zobrist_randoms.rnd_en_passant[file] = next_random(&mut random);
        }
        zobrist_randoms.rnd_white = next_random(&mut random);

        zobrist_randoms
    }

    /// The number that stands for `piece` of `side` on `square`.
    pub fn piece(&self, side: Side, piece: Piece, square: u8) -> (key: u64)
        requires
            side < 2,
            piece < 6,
            square < 64,
        ensures
            key == self.piece_key(side as int, piece as int, square as int),
    {
        self.rnd_pieces[side][piece][square as usize]
    }

    /// The number that stands for the castling rights.
    pub fn castling(&self, castling_permissions: u8) -> (key: u64)
        requires
            castling_permissions < 16,
        ensures
            key == self.castling_key(castling_permissions as int),
    {
        self.rnd_castling[castling_permissions as usize]
    }

    /// What the side to move adds to a key: a number for white, nothing
    /// for black.
    pub fn white(&self, active_color: u8) -> (key: u64)
        ensures
            key == self.side_term(active_color),
    {
        if (active_color as usize) == WHITE {
            self.rnd_white
        } else {
            0
        }
    }

    /// What the en-passant target adds to a key: the number of its file,
    /// or nothing if there is no target.
    pub fn en_passant(&self, en_passant: Option<u8>) -> (key: u64)
        ensures
            key == self.en_passant_term(en_passant),
    {
        if let Some(ep) = en_passant {
            self.rnd_en_passant[(ep % 8) as usize]
        } else {
            0
        }
    }
}

} // verus!
