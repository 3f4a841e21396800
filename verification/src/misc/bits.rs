//! Bit-level view of a bitboard and the facts the rest of the crate uses.

use vstd::prelude::*;
use vstd::std_specs::bits::axiom_u64_trailing_zeros;

verus! {

/// Whether bit `i` of `bb` is set.
pub open spec fn bit(bb: u64, i: u64) -> bool {
    i < 64 && (bb >> i) & 1 == 1
}

/// Whether square `sq` is a member of the set that `bb` encodes.
pub open spec fn member(bb: u64, sq: int) -> bool {
    0 <= sq < 64 && bit(bb, sq as u64)
}

/// What bit `i` of a union, an intersection, a difference and a complement
/// is.
pub proof fn lemma_bit_ops(a: u64, b: u64, i: u64)
    by (bit_vector)
    requires
        i < 64,
    ensures
        bit(a | b, i) == (bit(a, i) || bit(b, i)),
        bit(a & b, i) == (bit(a, i) && bit(b, i)),
        bit(a ^ b, i) == (bit(a, i) != bit(b, i)),
        bit(!a, i) == !bit(a, i),
        !bit(0, i),
{
}

/// The only bit of one shifted by `j` is bit `j`.
pub proof fn lemma_bit_single(i: u64, j: u64)
    by (bit_vector)
    requires
        i < 64,
        j < 64,
    ensures
        bit(1u64 << j, i) == (i == j),
{
}

/// The low `n` bits of `a`.
pub open spec fn low_bits(a: u64, n: u64) -> u64 {
    if n >= 64 {
        a
    } else {
        a & (((1u64 << n) - 1) as u64)
    }
}

/// One more low bit is the bits below it and the bit itself.
proof fn lemma_low_bits_step(a: u64, n: u64)
    by (bit_vector)
    requires
        n < 64,
    ensures
        low_bits(a, 0) == 0,
        low_bits(a, (n + 1) as u64) == low_bits(a, n) | (if bit(a, n) {
            1u64 << n
        } else {
            0
        }),
{
}

/// Bitboards that agree on their first `n` bits have the same low `n` bits.
proof fn lemma_low_bits_agree(a: u64, b: u64, n: u64)
    requires
        n <= 64,
        forall|i: u64| i < n ==> bit(a, i) == bit(b, i),
    ensures
        low_bits(a, n) == low_bits(b, n),
    decreases n,
{
    if n == 0 {
        lemma_low_bits_step(a, 0);
        lemma_low_bits_step(b, 0);
    } else {
        let m = (n - 1) as u64;
        lemma_low_bits_agree(a, b, m);
        lemma_low_bits_step(a, m);
        lemma_low_bits_step(b, m);
        assert(bit(a, m) == bit(b, m));
    }
}

/// Two bitboards with the same members are equal.
pub proof fn lemma_bit_ext(a: u64, b: u64)
    requires
        forall|i: u64| i < 64 ==> bit(a, i) == bit(b, i),
    ensures
        a == b,
{
    lemma_low_bits_agree(a, b, 64);
}

/// Flipping bit `sq` changes the membership of `sq` and of no other square.
pub proof fn lemma_toggle(bb: u64, sq: u64)
    requires
        sq < 64,
    ensures
        forall|i: int| #[trigger] member(bb ^ (1u64 << sq), i) == (member(bb, i) != (i == sq)),
{
    assert forall|i: int| #[trigger] member(bb ^ (1u64 << sq), i) == (member(bb, i) != (i == sq)) by {
        if 0 <= i < 64 {
            lemma_bit_ops(bb, 1u64 << sq, i as u64);
            lemma_bit_single(i as u64, sq);
        }
    }
}

/// Membership in a union, an intersection and a complement.
pub proof fn lemma_member_ops(a: u64, b: u64)
    ensures
        forall|i: int| #[trigger] member(a | b, i) == (member(a, i) || member(b, i)),
        forall|i: int| #[trigger] member(a & b, i) == (member(a, i) && member(b, i)),
        forall|i: int| 0 <= i < 64 ==> #[trigger] member(!a, i) == !member(a, i),
        forall|i: int| !#[trigger] member(0, i),
{
    assert forall|i: int| #[trigger] member(a | b, i) == (member(a, i) || member(b, i)) by {
        if 0 <= i < 64 {
            lemma_bit_ops(a, b, i as u64);
        }
    }
    assert forall|i: int| #[trigger] member(a & b, i) == (member(a, i) && member(b, i)) by {
        if 0 <= i < 64 {
            lemma_bit_ops(a, b, i as u64);
        }
    }
    assert forall|i: int| 0 <= i < 64 implies #[trigger] member(!a, i) == !member(a, i) by {
        lemma_bit_ops(a, b, i as u64);
    }
    assert forall|i: int| !#[trigger] member(0, i) by {
        if 0 <= i < 64 {
            lemma_bit_ops(a, b, i as u64);
        }
    }
}

/// The bitboard that holds `sq` alone.
pub proof fn lemma_member_single(sq: u64)
    requires
        sq < 64,
    ensures
        forall|i: int| #[trigger] member(1u64 << sq, i) == (i == sq),
{
    assert forall|i: int| #[trigger] member(1u64 << sq, i) == (i == sq) by {
        if 0 <= i < 64 {
            lemma_bit_single(i as u64, sq);
        }
    }
}

/// Two bitboards with the same squares are equal.
pub proof fn lemma_member_ext(a: u64, b: u64)
    requires
        forall|i: int| 0 <= i < 64 ==> member(a, i) == member(b, i),
    ensures
        a == b,
{
    assert forall|i: u64| i < 64 implies bit(a, i) == bit(b, i) by {
        assert(member(a, i as int) == member(b, i as int));
    }
    lemma_bit_ext(a, b);
}

/// A bitboard without squares is zero.
pub proof fn lemma_empty_is_zero(a: u64)
    ensures
        a == 0 <==> (forall|i: int| 0 <= i < 64 ==> !member(a, i)),
{
    lemma_member_ops(a, a);
    if forall|i: int| 0 <= i < 64 ==> !member(a, i) {
        lemma_member_ext(a, 0);
    }
}

/// What the exclusive or of keys obeys.
pub proof fn lemma_xor_laws(a: u64, b: u64, c: u64)
    by (bit_vector)
    ensures
        a ^ b == b ^ a,
        (a ^ b) ^ c == a ^ (b ^ c),
        a ^ a == 0,
        a ^ 0 == a,
        0 ^ a == a,
        (a ^ b) ^ b == a,
        (a ^ c) ^ (b ^ c) == a ^ b,
        (a ^ b == c) <==> (a == c ^ b),
{
}

/// Reorderings of exclusive ors that the incremental key rests on.
pub proof fn lemma_xor_reorder(h: u64, o: u64, x: u64, t: u64)
    by (bit_vector)
    ensures
        ((h ^ o) ^ x) ^ t == ((h ^ t) ^ o) ^ x,
        (h ^ t) ^ ((o ^ t) ^ 0) == h ^ o,
        (h ^ t) ^ ((o ^ 0) ^ t) == h ^ o,
{
}

/// Replacing the part of the state in a key: if `k` is the pieces' part `p`
/// and the state's part `(c, w, e)`, then exchanging each of the three for a
/// new one gives the key of `p` and the new three.
pub proof fn lemma_xor_state(k: u64, p: u64, c: u64, w: u64, e: u64, c2: u64, w2: u64, e2: u64)
    by (bit_vector)
    requires
        k ^ p == (c ^ w) ^ e,
    ensures
        ((k ^ (c ^ c2)) ^ (w ^ w2)) ^ (e ^ e2) == p ^ ((c2 ^ w2) ^ e2),
{
}

/// What intersecting castling rights with a mask keeps.
pub proof fn lemma_rights_and(c: u8, p: u8)
    by (bit_vector)
    ensures
        c < 16 ==> c & p < 16,
        (c & p) & 1 != 0 <==> (c & 1 != 0 && p & 1 != 0),
        (c & p) & 2 != 0 <==> (c & 2 != 0 && p & 2 != 0),
        (c & p) & 4 != 0 <==> (c & 4 != 0 && p & 4 != 0),
        (c & p) & 8 != 0 <==> (c & 8 != 0 && p & 8 != 0),
{
}

/// Which rights each of the masks keeps.
pub proof fn lemma_right_masks()
    by (bit_vector)
    ensures
        15u8 & 1 != 0 && 15u8 & 2 != 0 && 15u8 & 4 != 0 && 15u8 & 8 != 0,
        14u8 & 1 == 0 && 14u8 & 2 != 0 && 14u8 & 4 != 0 && 14u8 & 8 != 0,
        13u8 & 1 != 0 && 13u8 & 2 == 0 && 13u8 & 4 != 0 && 13u8 & 8 != 0,
        12u8 & 1 == 0 && 12u8 & 2 == 0 && 12u8 & 4 != 0 && 12u8 & 8 != 0,
        11u8 & 1 != 0 && 11u8 & 2 != 0 && 11u8 & 4 == 0 && 11u8 & 8 != 0,
        7u8 & 1 != 0 && 7u8 & 2 != 0 && 7u8 & 4 != 0 && 7u8 & 8 == 0,
        3u8 & 1 != 0 && 3u8 & 2 != 0 && 3u8 & 4 == 0 && 3u8 & 8 == 0,
        0u8 & 1 == 0 && 0u8 & 2 == 0 && 0u8 & 4 == 0 && 0u8 & 8 == 0,
{
}

/// Taking a member out of a bitboard makes it smaller.
pub proof fn lemma_xor_clears(bb: u64, sq: u64)
    by (bit_vector)
    requires
        sq < 64,
        (bb >> sq) & 1 == 1,
    ensures
        bb ^ (1u64 << sq) < bb,
{
}

/// Membership after a shift by one rank, and in the two ranks that a double
/// step reaches.
pub proof fn lemma_rank_shift(x: u64, i: u64)
    by (bit_vector)
    requires
        i < 64,
    ensures
        i >= 8 ==> bit(x << 8, i) == bit(x, (i - 8) as u64),
        i < 8 ==> !bit(x << 8, i),
        i < 56 ==> bit(x >> 8, i) == bit(x, (i + 8) as u64),
        i >= 56 ==> !bit(x >> 8, i),
        bit(0xFF00_0000u64, i) == (24 <= i && i < 32),
        bit(0xFF_0000_0000u64, i) == (32 <= i && i < 40),
{
}

/// A side has a castling right if it has one of its two.
pub proof fn lemma_right_pairs(c: u8)
    by (bit_vector)
    ensures
        c & (1u8 | 2u8) != 0 <==> (c & 1 != 0 || c & 2 != 0),
        c & (4u8 | 8u8) != 0 <==> (c & 4 != 0 || c & 8 != 0),
{
}

/// Takes the lowest square out of a bitboard that is not empty, and returns
/// it.
pub fn next(bitboard: &mut u64) -> (square: usize)
    requires
        *old(bitboard) != 0,
    ensures
        square < 64,
        member(*old(bitboard), square as int),
        forall|i: int| 0 <= i < square ==> !member(*old(bitboard), i),
        forall|i: int| #[trigger]
            member(*final(bitboard), i) == (member(*old(bitboard), i) && i != square),
        *final(bitboard) == *old(bitboard) ^ (1u64 << square),
{
    let b: u64 = *bitboard;
    let tz: u32 = b.trailing_zeros();
    proof {
        axiom_u64_trailing_zeros(b);
        assert forall|i: int| 0 <= i < tz implies !member(b, i) by {
            let j = i as u64;
            assert((b >> j) & 1u64 == 0u64);
        }
        lemma_toggle(b, tz as u64);
    }
    *bitboard = b ^ (1u64 << tz);
    tz as usize
}

} // verus!
