//! The difficulty target: a number of leading zero bits of a candidate,
//! counted from the most significant bit of its first byte.
use vstd::prelude::*;

verus! {

/// Bit `j` of a byte counted from its most significant bit (`j < 8`).
pub open spec fn msb_bit(b: u8, j: u8) -> u8 {
    (b >> ((7 - j) as u8)) & 1
}

/// Bit `i` of a byte string counted from the most significant bit of its
/// first byte.
pub open spec fn leading_bit(c: Seq<u8>, i: int) -> u8 {
    msb_bit(c[i / 8], (i % 8) as u8)
}

/// Whether the first `n` bits of `c` are all zero.
pub open spec fn meets_difficulty(c: Seq<u8>, n: int) -> bool {
    forall|i: int| 0 <= i < n ==> #[trigger] leading_bit(c, i) == 0
}

/// The mask of the top `bits` bits of a byte (`0 < bits < 8`).
pub open spec fn top_bits_mask(bits: u8) -> u8 {
    (0xffu32 << ((8 - bits) as u32)) as u8
}

proof fn lemma_zero_byte_bits(b: u8, j: u8)
    by (bit_vector)
    requires
        b == 0,
        j < 8,
    ensures
        msb_bit(b, j) == 0,
{
}

proof fn lemma_bits_zero_byte(b: u8)
    by (bit_vector)
    requires
        msb_bit(b, 0) == 0,
        msb_bit(b, 1) == 0,
        msb_bit(b, 2) == 0,
        msb_bit(b, 3) == 0,
        msb_bit(b, 4) == 0,
        msb_bit(b, 5) == 0,
        msb_bit(b, 6) == 0,
        msb_bit(b, 7) == 0,
    ensures
        b == 0,
{
}

proof fn lemma_masked_zero_bits(b: u8, bits: u8, j: u8)
    by (bit_vector)
    requires
        0 < bits < 8,
        j < bits,
        b & top_bits_mask(bits) == 0,
    ensures
        msb_bit(b, j) == 0,
{
}

proof fn lemma_bits_masked_zero(b: u8, bits: u8)
    by (bit_vector)
    requires
        0 < bits < 8,
        0 < bits ==> msb_bit(b, 0) == 0,
        1 < bits ==> msb_bit(b, 1) == 0,
        2 < bits ==> msb_bit(b, 2) == 0,
        3 < bits ==> msb_bit(b, 3) == 0,
        4 < bits ==> msb_bit(b, 4) == 0,
        5 < bits ==> msb_bit(b, 5) == 0,
        6 < bits ==> msb_bit(b, 6) == 0,
    ensures
        b & top_bits_mask(bits) == 0,
{
}

proof fn lemma_leading_bit_at(c: Seq<u8>, x: int, j: int)
    requires
        0 <= j < 8,
    ensures
        leading_bit(c, 8 * x + j) == msb_bit(c[x], j as u8),
{
    assert((8 * x + j) / 8 == x && (8 * x + j) % 8 == j);
}

/// The first `n` bits are zero exactly when the first `n / 8` bytes are
/// zero and the top `n % 8` bits of the next byte are zero.
pub proof fn lemma_difficulty_by_bytes(c: Seq<u8>, n: int)
    requires
        0 <= n,
        n / 8 < c.len(),
    ensures
        meets_difficulty(c, n) <==> (forall|x: int| 0 <= x < n / 8 ==> c[x] == 0) && (n % 8 > 0 ==> c[n
            / 8] & top_bits_mask((n % 8) as u8) == 0),
{
    let bytes = n / 8;
    let bits = n % 8;
    if meets_difficulty(c, n) {
        assert forall|x: int| 0 <= x < bytes implies c[x] == 0 by {
            lemma_leading_bit_at(c, x, 0);
            lemma_leading_bit_at(c, x, 1);
            lemma_leading_bit_at(c, x, 2);
            lemma_leading_bit_at(c, x, 3);
            lemma_leading_bit_at(c, x, 4);
            lemma_leading_bit_at(c, x, 5);
            lemma_leading_bit_at(c, x, 6);
            lemma_leading_bit_at(c, x, 7);
            lemma_bits_zero_byte(c[x]);
        }
        if bits > 0 {
            lemma_leading_bit_at(c, bytes, 0);
            lemma_leading_bit_at(c, bytes, 1);
            lemma_leading_bit_at(c, bytes, 2);
            lemma_leading_bit_at(c, bytes, 3);
            lemma_leading_bit_at(c, bytes, 4);
            lemma_leading_bit_at(c, bytes, 5);
            lemma_leading_bit_at(c, bytes, 6);
            lemma_bits_masked_zero(c[bytes], bits as u8);
        }
    }
    if (forall|x: int| 0 <= x < bytes ==> c[x] == 0) && (bits > 0 ==> c[bytes] & top_bits_mask(bits as u8) == 0) {
        assert forall|i: int| 0 <= i < n implies #[trigger] leading_bit(c, i) == 0 by {
            if i / 8 < bytes {
                lemma_zero_byte_bits(c[i / 8], (i % 8) as u8);
            } else {
                assert(i / 8 == bytes);
                lemma_masked_zero_bits(c[bytes], bits as u8, (i % 8) as u8);
            }
        }
    }
}

/// A candidate that meets a difficulty meets every lower one.
pub proof fn lemma_difficulty_monotone(c: Seq<u8>, n: int, m: int)
    requires
        m <= n,
        meets_difficulty(c, n),
    ensures
        meets_difficulty(c, m),
{
}

} // verus!
