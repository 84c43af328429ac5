//! The scryptBlockMix algorithm (RFC 7914, section 4) with `r = 8`, on one
//! 1024-byte block of sixteen 64-byte sub-blocks, over the Salsa20/8 core.
use vstd::prelude::*;
use vstd::bytes::{spec_u32_from_le_bytes, u32_from_le_bytes};
use vstd::slice::slice_subrange;
use crate::common::BLOCK_SIZE;
use crate::primitives::{salsa20_8, salsa20_8_block};

verus! {

/// Byte-wise exclusive or of two byte strings of the same length.
pub open spec fn xor_bytes(a: Seq<u8>, b: Seq<u8>) -> Seq<u8> {
    Seq::new(a.len(), |i: int| a[i] ^ b[i])
}

/// The sixteen little-endian 32-bit words of a 64-byte sub-block.
pub open spec fn salsa_state(t: Seq<u8>) -> Seq<u32> {
    Seq::new(16, |i: int| spec_u32_from_le_bytes(t.subrange(4 * i, 4 * i + 4)))
}

/// Whether the Salsa20 block counter (words 8 and 9) of a state is at its
/// maximum, where the `salsa20` crate's counter increment overflows.
pub open spec fn counter_exhausted(state: Seq<u32>) -> bool {
    state[8] == 0xffff_ffff && state[9] == 0xffff_ffff
}

/// The Salsa20/8 core on a 64-byte sub-block, or `None` where the `salsa20`
/// crate cannot evaluate it.
pub open spec fn salsa_spec(t: Seq<u8>) -> Option<Seq<u8>> {
    if counter_exhausted(salsa_state(t)) {
        None
    } else {
        Some(salsa20_8(salsa_state(t)))
    }
}

/// Sub-block `i` (64 bytes) of a block.
pub open spec fn sub_block(b: Seq<u8>, i: int) -> Seq<u8> {
    b.subrange(64 * i, 64 * i + 64)
}

/// The value of X after `i` steps of BlockMix: X starts as the last
/// sub-block, and each step sets `X = Salsa(X xor B[i])`.
pub open spec fn mix_state(b: Seq<u8>, i: nat) -> Option<Seq<u8>>
    decreases i,
{
    if i == 0 {
        Some(sub_block(b, 15))
    } else {
        match mix_state(b, (i - 1) as nat) {
            Some(x) => salsa_spec(xor_bytes(x, sub_block(b, i - 1))),
            None => None,
        }
    }
}

/// Which Y the `k`-th output sub-block is: the even-indexed Ys first, then
/// the odd-indexed ones.
pub open spec fn shuffled(k: int) -> int {
    if k < 8 {
        2 * k
    } else {
        2 * (k - 8) + 1
    }
}

/// BlockMix of a block: `(Y[0], Y[2], ..., Y[14], Y[1], Y[3], ..., Y[15])`
/// where `Y[i]` is X after step `i + 1`; `None` where a Salsa20/8 step
/// cannot be evaluated.
pub open spec fn block_mix_spec(b: Seq<u8>) -> Option<Seq<u8>> {
    match mix_state(b, 16) {
        Some(_) => Some(Seq::new(1024, |k: int| mix_state(b, (shuffled(k / 64) + 1) as nat)->Some_0[k % 64])),
        None => None,
    }
}

/// Once a step cannot be evaluated, no later one can.
proof fn lemma_mix_state_prefix(b: Seq<u8>, i: nat, j: nat)
    requires
        i <= j,
        mix_state(b, j) is Some,
    ensures
        mix_state(b, i) is Some,
    decreases j - i,
{
    if i < j {
        lemma_mix_state_prefix(b, i + 1, j);
    }
}

/// The Salsa20/8 core function on one 64-byte sub-block, or `None` where
/// the `salsa20` crate would overflow its block counter.
pub fn salsa(t: &[u8; 64]) -> (r: Option<[u8; 64]>)
    ensures
        match salsa_spec(t@) {
            Some(s) => r matches Some(out) && out@ == s,
            None => r is None,
        },
{
    let mut state = [0u32; 16];
    for i in 0..16
        invariant
            forall|x: int| 0 <= x < i ==> state[x] == spec_u32_from_le_bytes(t@.subrange(4 * x, 4 * x + 4)),
    {
        state[i] = u32_from_le_bytes(slice_subrange(t.as_slice(), i * 4, i * 4 + 4));
    }
    assert(state@ =~= salsa_state(t@));
    if state[8] == 0xffff_ffff && state[9] == 0xffff_ffff {
        None
    } else {
        Some(salsa20_8_block(state))
    }
}

/// The scryptBlockMix algorithm for `r = 8` on one block, or `None` where a
/// Salsa20/8 step cannot be evaluated.
pub fn block_mix(b: &[u8; BLOCK_SIZE]) -> (r: Option<[u8; BLOCK_SIZE]>)
    ensures
        match block_mix_spec(b@) {
            Some(s) => r matches Some(out) && out@ == s,
            None => r is None,
        },
{
    let mut x = [0u8; 64];
    for k in 0..64
        invariant
            forall|z: int| 0 <= z < k ==> x[z] == b@[960 + z],
    {
        x[k] = b[960 + k];
    }
    assert(x@ =~= sub_block(b@, 15));
    let mut y = [0u8; 1024];
    for i in 0..16
        invariant
            mix_state(b@, i as nat) == Some(x@),
            forall|z: int| 0 <= z < 64 * i ==> y[z] == mix_state(b@, (z / 64 + 1) as nat)->Some_0[z % 64],
    {
        let mut t = [0u8; 64];
        for k in 0..64
            invariant
                i < 16,
                forall|z: int| 0 <= z < k ==> t[z] == x[z] ^ b@[64 * (i as int) + z],
        {
            t[k] = x[k] ^ b[64 * i + k];
        }
        assert(t@ =~= xor_bytes(x@, sub_block(b@, i as int)));
        match salsa(&t) {
            Some(s) => {
                x = s;
            },
            None => {
                proof {
                    if mix_state(b@, 16) is Some {
                        lemma_mix_state_prefix(b@, (i + 1) as nat, 16);
                    }
                }
                return None;
            },
        }
        for k in 0..64
            invariant
                i < 16,
                mix_state(b@, (i + 1) as nat) == Some(x@),
                forall|z: int| 0 <= z < 64 * i + k ==> y[z] == mix_state(b@, (z / 64 + 1) as nat)->Some_0[z % 64],
        {
            y[64 * i + k] = x[k];
            assert((64 * i + k) / 64 == i && (64 * i + k) % 64 == k) by (nonlinear_arith)
                requires
                    k < 64,
            ;
        }
    }
    let mut out = [0u8; 1024];
    for k in 0..1024
        invariant
            mix_state(b@, 16) is Some,
            forall|z: int| 0 <= z < 1024 ==> y[z] == mix_state(b@, (z / 64 + 1) as nat)->Some_0[z % 64],
            forall|z: int| 0 <= z < k ==> out[z] == mix_state(b@, (shuffled(z / 64) + 1) as nat)->Some_0[z % 64],
    {
        let blk = k / 64;
        let src = if blk < 8 { 2 * blk } else { 2 * (blk - 8) + 1 };
        let pos = 64 * src + k % 64;
        assert(pos / 64 == src && pos % 64 == k % 64) by (nonlinear_arith)
            requires
                pos as int == 64 * (src as int) + (k as int) % 64,
        ;
        out[k] = y[pos];
    }
    assert(out@ =~= block_mix_spec(b@)->Some_0);
    Some(out)
}

} // verus!
