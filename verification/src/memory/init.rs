//! The two starting blocks of the memory (compare RFC 9106 "Lane Starting
//! Blocks"), derived with BLAKE3 from the parameters and the secret.
use vstd::prelude::*;
use vstd::bytes::{
    lemma_auto_spec_u32_to_from_le_bytes, spec_u32_from_le_bytes, spec_u32_to_le_bytes, u32_to_le_bytes,
};
use vstd::slice::slice_to_vec;
use crate::common::BLOCK_SIZE;
use crate::primitives::{blake3_xof, blake3_xof_bytes};

verus! {

/// What the preimage hash H_0 reads: the four parameters as little-endian
/// 32-bit words, then the secret (not length-prefixed).
pub open spec fn h0_message(secret: Seq<u8>, m_cost: u32, t_cost: u32, d_cost: u32, n_cost: u32) -> Seq<u8> {
    spec_u32_to_le_bytes(m_cost) + spec_u32_to_le_bytes(t_cost) + spec_u32_to_le_bytes(d_cost)
        + spec_u32_to_le_bytes(n_cost) + secret
}

/// The 64-byte preimage H_0: the BLAKE3 XOF of [h0_message].
pub open spec fn h0_spec(secret: Seq<u8>, m_cost: u32, t_cost: u32, d_cost: u32, n_cost: u32) -> Seq<u8> {
    blake3_xof(h0_message(secret, m_cost, t_cost, d_cost, n_cost), 64)
}

/// Starting block `index`: 1024 bytes of the BLAKE3 XOF of
/// `H_0 || LE32(index)`.
pub open spec fn init_block_spec(preimage: Seq<u8>, index: u32) -> Seq<u8> {
    blake3_xof(preimage + spec_u32_to_le_bytes(index), 1024)
}

/// The layout of what H_0 reads: the memory, time, evaluation and
/// difficulty costs are read back little-endian from bytes 0..4, 4..8,
/// 8..12 and 12..16, and the secret follows from byte 16 on.
pub proof fn lemma_h0_message_layout(secret: Seq<u8>, m_cost: u32, t_cost: u32, d_cost: u32, n_cost: u32)
    ensures
        h0_message(secret, m_cost, t_cost, d_cost, n_cost).len() == 16 + secret.len(),
        spec_u32_from_le_bytes(h0_message(secret, m_cost, t_cost, d_cost, n_cost).subrange(0, 4)) == m_cost,
        spec_u32_from_le_bytes(h0_message(secret, m_cost, t_cost, d_cost, n_cost).subrange(4, 8)) == t_cost,
        spec_u32_from_le_bytes(h0_message(secret, m_cost, t_cost, d_cost, n_cost).subrange(8, 12)) == d_cost,
        spec_u32_from_le_bytes(h0_message(secret, m_cost, t_cost, d_cost, n_cost).subrange(12, 16)) == n_cost,
        h0_message(secret, m_cost, t_cost, d_cost, n_cost).subrange(16, 16 + secret.len() as int) == secret,
{
    lemma_auto_spec_u32_to_from_le_bytes();
    let msg = h0_message(secret, m_cost, t_cost, d_cost, n_cost);
    assert(msg.subrange(0, 4) =~= spec_u32_to_le_bytes(m_cost));
    assert(msg.subrange(4, 8) =~= spec_u32_to_le_bytes(t_cost));
    assert(msg.subrange(8, 12) =~= spec_u32_to_le_bytes(d_cost));
    assert(msg.subrange(12, 16) =~= spec_u32_to_le_bytes(n_cost));
    assert(msg.subrange(16, 16 + secret.len() as int) =~= secret);
}

/// Appends the little-endian bytes of a 32-bit word.
fn push_u32_le(v: &mut Vec<u8>, x: u32)
    ensures
        final(v)@ == old(v)@ + spec_u32_to_le_bytes(x),
{
    let mut le = u32_to_le_bytes(x);
    v.append(&mut le);
}

/// Hash preimage H_0 of the parameters and secret: a 64-byte value however
/// long the secret, so the secret is hashed once.
fn h_0(secret: &[u8], m_cost: u32, t_cost: u32, d_cost: u32, n_cost: u32) -> (out: [u8; 64])
    ensures
        out@ == h0_spec(secret@, m_cost, t_cost, d_cost, n_cost),
{
    let mut msg: Vec<u8> = Vec::new();
    push_u32_le(&mut msg, m_cost);
    push_u32_le(&mut msg, t_cost);
    push_u32_le(&mut msg, d_cost);
    push_u32_le(&mut msg, n_cost);
    let mut rest = slice_to_vec(secret);
    msg.append(&mut rest);
    assert(msg@ =~= h0_message(secret@, m_cost, t_cost, d_cost, n_cost));
    let h = blake3_xof_bytes(msg.as_slice(), 64);
    let mut out = [0u8; 64];
    for i in 0..64
        invariant
            h@.len() == 64,
            forall|x: int| 0 <= x < i ==> out[x] == h@[x],
    {
        out[i] = h[i];
    }
    assert(out@ =~= h@);
    out
}

/// One block of BLAKE3 XOF output for the initial block computations.
fn init(preimage: &[u8; 64], index: u32) -> (out: [u8; BLOCK_SIZE])
    ensures
        out@ == init_block_spec(preimage@, index),
{
    let mut input = slice_to_vec(preimage.as_slice());
    push_u32_le(&mut input, index);
    let h = blake3_xof_bytes(input.as_slice(), 1024);
    let mut out = [0u8; 1024];
    for i in 0..1024
        invariant
            h@.len() == 1024,
            forall|x: int| 0 <= x < i ==> out[x] == h@[x],
    {
        out[i] = h[i];
    }
    assert(out@ =~= h@);
    out
}

/// Computes the starting blocks `B[0] = init(H_0 || LE32(0))` and
/// `B[1] = init(H_0 || LE32(1))`.
pub fn initial_blocks(
    secret: &[u8],
    m_cost: u32,
    t_cost: u32,
    d_cost: u32,
    n_cost: u32,
) -> (blocks: ([u8; BLOCK_SIZE], [u8; BLOCK_SIZE]))
    ensures
        blocks.0@ == init_block_spec(h0_spec(secret@, m_cost, t_cost, d_cost, n_cost), 0),
        blocks.1@ == init_block_spec(h0_spec(secret@, m_cost, t_cost, d_cost, n_cost), 1),
{
    let preimage = h_0(secret, m_cost, t_cost, d_cost, n_cost);
    let b0 = init(&preimage, 0);
    let b1 = init(&preimage, 1);
    (b0, b1)
}

} // verus!
