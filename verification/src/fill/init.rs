//! Starting blocks B0 and B1 as RFC 9106 computes them with BLAKE2b
//! ("Lane Starting Blocks" and "Second Lane Blocks"), for one lane.
use vstd::prelude::*;
use vstd::bytes::{
    lemma_auto_spec_u32_to_from_le_bytes, spec_u32_from_le_bytes, spec_u32_to_le_bytes, u32_to_le_bytes,
};
use vstd::slice::slice_to_vec;
use crate::common::BLOCK_SIZE;
use crate::primitives::{blake2b512, blake2b512_bytes};

verus! {

/// What H_0 reads: memory and time cost as little-endian 32-bit words,
/// then the key (not length-prefixed, as no salt follows it).
pub open spec fn h0_message(key: Seq<u8>, m_cost: u32, t_cost: u32) -> Seq<u8> {
    spec_u32_to_le_bytes(m_cost) + spec_u32_to_le_bytes(t_cost) + key
}

/// The preimage H_0: the BLAKE2b-512 digest of [h0_message].
pub open spec fn h0_spec(key: Seq<u8>, m_cost: u32, t_cost: u32) -> Seq<u8> {
    blake2b512(h0_message(key, m_cost, t_cost))
}

/// The chain of H': `V_1 = H(LE32(1024) || input)`, `V_(i+1) = H(V_i)`.
pub open spec fn v_chain(input: Seq<u8>, i: nat) -> Seq<u8>
    decreases i,
{
    if i <= 1 {
        blake2b512(spec_u32_to_le_bytes(1024) + input)
    } else {
        blake2b512(v_chain(input, (i - 1) as nat))
    }
}

/// H' for 1024 output bytes: the first 32 bytes of `V_1` to `V_30`, then
/// all 64 bytes of `V_31`.
pub open spec fn h_prime_spec(input: Seq<u8>) -> Seq<u8> {
    Seq::new(
        1024,
        |k: int|
            if k < 960 {
                v_chain(input, (k / 32 + 1) as nat)[k % 32]
            } else {
                v_chain(input, 31)[k - 960]
            },
    )
}

/// The layout of what H_0 reads: the memory and time costs are read back
/// little-endian from bytes 0..4 and 4..8, and the key follows from byte 8.
pub proof fn lemma_h0_message_layout(key: Seq<u8>, m_cost: u32, t_cost: u32)
    ensures
        h0_message(key, m_cost, t_cost).len() == 8 + key.len(),
        spec_u32_from_le_bytes(h0_message(key, m_cost, t_cost).subrange(0, 4)) == m_cost,
        spec_u32_from_le_bytes(h0_message(key, m_cost, t_cost).subrange(4, 8)) == t_cost,
        h0_message(key, m_cost, t_cost).subrange(8, 8 + key.len() as int) == key,
{
    lemma_auto_spec_u32_to_from_le_bytes();
    let msg = h0_message(key, m_cost, t_cost);
    assert(msg.subrange(0, 4) =~= spec_u32_to_le_bytes(m_cost));
    assert(msg.subrange(4, 8) =~= spec_u32_to_le_bytes(t_cost));
    assert(msg.subrange(8, 8 + key.len() as int) =~= key);
}

/// Hash preimage H_0 of the costs and the key.
fn h_0(key: &[u8], m_cost: u32, t_cost: u32) -> (out: [u8; 64])
    ensures
        out@ == h0_spec(key@, m_cost, t_cost),
{
    let mut msg = u32_to_le_bytes(m_cost);
    let mut t = u32_to_le_bytes(t_cost);
    msg.append(&mut t);
    let mut rest = slice_to_vec(key);
    msg.append(&mut rest);
    assert(msg@ =~= h0_message(key@, m_cost, t_cost));
    blake2b512_bytes(msg.as_slice())
}

/// The variable-length hash H' of RFC 9106 for `T = 1024`: every call in
/// the chain is an untruncated BLAKE2b-512 output.
fn h_prime(input: &[u8]) -> (out: [u8; BLOCK_SIZE])
    ensures
        out@ == h_prime_spec(input@),
{
    let r: usize = (BLOCK_SIZE + 31) / 32 - 2;
    let mut out = [0u8; 1024];
    let mut offset: usize = 0;
    let mut first = u32_to_le_bytes(1024u32);
    let mut rest = slice_to_vec(input);
    first.append(&mut rest);
    assert(first@ =~= spec_u32_to_le_bytes(1024) + input@);
    let mut v: [u8; 64] = blake2b512_bytes(first.as_slice());
    for x in 0..32
        invariant
            offset == 0,
            v@ == v_chain(input@, 1),
            forall|z: int| 0 <= z < x ==> out[z] == v_chain(input@, 1)[z],
    {
        out[offset + x] = v[x];
    }
    offset += 32;
    for i in 1..r
        invariant
            r == 30,
            offset == 32 * i,
            v@ == v_chain(input@, i as nat),
            forall|z: int| 0 <= z < offset ==> out[z] == v_chain(input@, (z / 32 + 1) as nat)[z % 32],
    {
        v = blake2b512_bytes(v.as_slice());
        for x in 0..32
            invariant
                i < 30,
                offset == 32 * i,
                v@ == v_chain(input@, (i + 1) as nat),
                forall|z: int| 0 <= z < offset + x ==> out[z] == v_chain(input@, (z / 32 + 1) as nat)[z % 32],
        {
            out[offset + x] = v[x];
            assert((offset + x) / 32 == i && (offset + x) % 32 == x) by (nonlinear_arith)
                requires
                    offset == 32 * i,
                    x < 32,
            ;
        }
        offset += 32;
    }
    let last: [u8; 64] = blake2b512_bytes(v.as_slice());
    for x in 0..64
        invariant
            offset == 960,
            last@ == v_chain(input@, 31),
            forall|z: int| 0 <= z < 960 ==> out[z] == v_chain(input@, (z / 32 + 1) as nat)[z % 32],
            forall|z: int| 960 <= z < 960 + x ==> out[z] == v_chain(input@, 31)[z - 960],
    {
        out[offset + x] = last[x];
    }
    assert(out@ =~= h_prime_spec(input@));
    out
}

/// Appends the little-endian bytes of a 32-bit word to a 64-byte preimage.
fn preimage_with_index(preimage: &[u8; 64], index: u32) -> (msg: Vec<u8>)
    ensures
        msg@ == preimage@ + spec_u32_to_le_bytes(index),
{
    let mut msg = slice_to_vec(preimage.as_slice());
    let mut le = u32_to_le_bytes(index);
    msg.append(&mut le);
    msg
}

/// Computes the starting blocks `B[0] = H'(H_0 || LE32(0))` and
/// `B[1] = H'(H_0 || LE32(1))` for a single lane.
pub fn starting_blocks(key: &[u8], m_cost: u32, t_cost: u32) -> (blocks: ([u8; BLOCK_SIZE], [u8; BLOCK_SIZE]))
    ensures
        blocks.0@ == h_prime_spec(h0_spec(key@, m_cost, t_cost) + spec_u32_to_le_bytes(0)),
        blocks.1@ == h_prime_spec(h0_spec(key@, m_cost, t_cost) + spec_u32_to_le_bytes(1)),
{
    let preimage = h_0(key, m_cost, t_cost);
    let m0 = preimage_with_index(&preimage, 0);
    let m1 = preimage_with_index(&preimage, 1);
    let b0 = h_prime(m0.as_slice());
    let b1 = h_prime(m1.as_slice());
    (b0, b1)
}

} // verus!
