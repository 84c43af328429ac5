//! Filling the memory from starting blocks computed as RFC 9106 does, with
//! BLAKE2b.
pub mod init;

use vstd::prelude::*;
use vstd::bytes::spec_u32_to_le_bytes;
use crate::common::BLOCK_SIZE;
use crate::fill::init::{h0_spec, h_prime_spec, starting_blocks};
use crate::memory::fill::{fill, filled_bytes, lemma_fill_passes_len};

verus! {

/// The two BLAKE2b starting blocks for a key and costs.
pub open spec fn blake2_starting_bytes(key: Seq<u8>, m_cost: u32, t_cost: u32) -> Seq<u8> {
    let h0 = h0_spec(key, m_cost, t_cost);
    h_prime_spec(h0 + spec_u32_to_le_bytes(0)) + h_prime_spec(h0 + spec_u32_to_le_bytes(1))
}

/// The memory of `m_cost` blocks, starting blocks then zero blocks, after
/// `t_cost` passes of the fill.
pub open spec fn filled_memory_spec(key: Seq<u8>, m_cost: u32, t_cost: u32) -> Seq<u8> {
    filled_bytes(
        blake2_starting_bytes(key, m_cost, t_cost) + Seq::new(((m_cost - 2) * 1024) as nat, |i: int| 0u8),
        m_cost as int,
        t_cost as nat,
    )
}

/// Allocates a memory of `m_cost` blocks, writes the two starting blocks
/// and fills the rest over `t_cost` passes.
pub fn fill_memory(key: &[u8], m_cost: u32, t_cost: u32) -> (v: Vec<u8>)
    requires
        m_cost >= 2,
        m_cost * 1024 <= usize::MAX,
    ensures
        v@ == filled_memory_spec(key@, m_cost, t_cost),
        v@.len() == m_cost * 1024,
{
    let q = m_cost as usize;
    let mut v: Vec<u8> = vec![0u8; q * BLOCK_SIZE];
    let (b0, b1) = starting_blocks(key, m_cost, t_cost);
    for k in 0..1024
        invariant
            v.len() == q * 1024,
            q >= 2,
            forall|x: int| 0 <= x < k ==> v@[x] == b0[x],
            forall|x: int| 1024 <= x < 1024 + k ==> v@[x] == b1[x - 1024],
            forall|x: int| (k <= x < 1024 || 1024 + k <= x < q * 1024) ==> v@[x] == 0,
    {
        v.set(k, b0[k]);
        v.set(1024 + k, b1[k]);
    }
    let ghost start = v@;
    assert(start =~= blake2_starting_bytes(key@, m_cost, t_cost) + Seq::new(((q - 2) * 1024) as nat, |i: int| 0u8));
    fill(v.as_mut_slice(), q, t_cost as usize);
    assert(start.subrange(0, q * 1024) =~= start);
    assert(v@ =~= filled_bytes(start, q as int, t_cost as nat));
    proof {
        lemma_fill_passes_len(crate::compress::words_of(start), q as int, t_cost as nat);
    }
    v
}

} // verus!
