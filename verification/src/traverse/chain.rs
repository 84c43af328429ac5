//! The second loop of scryptROMix (RFC 7914, section 5), run for `k` rounds
//! over a memory of `q` blocks.
use vstd::prelude::*;
use vstd::bytes::{spec_u64_from_le_bytes, u64_from_le_bytes};
use vstd::slice::slice_subrange;
use crate::common::BLOCK_SIZE;
use crate::traverse::blockmix::{block_mix, block_mix_spec, xor_bytes};

verus! {

/// Integerify, narrowed to the last 8 bytes of the block read as a
/// little-endian integer.
pub open spec fn integerify_spec(x: Seq<u8>) -> u64 {
    spec_u64_from_le_bytes(x.subrange(1016, 1024))
}

/// Block `j` of a memory held as bytes.
pub open spec fn memory_block(v: Seq<u8>, j: int) -> Seq<u8> {
    v.subrange(1024 * j, 1024 * j + 1024)
}

/// X after `k` rounds of `j = Integerify(X) mod q; X = BlockMix(X xor V[j])`,
/// or `None` where a BlockMix cannot be evaluated.
pub open spec fn chain_spec(x: Seq<u8>, v: Seq<u8>, q: int, k: nat) -> Option<Seq<u8>>
    decreases k,
{
    if k == 0 {
        Some(x)
    } else {
        match chain_spec(x, v, q, (k - 1) as nat) {
            Some(y) => block_mix_spec(xor_bytes(y, memory_block(v, integerify_spec(y) as int % q))),
            None => None,
        }
    }
}

/// Integerify: the last 8 bytes of the block as a little-endian integer.
fn integerify(x: &[u8; BLOCK_SIZE]) -> (r: u64)
    ensures
        r == integerify_spec(x@),
{
    u64_from_le_bytes(slice_subrange(x.as_slice(), 1016, 1024))
}

/// The scryptROMix algorithm's second loop, run for `k` rounds over the `q`
/// blocks of `v` (independent of `q`, where RFC 7914 sizes both from N);
/// `None` where a BlockMix cannot be evaluated.
pub fn dependency_chain(x: [u8; BLOCK_SIZE], v: &[u8], q: usize, k: usize) -> (r: Option<[u8; BLOCK_SIZE]>)
    requires
        q >= 1,
        v@.len() >= q * 1024,
    ensures
        match chain_spec(x@, v@, q as int, k as nat) {
            Some(s) => r matches Some(out) && out@ == s,
            None => r is None,
        },
{
    let mut cur = x;
    let vlen = v.len();
    for round in 0..k
        invariant
            q >= 1,
            v@.len() >= q * 1024,
            chain_spec(x@, v@, q as int, round as nat) == Some(cur@),
            vlen == v@.len(),
    {
        let j = (integerify(&cur) % (q as u64)) as usize;
        assert(j * 1024 + 1024 <= q * 1024) by (nonlinear_arith)
            requires
                j < q,
        ;
        assert(j as int == integerify_spec(cur@) as int % (q as int));
        let mut t = [0u8; 1024];
        for idx in 0..1024
            invariant
                j < q,
                v@.len() >= q * 1024,
                j * 1024 + 1024 <= q * 1024,
                vlen == v@.len(),
                forall|z: int| 0 <= z < idx ==> t[z] == cur[z] ^ v@[(j as int) * 1024 + z],
        {
            t[idx] = cur[idx] ^ v[j * 1024 + idx];
        }
        assert(t@ =~= xor_bytes(cur@, memory_block(v@, j as int)));
        match block_mix(&t) {
            Some(m) => {
                cur = m;
            },
            None => {
                proof {
                    assert(chain_spec(x@, v@, q as int, (round + 1) as nat) is None);
                    lemma_chain_none_stays(x@, v@, q as int, (round + 1) as nat, k as nat);
                }
                return None;
            },
        }
    }
    Some(cur)
}

/// Once a round cannot be evaluated, no later round can.
proof fn lemma_chain_none_stays(x: Seq<u8>, v: Seq<u8>, q: int, i: nat, k: nat)
    requires
        i <= k,
        chain_spec(x, v, q, i) is None,
    ensures
        chain_spec(x, v, q, k) is None,
    decreases k - i,
{
    if i < k {
        lemma_chain_none_stays(x, v, q, i, (k - 1) as nat);
    }
}

} // verus!
