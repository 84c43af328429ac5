//! Evaluating a nonce: a sequential traversal of the memory in which each
//! round's access depends on the previous round's result.
pub mod blockmix;
pub mod chain;

use vstd::prelude::*;
use vstd::bytes::{spec_u128_to_le_bytes, u128_to_le_bytes};
use crate::common::BLOCK_SIZE;
use crate::primitives::{
    blake3_hash, blake3_hash_bytes, blake3_keyed_xof, blake3_keyed_xof_bytes, blake3_xof, blake3_xof_bytes,
};
use crate::traverse::chain::{chain_spec, dependency_chain};

verus! {

/// The 32-byte candidate for a message under a key: the keyed BLAKE3 XOF of
/// the message (1024 bytes) run through `k` rounds of the dependency chain
/// over the memory, then hashed with BLAKE3; `None` where a BlockMix cannot
/// be evaluated.
pub open spec fn authentication_spec(key: Seq<u8>, message: Seq<u8>, v: Seq<u8>, q: int, k: nat) -> Option<
    Seq<u8>,
> {
    match chain_spec(blake3_keyed_xof(key, message, 1024), v, q, k) {
        Some(x) => Some(blake3_hash(x)),
        None => None,
    }
}

/// The 32-byte candidate for a message without a key: the regular
/// (unkeyed) BLAKE3 XOF of the message (1024 bytes) run through `k` rounds
/// of the dependency chain over the memory, then hashed with BLAKE3; `None`
/// where a BlockMix cannot be evaluated.
pub open spec fn digest_spec(message: Seq<u8>, v: Seq<u8>, q: int, k: nat) -> Option<Seq<u8>> {
    match chain_spec(blake3_xof(message, 1024), v, q, k) {
        Some(x) => Some(blake3_hash(x)),
        None => None,
    }
}

/// Runs 1024 bytes of XOF output through `k` rounds of the dependency chain
/// and hashes the result.
fn finish_stream(stream: Vec<u8>, v: &[u8], q: usize, k: usize) -> (r: Option<[u8; 32]>)
    requires
        stream@.len() == 1024,
        q >= 1,
        v@.len() >= q * 1024,
    ensures
        match chain_spec(stream@, v@, q as int, k as nat) {
            Some(x) => r matches Some(c) && c@ == blake3_hash(x),
            None => r is None,
        },
{
    let mut x = [0u8; BLOCK_SIZE];
    for i in 0..1024
        invariant
            stream@.len() == 1024,
            forall|z: int| 0 <= z < i ==> x[z] == stream@[z],
    {
        x[i] = stream[i];
    }
    assert(x@ =~= stream@);
    match dependency_chain(x, v, q, k) {
        Some(y) => Some(blake3_hash_bytes(y.as_slice())),
        None => None,
    }
}

/// The candidate for `message`, without a key, over the `q` blocks of `v`.
pub fn digest_message(message: &[u8], v: &[u8], q: usize, k: usize) -> (r: Option<[u8; 32]>)
    requires
        q >= 1,
        v@.len() >= q * 1024,
    ensures
        match digest_spec(message@, v@, q as int, k as nat) {
            Some(s) => r matches Some(c) && c@ == s,
            None => r is None,
        },
{
    let stream = blake3_xof_bytes(message, 1024);
    finish_stream(stream, v, q, k)
}

/// The candidate for `message` under `key` over the `q` blocks of `v`.
pub fn authenticate_message(key: &[u8; 32], message: &[u8], v: &[u8], q: usize, k: usize) -> (r: Option<
    [u8; 32],
>)
    requires
        q >= 1,
        v@.len() >= q * 1024,
    ensures
        match authentication_spec(key@, message@, v@, q as int, k as nat) {
            Some(s) => r matches Some(c) && c@ == s,
            None => r is None,
        },
{
    let stream = blake3_keyed_xof_bytes(key, message, 1024);
    finish_stream(stream, v, q, k)
}

/// The candidate for a nonce alone (its 16 little-endian bytes) under a
/// 32-byte key.
pub fn authenticate(key: &[u8; 32], nonce: u128, v: &[u8], q: usize, k: usize) -> (r: Option<[u8; 32]>)
    requires
        q >= 1,
        v@.len() >= q * 1024,
    ensures
        match authentication_spec(key@, spec_u128_to_le_bytes(nonce), v@, q as int, k as nat) {
            Some(s) => r matches Some(c) && c@ == s,
            None => r is None,
        },
{
    let message = u128_to_le_bytes(nonce);
    authenticate_message(key, message.as_slice(), v, q, k)
}

} // verus!
