//! The cryptographic primitives this library builds on, called from the
//! `blake2`, `blake3`, `salsa20` and `subtle` crates. Their results are
//! named here, not computed: each name below stands for what the outside
//! function returns on the given arguments.
use vstd::prelude::*;
use blake2::{Blake2b512, Digest};
use salsa20::SalsaCore;
use salsa20::cipher::StreamCipherCore;
use salsa20::cipher::consts::U4;
use subtle::ConstantTimeEq;

verus! {

/// The first `len` bytes of the BLAKE3 extendable output of `input`, in the
/// default (unkeyed) mode.
pub uninterp spec fn blake3_xof(input: Seq<u8>, len: nat) -> Seq<u8>;

/// The first `len` bytes of the BLAKE3 extendable output of `input` in the
/// keyed mode, with the 32-byte `key`.
pub uninterp spec fn blake3_keyed_xof(key: Seq<u8>, input: Seq<u8>, len: nat) -> Seq<u8>;

/// The 32-byte key that BLAKE3's key derivation mode derives from the
/// context string and the key material.
pub uninterp spec fn blake3_derive_key(context: Seq<char>, material: Seq<u8>) -> Seq<u8>;

/// The 32-byte BLAKE3 hash of `input`.
pub uninterp spec fn blake3_hash(input: Seq<u8>) -> Seq<u8>;

/// The 64-byte BLAKE2b-512 digest of `input`.
pub uninterp spec fn blake2b512(input: Seq<u8>) -> Seq<u8>;

/// The 64-byte output of the Salsa20/8 core on the sixteen-word state:
/// eight rounds, the input added word-wise, written little-endian.
pub uninterp spec fn salsa20_8(state: Seq<u32>) -> Seq<u8>;

/// Calls `blake3::Hasher::new`, `update` with `input`, then
/// `finalize_xof().fill` on a buffer of `len` bytes. Claimed: the buffer is
/// entirely filled (the crate documents that `fill` always fills the whole
/// buffer) with the named XOF output of `input`.
#[verifier::external_body]
pub(crate) fn blake3_xof_bytes(input: &[u8], len: usize) -> (out: Vec<u8>)
    ensures
        out@ == blake3_xof(input@, len as nat),
        out@.len() == len,
{
    let mut out = vec![0u8; len];
    blake3::Hasher::new().update(input).finalize_xof().fill(&mut out);
    out
}

/// Calls `blake3::Hasher::new_keyed` with `key`, `update` with `input`, then
/// `finalize_xof().fill` on a buffer of `len` bytes. Claimed: the buffer is
/// entirely filled with the named keyed XOF output.
#[verifier::external_body]
pub(crate) fn blake3_keyed_xof_bytes(key: &[u8; 32], input: &[u8], len: usize) -> (out: Vec<u8>)
    ensures
        out@ == blake3_keyed_xof(key@, input@, len as nat),
        out@.len() == len,
{
    let mut out = vec![0u8; len];
    blake3::Hasher::new_keyed(key).update(input).finalize_xof().fill(&mut out);
    out
}

/// Calls `blake3::derive_key(context, material)`. Claimed: the result is the
/// named derived key of the context string and key material.
#[verifier::external_body]
pub(crate) fn blake3_derive_key_bytes(context: &str, material: &[u8]) -> (key: [u8; 32])
    ensures
        key@ == blake3_derive_key(context@, material@),
{
    blake3::derive_key(context, material)
}

/// Calls `blake3::hash(input)` and takes the 32 bytes of the hash. Claimed:
/// they are the named BLAKE3 hash of the input.
#[verifier::external_body]
pub(crate) fn blake3_hash_bytes(input: &[u8]) -> (h: [u8; 32])
    ensures
        h@ == blake3_hash(input@),
{
    blake3::hash(input).into()
}

/// Calls `Blake2b512::digest(input)` (the `Digest` trait of the `blake2`
/// crate) and takes the 64 bytes of the output. Claimed: they are the named
/// BLAKE2b-512 digest of the input.
#[verifier::external_body]
pub(crate) fn blake2b512_bytes(input: &[u8]) -> (h: [u8; 64])
    ensures
        h@ == blake2b512(input@),
{
    Blake2b512::digest(input).into()
}

/// Calls `SalsaCore::<U4>::from_raw_state(state)` and `write_keystream_block`
/// once (four double rounds, i.e. Salsa20/8). Claimed: the block written is
/// the named Salsa20/8 core output on `state`. The crate increments the
/// block counter held in words 8 and 9 after computing the block, with an
/// addition that overflows when both words are all ones; that input is
/// left out.
#[verifier::external_body]
pub(crate) fn salsa20_8_block(state: [u32; 16]) -> (block: [u8; 64])
    requires
        !(state[8] == 0xffff_ffff && state[9] == 0xffff_ffff),
    ensures
        block@ == salsa20_8(state@),
{
    let mut block = [0u8; 64];
    SalsaCore::<U4>::from_raw_state(state).write_keystream_block((&mut block).into());
    block
}

/// Calls `ConstantTimeEq::ct_eq` of the `subtle` crate on two bytes and
/// converts the `Choice` to a `bool`. Claimed: the result is true exactly
/// when the bytes are equal, as the crate documents.
#[verifier::external_body]
pub(crate) fn ct_eq_u8(a: u8, b: u8) -> (eq: bool)
    ensures
        eq == (a == b),
{
    bool::from(a.ct_eq(&b))
}

} // verus!
