# traversev

A memory-hard proof-of-work construction, written in Verus with its
behaviour stated in contracts and proved.

- `src/compress.rs`: the Argon2 compression function G and the block
  byte/word conversions.
- `src/memory/`: the BLAKE3 starting blocks and the Argon2d-style fill.
- `src/fill/`: the same fill from BLAKE2b starting blocks (RFC 9106 H').
- `src/traverse/`: scryptBlockMix over Salsa20/8, the dependency chain and
  the keyed evaluation of a nonce.
- `src/difficulty.rs`: the leading-zero-bits target.
- `src/nonce.rs`, `src/preimage.rs`, `src/params.rs`, `src/errors.rs`:
  nonces, preimages, parameters and errors.
- `src/primitives.rs`: the calls into `blake2`, `blake3`, `salsa20` and
  `subtle`, whose results are named rather than computed in the proofs.
- `src/lib.rs`: the `TraverseV` instance (new, mine, verify) and its laws.
- `app/`: the unbounded mining loop and an error type with `Display`.
