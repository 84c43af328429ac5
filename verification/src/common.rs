use vstd::prelude::*;

verus! {

/// Size in bytes of one memory block.
pub const BLOCK_SIZE: usize = 1024;

/// Number of 64-bit words in one memory block.
pub const WORDS: usize = BLOCK_SIZE / 8;

/// Whether proofs can be checked by anyone sharing the configuration, or
/// only by holders of a shared secret.
#[derive(Debug, Clone, Copy, PartialEq, Eq, Structural)]
pub enum Mode {
    Trustless,
    Permissioned,
}

} // verus!
