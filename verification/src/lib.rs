//! A memory-hard proof-of-work construction.
//!
//! A memory structure is filled once by an Argon2d-style multi-pass fill;
//! candidate nonces are then evaluated by a sequential, data-dependent
//! traversal of that structure built on scryptBlockMix.
pub mod common;
pub mod compress;
pub mod difficulty;
pub mod errors;
pub mod fill;
pub mod params;
pub mod preimage;
pub mod memory;
pub mod nonce;
pub mod primitives;
pub mod traverse;

use vstd::prelude::*;
use vstd::bytes::{
    lemma_auto_spec_u128_to_from_le_bytes, spec_u128_from_le_bytes, spec_u128_to_le_bytes, u128_to_le_bytes,
};
use vstd::slice::slice_to_vec;
use crate::common::{Mode, BLOCK_SIZE};
use crate::errors::TraverseVErr;
use crate::difficulty::{lemma_difficulty_by_bytes, meets_difficulty, top_bits_mask};
use crate::compress::{bytes_of, compression, lemma_words_bytes_roundtrip, words_of};
use crate::memory::fill::{
    block_of, fill, fill_passes, filled_bytes, lemma_fill_passes_len, lemma_first_pass_blocks, spec_reference_index,
};
use crate::memory::init::{h0_spec, init_block_spec, initial_blocks};
use crate::nonce::{clock_reading, spec_counter_of, spec_pack, spec_time_of, Nonce};
pub use crate::params::Params;
use crate::primitives::{blake3_derive_key, blake3_derive_key_bytes, ct_eq_u8};
use crate::traverse::{authenticate_message, authentication_spec, digest_message, digest_spec};

verus! {

/// The two starting blocks of the memory for a secret and parameters.
pub open spec fn starting_bytes(secret: Seq<u8>, params: Params) -> Seq<u8> {
    let h0 = h0_spec(secret, params.spec_m_cost(), params.spec_t_cost(), params.spec_e_cost(), params.spec_n_cost());
    init_block_spec(h0, 0) + init_block_spec(h0, 1)
}

/// The filled memory of an instance: the two starting blocks followed by
/// zero blocks, `m_cost` blocks in all, after `t_cost` passes of the fill.
pub open spec fn memory_spec(secret: Seq<u8>, params: Params) -> Seq<u8> {
    let q = params.spec_m_cost() as int;
    filled_bytes(
        starting_bytes(secret, params) + Seq::new(((q - 2) * 1024) as nat, |i: int| 0u8),
        q,
        params.spec_t_cost() as nat,
    )
}

/// The key under which nonces are evaluated: BLAKE3's key derivation with
/// the application context as context string and the secret as key
/// material.
pub open spec fn evaluation_key(secret: Seq<u8>, context: Seq<char>) -> Seq<u8> {
    blake3_derive_key(context, secret)
}

/// The mode of an instance built with a secret: trustless when the secret
/// is empty (the instance rests on context and parameters alone),
/// permissioned otherwise.
pub open spec fn mode_for(secret: Seq<u8>) -> Mode {
    if secret.len() == 0 {
        Mode::Trustless
    } else {
        Mode::Permissioned
    }
}

/// What the evaluation of a nonce reads for an input: `LE128(nonce) ||
/// input`.
pub open spec fn nonce_message(input: Seq<u8>, nonce: u128) -> Seq<u8> {
    spec_u128_to_le_bytes(nonce) + input
}

/// TraverseV proof-of-work instance.
///
/// Construction fills a memory buffer using a fill adapted from Argon2d.
/// Each block is derived from its predecessor and a pseudorandomly selected
/// earlier block via Argon2's BLAKE2b-based compression function, repeated
/// over multiple passes.
///
/// Mining iteratively searches for a nonce that satisfies this instance's
/// difficulty. Each candidate nonce is authenticated by applying rounds of
/// the scryptROMix algorithm's second loop, mixing memory blocks into the
/// computation via Salsa20/8-based BlockMix.
pub struct TraverseV {
    inner: Vec<u8>,
    secret: Vec<u8>,
    context: String,
    params: Params,
    mode: Mode,
}

impl TraverseV {
    /// The instance holds the filled memory of its secret and parameters.
    #[verifier::type_invariant]
    pub closed spec fn well_formed(self) -> bool {
        &&& self.inner@ == memory_spec(self.secret@, self.params)
        &&& self.inner@.len() == self.params.spec_m_cost() * 1024
        &&& self.params.spec_m_cost() >= 2
        &&& self.params.spec_e_cost() >= 1
        &&& 1 <= self.params.spec_n_cost() <= 255
        &&& self.mode == mode_for(self.secret@)
    }

    /// The filled memory.
    pub closed spec fn memory(&self) -> Seq<u8> {
        self.inner@
    }

    /// The secret the instance was built with.
    pub closed spec fn secret(&self) -> Seq<u8> {
        self.secret@
    }

    /// The application context the instance was built with.
    pub closed spec fn context(&self) -> Seq<char> {
        self.context@
    }

    /// The parameters the instance was built with.
    pub closed spec fn params(&self) -> Params {
        self.params
    }

    /// Whether the instance is trustless or permissioned, fixed when it was
    /// built.
    pub closed spec fn spec_mode(&self) -> Mode {
        self.mode
    }

    /// The candidate that a nonce gives for an input, over the memory and
    /// `e_cost` rounds. A permissioned instance evaluates
    /// `LE128(nonce) || input` with the keyed BLAKE3 function, under the key
    /// derived from the context and the secret. A trustless instance
    /// evaluates the same bytes with the regular BLAKE3 function, behind the
    /// 32 bytes that BLAKE3's key derivation gives for the context alone.
    pub open spec fn candidate(&self, input: Seq<u8>, nonce: u128) -> Option<Seq<u8>> {
        match self.spec_mode() {
            Mode::Permissioned => authentication_spec(
                evaluation_key(self.secret(), self.context()),
                nonce_message(input, nonce),
                self.memory(),
                self.params().spec_m_cost() as int,
                self.params().spec_e_cost() as nat,
            ),
            Mode::Trustless => digest_spec(
                evaluation_key(Seq::empty(), self.context()) + nonce_message(input, nonce),
                self.memory(),
                self.params().spec_m_cost() as int,
                self.params().spec_e_cost() as nat,
            ),
        }
    }

    /// Whether a nonce satisfies the difficulty for an input: its candidate
    /// can be evaluated and starts with `n_cost` zero bits.
    pub open spec fn accepts(&self, input: Seq<u8>, nonce: u128) -> bool {
        match self.candidate(input, nonce) {
            Some(c) => meets_difficulty(c, self.params().spec_n_cost() as int),
            None => false,
        }
    }

    /// The first nonce with timestamp `time` and a counter of at least
    /// `counter` that satisfies the difficulty, searching the counters in
    /// increasing order; `None` if none up to `u64::MAX` does.
    pub open spec fn first_accepted(&self, input: Seq<u8>, time: u64, counter: u64) -> Option<u128>
        decreases u64::MAX - counter,
    {
        if self.accepts(input, spec_pack(time, counter)) {
            Some(spec_pack(time, counter))
        } else if counter == u64::MAX {
            None
        } else {
            self.first_accepted(input, time, (counter + 1) as u64)
        }
    }

    /// Builds a new instance: fills a memory buffer of `m_cost` blocks, and
    /// stores the secret, the application context and the parameters.
    pub fn new(secret: &[u8], context: &str, params: Params) -> (tv: Self)
        requires
            params.spec_m_cost() * 1024 <= usize::MAX,
        ensures
            tv.memory() == memory_spec(secret@, params),
            tv.secret() == secret@,
            tv.context() == context@,
            tv.params() == params,
            tv.spec_mode() == mode_for(secret@),
            tv.memory().len() == params.spec_m_cost() * 1024,
    {
        proof {
            use_type_invariant(&params);
        }
        let q = params.m_cost() as usize;
        let t = params.t_cost() as usize;
        let mut v: Vec<u8> = vec![0u8; q * BLOCK_SIZE];
        let (b0, b1) = initial_blocks(secret, params.m_cost(), params.t_cost(), params.e_cost(), params.n_cost());
        let ghost zeros = v@;
        for k in 0..1024
            invariant
                v.len() == q * 1024,
                q >= 2,
                forall|x: int| 0 <= x < k ==> v@[x] == b0[x],
                forall|x: int| 1024 <= x < 1024 + k ==> v@[x] == b1[x - 1024],
                forall|x: int| (k <= x < 1024 || 1024 + k <= x < q * 1024) ==> v@[x] == 0,
        {
            v.set(k, b0[k]);
            v.set(1024 + k, b1[k]);
        }
        let ghost start = v@;
        assert(start =~= starting_bytes(secret@, params) + Seq::new(((q - 2) * 1024) as nat, |i: int| 0u8));
        fill(v.as_mut_slice(), q, t);
        assert(start.subrange(0, q * 1024) =~= start);
        assert(v@ =~= filled_bytes(start, q as int, t as nat));
        proof {
            lemma_fill_passes_len(crate::compress::words_of(start), q as int, t as nat);
        }
        let mode = if secret.len() == 0 {
            Mode::Trustless
        } else {
            Mode::Permissioned
        };
        TraverseV { inner: v, secret: slice_to_vec(secret), context: context.to_owned(), params, mode }
    }

    /// Whether the instance is trustless or permissioned.
    #[verifier::when_used_as_spec(spec_mode)]
    pub fn mode(&self) -> (m: Mode)
        ensures
            m == self.spec_mode(),
    {
        self.mode
    }

    /// Mines for a nonce satisfying this instance's difficulty: starts a
    /// nonce at the current time and searches its counters upward. The
    /// result is the first satisfying nonce of that timestamp, or `None`
    /// when none of its 2^64 counters satisfies the difficulty (the caller
    /// then starts over at a later time); the error `InvalidNonce` when the
    /// system clock reads before the Unix epoch. Runtime is unbounded on
    /// high difficulties.
    pub fn mine(&self, input: &[u8]) -> (r: Result<Option<u128>, TraverseVErr>)
        ensures
            r matches Ok(found) ==> exists|time: u64|
                #![trigger self.first_accepted(input@, time, 0)]
                clock_reading(Some(time)) && found == self.first_accepted(input@, time, 0),
            r matches Ok(Some(n)) ==> clock_reading(Some(spec_time_of(n))) && self.accepts(input@, n),
            r is Err ==> r == Err::<Option<u128>, TraverseVErr>(TraverseVErr::InvalidNonce) && clock_reading(
                None,
            ),
    {
        match Nonce::new() {
            Ok(nonce) => {
                let found = self.mine_from(input, nonce);
                proof {
                    let time = spec_time_of(nonce.value());
                    crate::nonce::lemma_pack_unpack(time, 0);
                    if let Some(n) = found {
                        lemma_mined_nonce_verifies(self, input@, time, 0, n);
                    }
                }
                Ok(found)
            },
            Err(e) => Err(e),
        }
    }

    /// Searches the counters of `start`'s timestamp upward from `start`'s
    /// counter for the first nonce satisfying this instance's difficulty.
    pub fn mine_from(&self, input: &[u8], start: Nonce) -> (r: Option<u128>)
        ensures
            r == self.first_accepted(input@, spec_time_of(start.value()), spec_counter_of(start.value())),
    {
        let ghost time0 = spec_time_of(start.value());
        let ghost counter0 = spec_counter_of(start.value());
        let mut nonce = start;
        loop
            invariant
                time0 == spec_time_of(start.value()),
                counter0 == spec_counter_of(start.value()),
                spec_time_of(nonce.value()) == time0,
                self.first_accepted(input@, time0, counter0) == self.first_accepted(
                    input@,
                    time0,
                    spec_counter_of(nonce.value()),
                ),
            decreases u64::MAX - spec_counter_of(nonce.value()),
        {
            let (time, counter) = nonce.unpack();
            let candidate = Nonce::pack(time, counter);
            if self.verify(input, candidate) {
                return Some(candidate);
            }
            if counter == u64::MAX {
                return None;
            }
            let _ = nonce.add_assign(1);
            proof {
                crate::nonce::lemma_pack_unpack(time, (counter + 1) as u64);
            }
        }
    }

    /// Checks whether a nonce satisfies this instance's difficulty for the
    /// input: its candidate starts with `n_cost` zero bits. A nonce whose
    /// candidate cannot be evaluated does not satisfy it.
    pub fn verify(&self, input: &[u8], nonce: u128) -> (satisfied: bool)
        ensures
            satisfied == self.accepts(input@, nonce),
    {
        match self.authenticate(input, nonce) {
            Some(candidate) => self.check_n(&candidate),
            None => false,
        }
    }

    /// The candidate of a nonce for an input: the BLAKE3 XOF of
    /// `LE128(nonce) || input` (keyed by the key derived from the context
    /// and the secret when permissioned; regular, behind the key derived
    /// from the context alone, when trustless), run through `e_cost` rounds
    /// of the dependency chain over the memory and hashed with BLAKE3.
    fn authenticate(&self, input: &[u8], nonce: u128) -> (r: Option<[u8; 32]>)
        ensures
            match self.candidate(input@, nonce) {
                Some(s) => r matches Some(c) && c@ == s,
                None => r is None,
            },
    {
        proof {
            use_type_invariant(self);
        }
        let mut message = u128_to_le_bytes(nonce);
        let mut rest = slice_to_vec(input);
        message.append(&mut rest);
        assert(message@ =~= nonce_message(input@, nonce));
        let q = self.params.m_cost() as usize;
        let k = self.params.e_cost() as usize;
        match self.mode {
            Mode::Permissioned => {
                let key = blake3_derive_key_bytes(self.context.as_str(), self.secret.as_slice());
                authenticate_message(&key, message.as_slice(), self.inner.as_slice(), q, k)
            },
            Mode::Trustless => {
                let empty: [u8; 0] = [];
                assert(empty@ =~= Seq::<u8>::empty());
                let prefix = blake3_derive_key_bytes(self.context.as_str(), empty.as_slice());
                let mut full = slice_to_vec(prefix.as_slice());
                full.append(&mut message);
                assert(full@ =~= evaluation_key(Seq::empty(), self.context()) + nonce_message(input@, nonce));
                digest_message(full.as_slice(), self.inner.as_slice(), q, k)
            },
        }
    }

    /// Whether the candidate's first `n_cost` bits are zero: its first
    /// `n_cost / 8` bytes are zero, and the top `n_cost % 8` bits of the
    /// next byte; the bytes are compared in constant time.
    pub fn check_n(&self, candidate: &[u8; 32]) -> (satisfied: bool)
        ensures
            satisfied == meets_difficulty(candidate@, self.params().spec_n_cost() as int),
    {
        proof {
            use_type_invariant(self);
        }
        let n = self.params.n_cost() as u8;
        let bytes = n / 8;
        let bits = n % 8;
        let mut acc: u8 = 1;
        for i in 0..bytes
            invariant
                bytes < 32,
                acc == 0 || acc == 1,
                (acc == 1) == (forall|x: int| 0 <= x < i ==> candidate@[x] == 0),
        {
            let eq = ct_eq_u8(candidate[i as usize], 0u8) as u8;
            assert((acc & eq == 1) == (acc == 1 && eq == 1) && (acc & eq == 0 || acc & eq == 1)) by (bit_vector)
                requires
                    acc == 0 || acc == 1,
                    eq == 0 || eq == 1,
            ;
            acc = acc & eq;
        }
        if bits > 0 {
            let mask = (0xffu32 << (8 - bits as u32)) as u8;
            assert(mask == top_bits_mask(bits));
            let eq = ct_eq_u8(candidate[bytes as usize] & mask, 0u8) as u8;
            assert((acc & eq == 1) == (acc == 1 && eq == 1)) by (bit_vector)
                requires
                    acc == 0 || acc == 1,
                    eq == 0 || eq == 1,
            ;
            acc = acc & eq;
        }
        proof {
            lemma_difficulty_by_bytes(candidate@, n as int);
        }
        acc == 1
    }
}

/// A nonce that mining returns satisfies the difficulty, so `verify`
/// accepts it; it keeps the timestamp it was started at and a counter no
/// lower than the starting one.
pub proof fn lemma_mined_nonce_verifies(tv: &TraverseV, input: Seq<u8>, time: u64, counter: u64, nonce: u128)
    requires
        tv.first_accepted(input, time, counter) == Some(nonce),
    ensures
        tv.accepts(input, nonce),
        spec_time_of(nonce) == time,
        spec_counter_of(nonce) >= counter,
    decreases u64::MAX - counter,
{
    crate::nonce::lemma_pack_unpack(time, counter);
    if !tv.accepts(input, spec_pack(time, counter)) && counter < u64::MAX {
        lemma_mined_nonce_verifies(tv, input, time, (counter + 1) as u64, nonce);
    }
}

/// Two instances with the same secret, application context and parameters
/// give every input and nonce the same verdict, so that a nonce found on
/// one instance is accepted on any other that shares its configuration.
pub proof fn lemma_same_configuration_same_verdict(a: &TraverseV, b: &TraverseV, input: Seq<u8>, nonce: u128)
    requires
        a.well_formed(),
        b.well_formed(),
        a.secret() == b.secret(),
        a.context() == b.context(),
        a.params() == b.params(),
    ensures
        a.accepts(input, nonce) == b.accepts(input, nonce),
{
}

/// An instance built with a single fill pass holds the memory that pass
/// computes: every block `j >= 2` is the compression of block `j - 1` with
/// the reference block that block `j - 1` selects among the blocks before
/// it.
pub proof fn lemma_instance_single_pass(tv: &TraverseV, j: int)
    requires
        tv.well_formed(),
        tv.params().spec_t_cost() == 1,
        2 <= j < tv.params().spec_m_cost(),
    ensures
        spec_reference_index(j - 1, j - 1, block_of(words_of(tv.memory()), j - 1)) < j - 1,
        block_of(words_of(tv.memory()), j) == compression(
            block_of(words_of(tv.memory()), j - 1),
            block_of(
                words_of(tv.memory()),
                spec_reference_index(j - 1, j - 1, block_of(words_of(tv.memory()), j - 1)),
            ),
        ),
{
    let params = tv.params();
    let q = params.spec_m_cost() as int;
    let initial = starting_bytes(tv.secret(), params) + Seq::new(((q - 2) * 1024) as nat, |i: int| 0u8);
    let w0 = words_of(initial);
    lemma_fill_passes_len(w0, q, 1);
    lemma_words_bytes_roundtrip(fill_passes(w0, q, 1));
    assert(tv.memory() == bytes_of(fill_passes(w0, q, 1)));
    assert(w0.len() == q * 128);
    lemma_first_pass_blocks(w0, q, j);
}

/// What the evaluation of a nonce reads: 16 bytes from which the nonce is
/// read back little-endian, then the input itself, so that different
/// inputs, or different nonces, are evaluated from different messages.
pub proof fn lemma_nonce_message_layout(input: Seq<u8>, nonce: u128)
    ensures
        nonce_message(input, nonce).len() == 16 + input.len(),
        spec_u128_from_le_bytes(nonce_message(input, nonce).subrange(0, 16)) == nonce,
        nonce_message(input, nonce).subrange(16, 16 + input.len() as int) == input,
{
    lemma_auto_spec_u128_to_from_le_bytes();
    let m = nonce_message(input, nonce);
    assert(m.subrange(0, 16) =~= spec_u128_to_le_bytes(nonce));
    assert(m.subrange(16, 16 + input.len() as int) =~= input);
}

} // verus!
