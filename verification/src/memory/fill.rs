//! Filling the memory after its two starting blocks (RFC 9106 "Further
//! Block Generation" and "Further Passes"), specialised for a single lane:
//! each block is the compression of its predecessor with a reference block
//! chosen by the predecessor's first word (Argon2d addressing).
use vstd::prelude::*;
use vstd::bytes::{lemma_auto_spec_u64_to_from_le_bytes, spec_u64_to_le_bytes, u64_from_le_bytes, u64_to_le_bytes};
use vstd::slice::slice_subrange;
use crate::common::{BLOCK_SIZE, WORDS};
use crate::compress::{
    bytes_of, compress, compression, lemma_compression_len, lemma_words_bytes_roundtrip, word_at, words_of,
};

verus! {

/// Two to the power of 32.
pub open spec fn two_pow_32() -> int {
    0x1_0000_0000
}

/// Block `i` (128 words) of a memory held as words.
pub open spec fn block_of(mem: Seq<u64>, i: int) -> Seq<u64> {
    mem.subrange(128 * i, 128 * i + 128)
}

/// The memory with block `j` replaced by `b`.
pub open spec fn with_block(mem: Seq<u64>, j: int, b: Seq<u64>) -> Seq<u64> {
    Seq::new(mem.len(), |x: int| if 128 * j <= x < 128 * j + 128 { b[x - 128 * j] } else { mem[x] })
}

/// Index of the block preceding block `j` of pass `pass` in a memory of `q`
/// blocks: the last block when a later pass starts over.
pub open spec fn spec_prev_index(pass: int, j: int, q: int) -> int {
    if pass > 0 && j == 0 {
        q - 1
    } else {
        j - 1
    }
}

/// Size of the candidate set W of reference blocks: the blocks before the
/// predecessor in the first pass, every block but the predecessor later.
pub open spec fn spec_w_len(pass: int, j: int, q: int) -> int {
    if pass == 0 {
        j - 1
    } else {
        q - 1
    }
}

/// J1: the low 32 bits of the first word of the predecessor block.
pub open spec fn spec_j1(prev: Seq<u64>) -> int {
    prev[0] as int % two_pow_32()
}

/// Position within W selected by J1: with `x = J1^2 / 2^32` and
/// `y = |W| * x / 2^32`, the position `|W| - 1 - y`.
pub open spec fn spec_select(w_len: int, j1: int) -> int {
    let x = (j1 * j1) / two_pow_32();
    let y = (w_len * x) / two_pow_32();
    w_len - 1 - y
}

/// The block index that a position within W stands for: W holds every
/// block but the predecessor, in order.
pub open spec fn spec_w_index(prev: int, pos: int) -> int {
    if pos < prev {
        pos
    } else {
        pos + 1
    }
}

/// The reference block chosen by the predecessor block's contents.
pub open spec fn spec_reference_index(prev: int, w_len: int, prev_block: Seq<u64>) -> int {
    spec_w_index(prev, spec_select(w_len, spec_j1(prev_block)))
}

/// Where the fill of pass `pass` starts: block 2 in the first pass (blocks
/// 0 and 1 are the starting blocks), block 0 in later passes.
pub open spec fn pass_start(pass: int) -> int {
    if pass == 0 {
        2
    } else {
        0
    }
}

/// The memory after block `j` of pass `pass` is computed: the compression of
/// the predecessor block with the reference block.
#[verifier::opaque]
pub open spec fn fill_block_spec(mem: Seq<u64>, q: int, pass: int, j: int) -> Seq<u64> {
    let prev = spec_prev_index(pass, j, q);
    let prev_block = block_of(mem, prev);
    let z = spec_reference_index(prev, spec_w_len(pass, j, q), prev_block);
    with_block(mem, j, compression(prev_block, block_of(mem, z)))
}

/// The memory after the blocks of pass `pass` below `n` are computed.
pub open spec fn fill_pass_upto(mem: Seq<u64>, q: int, pass: int, n: int) -> Seq<u64>
    decreases n,
{
    if n <= pass_start(pass) {
        mem
    } else {
        fill_block_spec(fill_pass_upto(mem, q, pass, n - 1), q, pass, n - 1)
    }
}

/// The memory after the first `t` passes.
pub open spec fn fill_passes(mem: Seq<u64>, q: int, t: nat) -> Seq<u64>
    decreases t,
{
    if t == 0 {
        mem
    } else {
        fill_pass_upto(fill_passes(mem, q, (t - 1) as nat), q, t - 1, q)
    }
}

/// The bytes of a memory of `q` blocks after `t` passes of the fill.
pub open spec fn filled_bytes(bytes: Seq<u8>, q: int, t: nat) -> Seq<u8> {
    bytes_of(fill_passes(words_of(bytes), q, t))
}

/// Which arguments the fill accepts: the buffer holds `q` blocks, `q` fits
/// the 32-bit position arithmetic, and a memory of one block is not filled
/// past its first pass (its candidate set would be empty).
pub open spec fn fill_accepts(len: int, q: int, t: int) -> bool {
    &&& len >= q * 1024
    &&& q <= two_pow_32()
    &&& (q == 1 ==> t <= 1)
}

proof fn lemma_fill_pass_upto_len(mem: Seq<u64>, q: int, pass: int, n: int)
    ensures
        fill_pass_upto(mem, q, pass, n).len() == mem.len(),
    decreases n,
{
    reveal(fill_block_spec);
    if n > pass_start(pass) {
        lemma_fill_pass_upto_len(mem, q, pass, n - 1);
    }
}

/// The fill keeps the size of the memory.
pub proof fn lemma_fill_passes_len(mem: Seq<u64>, q: int, t: nat)
    ensures
        fill_passes(mem, q, t).len() == mem.len(),
    decreases t,
{
    if t > 0 {
        lemma_fill_passes_len(mem, q, (t - 1) as nat);
        lemma_fill_pass_upto_len(fill_passes(mem, q, (t - 1) as nat), q, t - 1, q);
    }
}

/// The position selected within a candidate set always lies in it.
pub proof fn lemma_select_in_range(w_len: int, j1: int)
    requires
        1 <= w_len <= two_pow_32(),
        0 <= j1 < two_pow_32(),
    ensures
        0 <= spec_select(w_len, j1) < w_len,
{
    let x = (j1 * j1) / two_pow_32();
    assert(0 <= x < 0x1_0000_0000) by (nonlinear_arith)
        requires
            0 <= j1 < 0x1_0000_0000,
            x == (j1 * j1) / 0x1_0000_0000,
    ;
    let y = (w_len * x) / two_pow_32();
    assert(0 <= y < w_len) by (nonlinear_arith)
        requires
            1 <= w_len,
            0 <= x < 0x1_0000_0000,
            y == (w_len * x) / 0x1_0000_0000,
    ;
}

/// Where a block's predecessor and reference lie: both within the memory,
/// the reference never the predecessor, and in the first pass the reference
/// lies before the predecessor.
pub proof fn lemma_reference_in_range(pass: int, j: int, q: int, prev_block: Seq<u64>)
    requires
        2 <= q <= two_pow_32(),
        0 <= j < q,
        0 <= pass,
        pass == 0 ==> j >= 2,
    ensures
        0 <= spec_prev_index(pass, j, q) < q,
        0 <= spec_reference_index(spec_prev_index(pass, j, q), spec_w_len(pass, j, q), prev_block) < q,
        spec_reference_index(spec_prev_index(pass, j, q), spec_w_len(pass, j, q), prev_block)
            != spec_prev_index(pass, j, q),
        pass == 0 ==> spec_reference_index(spec_prev_index(pass, j, q), spec_w_len(pass, j, q), prev_block)
            < spec_prev_index(pass, j, q),
{
    lemma_select_in_range(spec_w_len(pass, j, q), spec_j1(prev_block));
}

proof fn lemma_with_block_block(mem: Seq<u64>, j: int, b: Seq<u64>, i: int)
    requires
        0 <= i,
        0 <= j,
        128 * i + 128 <= mem.len(),
        128 * j + 128 <= mem.len(),
        b.len() == 128,
    ensures
        block_of(with_block(mem, j, b), i) == if i == j {
            b
        } else {
            block_of(mem, i)
        },
{
    if i == j {
        assert(block_of(with_block(mem, j, b), i) =~= b);
    } else {
        assert(block_of(with_block(mem, j, b), i) =~= block_of(mem, i));
    }
}

/// Block `j` of a pass as the pass computes it, from the memory `after`
/// the pass (blocks already computed in it) and the memory `before` it
/// (blocks not yet computed): the compression of the predecessor with the
/// reference block.
pub open spec fn computed_block(before: Seq<u64>, after: Seq<u64>, q: int, pass: int, j: int) -> Seq<u64> {
    let p = if j == 0 {
        block_of(before, q - 1)
    } else {
        block_of(after, j - 1)
    };
    let z = spec_reference_index(spec_prev_index(pass, j, q), spec_w_len(pass, j, q), p);
    compression(p, block_of(if z < j { after } else { before }, z))
}

proof fn lemma_pass_upto_blocks(b: Seq<u64>, q: int, pass: int, n: int)
    requires
        b.len() == q * 128,
        2 <= q <= two_pow_32(),
        0 <= pass,
        pass_start(pass) <= n <= q,
    ensures
        fill_pass_upto(b, q, pass, n).len() == b.len(),
        forall|j: int| n <= j < q ==> #[trigger] block_of(fill_pass_upto(b, q, pass, n), j) == block_of(b, j),
        pass == 0 ==> block_of(fill_pass_upto(b, q, pass, n), 0) == block_of(b, 0) && block_of(
            fill_pass_upto(b, q, pass, n),
            1,
        ) == block_of(b, 1),
        forall|j: int|
            pass_start(pass) <= j < n ==> block_of(fill_pass_upto(b, q, pass, n), j)
                == #[trigger] computed_block(b, fill_pass_upto(b, q, pass, n), q, pass, j),
    decreases n,
{
    lemma_fill_pass_upto_len(b, q, pass, n);
    if n > pass_start(pass) {
        let m = n - 1;
        lemma_pass_upto_blocks(b, q, pass, m);
        let u = fill_pass_upto(b, q, pass, m);
        let u2 = fill_pass_upto(b, q, pass, n);
        reveal(fill_block_spec);
        let prev = spec_prev_index(pass, m, q);
        let pb = block_of(u, prev);
        let z = spec_reference_index(prev, spec_w_len(pass, m, q), pb);
        lemma_reference_in_range(pass, m, q, pb);
        assert(block_of(u, prev).len() == 128 && block_of(u, z).len() == 128);
        lemma_compression_len(pb, block_of(u, z));
        let c = compression(pb, block_of(u, z));
        assert(u2 == with_block(u, m, c));
        assert forall|i: int| 0 <= i < q implies #[trigger] block_of(u2, i) == if i == m {
            c
        } else {
            block_of(u, i)
        } by {
            lemma_with_block_block(u, m, c, i);
        }
        // The new block, as the law states it.
        assert(block_of(u2, m) == computed_block(b, u2, q, pass, m)) by {
            if m == 0 {
                assert(pb == block_of(b, q - 1));
            } else {
                assert(block_of(u2, m - 1) == pb);
            }
            if z < m {
                assert(block_of(u2, z) == block_of(u, z));
            } else {
                assert(block_of(u, z) == block_of(b, z));
            }
        }
        assert forall|j: int| pass_start(pass) <= j < n implies block_of(u2, j) == #[trigger] computed_block(
            b,
            u2,
            q,
            pass,
            j,
        ) by {
            if j < m {
                assert(block_of(u2, j) == block_of(u, j));
                assert(block_of(u, j) == computed_block(b, u, q, pass, j));
                let p = if j == 0 {
                    block_of(b, q - 1)
                } else {
                    block_of(u, j - 1)
                };
                if j > 0 {
                    assert(block_of(u2, j - 1) == block_of(u, j - 1));
                }
                let zj = spec_reference_index(spec_prev_index(pass, j, q), spec_w_len(pass, j, q), p);
                lemma_reference_in_range(pass, j, q, p);
                if zj < j {
                    assert(block_of(u2, zj) == block_of(u, zj));
                }
            }
        }
    }
}

proof fn lemma_fill_passes_step(mem: Seq<u64>, q: int, t: nat)
    requires
        t >= 1,
    ensures
        fill_passes(mem, q, t) == fill_pass_upto(fill_passes(mem, q, (t - 1) as nat), q, t - 1, q),
{
}

/// The first pass keeps the two starting blocks and computes every later
/// block `j` as the compression of block `j - 1` with a reference block
/// that block `j - 1` selects among the blocks before it.
pub proof fn lemma_first_pass_blocks(mem: Seq<u64>, q: int, j: int)
    requires
        mem.len() == q * 128,
        2 <= q <= two_pow_32(),
        2 <= j < q,
    ensures
        block_of(fill_passes(mem, q, 1), 0) == block_of(mem, 0),
        block_of(fill_passes(mem, q, 1), 1) == block_of(mem, 1),
        spec_reference_index(j - 1, j - 1, block_of(fill_passes(mem, q, 1), j - 1)) < j - 1,
        block_of(fill_passes(mem, q, 1), j) == compression(
            block_of(fill_passes(mem, q, 1), j - 1),
            block_of(
                fill_passes(mem, q, 1),
                spec_reference_index(j - 1, j - 1, block_of(fill_passes(mem, q, 1), j - 1)),
            ),
        ),
{
    lemma_fill_passes_step(mem, q, 1);
    assert(fill_passes(mem, q, 0) == mem);
    lemma_pass_upto_blocks(mem, q, 0, q);
    let f = fill_passes(mem, q, 1);
    lemma_reference_in_range(0, j, q, block_of(f, j - 1));
    assert(block_of(f, j) == computed_block(mem, f, q, 0, j));
}

/// Every pass after the first recomputes every block: block 0 as the
/// compression of the last block left by the previous pass with its
/// reference block in that memory, and each block `j > 0` from block
/// `j - 1` of this pass and a reference block taken from this pass if it
/// lies before `j`, from the previous pass otherwise.
#[verifier::spinoff_prover]
pub proof fn lemma_later_pass_blocks(mem: Seq<u64>, q: int, t: nat, j: int)
    requires
        mem.len() == q * 128,
        2 <= q <= two_pow_32(),
        t >= 2,
        0 <= j < q,
    ensures
        block_of(fill_passes(mem, q, t), j) == computed_block(
            fill_passes(mem, q, (t - 1) as nat),
            fill_passes(mem, q, t),
            q,
            t - 1,
            j,
        ),
        block_of(fill_passes(mem, q, t), 0) == compression(
            block_of(fill_passes(mem, q, (t - 1) as nat), q - 1),
            block_of(
                fill_passes(mem, q, (t - 1) as nat),
                spec_reference_index(q - 1, q - 1, block_of(fill_passes(mem, q, (t - 1) as nat), q - 1)),
            ),
        ),
{
    let before = fill_passes(mem, q, (t - 1) as nat);
    lemma_fill_passes_len(mem, q, (t - 1) as nat);
    lemma_fill_passes_step(mem, q, t);
    lemma_pass_upto_blocks(before, q, t - 1, q);
    let f = fill_passes(mem, q, t);
    assert(block_of(f, j) == computed_block(before, f, q, t - 1, j));
    assert(block_of(f, 0) == computed_block(before, f, q, t - 1, 0));
    lemma_reference_in_range(t - 1, 0, q, block_of(before, q - 1));
}

proof fn lemma_filled_words(bytes: Seq<u8>, q: int, t: nat)
    requires
        bytes.len() == q * 1024,
        q >= 0,
    ensures
        words_of(bytes).len() == q * 128,
        words_of(filled_bytes(bytes, q, t)) == fill_passes(words_of(bytes), q, t),
{
    assert((q * 1024) / 8 == q * 128) by (nonlinear_arith);
    lemma_words_bytes_roundtrip(fill_passes(words_of(bytes), q, t));
}

/// What one pass of `fill` leaves: the two starting blocks as they were,
/// and each block `j >= 2` the compression of block `j - 1` with the
/// reference block that block `j - 1` selects among the blocks before it.
pub proof fn lemma_fill_first_pass(bytes: Seq<u8>, q: int, j: int)
    requires
        bytes.len() == q * 1024,
        2 <= q <= two_pow_32(),
        2 <= j < q,
    ensures
        block_of(words_of(filled_bytes(bytes, q, 1)), 0) == block_of(words_of(bytes), 0),
        block_of(words_of(filled_bytes(bytes, q, 1)), 1) == block_of(words_of(bytes), 1),
        spec_reference_index(j - 1, j - 1, block_of(words_of(filled_bytes(bytes, q, 1)), j - 1)) < j - 1,
        block_of(words_of(filled_bytes(bytes, q, 1)), j) == compression(
            block_of(words_of(filled_bytes(bytes, q, 1)), j - 1),
            block_of(
                words_of(filled_bytes(bytes, q, 1)),
                spec_reference_index(j - 1, j - 1, block_of(words_of(filled_bytes(bytes, q, 1)), j - 1)),
            ),
        ),
{
    lemma_filled_words(bytes, q, 1);
    lemma_first_pass_blocks(words_of(bytes), q, j);
}

/// How `t` passes of `fill` relate to `t - 1` passes, for `t >= 2`: the
/// last pass recomputes block 0 from the last block of the previous pass
/// and its reference block there, and every block `j` as [computed_block]
/// states.
pub proof fn lemma_fill_later_pass(bytes: Seq<u8>, q: int, t: nat, j: int)
    requires
        bytes.len() == q * 1024,
        2 <= q <= two_pow_32(),
        t >= 2,
        0 <= j < q,
    ensures
        block_of(words_of(filled_bytes(bytes, q, t)), 0) == compression(
            block_of(words_of(filled_bytes(bytes, q, (t - 1) as nat)), q - 1),
            block_of(
                words_of(filled_bytes(bytes, q, (t - 1) as nat)),
                spec_reference_index(
                    q - 1,
                    q - 1,
                    block_of(words_of(filled_bytes(bytes, q, (t - 1) as nat)), q - 1),
                ),
            ),
        ),
        block_of(words_of(filled_bytes(bytes, q, t)), j) == computed_block(
            words_of(filled_bytes(bytes, q, (t - 1) as nat)),
            words_of(filled_bytes(bytes, q, t)),
            q,
            t - 1,
            j,
        ),
{
    lemma_filled_words(bytes, q, t);
    lemma_filled_words(bytes, q, (t - 1) as nat);
    lemma_later_pass_blocks(words_of(bytes), q, t, j);
}

/// Index of the block immediately preceding the one being computed.
pub fn prev_index(pass: usize, j: usize, q: usize) -> (r: usize)
    requires
        pass > 0 && j == 0 ==> q >= 1,
        pass == 0 || j != 0 ==> j >= 1,
    ensures
        r == spec_prev_index(pass as int, j as int, q as int),
{
    if pass > 0 && j == 0 {
        q - 1
    } else {
        j - 1
    }
}

/// Size of the candidate set W of reference blocks.
pub fn w_len(pass: usize, j: usize, q: usize) -> (r: usize)
    requires
        pass == 0 ==> j >= 1,
        pass != 0 ==> q >= 1,
    ensures
        r == spec_w_len(pass as int, j as int, q as int),
{
    if pass == 0 {
        j - 1
    } else {
        q - 1
    }
}

/// J1 of Argon2d: the low 32 bits of the predecessor's first word.
pub fn j1(prev: &[u64; WORDS]) -> (r: u32)
    ensures
        r == spec_j1(prev@),
{
    let w = prev[0];
    let r = w as u32;
    assert(r == w % 0x1_0000_0000) by (bit_vector)
        requires
            r == w as u32,
    ;
    r
}

/// Position within the candidate set W selected by J1; it always lies in W.
pub fn select(w_len: usize, j1: u32) -> (r: usize)
    requires
        1 <= w_len <= two_pow_32(),
    ensures
        r == spec_select(w_len as int, j1 as int),
        r < w_len,
{
    let j = j1 as u64;
    assert(j * j <= 0xffff_ffff * 0xffff_ffff) by (nonlinear_arith)
        requires
            j <= 0xffff_ffff,
    ;
    let sq: u64 = j * j;
    let x: u64 = sq >> 32;
    assert(x == sq / 0x1_0000_0000 && x < 0x1_0000_0000) by (bit_vector)
        requires
            x == sq >> 32,
    ;
    let len = w_len as u64;
    assert(len * x <= 0x1_0000_0000 * 0xffff_ffff) by (nonlinear_arith)
        requires
            len <= 0x1_0000_0000,
            x < 0x1_0000_0000,
    ;
    let p: u64 = len * x;
    let y: u64 = p >> 32;
    assert(y == p / 0x1_0000_0000) by (bit_vector)
        requires
            y == p >> 32,
    ;
    assert(y < len) by (nonlinear_arith)
        requires
            y == (len * x) / 0x1_0000_0000,
            x < 0x1_0000_0000,
            len >= 1,
    ;
    w_len - 1 - (y as usize)
}

/// Translates a position within W into the block index it stands for.
pub fn w_index(prev: usize, pos: usize) -> (r: usize)
    requires
        pos < usize::MAX,
    ensures
        r == spec_w_index(prev as int, pos as int),
        r != prev,
{
    if pos < prev {
        pos
    } else {
        pos + 1
    }
}

/// Reference block index chosen by the predecessor's contents. In the first
/// pass (`len == prev`) it lies before the predecessor; later it lies in
/// the memory (`len == q - 1`, `prev < q`) and is never the predecessor.
pub fn reference_index(prev: usize, len: usize, prev_words: &[u64; WORDS]) -> (r: usize)
    requires
        1 <= len <= two_pow_32(),
    ensures
        r == spec_reference_index(prev as int, len as int, prev_words@),
        r != prev,
        r <= len,
        len == prev ==> r < prev,
{
    let pos = select(len, j1(prev_words));
    w_index(prev, pos)
}

/// Reads block `i` of a memory held as words.
fn read_block(v: &[u64], i: usize) -> (b: [u64; WORDS])
    requires
        128 * i + 128 <= v.len(),
    ensures
        b@ == block_of(v@, i as int),
{
    let mut b = [0u64; 128];
    for k in 0..128
        invariant
            128 * i + 128 <= v.len(),
            forall|x: int| 0 <= x < k ==> b[x] == v@[128 * i + x],
    {
        b[k] = v[128 * i + k];
    }
    assert(b@ =~= block_of(v@, i as int));
    b
}

/// Computes block `j` of pass `pass` as the compression of the block at
/// [prev_index] with the block at [reference_index]; the block is always
/// overwritten. Words past the first `q` blocks are left as they are.
pub fn fill_block(v: &mut [u64], q: usize, pass: usize, j: usize)
    requires
        old(v)@.len() >= q * 128,
        j < q,
        q <= two_pow_32(),
        pass == 0 ==> j >= 2,
        pass != 0 ==> q >= 2,
    ensures
        final(v)@ == fill_block_spec(old(v)@, q as int, pass as int, j as int),
        final(v)@.len() == old(v)@.len(),
{
    let prev = prev_index(pass, j, q);
    let prev_words = read_block(v, prev);
    let len = w_len(pass, j, q);
    let z = reference_index(prev, len, &prev_words);
    let ref_words = read_block(v, z);
    let result = compress(&prev_words, &ref_words);
    let ghost start = v@;
    let total = v.len();
    for k in 0..128
        invariant
            j < q,
            total == v@.len(),
            v@.len() == start.len(),
            start.len() >= q * 128,
            forall|x: int| 0 <= x < 128 * j ==> v@[x] == start[x],
            forall|x: int| 128 * j + k <= x < start.len() ==> v@[x] == start[x],
            forall|x: int| 0 <= x < k ==> v@[128 * j + x] == result[x],
    {
        v[128 * j + k] = result[k];
    }
    assert(v@ =~= with_block(start, j as int, result@));
    reveal(fill_block_spec);
}

/// Fills every block of the memory after the two starting blocks, over `t`
/// passes (RFC 9106 Further Block Generation and Further Passes) for a
/// single lane. Bytes past the first `q` blocks are left as they are.
pub fn fill(v: &mut [u8], q: usize, t: usize)
    requires
        fill_accepts(old(v).len() as int, q as int, t as int),
    ensures
        final(v)@ == filled_bytes(old(v)@.subrange(0, q * 1024), q as int, t as nat)
            + old(v)@.subrange(q * 1024, old(v)@.len() as int),
{
    let ghost start = v@;
    let total = v.len();
    assert(q * 128 <= q * 1024) by (nonlinear_arith);
    let n = q * 128;
    let mut words: Vec<u64> = Vec::new();
    for i in 0..n
        invariant
            n == q * 128,
            v@ == start,
            start.len() >= q * 1024,
            total == start.len(),
            words.len() == i,
            forall|x: int| 0 <= x < i ==> words@[x] == word_at(start, x),
    {
        assert(i * 8 + 8 <= q * 1024) by (nonlinear_arith)
            requires
                i < q * 128,
        ;
        let chunk = slice_subrange(&*v, i * 8, i * 8 + 8);
        words.push(u64_from_le_bytes(chunk));
    }
    let ghost prefix = start.subrange(0, q * 1024);
    let ghost initial = words_of(prefix);
    assert((q * 1024) / 8 == q * 128) by (nonlinear_arith);
    assert(initial.len() == n);
    assert forall|x: int| 0 <= x < n implies words@[x] == #[trigger] initial[x] by {
        assert(8 * x + 8 <= q * 1024) by (nonlinear_arith)
            requires
                x < q * 128,
        ;
        assert(prefix.subrange(8 * x, 8 * x + 8) =~= start.subrange(8 * x, 8 * x + 8));
        assert(words@[x] == word_at(start, x));
        assert(word_at(prefix, x) == word_at(start, x));
        assert(initial[x] == word_at(prefix, x));
    }
    assert(words@ =~= initial);
    for pass in 0..t
        invariant
            fill_accepts(start.len() as int, q as int, t as int),
            words@ == fill_passes(initial, q as int, pass as nat),
            words.len() == q * 128,
            initial.len() == q * 128,
    {
        let begin: usize = if pass == 0 { 2 } else { 0 };
        let mut j = begin;
        while j < q
            invariant
                fill_accepts(start.len() as int, q as int, t as int),
                pass < t,
                begin == pass_start(pass as int),
                begin <= j,
                j <= q || j == begin,
                words.len() == q * 128,
                words@ == fill_pass_upto(fill_passes(initial, q as int, pass as nat), q as int, pass as int, j as int),
            decreases q - j,
        {
            fill_block(words.as_mut_slice(), q, pass, j);
            j += 1;
        }
        assert(fill_pass_upto(fill_passes(initial, q as int, pass as nat), q as int, pass as int, j as int)
            == fill_pass_upto(fill_passes(initial, q as int, pass as nat), q as int, pass as int, q as int));
    }
    let ghost fin = words@;
    proof {
        lemma_auto_spec_u64_to_from_le_bytes();
    }
    for i in 0..n
        invariant
            n == q * 128,
            words@ == fin,
            fin.len() == n,
            v.len() == start.len(),
            start.len() >= q * 1024,
            forall|k: int| 0 <= k < 8 * i ==> v@[k] == spec_u64_to_le_bytes(fin[k / 8])[k % 8],
            forall|k: int| 8 * i <= k < start.len() ==> v@[k] == start[k],
    {
        let le = u64_to_le_bytes(words[i]);
        for b in 0..8
            invariant
                i < n,
                n == q * 128,
                v.len() == start.len(),
                start.len() >= q * 1024,
                le@ == spec_u64_to_le_bytes(fin[i as int]),
                le@.len() == 8,
                forall|k: int| 0 <= k < 8 * i + b ==> v@[k] == spec_u64_to_le_bytes(fin[k / 8])[k % 8],
                forall|k: int| 8 * i + b <= k < start.len() ==> v@[k] == start[k],
        {
            v[8 * i + b] = le[b];
            assert((8 * i + b) / 8 == i && (8 * i + b) % 8 == b) by (nonlinear_arith)
                requires
                    b < 8,
            ;
        }
    }
    assert(v@ =~= bytes_of(fin) + start.subrange(q * 1024, start.len() as int));
}

} // verus!
