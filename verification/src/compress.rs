//! The Argon2 compression function G (RFC 9106, section 3.5), built on the
//! BLAKE2b-based permutation P, and the little-endian conversions between a
//! block of bytes and a block of 64-bit words.
use vstd::prelude::*;
use vstd::bytes::{
    lemma_auto_spec_u64_to_from_le_bytes, spec_u64_from_le_bytes, spec_u64_to_le_bytes,
    u64_from_le_bytes, u64_to_le_bytes,
};
use vstd::slice::slice_subrange;
use crate::common::{BLOCK_SIZE, WORDS};

verus! {

/// Mask of the low 32 bits of a word.
pub const TRUNC: u64 = 0xffff_ffff;

/// Two to the power of 64, the modulus of word arithmetic.
pub open spec fn word_modulus() -> int {
    0x1_0000_0000_0000_0000
}

/// The multiply-add of BLAKE2b's "BlaMka" variant:
/// `a + b + 2 * lo32(a) * lo32(b)` modulo 2^64.
pub open spec fn blamka(a: u64, b: u64) -> u64 {
    ((a as int + b as int + 2 * (((a & TRUNC) as int) * ((b & TRUNC) as int))) % word_modulus()) as u64
}

/// Rotation of a word to the right by `n` bits, `0 < n < 64`.
pub open spec fn rotr(x: u64, n: u64) -> u64 {
    (x >> n) | (x << ((64 - n) as u64))
}

/// The quarter-round G of the permutation P on four words.
pub open spec fn quarter(a: u64, b: u64, c: u64, d: u64) -> (u64, u64, u64, u64) {
    let a1 = blamka(a, b);
    let d1 = rotr(d ^ a1, 32);
    let c1 = blamka(c, d1);
    let b1 = rotr(b ^ c1, 24);
    let a2 = blamka(a1, b1);
    let d2 = rotr(d1 ^ a2, 16);
    let c2 = blamka(c1, d2);
    let b2 = rotr(b1 ^ c2, 63);
    (a2, b2, c2, d2)
}

/// The quarter-round applied at positions `i, j, k, l` of a sequence.
pub open spec fn quarter_at(v: Seq<u64>, i: int, j: int, k: int, l: int) -> Seq<u64> {
    let r = quarter(v[i], v[j], v[k], v[l]);
    v.update(i, r.0).update(j, r.1).update(k, r.2).update(l, r.3)
}

/// The permutation P on sixteen words: four column steps, then four
/// diagonal steps.
pub open spec fn permutation(v: Seq<u64>) -> Seq<u64> {
    let v = quarter_at(v, 0, 4, 8, 12);
    let v = quarter_at(v, 1, 5, 9, 13);
    let v = quarter_at(v, 2, 6, 10, 14);
    let v = quarter_at(v, 3, 7, 11, 15);
    let v = quarter_at(v, 0, 5, 10, 15);
    let v = quarter_at(v, 1, 6, 11, 12);
    let v = quarter_at(v, 2, 7, 8, 13);
    quarter_at(v, 3, 4, 9, 14)
}

/// The sixteen words of a block at the given positions.
pub open spec fn gather(s: Seq<u64>, idx: Seq<int>) -> Seq<u64> {
    Seq::new(16, |m: int| s[idx[m]])
}

/// The block with the first `n` given positions overwritten by `vals`.
pub open spec fn scatter(s: Seq<u64>, idx: Seq<int>, vals: Seq<u64>, n: nat) -> Seq<u64>
    decreases n,
{
    if n == 0 {
        s
    } else {
        scatter(s, idx, vals, (n - 1) as nat).update(idx[n - 1], vals[n - 1])
    }
}

/// P applied to the sixteen words of a block at the given positions.
pub open spec fn permute_at(s: Seq<u64>, idx: Seq<int>) -> Seq<u64> {
    scatter(s, idx, permutation(gather(s, idx)), 16)
}

/// Positions of the `k`-th row of the 8x8 matrix of 16-byte registers.
pub open spec fn row_indices(k: int) -> Seq<int> {
    Seq::new(16, |m: int| 16 * k + m)
}

/// Positions of the `i`-th column of the 8x8 matrix of 16-byte registers.
pub open spec fn column_indices(i: int) -> Seq<int> {
    Seq::new(16, |m: int| 2 * i + m % 2 + 16 * (m / 2))
}

/// P applied to the first `n` rows, in order.
pub open spec fn permute_rows(s: Seq<u64>, n: nat) -> Seq<u64>
    decreases n,
{
    if n == 0 {
        s
    } else {
        permute_at(permute_rows(s, (n - 1) as nat), row_indices(n - 1))
    }
}

/// P applied to the first `n` columns, in order.
pub open spec fn permute_columns(s: Seq<u64>, n: nat) -> Seq<u64>
    decreases n,
{
    if n == 0 {
        s
    } else {
        permute_at(permute_columns(s, (n - 1) as nat), column_indices(n - 1))
    }
}

/// Word-wise exclusive or of two blocks.
pub open spec fn xor_words(a: Seq<u64>, b: Seq<u64>) -> Seq<u64> {
    Seq::new(a.len(), |i: int| a[i] ^ b[i])
}

/// The compression function G: with `R = X xor Y`, P applied row-wise then
/// column-wise to R, xor R.
pub open spec fn compression(x: Seq<u64>, y: Seq<u64>) -> Seq<u64> {
    let r = xor_words(x, y);
    xor_words(permute_columns(permute_rows(r, 8), 8), r)
}

/// The word whose little-endian bytes start at `8 * i` in `bytes`.
pub open spec fn word_at(bytes: Seq<u8>, i: int) -> u64 {
    spec_u64_from_le_bytes(bytes.subrange(8 * i, 8 * i + 8))
}

/// A byte string read as consecutive little-endian 64-bit words.
pub open spec fn words_of(bytes: Seq<u8>) -> Seq<u64> {
    Seq::new(bytes.len() / 8, |i: int| word_at(bytes, i))
}

/// Words written out as consecutive little-endian bytes.
pub open spec fn bytes_of(words: Seq<u64>) -> Seq<u8> {
    Seq::new(words.len() * 8, |k: int| spec_u64_to_le_bytes(words[k / 8])[k % 8])
}

fn blamka_exec(a: u64, b: u64) -> (r: u64)
    ensures
        r == blamka(a, b),
{
    let x = a & TRUNC;
    let y = b & TRUNC;
    assert(x <= TRUNC && y <= TRUNC) by (bit_vector)
        requires
            x == a & TRUNC,
            y == b & TRUNC,
    ;
    assert(x * y <= 0xffff_ffff * 0xffff_ffff) by (nonlinear_arith)
        requires
            x <= 0xffff_ffff,
            y <= 0xffff_ffff,
    ;
    let p: u128 = (x as u128) * (y as u128);
    let s: u128 = a as u128 + b as u128 + 2 * p;
    let m: u128 = s % 0x1_0000_0000_0000_0000u128;
    assert(s as int == a as int + b as int + 2 * (((a & TRUNC) as int) * ((b & TRUNC) as int)));
    assert(m as int == (s as int) % word_modulus());
    assert(m < 0x1_0000_0000_0000_0000);
    m as u64
}

fn rotr_exec(x: u64, n: u64) -> (r: u64)
    requires
        0 < n < 64,
    ensures
        r == rotr(x, n),
{
    (x >> n) | (x << (64 - n))
}

fn quarter_exec(a: u64, b: u64, c: u64, d: u64) -> (r: (u64, u64, u64, u64))
    ensures
        r == quarter(a, b, c, d),
{
    let a1 = blamka_exec(a, b);
    let d1 = rotr_exec(d ^ a1, 32);
    let c1 = blamka_exec(c, d1);
    let b1 = rotr_exec(b ^ c1, 24);
    let a2 = blamka_exec(a1, b1);
    let d2 = rotr_exec(d1 ^ a2, 16);
    let c2 = blamka_exec(c1, d2);
    let b2 = rotr_exec(b1 ^ c2, 63);
    (a2, b2, c2, d2)
}

fn quarter_at_exec(v: &mut [u64; 16], i: usize, j: usize, k: usize, l: usize)
    requires
        i < 16,
        j < 16,
        k < 16,
        l < 16,
    ensures
        final(v)@ == quarter_at(old(v)@, i as int, j as int, k as int, l as int),
{
    let r = quarter_exec(v[i], v[j], v[k], v[l]);
    v[i] = r.0;
    v[j] = r.1;
    v[k] = r.2;
    v[l] = r.3;
}

fn permutation_exec(v: &mut [u64; 16])
    ensures
        final(v)@ == permutation(old(v)@),
{
    quarter_at_exec(v, 0, 4, 8, 12);
    quarter_at_exec(v, 1, 5, 9, 13);
    quarter_at_exec(v, 2, 6, 10, 14);
    quarter_at_exec(v, 3, 7, 11, 15);
    quarter_at_exec(v, 0, 5, 10, 15);
    quarter_at_exec(v, 1, 6, 11, 12);
    quarter_at_exec(v, 2, 7, 8, 13);
    quarter_at_exec(v, 3, 4, 9, 14);
}

/// Applies P in place to the sixteen words of `q` at the positions `idx`.
fn permute_at_exec(q: &mut [u64; 128], idx: &[usize; 16])
    requires
        forall|m: int| 0 <= m < 16 ==> idx[m] < 128,
    ensures
        final(q)@ == permute_at(old(q)@, Seq::new(16, |m: int| idx[m] as int)),
{
    let ghost positions = Seq::new(16, |m: int| idx[m] as int);
    let ghost start = q@;
    let mut v = [0u64; 16];
    for m in 0..16
        invariant
            forall|x: int| 0 <= x < m ==> v[x] == start[positions[x]],
            forall|x: int| 0 <= x < 16 ==> idx[x] < 128,
            q@ == start,
            positions == Seq::new(16, |m: int| idx[m] as int),
    {
        v[m] = q[idx[m]];
    }
    assert(v@ =~= gather(start, positions));
    permutation_exec(&mut v);
    let ghost vals = v@;
    assert(vals == permutation(gather(start, positions)));
    for m in 0..16
        invariant
            q@ == scatter(start, positions, vals, m as nat),
            v@ == vals,
            forall|x: int| 0 <= x < 16 ==> idx[x] < 128,
            positions == Seq::new(16, |m: int| idx[m] as int),
            start.len() == 128,
    {
        proof {
            lemma_scatter_len(start, positions, vals, m as nat);
        }
        q[idx[m]] = v[m];
    }
}

proof fn lemma_scatter_len(s: Seq<u64>, idx: Seq<int>, vals: Seq<u64>, n: nat)
    requires
        n <= idx.len(),
        forall|m: int| 0 <= m < n ==> 0 <= #[trigger] idx[m] < s.len(),
    ensures
        scatter(s, idx, vals, n).len() == s.len(),
    decreases n,
{
    if n > 0 {
        lemma_scatter_len(s, idx, vals, (n - 1) as nat);
    }
}

proof fn lemma_permute_rows_len(s: Seq<u64>, n: nat)
    requires
        s.len() == 128,
        n <= 8,
    ensures
        permute_rows(s, n).len() == 128,
    decreases n,
{
    if n > 0 {
        lemma_permute_rows_len(s, (n - 1) as nat);
        let k = n - 1;
        lemma_scatter_len(
            permute_rows(s, (n - 1) as nat),
            row_indices(k),
            permutation(gather(permute_rows(s, (n - 1) as nat), row_indices(k))),
            16,
        );
    }
}

proof fn lemma_permute_columns_len(s: Seq<u64>, n: nat)
    requires
        s.len() == 128,
        n <= 8,
    ensures
        permute_columns(s, n).len() == 128,
    decreases n,
{
    if n > 0 {
        lemma_permute_columns_len(s, (n - 1) as nat);
        let i = n - 1;
        assert forall|m: int| 0 <= m < 16 implies 0 <= #[trigger] column_indices(i)[m] < 128 by {
            assert(m / 2 <= 7);
        }
        lemma_scatter_len(
            permute_columns(s, (n - 1) as nat),
            column_indices(i),
            permutation(gather(permute_columns(s, (n - 1) as nat), column_indices(i))),
            16,
        );
    }
}

/// The compression of two blocks is a block.
pub proof fn lemma_compression_len(x: Seq<u64>, y: Seq<u64>)
    requires
        x.len() == 128,
        y.len() == 128,
    ensures
        compression(x, y).len() == 128,
{
    let r = xor_words(x, y);
    lemma_permute_rows_len(r, 8);
    lemma_permute_columns_len(permute_rows(r, 8), 8);
}

/// Compression function G of RFC 9106 built upon the BLAKE2b-based
/// transformation P: the result is `P_columns(P_rows(R)) xor R` with
/// `R = rhs xor lhs`.
pub fn compress(rhs: &[u64; WORDS], lhs: &[u64; WORDS]) -> (out: [u64; WORDS])
    ensures
        out@ == compression(rhs@, lhs@),
{
    let mut r = [0u64; 128];
    for i in 0..128
        invariant
            forall|x: int| 0 <= x < i ==> r[x] == rhs[x] ^ lhs[x],
    {
        r[i] = rhs[i] ^ lhs[i];
    }
    let ghost r0 = r@;
    assert(r0 =~= xor_words(rhs@, lhs@));
    let mut q = r;
    let mut k: usize = 0;
    while k < 8
        invariant
            k <= 8,
            q@ == permute_rows(r0, k as nat),
        decreases 8 - k,
    {
        let mut idx = [0usize; 16];
        for m in 0..16
            invariant
                k < 8,
                forall|x: int| 0 <= x < m ==> idx[x] == 16 * k + x,
        {
            idx[m] = 16 * k + m;
        }
        permute_at_exec(&mut q, &idx);
        assert(Seq::new(16, |m: int| idx[m] as int) =~= row_indices(k as int));
        k += 1;
    }
    let mut i: usize = 0;
    while i < 8
        invariant
            i <= 8,
            q@ == permute_columns(permute_rows(r0, 8), i as nat),
        decreases 8 - i,
    {
        let mut idx = [0usize; 16];
        for m in 0..16
            invariant
                i < 8,
                forall|x: int| 0 <= x < m ==> idx[x] == 2 * i + x % 2 + 16 * (x / 2),
        {
            idx[m] = 2 * i + m % 2 + 16 * (m / 2);
        }
        permute_at_exec(&mut q, &idx);
        assert(Seq::new(16, |m: int| idx[m] as int) =~= column_indices(i as int));
        i += 1;
    }
    let ghost p = q@;
    for x in 0..128
        invariant
            forall|y: int| 0 <= y < x ==> q[y] == p[y] ^ r0[y],
            forall|y: int| x <= y < 128 ==> q[y] == p[y],
            r@ == r0,
    {
        q[x] = q[x] ^ r[x];
    }
    assert(q@ =~= xor_words(p, r0));
    q
}

/// Reads a block of bytes as 128 little-endian 64-bit words.
pub fn bytes_to_words(bytes: &[u8; BLOCK_SIZE]) -> (words: [u64; WORDS])
    ensures
        words@ == words_of(bytes@),
{
    let mut words = [0u64; 128];
    for i in 0..128
        invariant
            forall|x: int| 0 <= x < i ==> words[x] == word_at(bytes@, x),
    {
        let chunk = slice_subrange(bytes.as_slice(), i * 8, i * 8 + 8);
        words[i] = u64_from_le_bytes(chunk);
    }
    assert(words@ =~= words_of(bytes@));
    words
}

/// Writes a block of 128 words as little-endian bytes.
pub fn words_to_bytes(words: &[u64; WORDS]) -> (bytes: [u8; BLOCK_SIZE])
    ensures
        bytes@ == bytes_of(words@),
{
    let mut bytes = [0u8; 1024];
    for i in 0..128
        invariant
            forall|k: int| 0 <= k < 8 * i ==> bytes[k] == spec_u64_to_le_bytes(words[k / 8])[k % 8],
    {
        let le = u64_to_le_bytes(words[i]);
        for j in 0..8
            invariant
                i < 128,
                le@ == spec_u64_to_le_bytes(words[i as int]),
                le@.len() == 8,
                forall|k: int| 0 <= k < 8 * i + j ==> bytes[k] == spec_u64_to_le_bytes(words[k / 8])[k % 8],
        {
            bytes[8 * i + j] = le[j];
            assert((8 * i + j) / 8 == i && (8 * i + j) % 8 == j) by (nonlinear_arith)
                requires
                    j < 8,
            ;
        }
    }
    assert(bytes@ =~= bytes_of(words@));
    bytes
}

/// The compression function does not depend on the order of its two
/// arguments: `G(X, Y) == G(Y, X)`.
pub proof fn lemma_compression_symmetric(x: Seq<u64>, y: Seq<u64>)
    requires
        x.len() == y.len(),
    ensures
        compression(x, y) == compression(y, x),
{
    assert forall|i: int| 0 <= i < x.len() implies #[trigger] xor_words(x, y)[i] == xor_words(y, x)[i] by {
        let a = x[i];
        let b = y[i];
        assert(a ^ b == b ^ a) by (bit_vector);
    }
    assert(xor_words(x, y) =~= xor_words(y, x));
}

/// Writing words out as bytes and reading them back gives the same words.
pub proof fn lemma_words_bytes_roundtrip(words: Seq<u64>)
    ensures
        words_of(bytes_of(words)) == words,
{
    lemma_auto_spec_u64_to_from_le_bytes();
    let b = bytes_of(words);
    assert forall|i: int| 0 <= i < words.len() implies #[trigger] word_at(b, i) == words[i] by {
        let chunk = b.subrange(8 * i, 8 * i + 8);
        assert forall|j: int| 0 <= j < 8 implies #[trigger] chunk[j] == spec_u64_to_le_bytes(words[i])[j] by {
            assert((8 * i + j) / 8 == i && (8 * i + j) % 8 == j);
        }
        assert(chunk =~= spec_u64_to_le_bytes(words[i]));
    }
    assert(words_of(b) =~= words);
}

/// Reading bytes as words and writing them back gives the same bytes, for
/// any whole number of words.
pub proof fn lemma_bytes_words_roundtrip(bytes: Seq<u8>)
    requires
        bytes.len() % 8 == 0,
    ensures
        bytes_of(words_of(bytes)) == bytes,
{
    lemma_auto_spec_u64_to_from_le_bytes();
    let w = words_of(bytes);
    assert forall|k: int| 0 <= k < bytes.len() implies #[trigger] bytes_of(w)[k] == bytes[k] by {
        let i = k / 8;
        let chunk = bytes.subrange(8 * i, 8 * i + 8);
        assert(spec_u64_to_le_bytes(spec_u64_from_le_bytes(chunk)) == chunk);
        assert(chunk[k % 8] == bytes[k]);
    }
    assert(bytes_of(w) =~= bytes);
}

} // verus!
