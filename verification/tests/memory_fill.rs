use traversev::compress::{bytes_to_words, compress, words_to_bytes};
use traversev::fill::fill_memory;
use traversev::fill::init::starting_blocks;
use traversev::memory::fill::{fill, fill_block, j1, prev_index, reference_index, select, w_index, w_len};
use traversev::memory::init::initial_blocks;

fn from_hex(s: &str) -> Vec<u8> {
    (0..s.len() / 2).map(|i| u8::from_str_radix(&s[2 * i..2 * i + 2], 16).unwrap()).collect()
}

#[test]
fn prev_index_cases() {
    assert_eq!(prev_index(0, 5, 10), 4);
    assert_eq!(prev_index(1, 5, 10), 4);
    assert_eq!(prev_index(1, 0, 10), 9);
}

#[test]
fn w_len_cases() {
    assert_eq!(w_len(0, 5, 10), 4);
    assert_eq!(w_len(2, 5, 10), 9);
}

#[test]
fn select_known_values() {
    assert_eq!(select(10, 0x12345678), 9);
    assert_eq!(select(1000, 0xffffffff), 0);
    assert_eq!(select(5, 0), 4);
    assert_eq!(select(100, 0x80000000), 74);
}

#[test]
fn w_index_skips_predecessor() {
    assert_eq!(w_index(5, 3), 3);
    assert_eq!(w_index(5, 5), 6);
    assert_eq!(w_index(5, 8), 9);
}

#[test]
fn j1_takes_low_half_of_first_word() {
    let mut w = [0u64; 128];
    w[0] = 0xdead_beef_1234_5678;
    w[1] = 0xffff;
    assert_eq!(j1(&w), 0x1234_5678);
}

#[test]
fn reference_index_in_first_pass_is_earlier() {
    let mut w = [0u64; 128];
    w[0] = 0x8000_0000;
    assert_eq!(reference_index(100, 100, &w), 74);
    assert!(reference_index(4, 4, &w) < 4);
}

#[test]
fn reference_index_in_later_pass_skips_predecessor() {
    let mut w = [0u64; 128];
    w[0] = 0;
    // select(9, 0) = 8, past the predecessor 3, so block 9.
    assert_eq!(reference_index(3, 9, &w), 9);
}

fn block_of(v: &[u8], i: usize) -> [u8; 1024] {
    let mut b = [0u8; 1024];
    b.copy_from_slice(&v[i * 1024..(i + 1) * 1024]);
    b
}

#[test]
fn fill_first_pass_third_block() {
    let mut v = vec![0u8; 3 * 1024];
    for i in 0..2048 {
        v[i] = (i * 31 % 256) as u8;
    }
    let before = v.clone();
    fill(&mut v, 3, 1);
    // Block 2 in the first pass: predecessor 1, the only candidate is block 0.
    let expected = words_to_bytes(&compress(&bytes_to_words(&block_of(&before, 1)), &bytes_to_words(&block_of(&before, 0))));
    assert_eq!(block_of(&v, 2), expected);
    assert_eq!(&v[..2048], &before[..2048]);
}

#[test]
fn fill_leaves_bytes_past_the_blocks() {
    let mut v = vec![7u8; 3 * 1024 + 5];
    fill(&mut v, 3, 2);
    assert_eq!(&v[3072..], &[7u8; 5]);
}

#[test]
fn fill_with_no_passes_is_identity() {
    let mut v = vec![0u8; 4 * 1024];
    for i in 0..v.len() {
        v[i] = (i % 253) as u8;
    }
    let before = v.clone();
    fill(&mut v, 4, 0);
    assert_eq!(v, before);
}

#[test]
fn fill_block_overwrites_only_its_block() {
    let mut words = vec![0u64; 4 * 128];
    for i in 0..words.len() {
        words[i] = (i as u64).wrapping_mul(0x1234_5678_9abc_def1);
    }
    let before = words.clone();
    fill_block(&mut words, 4, 1, 0);
    assert_eq!(&words[128..], &before[128..]);
    assert_ne!(&words[..128], &before[..128]);
}

#[test]
fn initial_blocks_are_distinct_and_deterministic() {
    let (b0, b1) = initial_blocks(b"secret", 8, 1, 2, 4);
    let (c0, c1) = initial_blocks(b"secret", 8, 1, 2, 4);
    assert_eq!(b0, c0);
    assert_eq!(b1, c1);
    assert_ne!(b0, b1);
    assert_ne!(b0, [0u8; 1024]);
    let (d0, _) = initial_blocks(b"secret", 8, 1, 2, 5);
    assert_ne!(b0, d0);
}

#[test]
fn starting_blocks_known_value() {
    let (b0, b1) = starting_blocks(b"key", 8, 1);
    assert_eq!(&b0[..16], &from_hex("777b8453068250c21b5db24ff6e2e33c")[..]);
    assert_eq!(&b0[1008..], &from_hex("41ff737d5f02fb442290c156e4ebb968")[..]);
    assert_eq!(&b1[..16], &from_hex("ad8105fd7fbb2b4124780fb0ba282af2")[..]);
    assert_eq!(&b1[960..976], &from_hex("0c7f77f6193790dde090c10243315dae")[..]);
}

#[test]
fn fill_memory_starts_with_starting_blocks() {
    let v = fill_memory(b"key", 3, 1);
    let (b0, b1) = starting_blocks(b"key", 3, 1);
    assert_eq!(v.len(), 3 * 1024);
    assert_eq!(&v[..1024], &b0[..]);
    assert_eq!(&v[1024..2048], &b1[..]);
    let expected = words_to_bytes(&compress(&bytes_to_words(&b1), &bytes_to_words(&b0)));
    assert_eq!(&v[2048..], &expected[..]);
}

#[test]
fn fill_block_keeps_words_past_the_blocks() {
    let mut words = vec![5u64; 3 * 128 + 4];
    words[0] = 1;
    fill_block(&mut words, 3, 0, 2);
    assert_eq!(&words[384..], &[5u64; 4]);
    assert_eq!(&words[..256], &{
        let mut w = vec![5u64; 256];
        w[0] = 1;
        w
    }[..]);
}
