use traversev::compress::{bytes_to_words, compress, words_to_bytes};

fn sample_words() -> [u64; 128] {
    let mut x = [0u64; 128];
    for i in 0..128 {
        x[i] = i as u64;
    }
    x
}

#[test]
fn compress_known_value() {
    let x = sample_words();
    let y = [0u64; 128];
    let c = compress(&x, &y);
    assert_eq!(c[0], 0xc1b5682006cab594);
    assert_eq!(c[1], 0xeaf582377f3b0190);
    assert_eq!(c[2], 0x7d2c74fb13e92fd7);
    assert_eq!(c[3], 0x6a03b60cdbdad745);
    assert_eq!(c[127], 0x364d79fa588abf87);
}

#[test]
fn compress_known_value_wrapping() {
    let mut x = [0u64; 128];
    let mut y = [0u64; 128];
    for i in 0..128u64 {
        x[i as usize] = i.wrapping_mul(0x9e3779b97f4a7c15);
        y[i as usize] = i.wrapping_mul(0x0123456789abcdef).wrapping_add(7);
    }
    let c = compress(&x, &y);
    assert_eq!(c[0], 0xb8c25dfba307f127);
    assert_eq!(c[1], 0x221f12406b4310b0);
    assert_eq!(c[64], 0x29080a65baf3cfdc);
}

#[test]
fn compress_is_symmetric() {
    let x = sample_words();
    let mut y = [0u64; 128];
    for i in 0..128 {
        y[i] = (i as u64) * 1_000_003 + 11;
    }
    assert_eq!(compress(&x, &y), compress(&y, &x));
}

#[test]
fn compress_of_equal_blocks_is_zero() {
    let x = sample_words();
    assert_eq!(compress(&x, &x), [0u64; 128]);
}

#[test]
fn bytes_to_words_little_endian() {
    let mut b = [0u8; 1024];
    for i in 0..8 {
        b[i] = (i + 1) as u8;
    }
    b[1016] = 0xff;
    let w = bytes_to_words(&b);
    assert_eq!(w[0], 0x0807060504030201);
    assert_eq!(w[1], 0);
    assert_eq!(w[127], 0xff);
}

#[test]
fn words_to_bytes_little_endian() {
    let mut w = [0u64; 128];
    w[0] = 0x0807060504030201;
    w[127] = 0xaabb;
    let b = words_to_bytes(&w);
    assert_eq!(&b[0..8], &[1, 2, 3, 4, 5, 6, 7, 8]);
    assert_eq!(b[1016], 0xbb);
    assert_eq!(b[1017], 0xaa);
    assert_eq!(b[1018], 0);
}

#[test]
fn words_bytes_roundtrip() {
    let mut w = [0u64; 128];
    for i in 0..128 {
        w[i] = (i as u64).wrapping_mul(0x0101_0101_0101_0101) ^ 0xdead_beef;
    }
    assert_eq!(bytes_to_words(&words_to_bytes(&w)), w);
    let mut b = [0u8; 1024];
    for i in 0..1024 {
        b[i] = (i * 7 % 256) as u8;
    }
    assert_eq!(words_to_bytes(&bytes_to_words(&b)), b);
}
