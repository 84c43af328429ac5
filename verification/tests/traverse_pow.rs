use traversev::params::Params;
use traversev::nonce::Nonce;
use traversev::traverse::authenticate;
use traversev::traverse::blockmix::{block_mix, salsa};
use traversev::traverse::chain::dependency_chain;
use traversev::common::Mode;
use traversev::TraverseV;

fn from_hex(s: &str) -> Vec<u8> {
    (0..s.len() / 2).map(|i| u8::from_str_radix(&s[2 * i..2 * i + 2], 16).unwrap()).collect()
}

#[test]
fn salsa20_8_core_rfc7914_vector() {
    let input = from_hex(
        "7e879a214f3ec9867ca940e641718f26baee555b8c61c1b50df846116dcd3b1dee24f319df9b3d8514121e4b5ac5aa3276021d2909c74829edebc68db8b8c25e",
    );
    let mut t = [0u8; 64];
    t.copy_from_slice(&input);
    let out = salsa(&t).unwrap();
    assert_eq!(
        out.to_vec(),
        from_hex(
            "a41f859c6608cc993b81cacb020cef05044b2181a2fd337dfd7b1c6396682f29b4393168e3c9e6bcfe6bc5b7a06d96bae424cc102c91745c24ad673dc7618f81"
        )
    );
}

#[test]
fn salsa_refuses_exhausted_counter() {
    let mut t = [0u8; 64];
    for i in 32..40 {
        t[i] = 0xff;
    }
    assert!(salsa(&t).is_none());
    t[39] = 0xfe;
    assert!(salsa(&t).is_some());
}

#[test]
fn block_mix_known_value() {
    let mut b = [0u8; 1024];
    for i in 0..1024 {
        b[i] = (i % 251) as u8;
    }
    let out = block_mix(&b).unwrap();
    assert_eq!(&out[..16], &from_hex("50e9fb1bb08df07361a1756444b50f56")[..]);
    assert_eq!(&out[1008..], &from_hex("0c3e70526015baef7c6913619e3c8833")[..]);
}

#[test]
fn dependency_chain_zero_rounds_is_identity() {
    let mut x = [0u8; 1024];
    x[5] = 9;
    let v = vec![1u8; 2048];
    assert_eq!(dependency_chain(x, &v, 2, 0).unwrap(), x);
}

#[test]
fn dependency_chain_one_round_is_block_mix_of_xor() {
    let mut x = [0u8; 1024];
    for i in 0..1024 {
        x[i] = (i % 13) as u8;
    }
    x[1016] = 3; // Integerify(x) = 3 + ..., taken modulo 2 blocks
    let mut v = vec![0u8; 2048];
    for i in 0..2048 {
        v[i] = (i % 7) as u8;
    }
    let mut le = [0u8; 8];
    le.copy_from_slice(&x[1016..1024]);
    let j = (u64::from_le_bytes(le) % 2) as usize;
    let mut t = [0u8; 1024];
    for k in 0..1024 {
        t[k] = x[k] ^ v[j * 1024 + k];
    }
    assert_eq!(dependency_chain(x, &v, 2, 1).unwrap(), block_mix(&t).unwrap());
}

#[test]
fn authenticate_is_deterministic_and_keyed() {
    let v = vec![3u8; 2048];
    let key = [7u8; 32];
    let a = authenticate(&key, 99, &v, 2, 2).unwrap();
    let b = authenticate(&key, 99, &v, 2, 2).unwrap();
    assert_eq!(a, b);
    assert_ne!(a, key);
    let c = authenticate(&[8u8; 32], 99, &v, 2, 2).unwrap();
    assert_ne!(a, c);
    let d = authenticate(&key, 100, &v, 2, 2).unwrap();
    assert_ne!(a, d);
}

fn small_params(n: u32) -> Params {
    Params::new(8, 1, 2, n).unwrap()
}

#[test]
fn mined_nonce_verifies() {
    let tv = TraverseV::new(b"shared secret", "traversev test context", small_params(4));
    let nonce = tv.mine(b"input").unwrap().unwrap();
    assert!(tv.verify(b"input", nonce));
}

#[test]
fn mine_from_gives_first_accepted() {
    let tv = TraverseV::new(b"", "traversev test context", small_params(3));
    let start = (1_700_000_000u128 << 64) | 10;
    let found = tv.mine_from(b"abc", Nonce::try_from(start).unwrap()).unwrap();
    assert!(found >= start);
    assert_eq!(found >> 64, 1_700_000_000);
    assert!(tv.verify(b"abc", found));
    for n in start..found {
        assert!(!tv.verify(b"abc", n));
    }
}

#[test]
fn same_configuration_same_verdict() {
    let a = TraverseV::new(b"k", "ctx", small_params(2));
    let b = TraverseV::new(b"k", "ctx", small_params(2));
    for n in 0..16u128 {
        assert_eq!(a.verify(b"in", n), b.verify(b"in", n));
    }
}

#[test]
fn check_n_counts_leading_zero_bits() {
    let tv = TraverseV::new(b"k", "ctx", small_params(12));
    let mut c = [0xffu8; 32];
    c[0] = 0;
    c[1] = 0x0f;
    assert!(tv.check_n(&c));
    c[1] = 0x10;
    assert!(!tv.check_n(&c));
    c[1] = 0;
    c[0] = 1;
    assert!(!tv.check_n(&c));
    let tv8 = TraverseV::new(b"k", "ctx", small_params(8));
    let mut d = [0xffu8; 32];
    d[0] = 0;
    assert!(tv8.check_n(&d));
    d[0] = 0x01;
    assert!(!tv8.check_n(&d));
}

#[test]
fn check_n_full_difficulty() {
    let tv = TraverseV::new(b"k", "ctx", small_params(255));
    let mut c = [0u8; 32];
    c[31] = 1;
    assert!(tv.check_n(&c));
    c[31] = 2;
    assert!(!tv.check_n(&c));
}

#[test]
fn difficulty_is_monotone() {
    let hard = TraverseV::new(b"k", "ctx", small_params(12));
    let easy = TraverseV::new(b"k", "ctx", small_params(8));
    let mut c = [0xffu8; 32];
    c[0] = 0;
    c[1] = 0x0a;
    assert!(hard.check_n(&c));
    assert!(easy.check_n(&c));
}

#[test]
fn mode_follows_the_secret() {
    let trustless = TraverseV::new(b"", "ctx", small_params(2));
    let permissioned = TraverseV::new(b"k", "ctx", small_params(2));
    assert_eq!(trustless.mode(), Mode::Trustless);
    assert_eq!(permissioned.mode(), Mode::Permissioned);
}

#[test]
fn trustless_instance_mines_and_verifies() {
    let a = TraverseV::new(b"", "public ctx", small_params(4));
    let b = TraverseV::new(b"", "public ctx", small_params(4));
    let nonce = a.mine(b"x").unwrap().unwrap();
    assert!(a.verify(b"x", nonce));
    assert!(b.verify(b"x", nonce));
}
