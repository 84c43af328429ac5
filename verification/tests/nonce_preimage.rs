use traversev::nonce::Nonce;
use traversev::preimage::Preimage;

#[test]
fn nonce_pack_layout() {
    assert_eq!(Nonce::pack(1, 2), (1u128 << 64) | 2);
    assert_eq!(Nonce::pack(0, u64::MAX), u64::MAX as u128);
    assert_eq!(Nonce::pack(u64::MAX, 0), (u64::MAX as u128) << 64);
}

#[test]
fn nonce_try_from_into_roundtrip() {
    let v: u128 = (1_700_000_000u128 << 64) | 42;
    let n = Nonce::try_from(v).unwrap();
    assert_eq!(n.unpack(), (1_700_000_000, 42));
    assert_eq!(u128::from(n), v);
}

#[test]
fn nonce_add_assign_increments_counter() {
    let v: u128 = (1_700_000_000u128 << 64) | 5;
    let mut n = Nonce::try_from(v).unwrap();
    n.add_assign(3).unwrap();
    assert_eq!(n.unpack(), (1_700_000_000, 8));
}

#[test]
fn nonce_add_assign_overflow_restarts_counter() {
    let v: u128 = (1_700_000_000u128 << 64) | (u64::MAX as u128);
    let mut n = Nonce::try_from(v).unwrap();
    n.add_assign(1).unwrap();
    let (time, counter) = n.unpack();
    assert_eq!(counter, 0);
    assert!(time > 1_700_000_000);
}

#[test]
fn nonce_new_starts_at_zero() {
    let n = Nonce::new().unwrap();
    let (time, counter) = n.unpack();
    assert_eq!(counter, 0);
    assert!(time > 1_600_000_000);
}

#[test]
fn nonce_from_validated_refuses_unrepresentable() {
    assert!(Nonce::from_validated(7, false).is_err());
    assert_eq!(u128::from(Nonce::from_validated(7, true).unwrap()), 7);
}

#[test]
fn preimage_counts_up() {
    let mut p = Preimage::new(b"data").unwrap();
    p.add_assign(1).unwrap();
    p.add_assign(u64::MAX - 1).unwrap();
    p.add_assign(1).unwrap();
}

#[test]
fn nonce_try_from_refuses_unrepresentable_time() {
    // No platform represents u64::MAX seconds after the epoch.
    assert!(Nonce::try_from(u128::MAX).is_err());
}
