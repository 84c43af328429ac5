//! Nonces: a Unix timestamp in seconds in the high 64 bits and a counter in
//! the low 64 bits of a `u128`.
use vstd::prelude::*;
use std::time::{Duration, SystemTime, UNIX_EPOCH};
use crate::errors::TraverseVErr;

verus! {

/// Two to the power of 64.
pub open spec fn two_pow_64() -> int {
    0x1_0000_0000_0000_0000
}

/// The `u128` holding a timestamp in its high half and a counter in its low
/// half.
pub open spec fn spec_pack(time: u64, nonce: u64) -> u128 {
    (time as int * two_pow_64() + nonce as int) as u128
}

/// The timestamp held in the high half of a packed nonce.
pub open spec fn spec_time_of(value: u128) -> u64 {
    (value as int / two_pow_64()) as u64
}

/// The counter held in the low half of a packed nonce.
pub open spec fn spec_counter_of(value: u128) -> u64 {
    (value as int % two_pow_64()) as u64
}

#[verifier::external_type_specification]
#[verifier::external_body]
pub struct ExSystemTime(SystemTime);

/// Calls `SystemTime::now`. Nothing is claimed of the reading.
#[verifier::external_body]
fn clock_now() -> (now: SystemTime) {
    SystemTime::now()
}

/// Calls `SystemTime::duration_since` with `UNIX_EPOCH`, its error (a time
/// before the epoch) becoming `None`. Nothing is claimed of which case
/// occurs, which depends on the reading.
#[verifier::external_body]
fn since_epoch(t: &SystemTime) -> (d: Option<Duration>) {
    t.duration_since(UNIX_EPOCH).ok()
}

/// Calls `Duration::as_secs`. Nothing is claimed of the value.
#[verifier::external_body]
fn whole_seconds(d: &Duration) -> (secs: u64) {
    d.as_secs()
}

/// Calls `Duration::from_secs`. Nothing is claimed of the duration.
#[verifier::external_body]
fn seconds(secs: u64) -> (d: Duration) {
    Duration::from_secs(secs)
}

/// Calls `SystemTime::checked_add` on `UNIX_EPOCH` and tells `Some` from
/// `None`. Nothing is claimed of the result, which depends on the
/// platform's representation of time.
#[verifier::external_body]
fn epoch_plus_fits(d: Duration) -> (fits: bool) {
    UNIX_EPOCH.checked_add(d).is_some()
}

/// Whether `reading` is a value that a call of [`Nonce::timestamp`], the
/// reading of the system clock, has returned.
pub open spec fn clock_reading(reading: Option<u64>) -> bool {
    call_ensures(Nonce::timestamp, (), reading)
}

/// A nonce value: the time it was started at and a counter.
pub struct Nonce {
    inner: u128,
}

impl Nonce {
    /// The packed value of the nonce.
    pub closed spec fn value(&self) -> u128 {
        self.inner
    }

    /// Creates a nonce at the current Unix time with a counter of zero, or
    /// the error `InvalidNonce` when the system clock reads before the Unix
    /// epoch.
    pub fn new() -> (r: Result<Self, TraverseVErr>)
        ensures
            r matches Ok(n) ==> spec_counter_of(n.value()) == 0 && clock_reading(
                Some(spec_time_of(n.value())),
            ),
            r is Err ==> r == Err::<Nonce, TraverseVErr>(TraverseVErr::InvalidNonce) && clock_reading(
                None,
            ),
    {
        match Self::timestamp() {
            Some(time) => {
                let nonce = 0u64;
                Ok(Self { inner: Self::pack(time, nonce) })
            },
            None => Err(TraverseVErr::InvalidNonce),
        }
    }

    /// The current Unix time in whole seconds, read from the system clock;
    /// `None` when the clock reads before the epoch.
    pub fn timestamp() -> (time: Option<u64>) {
        let now = clock_now();
        match since_epoch(&now) {
            Some(d) => Some(whole_seconds(&d)),
            None => None,
        }
    }

    /// The timestamp half of a packed nonce.
    pub fn time_of(value: u128) -> (time: u64)
        ensures
            time == spec_time_of(value),
    {
        let time = (value >> 64) as u64;
        assert(time == value / 0x1_0000_0000_0000_0000u128) by (bit_vector)
            requires
                time == (value >> 64) as u64,
        ;
        time
    }


    /// Accepts a timestamp that the platform can represent as a point in
    /// time after the Unix epoch.
    fn validate(time: u64) -> (r: Result<(), TraverseVErr>)
        ensures
            r is Ok || r == Err::<(), TraverseVErr>(TraverseVErr::InvalidNonce),
    {
        if epoch_plus_fits(seconds(time)) {
            Ok(())
        } else {
            Err(TraverseVErr::InvalidNonce)
        }
    }

    /// Packs a timestamp and a counter into one `u128`.
    pub fn pack(time: u64, nonce: u64) -> (r: u128)
        ensures
            r == spec_pack(time, nonce),
            spec_time_of(r) == time,
            spec_counter_of(r) == nonce,
    {
        let r = (time as u128) << 64 | (nonce as u128);
        assert(r == time as u128 * 0x1_0000_0000_0000_0000u128 + nonce as u128
            && r / 0x1_0000_0000_0000_0000u128 == time
            && r % 0x1_0000_0000_0000_0000u128 == nonce) by (bit_vector)
            requires
                r == (time as u128) << 64 | (nonce as u128),
        ;
        r
    }

    /// The timestamp and counter of the nonce.
    pub fn unpack(&self) -> (parts: (u64, u64))
        ensures
            parts.0 == spec_time_of(self.value()),
            parts.1 == spec_counter_of(self.value()),
            spec_pack(parts.0, parts.1) == self.value(),
    {
        let v = self.inner;
        let time = (v >> 64) as u64;
        let nonce = v as u64;
        assert(time == v / 0x1_0000_0000_0000_0000u128 && nonce == v % 0x1_0000_0000_0000_0000u128
            && v == time as u128 * 0x1_0000_0000_0000_0000u128 + nonce as u128) by (bit_vector)
            requires
                time == (v >> 64) as u64,
                nonce == v as u64,
        ;
        (time, nonce)
    }

    /// Accepts a packed nonce whose timestamp the platform can represent, as
    /// `validate` found; otherwise the error `InvalidNonce`.
    pub fn from_validated(value: u128, representable: bool) -> (r: Result<Self, TraverseVErr>)
        ensures
            representable ==> (r matches Ok(n) && n.value() == value),
            !representable ==> r == Err::<Nonce, TraverseVErr>(TraverseVErr::InvalidNonce),
    {
        if representable {
            Ok(Self { inner: value })
        } else {
            Err(TraverseVErr::InvalidNonce)
        }
    }

    /// Advances the counter by `rhs`. When the counter would pass `u64::MAX`
    /// the nonce starts over at the current time with a counter of zero; if
    /// the clock then reads before the Unix epoch, the nonce is left as it
    /// was and the error `InvalidNonce` is returned.
    pub fn add_assign(&mut self, rhs: u64) -> (r: Result<(), TraverseVErr>)
        ensures
            spec_counter_of(old(self).value()) <= u64::MAX - rhs ==> r is Ok && final(self).value()
                == spec_pack(
                spec_time_of(old(self).value()),
                (spec_counter_of(old(self).value()) + rhs) as u64,
            ),
            spec_counter_of(old(self).value()) > u64::MAX - rhs && r is Ok ==> spec_counter_of(
                final(self).value(),
            ) == 0 && clock_reading(Some(spec_time_of(final(self).value()))),
            r is Err ==> r == Err::<(), TraverseVErr>(TraverseVErr::InvalidNonce) && final(self).value()
                == old(self).value() && clock_reading(None),
    {
        let (time, mut nonce) = self.unpack();
        if nonce <= u64::MAX - rhs {
            nonce += rhs;
            self.inner = Self::pack(time, nonce);
            Ok(())
        } else {
            match Self::timestamp() {
                Some(time) => {
                    let nonce = 0u64;
                    self.inner = Self::pack(time, nonce);
                    Ok(())
                },
                None => Err(TraverseVErr::InvalidNonce),
            }
        }
    }
}

impl TryFrom<u128> for Nonce {
    type Error = TraverseVErr;

    /// Accepts a packed nonce whose timestamp the platform can represent.
    fn try_from(value: u128) -> (r: Result<Self, Self::Error>)
        ensures
            r matches Ok(n) ==> n.value() == value,
            r is Err ==> r == Err::<Nonce, TraverseVErr>(TraverseVErr::InvalidNonce),
    {
        let time = Self::time_of(value);
        let representable = match Self::validate(time) {
            Ok(()) => true,
            Err(_) => false,
        };
        Self::from_validated(value, representable)
    }
}

/// Whether a `u128` is accepted depends on the platform's representation of
/// time, not on the value alone, so `try_from` follows no specification of
/// its argument; what it guarantees is stated on `try_from` itself.
impl vstd::std_specs::convert::TryFromSpecImpl<u128> for Nonce {
    open spec fn obeys_try_from_spec() -> bool {
        false
    }

    open spec fn try_from_spec(v: u128) -> Result<Self, TraverseVErr> {
        vstd::pervasive::arbitrary()
    }
}

impl From<Nonce> for u128 {
    /// The packed value of the nonce.
    fn from(nonce: Nonce) -> (r: u128)
        ensures
            r == nonce.value(),
    {
        nonce.inner
    }
}

impl vstd::std_specs::convert::FromSpecImpl<Nonce> for u128 {
    open spec fn obeys_from_spec() -> bool {
        true
    }

    open spec fn from_spec(v: Nonce) -> u128 {
        v.value()
    }
}

/// Packing then unpacking gives back the timestamp and the counter.
pub proof fn lemma_pack_unpack(time: u64, nonce: u64)
    ensures
        spec_time_of(spec_pack(time, nonce)) == time,
        spec_counter_of(spec_pack(time, nonce)) == nonce,
{
    let v = time as int * two_pow_64() + nonce as int;
    assert(0 <= v < 0x1_0000_0000_0000_0000_0000_0000_0000_0000) by (nonlinear_arith)
        requires
            v == time as int * 0x1_0000_0000_0000_0000 + nonce as int,
            0 <= time <= 0xffff_ffff_ffff_ffff,
            0 <= nonce <= 0xffff_ffff_ffff_ffff,
    ;
    assert(v / two_pow_64() == time && v % two_pow_64() == nonce) by (nonlinear_arith)
        requires
            v == time as int * 0x1_0000_0000_0000_0000 + nonce as int,
            0 <= nonce < 0x1_0000_0000_0000_0000,
            two_pow_64() == 0x1_0000_0000_0000_0000,
    ;
}

/// Every packed value is the packing of its own timestamp and counter.
pub proof fn lemma_unpack_pack(value: u128)
    ensures
        spec_pack(spec_time_of(value), spec_counter_of(value)) == value,
{
    let t = value as int / two_pow_64();
    let c = value as int % two_pow_64();
    assert(t * two_pow_64() + c == value && 0 <= t < two_pow_64() && 0 <= c < two_pow_64()) by (nonlinear_arith)
        requires
            t == value as int / 0x1_0000_0000_0000_0000,
            c == value as int % 0x1_0000_0000_0000_0000,
            0 <= value < 0x1_0000_0000_0000_0000_0000_0000_0000_0000,
            two_pow_64() == 0x1_0000_0000_0000_0000,
    ;
}

/// A nonce accepted from a `u128` converts back to that same `u128`.
pub proof fn lemma_nonce_conversion_roundtrip(value: u128, n: Nonce)
    requires
        n.value() == value,
    ensures
        <u128 as vstd::std_specs::convert::FromSpec<Nonce>>::from_spec(n) == value,
{
}

} // verus!
