//! A hash preimage: a timestamp, a counter and the data being proven.
use vstd::prelude::*;
use vstd::slice::slice_to_vec;
use crate::errors::TraverseVErr;
use crate::nonce::{clock_reading, Nonce};

verus! {

/// A timestamp, a counter and the data that a proof is bound to.
pub struct Preimage {
    time: u64,
    nonce: u64,
    data: Vec<u8>,
}

impl Preimage {
    /// The timestamp, in seconds since the Unix epoch.
    pub closed spec fn time(&self) -> u64 {
        self.time
    }

    /// The counter.
    pub closed spec fn counter(&self) -> u64 {
        self.nonce
    }

    /// The data.
    pub closed spec fn data(&self) -> Seq<u8> {
        self.data@
    }

    /// A preimage of a copy of `data` at the current time, with a counter of
    /// zero; the error `InvalidNonce` when the system clock reads before the
    /// Unix epoch.
    pub fn new(data: &[u8]) -> (r: Result<Self, TraverseVErr>)
        ensures
            r matches Ok(p) ==> p.counter() == 0 && p.data() == data@ && clock_reading(Some(p.time())),
            r is Err ==> r == Err::<Preimage, TraverseVErr>(TraverseVErr::InvalidNonce) && clock_reading(None),
    {
        match Nonce::timestamp() {
            Some(time) => Ok(Self { time: time, nonce: 0u64, data: slice_to_vec(data) }),
            None => Err(TraverseVErr::InvalidNonce),
        }
    }

    /// Advances the counter by `rhs`; when it would pass `u64::MAX` the
    /// counter starts over at zero at the current time. If the clock then
    /// reads before the Unix epoch, the preimage is left as it was and the
    /// error `InvalidNonce` is returned. The data is always kept.
    pub fn add_assign(&mut self, rhs: u64) -> (r: Result<(), TraverseVErr>)
        ensures
            final(self).data() == old(self).data(),
            old(self).counter() <= u64::MAX - rhs ==> r is Ok && final(self).counter() == old(self).counter()
                + rhs && final(self).time() == old(self).time(),
            old(self).counter() > u64::MAX - rhs && r is Ok ==> final(self).counter() == 0 && clock_reading(
                Some(final(self).time()),
            ),
            r is Err ==> r == Err::<(), TraverseVErr>(TraverseVErr::InvalidNonce) && final(self).counter()
                == old(self).counter() && final(self).time() == old(self).time() && clock_reading(None),
    {
        if self.nonce <= u64::MAX - rhs {
            self.nonce += rhs;
            Ok(())
        } else {
            match Nonce::timestamp() {
                Some(time) => {
                    self.nonce = 0u64;
                    self.time = time;
                    Ok(())
                },
                None => Err(TraverseVErr::InvalidNonce),
            }
        }
    }
}

} // verus!
