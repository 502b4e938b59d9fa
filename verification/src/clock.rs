//! A stopwatch: it counts nanoseconds from the moment it was made, and never goes back.

use vstd::prelude::*;

verus! {

/// `std::time::Instant`, of which nothing is known but that it can be carried.
#[verifier::external_type_specification]
#[verifier::external_body]
pub struct ExInstant(std::time::Instant);

/// `std::time::Instant::now`: the present, of which nothing can be said.
pub assume_specification[ std::time::Instant::now ]() -> std::time::Instant;

/// `std::time::Instant::elapsed`: the time since an instant, of which nothing can be
/// said.
pub assume_specification[ std::time::Instant::elapsed ](
    instant: &std::time::Instant,
) -> std::time::Duration;

/// The most nanoseconds that a duration can span: its seconds fit in 64 bits.
pub const MAX_NANOS: u128 = 18446744073709551615999999999;

/// `std::time::Duration::as_nanos`: a duration is whole seconds in 64 bits and less
/// than a second of nanoseconds.
pub assume_specification[ std::time::Duration::as_nanos ](
    duration: &std::time::Duration,
) -> (nanos: u128)
    ensures
        nanos <= MAX_NANOS,
;

pub struct Stopwatch {
    origin: std::time::Instant,
    latest: u128,
}

impl Stopwatch {
    #[verifier::type_invariant]
    spec fn in_range(self) -> bool {
        self.latest <= MAX_NANOS
    }

    /// The latest reading; 0 before the first.
    pub closed spec fn latest(&self) -> u128 {
        self.latest
    }

    /// Starts at the present.
    pub fn start() -> (r: Self)
        ensures
            r.latest() == 0,
    {
        Stopwatch { origin: std::time::Instant::now(), latest: 0 }
    }

    /// Nanoseconds since the start: no fewer than at any reading before.
    pub fn nanos(&mut self) -> (r: u128)
        ensures
            old(self).latest() <= r <= MAX_NANOS,
            final(self).latest() == r,
    {
        proof {
            use_type_invariant(&*self);
        }
        let elapsed: u128 = self.origin.elapsed().as_nanos();
        if elapsed > self.latest {
            self.latest = elapsed;
        }
        self.latest
    }
}

} // verus!
