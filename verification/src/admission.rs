//! Connect-time admission control, independent of the hard `max_connections` cap.
//!
//! During a reconnect storm many clients arrive at once; a rate limiter throttles how
//! fast new connections enter the path of authentication, session attach and retained
//! delivery. Beyond the rate a CONNECT is answered with "service unavailable", which a
//! well-behaved client backs off on.

use vstd::prelude::*;

verus! {

/// A `governor` rate limiter for single cells, on its real-time clock.
#[verifier::external_body]
pub struct ConnectLimiter {
    inner: governor::DefaultDirectRateLimiter,
}

/// The rate per second and the burst that a limiter was made with.
pub uninterp spec fn limits(limiter: ConnectLimiter) -> (u32, u32);

/// The time at which a limiter expects its next cell, in nanoseconds since it was made; 0
/// where no cell has passed it yet.
pub uninterp spec fn due(limiter: ConnectLimiter) -> nat;

/// The nanoseconds that one cell takes up.
pub open spec fn interval(rate: u32) -> nat {
    if rate > 1_000_000_000 {
        1
    } else {
        (1_000_000_000int / rate as int) as nat
    }
}

/// Whether a cell passes at a time (in nanoseconds since the limiter was made), and when
/// the next one is due then. A cell may come before it is due, by as much time as the
/// cells of a burst but one take up; each that passes puts the next one off by its own
/// time.
pub open spec fn cell(limits: (u32, u32), due: nat, now: nat) -> (bool, nat) {
    let t = interval(limits.0);
    let due_now = if due == 0 {
        now
    } else {
        due
    };
    if now + t * (limits.1 - 1) < due_now {
        (false, due)
    } else if due_now <= now {
        (true, now + t)
    } else {
        (true, due_now + t)
    }
}

/// Calls `governor::RateLimiter::direct` for the quota `per_second(rate)` with
/// `allow_burst(burst)`: the limiter keeps to these two numbers, and no cell has passed
/// it.
#[verifier::external_body]
fn new_limiter(rate: u32, burst: u32) -> (r: ConnectLimiter)
    requires
        rate > 0,
        burst > 0,
    ensures
        limits(r) == (rate, burst),
        due(r) == 0,
{
    let rate = std::num::NonZeroU32::new(rate).unwrap();
    let burst = std::num::NonZeroU32::new(burst).unwrap();
    let quota = governor::Quota::per_second(rate).allow_burst(burst);
    ConnectLimiter { inner: governor::RateLimiter::direct(quota) }
}

/// Calls `governor::RateLimiter::check` for one cell: it passes, and the next one is due,
/// as [`cell`] says for some time. Which time that is, the limiter's own clock says, and
/// it is left unsaid; a later call need not see a later time. The limiter counts its
/// nanoseconds in 64 bits, which last for centuries.
#[verifier::external_body]
fn check_limiter(limiter: &mut ConnectLimiter) -> (r: bool)
    ensures
        limits(*final(limiter)) == limits(*old(limiter)),
        exists|now: nat|
            (r, due(*final(limiter))) == #[trigger] cell(
                limits(*old(limiter)),
                due(*old(limiter)),
                now,
            ),
{
    limiter.inner.check().is_ok()
}

/// Admission control for CONNECTs.
pub struct ConnectAdmission {
    limiter: Option<ConnectLimiter>,
}

/// The limits for configured numbers: none for a rate of 0; the burst is never less
/// than the rate, so that one quiet second leaves no less headroom than the rate.
pub open spec fn admission_limits(rate_per_sec: u32, burst: u32) -> Option<(u32, u32)> {
    if rate_per_sec == 0 {
        None
    } else if burst < rate_per_sec {
        Some((rate_per_sec, rate_per_sec))
    } else {
        Some((rate_per_sec, burst))
    }
}

impl View for ConnectAdmission {
    type V = Option<(u32, u32)>;

    /// The rate and burst in force.
    closed spec fn view(&self) -> Option<(u32, u32)> {
        match self.limiter {
            Some(l) => Some(limits(l)),
            None => None,
        }
    }
}

/// What becomes of a CONNECT at a time, and when the next one is due then. Without limits
/// every CONNECT passes.
pub open spec fn judged(limits: Option<(u32, u32)>, due: nat, now: nat) -> (bool, nat) {
    match limits {
        Some(limits) => cell(limits, due, now),
        None => (true, due),
    }
}

impl ConnectAdmission {
    /// When the next CONNECT is due, in nanoseconds since the limits were set; 0 where
    /// none has been let in under them yet.
    pub closed spec fn due(&self) -> nat {
        match self.limiter {
            Some(l) => due(l),
            None => 0,
        }
    }

    /// `rate_per_sec = 0` disables admission control entirely.
    pub fn new(rate_per_sec: u32, burst: u32) -> (r: Self)
        ensures
            r@ == admission_limits(rate_per_sec, burst),
            r.due() == 0,
    {
        if rate_per_sec == 0 {
            return ConnectAdmission { limiter: None };
        }
        let burst: u32 = if burst < rate_per_sec {
            rate_per_sec
        } else {
            burst
        };
        ConnectAdmission { limiter: Some(new_limiter(rate_per_sec, burst)) }
    }

    /// True if this CONNECT may proceed. Without limits every CONNECT may; with them the
    /// limiter decides by its clock.
    pub fn admit_connect(&mut self) -> (r: bool)
        ensures
            final(self)@ == old(self)@,
            exists|now: nat|
                (r, final(self).due()) == #[trigger] judged(old(self)@, old(self).due(), now),
    {
        let ghost before = *self;
        match &mut self.limiter {
            Some(limiter) => {
                let r = check_limiter(limiter);
                proof {
                    let now = choose|now: nat|
                        (r, due(*limiter)) == #[trigger] cell(before@->0, before.due(), now);
                    assert((r, due(*limiter)) == judged(before@, before.due(), now));
                }
                r
            },
            None => {
                assert((true, self.due()) == judged(before@, before.due(), 0));
                true
            },
        }
    }
}

/// What becomes of CONNECTs at given times, one after the other.
pub open spec fn judged_all(limits: Option<(u32, u32)>, due: nat, times: Seq<nat>) -> Seq<bool>
    decreases times.len(),
{
    if times.len() == 0 {
        Seq::empty()
    } else {
        let (passes, next) = judged(limits, due, times[0]);
        seq![passes] + judged_all(limits, next, times.skip(1))
    }
}

/// Whether the limits are ones that admission control can be made with.
pub open spec fn sound(limits: Option<(u32, u32)>) -> bool {
    limits matches Some((rate, burst)) ==> 0 < rate <= burst
}

/// The limits in force are sound, whatever was configured.
pub proof fn law_limits_are_sound(rate_per_sec: u32, burst: u32)
    ensures
        sound(admission_limits(rate_per_sec, burst)),
{
}

/// The answers to later CONNECTs, and when the next one is due then.
proof fn lemma_judged_all_step(limits: Option<(u32, u32)>, due: nat, times: Seq<nat>)
    requires
        times.len() > 0,
    ensures
        judged_all(limits, due, times).len() == times.len(),
        judged_all(limits, due, times)[0] == judged(limits, due, times[0]).0,
        forall|i: int|
            1 <= i < times.len() ==> #[trigger] judged_all(limits, due, times)[i] == judged_all(
                limits,
                judged(limits, due, times[0]).1,
                times.skip(1),
            )[i - 1],
    decreases times.len(),
{
    reveal_with_fuel(judged_all, 2);
    let rest = times.skip(1);
    if rest.len() > 0 {
        lemma_judged_all_step(limits, judged(limits, due, times[0]).1, rest);
    }
}

/// After `used` cells of a burst, up to the time `last`, the rest of the burst passes.
proof fn lemma_burst(limits: (u32, u32), due: nat, last: nat, used: nat, times: Seq<nat>)
    requires
        limits.0 > 0,
        due > 0 && due <= last + interval(limits.0) * used || used == 0 && due == 0,
        used + times.len() <= limits.1,
        forall|i: int| 0 <= i < times.len() ==> last <= #[trigger] times[i],
        forall|i: int, j: int| 0 <= i <= j < times.len() ==> #[trigger] times[i] <= #[trigger] times[j],
    ensures
        judged_all(Some(limits), due, times).len() == times.len(),
        forall|i: int| 0 <= i < times.len() ==> #[trigger] judged_all(Some(limits), due, times)[i],
    decreases times.len(),
{
    if times.len() > 0 {
        let t = interval(limits.0);
        let now = times[0];
        let next = cell(limits, due, now).1;
        let rest = times.skip(1);
        lemma_judged_all_step(Some(limits), due, times);
        assert(t >= 1) by {
            lemma_interval(limits.0);
        }
        assert(t * used <= t * (limits.1 - 1)) by (nonlinear_arith)
            requires
                used <= limits.1 - 1,
                t >= 0,
        ;
        assert(t * (used + 1) == t * used + t) by (nonlinear_arith);
        assert forall|i: int| 0 <= i < rest.len() implies now <= #[trigger] rest[i] by {
            assert(times[0] <= times[i + 1]);
        }
        assert forall|i: int, j: int| 0 <= i <= j < rest.len() implies #[trigger] rest[i]
            <= #[trigger] rest[j] by {
            assert(times[i + 1] <= times[j + 1]);
        }
        lemma_burst(limits, next, now, used + 1, rest);
    }
}

proof fn lemma_interval(rate: u32)
    requires
        rate > 0,
    ensures
        interval(rate) >= 1,
{
    if rate <= 1_000_000_000 {
        assert(1_000_000_000int / rate as int >= 1) by (nonlinear_arith)
            requires
                0 < rate <= 1_000_000_000,
        ;
    }
}

/// The first CONNECTs pass, as many as the burst has room for, however fast they come, as
/// long as the clock does not go back between them.
pub proof fn law_burst_passes(limits: Option<(u32, u32)>, times: Seq<nat>)
    requires
        sound(limits),
        limits matches Some((_, burst)) ==> times.len() <= burst,
        forall|i: int, j: int| 0 <= i <= j < times.len() ==> #[trigger] times[i] <= #[trigger] times[j],
    ensures
        judged_all(limits, 0, times).len() == times.len(),
        forall|i: int| 0 <= i < times.len() ==> #[trigger] judged_all(limits, 0, times)[i],
{
    match limits {
        Some(l) => lemma_burst(l, 0, 0, 0, times),
        None => law_no_limits_shed_nothing(0, times),
    }
}

/// Without limits every CONNECT passes, at any times.
pub proof fn law_no_limits_shed_nothing(due: nat, times: Seq<nat>)
    ensures
        judged_all(None, due, times).len() == times.len(),
        forall|i: int| 0 <= i < times.len() ==> #[trigger] judged_all(None, due, times)[i],
    decreases times.len(),
{
    if times.len() > 0 {
        lemma_judged_all_step(None, due, times);
        law_no_limits_shed_nothing(due, times.skip(1));
    }
}

/// Where `used` cells have passed at one instant, what is left of the burst passes, and
/// nothing after it.
proof fn lemma_one_instant(limits: (u32, u32), due: nat, used: nat, now: nat, times: Seq<nat>)
    requires
        0 < limits.0,
        used <= limits.1,
        limits.1 > 0,
        if used == 0 {
            due == 0
        } else {
            due == now + interval(limits.0) * used
        },
        forall|i: int| 0 <= i < times.len() ==> #[trigger] times[i] == now,
    ensures
        judged_all(Some(limits), due, times).len() == times.len(),
        forall|i: int|
            0 <= i < times.len() ==> #[trigger] judged_all(Some(limits), due, times)[i] == (used + i
                < limits.1),
    decreases times.len(),
{
    if times.len() > 0 {
        let t = interval(limits.0);
        let next = cell(limits, due, now).1;
        let rest = times.skip(1);
        lemma_judged_all_step(Some(limits), due, times);
        lemma_interval(limits.0);
        assert(times[0] == now);
        assert(t * used <= t * (limits.1 - 1) <==> used <= limits.1 - 1) by (nonlinear_arith)
            requires
                t >= 1,
        ;
        assert(t * (used + 1) == t * used + t) by (nonlinear_arith);
        assert(t * used >= 0) by (nonlinear_arith)
            requires
                t >= 0,
                used >= 0,
        ;
        assert(used >= 1 ==> t * used >= 1) by (nonlinear_arith)
            requires
                t >= 1,
        ;
        assert forall|i: int| 0 <= i < rest.len() implies #[trigger] rest[i] == now by {
            assert(times[i + 1] == now);
        }
        if used < limits.1 {
            lemma_one_instant(limits, next, used + 1, now, rest);
        } else {
            lemma_one_instant(limits, next, used, now, rest);
        }
    }
}

/// Of the first CONNECTs, all at one instant, exactly as many pass as the burst has room
/// for: those that came first.
pub proof fn law_exactly_the_burst_passes_at_one_instant(
    limits: (u32, u32),
    now: nat,
    times: Seq<nat>,
)
    requires
        sound(Some(limits)),
        forall|i: int| 0 <= i < times.len() ==> #[trigger] times[i] == now,
    ensures
        judged_all(Some(limits), 0, times).len() == times.len(),
        forall|i: int|
            0 <= i < times.len() ==> #[trigger] judged_all(Some(limits), 0, times)[i] == (i
                < limits.1),
{
    lemma_one_instant(limits, 0, 0, now, times);
}

} // verus!
