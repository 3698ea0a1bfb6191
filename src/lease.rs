use vstd::prelude::*;

use std::time::{SystemTime, UNIX_EPOCH};

verus! {

/// A span of time, counted in nanoseconds.
#[derive(Clone, Copy, Debug, PartialEq, Eq, Structural)]
pub struct Duration {
    pub nanos: u128,
}

/// Two thirds of `n`, rounded down: the point after which a lease asks for renewal.
pub open spec fn two_thirds(n: u128) -> int {
    n * 2 / 3
}

impl Duration {
    pub fn from_nanos(nanos: u128) -> (r: Duration)
        ensures
            r.nanos == nanos,
    {
        Duration { nanos }
    }

    pub fn from_secs(secs: u64) -> (r: Duration)
        ensures
            r.nanos == secs * 1_000_000_000,
    {
        Duration { nanos: secs as u128 * 1_000_000_000 }
    }

    pub fn as_nanos(&self) -> (r: u128)
        ensures
            r == self.nanos,
    {
        self.nanos
    }

    pub fn is_zero(&self) -> (r: bool)
        ensures
            r == (self.nanos == 0),
    {
        self.nanos == 0
    }

    /// Two thirds of this span, rounded down to the nanosecond.
    pub fn two_thirds(&self) -> (r: Duration)
        ensures
            r.nanos == two_thirds(self.nanos),
    {
        let n = self.nanos;
        let q = n / 3;
        let m = n % 3;
        assert(q * 2 + m * 2 / 3 == n * 2 / 3 && q * 2 <= n) by (nonlinear_arith)
            requires
                q == n / 3,
                m == n % 3,
        ;
        Duration { nanos: q * 2 + m * 2 / 3 }
    }
}

/// The time now, in nanoseconds since the Unix epoch.
/// Relies on std::time::SystemTime::now, read as its distance from UNIX_EPOCH
/// (0 for a clock set before the epoch). Nothing is promised of the value.
#[verifier::external_body]
pub(crate) fn clock_nanos() -> u128 {
    SystemTime::now().duration_since(UNIX_EPOCH).map_or(0, |d| d.as_nanos())
}

/// A time window: valid for `lease_duration` from `time`, due for renewal
/// after `renew_delay`.
#[derive(Debug)]
pub struct Lease {
    /// start of the window, in nanoseconds since the Unix epoch
    pub time: u128,
    /// how long the window lasts; zero means that there is no real lease
    pub lease_duration: Duration,
    /// how long after the start renewal is due
    pub renew_delay: Duration,
}

impl Lease {
    /// The window's invariant: renewal falls at two thirds of its duration.
    pub open spec fn wf(&self) -> bool {
        self.renew_delay.nanos == two_thirds(self.lease_duration.nanos)
    }

    /// Whether the window is valid at the instant `now`.
    pub open spec fn valid_at(&self, now: int) -> bool {
        self.lease_duration.nanos != 0 && now < self.time + self.lease_duration.nanos
    }

    /// Whether the window is due for renewal at the instant `now`.
    pub open spec fn renew_at(&self, now: int) -> bool {
        self.lease_duration.nanos != 0 && now > self.time + self.renew_delay.nanos
    }

    /// A window of `dur` starting at `now`.
    pub fn new_at(now: u128, dur: Duration) -> (r: Self)
        ensures
            r.time == now,
            r.lease_duration == dur,
            r.wf(),
    {
        Lease { time: now, lease_duration: dur, renew_delay: dur.two_thirds() }
    }

    /// A window of `dur` starting now.
    pub fn new(dur: Duration) -> (r: Self)
        ensures
            r.lease_duration == dur,
            r.wf(),
    {
        Self::new_at(clock_nanos(), dur)
    }

    pub fn is_valid_at(&self, now: u128) -> (r: bool)
        ensures
            r == self.valid_at(now as int),
    {
        self.lease_duration.nanos != 0 && (now < self.time || now - self.time
            < self.lease_duration.nanos)
    }

    /// Whether the window is still valid now.
    pub fn is_valid(&self) -> (r: bool)
        ensures
            self.lease_duration.nanos == 0 ==> !r,
            exists|now: int| 0 <= now <= u128::MAX && r == self.valid_at(now),
    {
        let now = clock_nanos();
        let r = self.is_valid_at(now);
        assert(0 <= now as int <= u128::MAX && r == self.valid_at(now as int));
        r
    }

    pub fn to_renew_at(&self, now: u128) -> (r: bool)
        ensures
            r == self.renew_at(now as int),
    {
        self.lease_duration.nanos != 0 && now >= self.time && now - self.time
            > self.renew_delay.nanos
    }

    /// Whether the window is about to expire now.
    pub fn to_renew(&self) -> (r: bool)
        ensures
            self.lease_duration.nanos == 0 ==> !r,
            exists|now: int| 0 <= now <= u128::MAX && r == self.renew_at(now),
    {
        let now = clock_nanos();
        let r = self.to_renew_at(now);
        assert(0 <= now as int <= u128::MAX && r == self.renew_at(now as int));
        r
    }
}

/// A fresh window of non-zero duration is valid, and not yet due for renewal,
/// at the instant it starts.
pub proof fn lemma_fresh_lease_valid(l: Lease)
    requires
        l.wf(),
        l.lease_duration.nanos > 0,
    ensures
        l.valid_at(l.time as int),
        !l.renew_at(l.time as int),
{
}

/// A window of zero duration is never valid and never due for renewal,
/// whenever it is asked.
pub proof fn lemma_zero_lease_inert(l: Lease, now: int)
    requires
        l.lease_duration.nanos == 0,
    ensures
        !l.valid_at(now),
        !l.renew_at(now),
{
}

} // verus!
