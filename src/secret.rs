use vstd::prelude::*;

use crate::lease::{Duration, Lease, clock_nanos};

verus! {

/// serde_json's JSON value, carried through unread.
#[verifier::external_type_specification]
#[verifier::external_body]
pub struct ExValue(serde_json::Value);

/// Whether two JSON values compare equal under serde_json's `PartialEq`.
pub uninterp spec fn value_eq(a: serde_json::Value, b: serde_json::Value) -> bool;

/// Relies on the `PartialEq` that serde_json derives for `Value`: its result
/// depends on the two values alone, and as `Value` is an `Eq` (its numbers are
/// never NaN) a value equals itself.
pub assume_specification[ <serde_json::Value as PartialEq>::eq ](
    a: &serde_json::Value,
    b: &serde_json::Value,
) -> (r: bool)
    ensures
        r == value_eq(*a, *b),
        *a == *b ==> r,
;

/// A secret is a JSON value tied to an optional lease.
#[derive(Debug)]
pub struct Secret {
    pub value: serde_json::Value,
    pub lease: Option<Lease>,
}

impl Secret {
    pub open spec fn wf(&self) -> bool {
        self.lease matches Some(l) ==> l.wf()
    }

    /// Whether the secret can be used at the instant `now`: it has no lease,
    /// or its lease is valid.
    pub open spec fn valid_at(&self, now: int) -> bool {
        self.lease matches Some(l) ==> l.valid_at(now)
    }

    /// Whether the secret is due for renewal at the instant `now`.
    pub open spec fn renew_at(&self, now: int) -> bool {
        self.lease matches Some(l) && l.renew_at(now)
    }

    /// Whether the secret has a real lease: one is present and its duration is not zero.
    pub open spec fn spec_has_lease(&self) -> bool {
        self.lease matches Some(l) && l.lease_duration.nanos != 0
    }

    /// A secret holding `value`, with a lease of `dur` starting at `now` if `dur` is given.
    pub fn new_at(value: serde_json::Value, dur: Option<Duration>, now: u128) -> (r: Self)
        ensures
            r.value == value,
            r.wf(),
            match dur {
                None => r.lease is None,
                Some(d) => r.lease matches Some(l) && l.lease_duration == d && l.time == now,
            },
    {
        let lease = match dur {
            Some(d) => Some(Lease::new_at(now, d)),
            None => None,
        };
        Secret { value, lease }
    }

    /// A secret holding `value`, with a lease of `dur` starting now if `dur` is given.
    pub fn new(value: serde_json::Value, dur: Option<Duration>) -> (r: Self)
        ensures
            r.value == value,
            r.wf(),
            match dur {
                None => r.lease is None,
                Some(d) => r.lease matches Some(l) && l.lease_duration == d,
            },
    {
        Self::new_at(value, dur, clock_nanos())
    }

    pub fn is_valid_at(&self, now: u128) -> (r: bool)
        ensures
            r == self.valid_at(now as int),
    {
        match &self.lease {
            None => true,
            Some(l) => l.is_valid_at(now),
        }
    }

    /// Check if the secret is valid now.
    pub fn is_valid(&self) -> (r: bool)
        ensures
            self.lease is None ==> r,
            self.lease matches Some(l) && l.lease_duration.nanos == 0 ==> !r,
            exists|now: int| 0 <= now <= u128::MAX && r == self.valid_at(now),
    {
        let now = clock_nanos();
        let r = self.is_valid_at(now);
        assert(0 <= now as int <= u128::MAX && r == self.valid_at(now as int));
        r
    }

    pub fn has_lease(&self) -> (r: bool)
        ensures
            r == self.spec_has_lease(),
    {
        match &self.lease {
            Some(l) => !l.lease_duration.is_zero(),
            None => false,
        }
    }

    pub fn to_renew_at(&self, now: u128) -> (r: bool)
        ensures
            r == self.renew_at(now as int),
    {
        match &self.lease {
            None => false,
            Some(l) => l.to_renew_at(now),
        }
    }

    /// Check if the secret needs to be renewed now.
    pub fn to_renew(&self) -> (r: bool)
        ensures
            !self.spec_has_lease() ==> !r,
            exists|now: int| 0 <= now <= u128::MAX && r == self.renew_at(now),
    {
        let now = clock_nanos();
        let r = self.to_renew_at(now);
        assert(0 <= now as int <= u128::MAX && r == self.renew_at(now as int));
        r
    }

    pub fn duration(&self) -> (r: Option<Duration>)
        ensures
            r == match self.lease {
                Some(l) => Some(l.lease_duration),
                None => None::<Duration>,
            },
    {
        match &self.lease {
            Some(l) => Some(l.lease_duration),
            None => None,
        }
    }

    pub fn renew_delay(&self) -> (r: Option<Duration>)
        ensures
            r == match self.lease {
                Some(l) => Some(l.renew_delay),
                None => None::<Duration>,
            },
    {
        match &self.lease {
            Some(l) => Some(l.renew_delay),
            None => None,
        }
    }
}

/// Secrets compare by their value alone; their leases are not looked at.
impl PartialEq for Secret {
    fn eq(&self, other: &Secret) -> (r: bool)
        ensures
            r == value_eq(self.value, other.value),
    {
        self.value == other.value
    }
}

impl vstd::std_specs::cmp::PartialEqSpecImpl for Secret {
    open spec fn obeys_eq_spec() -> bool {
        true
    }

    open spec fn eq_spec(&self, other: &Secret) -> bool {
        value_eq(self.value, other.value)
    }
}

/// The lease given to a fetched secret from the `lease_duration` that the
/// server reported, in seconds: none when it is absent or zero, else that
/// duration itself (the lease falls due for renewal at two thirds of it).
pub fn secret_lease(lease_duration: Option<u64>) -> (r: Option<Duration>)
    ensures
        r == match lease_duration {
            Some(d) if d != 0 => Some(Duration { nanos: (d * 1_000_000_000) as u128 }),
            _ => None::<Duration>,
        },
{
    match lease_duration {
        Some(d) if d != 0 => Some(Duration::from_secs(d)),
        _ => None,
    }
}

/// A secret without a lease is valid and never due for renewal.
pub proof fn lemma_secret_without_lease(s: Secret, now: int)
    requires
        s.lease is None,
    ensures
        s.valid_at(now),
        !s.renew_at(now),
        !s.spec_has_lease(),
{
}

} // verus!
