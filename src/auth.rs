use vstd::prelude::*;

use crate::lease::{Duration, Lease, clock_nanos};

verus! {

/// An authentication token tied to an optional lease.
#[derive(Debug)]
pub struct Auth {
    pub client_token: String,
    pub lease: Option<Lease>,
}

impl Auth {
    pub open spec fn wf(&self) -> bool {
        self.lease matches Some(l) ==> l.wf()
    }

    /// Whether the token can be used at the instant `now`: it is not empty,
    /// and its lease, if any, is valid.
    pub open spec fn valid_at(&self, now: int) -> bool {
        self.client_token@.len() > 0 && (self.lease matches Some(l) ==> l.valid_at(now))
    }

    /// Whether the token is due for renewal at the instant `now`.
    pub open spec fn renew_at(&self, now: int) -> bool {
        self.lease matches Some(l) && l.renew_at(now)
    }

    /// An Auth for `token`, with a lease of `dur` starting at `now` if `dur` is given.
    pub fn new_at(token: &str, dur: Option<Duration>, now: u128) -> (r: Self)
        ensures
            r.client_token@ == token@,
            r.wf(),
            match dur {
                None => r.lease is None,
                Some(d) => r.lease matches Some(l) && l.lease_duration == d && l.time == now,
            },
    {
        let lease = match dur {
            Some(d) => Some(Lease::new_at(now, d)),
            None => None,
        };
        Auth { client_token: token.to_owned(), lease }
    }

    /// An Auth for `token`, with a lease of `dur` starting now if `dur` is given.
    pub fn new(token: &str, dur: Option<Duration>) -> (r: Self)
        ensures
            r.client_token@ == token@,
            r.wf(),
            match dur {
                None => r.lease is None,
                Some(d) => r.lease matches Some(l) && l.lease_duration == d,
            },
    {
        Self::new_at(token, dur, clock_nanos())
    }

    pub fn is_valid_at(&self, now: u128) -> (r: bool)
        ensures
            r == self.valid_at(now as int),
    {
        !self.client_token.as_str().is_empty() && match &self.lease {
            None => true,
            Some(l) => l.is_valid_at(now),
        }
    }

    /// Check if the token is still valid now.
    pub fn is_valid(&self) -> (r: bool)
        ensures
            self.client_token@.len() == 0 ==> !r,
            self.lease is None ==> r == (self.client_token@.len() > 0),
            exists|now: int| 0 <= now <= u128::MAX && r == self.valid_at(now),
    {
        let now = clock_nanos();
        let r = self.is_valid_at(now);
        assert(0 <= now as int <= u128::MAX && r == self.valid_at(now as int));
        r
    }

    pub fn to_renew_at(&self, now: u128) -> (r: bool)
        ensures
            r == self.renew_at(now as int),
    {
        match &self.lease {
            None => false,
            Some(l) => l.to_renew_at(now),
        }
    }

    /// Check if the token needs a renewal now.
    pub fn to_renew(&self) -> (r: bool)
        ensures
            self.lease is None ==> !r,
            exists|now: int| 0 <= now <= u128::MAX && r == self.renew_at(now),
    {
        let now = clock_nanos();
        let r = self.to_renew_at(now);
        assert(0 <= now as int <= u128::MAX && r == self.renew_at(now as int));
        r
    }

    /// Whether the token can be used as it is at the instant `now`: valid and
    /// not due for renewal.
    pub fn is_usable_at(&self, now: u128) -> (r: bool)
        ensures
            r == (self.valid_at(now as int) && !self.renew_at(now as int)),
    {
        self.is_valid_at(now) && !self.to_renew_at(now)
    }

    /// Whether the token can be used as it is now; a caller logs in again
    /// when it cannot.
    pub fn is_usable(&self) -> (r: bool)
        ensures
            self.client_token@.len() == 0 ==> !r,
            self.lease is None ==> r == (self.client_token@.len() > 0),
            exists|now: int|
                0 <= now <= u128::MAX && r == (self.valid_at(now) && !self.renew_at(now)),
    {
        let now = clock_nanos();
        let r = self.is_usable_at(now);
        assert(0 <= now as int <= u128::MAX && r == (self.valid_at(now as int) && !self.renew_at(
            now as int,
        )));
        r
    }

    pub fn duration(&self) -> (r: Option<Duration>)
        ensures
            r == match self.lease {
                Some(l) => Some(l.lease_duration),
                None => None::<Duration>,
            },
    {
        match &self.lease {
            Some(l) => Some(l.lease_duration),
            None => None,
        }
    }

    pub fn renew_delay(&self) -> (r: Option<Duration>)
        ensures
            r == match self.lease {
                Some(l) => Some(l.renew_delay),
                None => None::<Duration>,
            },
    {
        match &self.lease {
            Some(l) => Some(l.renew_delay),
            None => None,
        }
    }
}

/// The lease that a login answer asks for: `lease_duration` seconds when the
/// token is renewable, none otherwise.
pub fn login_lease(lease_duration: u64, renewable: bool) -> (r: Option<Duration>)
    ensures
        r == if renewable {
            Some(Duration { nanos: (lease_duration * 1_000_000_000) as u128 })
        } else {
            None::<Duration>
        },
{
    if renewable {
        Some(Duration::from_secs(lease_duration))
    } else {
        None
    }
}

/// An Auth with an empty token is never valid, whatever its lease.
pub proof fn lemma_empty_token_never_valid(a: Auth, now: int)
    requires
        a.client_token@.len() == 0,
    ensures
        !a.valid_at(now),
{
}

/// An Auth with a token and no lease is valid and never due for renewal.
pub proof fn lemma_auth_without_lease(a: Auth, now: int)
    requires
        a.lease is None,
        a.client_token@.len() > 0,
    ensures
        a.valid_at(now),
        !a.renew_at(now),
{
}

} // verus!
