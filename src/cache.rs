use vstd::prelude::*;
use vstd::string::*;

use crate::auth::Auth;
use crate::error::Error;
use crate::lease::clock_nanos;

verus! {

/// The roles of a list of cache entries, in order.
pub open spec fn role_keys(e: Seq<(String, Auth)>) -> Seq<Seq<char>> {
    e.map_values(|p: (String, Auth)| p.0@)
}

/// Index of the last `k` in `keys`, or -1 if there is none.
pub open spec fn last_key(keys: Seq<Seq<char>>, k: Seq<char>) -> int
    decreases keys.len(),
{
    if keys.len() == 0 {
        -1
    } else if keys.last() == k {
        keys.len() - 1
    } else {
        last_key(keys.drop_last(), k)
    }
}

pub proof fn lemma_last_key(keys: Seq<Seq<char>>, k: Seq<char>)
    ensures
        -1 <= last_key(keys, k) < keys.len(),
        forall|j: int| last_key(keys, k) < j < keys.len() ==> keys[j] != k,
        last_key(keys, k) >= 0 ==> keys[last_key(keys, k)] == k,
    decreases keys.len(),
{
    if keys.len() > 0 && keys.last() != k {
        lemma_last_key(keys.drop_last(), k);
        assert forall|j: int| last_key(keys, k) < j < keys.len() implies keys[j] != k by {
            if j < keys.len() - 1 {
                assert(keys[j] == keys.drop_last()[j]);
            }
        }
    }
}

/// Whether two texts hold the same characters.
pub fn same_text(a: &str, b: &str) -> (r: bool)
    ensures
        r == (a@ == b@),
{
    let n = a.unicode_len();
    if n != b.unicode_len() {
        return false;
    }
    let mut i: usize = 0;
    while i < n
        invariant
            n == a@.len(),
            n == b@.len(),
            0 <= i <= n,
            forall|j: int| 0 <= j < i ==> a@[j] == b@[j],
        decreases n - i,
    {
        if a.get_char(i) != b.get_char(i) {
            return false;
        }
        i += 1;
    }
    assert(a@ =~= b@);
    true
}

/// The credential of each role. A later entry for a role stands over an
/// earlier one.
#[derive(Debug)]
pub struct AuthCache {
    pub entries: Vec<(String, Auth)>,
}

impl AuthCache {
    /// The credential cached for `role`, if any.
    pub open spec fn lookup(&self, role: Seq<char>) -> Option<Auth> {
        let j = last_key(role_keys(self.entries@), role);
        if j >= 0 {
            Some(self.entries@[j].1)
        } else {
            None
        }
    }

    /// Whether the credential cached for `role` can be used as it is at the
    /// instant `now`.
    pub open spec fn logged_at(&self, role: Seq<char>, now: int) -> bool {
        self.lookup(role) matches Some(a) && a.valid_at(now) && !a.renew_at(now)
    }

    pub fn new() -> (r: Self)
        ensures
            forall|role: Seq<char>| r.lookup(role) is None,
    {
        AuthCache { entries: Vec::new() }
    }

    /// Index of the entry that stands for `role`.
    fn find(&self, role: &str) -> (r: Option<usize>)
        ensures
            match r {
                Some(j) => j < self.entries@.len() && j as int == last_key(
                    role_keys(self.entries@),
                    role@,
                ),
                None => last_key(role_keys(self.entries@), role@) == -1,
            },
    {
        let ghost keys = role_keys(self.entries@);
        let mut i: usize = self.entries.len();
        while i > 0
            invariant
                keys == role_keys(self.entries@),
                0 <= i <= self.entries@.len(),
                forall|j: int| i <= j < keys.len() ==> keys[j] != role@,
            decreases i,
        {
            if same_text(self.entries[i - 1].0.as_str(), role) {
                assert(keys[i - 1] == role@);
                proof {
                    lemma_last_key(keys, role@);
                }
                return Some(i - 1);
            }
            i -= 1;
        }
        proof {
            lemma_last_key(keys, role@);
        }
        None
    }

    /// The credential cached for `role`.
    pub fn get(&self, role: &str) -> (r: Option<&Auth>)
        ensures
            match r {
                Some(a) => self.lookup(role@) == Some(*a),
                None => self.lookup(role@) is None,
            },
    {
        match self.find(role) {
            Some(j) => Some(&self.entries[j].1),
            None => None,
        }
    }

    /// Cache `auth` for `role`, in place of what was cached for it.
    pub fn insert(&mut self, role: &str, auth: Auth)
        ensures
            forall|k: Seq<char>|
                #![trigger final(self).lookup(k)]
                final(self).lookup(k) == if k == role@ {
                    Some(auth)
                } else {
                    old(self).lookup(k)
                },
    {
        let ghost keys = role_keys(self.entries@);
        match self.find(role) {
            Some(j) => {
                proof {
                    lemma_last_key(keys, role@);
                }
                let owned = role.to_owned();
                self.entries.set(j, (owned, auth));
                assert(self.entries@[j as int].0@ == keys[j as int]);
                assert(role_keys(self.entries@) =~= keys);
            },
            None => {
                self.entries.push((role.to_owned(), auth));
                assert(role_keys(self.entries@).drop_last() =~= keys);
            },
        }
        proof {
            assert forall|k: Seq<char>| #[trigger]
                self.lookup(k) == if k == role@ {
                    Some(auth)
                } else {
                    old(self).lookup(k)
                } by {
                lemma_last_key(keys, k);
            }
        }
    }

    pub fn is_logged_at(&self, role: &str, now: u128) -> (r: bool)
        ensures
            r == self.logged_at(role@, now as int),
    {
        match self.get(role) {
            Some(a) => a.is_usable_at(now),
            None => false,
        }
    }

    /// Whether `role` has a credential that can be used as it is now; a
    /// login for the role is needed when it has none.
    pub fn is_logged(&self, role: &str) -> (r: bool)
        ensures
            self.lookup(role@) is None ==> !r,
            exists|now: int| 0 <= now <= u128::MAX && r == self.logged_at(role@, now),
    {
        let now = clock_nanos();
        let r = self.is_logged_at(role, now);
        assert(0 <= now as int <= u128::MAX && r == self.logged_at(role@, now as int));
        r
    }

    /// The token to fetch secrets with for `role`: `NotLogged` when no
    /// credential is cached for it.
    pub fn token(&self, role: &str) -> (r: Result<&String, Error>)
        ensures
            match r {
                Ok(t) => self.lookup(role@) matches Some(a) && *t == a.client_token,
                Err(e) => self.lookup(role@) is None && e == Error::NotLogged,
            },
    {
        match self.get(role) {
            Some(a) => Ok(&a.client_token),
            None => Err(Error::NotLogged),
        }
    }
}

} // verus!
