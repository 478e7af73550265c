//! Shared-store rate limiter.
//!
//! When many workers share one logical quota, all cross-worker arbitration is
//! forced through two atomic scripts executed on a shared key-value store:
//! per bucket the store holds a permit counter and the window's capacity, and
//! a single pub/sub channel (`rest_ready`) carries bucket names as they
//! become claimable. This module holds the store-side script semantics as a
//! verified state machine together with the client-side pieces: the
//! interpretation of the claim script's answer, the wakeup filter, and the
//! rendering of the release script's arguments. The store round-trips
//! themselves are I/O and live with the runtime.
//!
//! The per-bucket state is the same `Bucket` record as the process-local
//! limiter's: the two variants present one contract, and a request handler must
//! not depend on which is in use. They differ in one point: the shared
//! store's window transition refills the counter *to* the capacity (the
//! store overwrites the counter), while the local timer adds the capacity to
//! whatever is left.

use vstd::prelude::*;
use crate::ratelimiter::RatelimitInfo;
use crate::util::{fmt_u64, spec_fmt_u64};
use crate::ratelimiter::local::{
    Bucket,
    ReleaseError,
    or_fresh,
    spec_get_bucket,
    spec_release,
    lemma_get_none_no_key,
    lemma_get_push,
    lemma_get_update,
};

verus! {

/// What a waiter must do after one round of the claim script.
#[derive(Debug, Clone, Copy, PartialEq, Eq)]
pub enum ClaimDirective {
    /// A permit was granted; stop retrying.
    Granted,
    /// The current window resets in this many milliseconds: sleep, retry.
    SleepMs(u64),
    /// No capacity information yet: wait for a wakeup naming this bucket,
    /// then retry.
    AwaitWakeup,
}

/// Interpret the signed integer the claim script answers with: zero grants,
/// a positive value is the wait in milliseconds, a negative value asks the
/// caller to await a pub/sub wakeup.
pub fn claim_directive(expiration: i64) -> (r: ClaimDirective)
    ensures
        expiration == 0 ==> r == ClaimDirective::Granted,
        expiration > 0 ==> r == ClaimDirective::SleepMs(expiration as u64),
        expiration < 0 ==> r == ClaimDirective::AwaitWakeup,
{
    if expiration == 0 {
        ClaimDirective::Granted
    } else if expiration > 0 {
        ClaimDirective::SleepMs(expiration as u64)
    } else {
        ClaimDirective::AwaitWakeup
    }
}

/// A pub/sub wakeup is meant for this waiter exactly when its payload names
/// the awaited bucket; every other payload is discarded.
pub fn wakeup_matches(payload: &[u8], bucket: &[u8]) -> (r: bool)
    ensures
        r <==> payload@ == bucket@,
{
    crate::util::bytes_eq(payload, bucket)
}

/// The two arguments of the release script: the reported capacity and reset
/// delay, rendered in decimal, each zero when absent.
pub fn release_args(info: &RatelimitInfo) -> (r: (Vec<u8>, Vec<u8>))
    ensures
        r.0@ == spec_fmt_u64(
            match info.limit {
                Some(n) => n as u64,
                None => 0,
            },
        ),
        r.1@ == spec_fmt_u64(
            match info.resets_in {
                Some(d) => d,
                None => 0,
            },
        ),
{
    let limit_arg: u64 = match info.limit {
        Some(n) => n as u64,
        None => 0,
    };
    let resets_arg: u64 = match info.resets_in {
        Some(d) => d,
        None => 0,
    };
    (fmt_u64(limit_arg), fmt_u64(resets_arg))
}

/// The store key that holds a bucket's window capacity: `<bucket>_size`.
pub open spec fn size_key_suffix() -> Seq<u8> {
    seq!['_' as u8, 's' as u8, 'i' as u8, 'z' as u8, 'e' as u8]
}

pub fn size_key(bucket: &[u8]) -> (r: Vec<u8>)
    ensures
        r@ == bucket@ + size_key_suffix(),
{
    let mut r: Vec<u8> = Vec::new();
    r.extend_from_slice(bucket);
    r.push('_' as u8);
    r.push('s' as u8);
    r.push('i' as u8);
    r.push('z' as u8);
    r.push('e' as u8);
    proof {
        assert(r@ =~= bucket@ + size_key_suffix());
    }
    r
}

/// The pub/sub channel that carries bucket names as they become claimable.
pub open spec fn notify_key() -> Seq<u8> {
    seq![
        'r' as u8,
        'e' as u8,
        's' as u8,
        't' as u8,
        '_' as u8,
        'r' as u8,
        'e' as u8,
        'a' as u8,
        'd' as u8,
        'y' as u8,
    ]
}

pub fn notify_channel() -> (r: Vec<u8>)
    ensures
        r@ == notify_key(),
{
    let r: Vec<u8> = vec![
        'r' as u8,
        'e' as u8,
        's' as u8,
        't' as u8,
        '_' as u8,
        'r' as u8,
        'e' as u8,
        'a' as u8,
        'd' as u8,
        'y' as u8,
    ];
    proof {
        assert(r@ =~= notify_key());
    }
    r
}

/// The store's window transition: when the armed reset instant has passed,
/// the counter is refilled to the capacity and the reset mark cleared.
pub open spec fn spec_expire(b: Bucket, now: u64) -> Bucket {
    match b.deadline {
        Some(t) => if now >= t {
            Bucket { permits: b.size, size: b.size, deadline: None }
        } else {
            b
        },
        None => b,
    }
}

/// One run of the claim script on a bucket's pair of keys at instant `now`:
/// first the lazily observed window transition, then either a grant
/// (counter decremented, answer 0), a wait for the window (answer is the
/// remaining window lifetime in ms, positive), or a wait for a wakeup
/// (answer -1, no capacity information).
pub open spec fn spec_claim_script(b: Option<Bucket>, now: u64) -> (Bucket, i64) {
    let b1 = spec_expire(or_fresh(b), now);
    if b1.permits > 0 {
        (Bucket { permits: (b1.permits - 1) as usize, size: b1.size, deadline: b1.deadline }, 0)
    } else {
        match b1.deadline {
            Some(t) => if t - now <= i64::MAX {
                (b1, (t - now) as i64)
            } else {
                (b1, i64::MAX)
            },
            None => (b1, -1 as i64),
        }
    }
}

/// The contents of the shared store, as the two scripts see them.
pub struct SharedStore {
    buckets: Vec<(Vec<u8>, Bucket)>,
}

impl SharedStore {
    /// The bucket stored under `k`, if any claim ever touched it.
    pub closed spec fn bucket_of(&self, k: Seq<u8>) -> Option<Bucket> {
        spec_get_bucket(self.buckets@, k)
    }

    /// Bucket names are unique.
    pub closed spec fn wf(&self) -> bool {
        forall|i: int, j: int|
            0 <= i < j < self.buckets@.len() ==> self.buckets@[i].0@ != self.buckets@[j].0@
    }

    pub fn new() -> (r: Self)
        ensures
            r.wf(),
            forall|k: Seq<u8>| r.bucket_of(k) is None,
    {
        SharedStore { buckets: Vec::new() }
    }

    fn find_index(&self, name: &[u8]) -> (r: Option<usize>)
        ensures
            match r {
                Some(i) => {
                    &&& i < self.buckets@.len()
                    &&& self.buckets@[i as int].0@ == name@
                    &&& (forall|j: int| 0 <= j < i ==> self.buckets@[j].0@ != name@)
                    &&& self.bucket_of(name@) == Some(self.buckets@[i as int].1)
                },
                None => self.bucket_of(name@) is None,
            },
    {
        let n = self.buckets.len();
        let mut i: usize = 0;
        proof {
            assert(self.buckets@.skip(0) =~= self.buckets@);
        }
        while i < n
            invariant
                0 <= i <= n,
                n == self.buckets@.len(),
                spec_get_bucket(self.buckets@.skip(i as int), name@) == spec_get_bucket(
                    self.buckets@,
                    name@,
                ),
                forall|j: int| 0 <= j < i ==> self.buckets@[j].0@ != name@,
            decreases n - i,
        {
            proof {
                assert(self.buckets@.skip(i as int)[0] == self.buckets@[i as int]);
            }
            if crate::util::bytes_eq(self.buckets[i].0.as_slice(), name) {
                return Some(i);
            }
            proof {
                assert(self.buckets@.skip(i as int).drop_first() =~= self.buckets@.skip(
                    i as int + 1,
                ));
            }
            i += 1;
        }
        proof {
            assert(self.buckets@.skip(n as int) =~= Seq::<(Vec<u8>, Bucket)>::empty());
        }
        None
    }

    fn store_bucket(&mut self, name: &[u8], b: Bucket)
        requires
            old(self).wf(),
        ensures
            final(self).wf(),
            final(self).bucket_of(name@) == Some(b),
            forall|k: Seq<u8>| k != name@ ==> final(self).bucket_of(k) == old(self).bucket_of(k),
    {
        let mut key: Vec<u8> = Vec::new();
        key.extend_from_slice(name);
        proof {
            assert(key@ =~= name@);
        }
        match self.find_index(name) {
            Some(i) => {
                proof {
                    assert(self.buckets@[i as int].0@ == name@);
                }
                self.buckets[i] = (key, b);
                proof {
                    lemma_get_update(old(self).buckets@, i as int, self.buckets@[i as int]);
                }
            },
            None => {
                proof {
                    lemma_get_none_no_key(old(self).buckets@, name@);
                    lemma_get_push(old(self).buckets@, (key, b));
                }
                self.buckets.push((key, b));
            },
        }
    }

    /// Atomically run the claim script for `name` at instant `now_ms`.
    ///
    /// The sole arbiter of the shared quota: it either grants (and answers
    /// 0) or reports the correct wait signal, as `spec_claim_script` says.
    pub fn claim_script(&mut self, name: &[u8], now_ms: u64) -> (expiration: i64)
        requires
            old(self).wf(),
        ensures
            final(self).wf(),
            final(self).bucket_of(name@) == Some(
                spec_claim_script(old(self).bucket_of(name@), now_ms).0,
            ),
            expiration == spec_claim_script(old(self).bucket_of(name@), now_ms).1,
            forall|k: Seq<u8>| k != name@ ==> final(self).bucket_of(k) == old(self).bucket_of(k),
    {
        let b0 = match self.find_index(name) {
            Some(i) => self.buckets[i].1,
            None => Bucket { permits: 1, size: 1, deadline: None },
        };
        let b1 = match b0.deadline {
            Some(t) => if now_ms >= t {
                Bucket { permits: b0.size, size: b0.size, deadline: None }
            } else {
                b0
            },
            None => b0,
        };
        let (b2, expiration) = if b1.permits > 0 {
            (
                Bucket { permits: b1.permits - 1, size: b1.size, deadline: b1.deadline },
                0i64,
            )
        } else {
            match b1.deadline {
                Some(t) => {
                    let wait = t - now_ms;
                    if wait <= i64::MAX as u64 {
                        (b1, wait as i64)
                    } else {
                        (b1, i64::MAX)
                    }
                },
                None => (b1, -1i64),
            }
        };
        self.store_bucket(name, b2);
        expiration
    }

    /// Atomically run the release script for `name` at instant `now_ms`,
    /// with the script's two decimal arguments already decoded (zero means
    /// absent).
    ///
    /// The transition is the same `spec_release` as the local limiter's. The
    /// answer says whether the script made capacity available, in which case
    /// the store publishes the bucket's name on `rest_ready`. A release for
    /// a bucket no claim ever touched fails and changes nothing.
    pub fn release_script(&mut self, name: &[u8], limit_arg: usize, resets_in_arg: u64, now_ms: u64) -> (r:
        Result<bool, ReleaseError>)
        requires
            old(self).wf(),
        ensures
            final(self).wf(),
            r is Err <==> old(self).bucket_of(name@) is None,
            match r {
                Ok(publish) => {
                    &&& old(self).bucket_of(name@) matches Some(b0)
                    &&& {
                        let info = RatelimitInfo {
                            limit: if limit_arg > 0 {
                                Some(limit_arg)
                            } else {
                                None
                            },
                            resets_in: if resets_in_arg > 0 {
                                Some(resets_in_arg)
                            } else {
                                None
                            },
                        };
                        let b1 = spec_release(b0, info, now_ms).0;
                        &&& final(self).bucket_of(name@) == Some(b1)
                        &&& publish == (b1.permits > b0.permits)
                    }
                    &&& (forall|k: Seq<u8>|
                        k != name@ ==> final(self).bucket_of(k) == old(self).bucket_of(k))
                },
                Err(e) => e == ReleaseError::ReleaseWithoutClaim && *final(self) == *old(self),
            },
    {
        let i = match self.find_index(name) {
            Some(i) => i,
            None => {
                return Err(ReleaseError::ReleaseWithoutClaim);
            },
        };
        let b0 = self.buckets[i].1;
        let p1 = if b0.deadline.is_none() {
            if b0.permits <= usize::MAX - 1 {
                b0.permits + 1
            } else {
                usize::MAX
            }
        } else {
            b0.permits
        };
        let dl = if resets_in_arg > 0 {
            if now_ms <= u64::MAX - resets_in_arg {
                Some(now_ms + resets_in_arg)
            } else {
                Some(u64::MAX)
            }
        } else {
            b0.deadline
        };
        let (p2, sz) = if limit_arg > 0 {
            if limit_arg > b0.size {
                let diff = limit_arg - b0.size;
                (
                    if p1 <= usize::MAX - diff {
                        p1 + diff
                    } else {
                        usize::MAX
                    },
                    limit_arg,
                )
            } else {
                (p1, limit_arg)
            }
        } else {
            (p1, b0.size)
        };
        let b1 = Bucket { permits: p2, size: sz, deadline: dl };
        let publish = b1.permits > b0.permits;
        self.store_bucket(name, b1);
        Ok(publish)
    }
}

impl Default for SharedStore {
    /// An empty store: no bucket keys exist yet.
    fn default() -> (r: Self)
        ensures
            r.wf(),
            forall|k: Seq<u8>| r.bucket_of(k) is None,
    {
        SharedStore::new()
    }
}

/// Between window transitions the script's behaviour is exactly the local
/// limiter's claim transition, so the mutual-exclusion bound proved there
/// (`granted_in` never exceeds the permit pool) carries over to the shared
/// variant unchanged.
pub proof fn lemma_claim_script_matches_local_claim(b: Bucket, now: u64)
    requires
        b.deadline is None,
    ensures
        spec_claim_script(Some(b), now).0 == crate::ratelimiter::local::spec_claim(b).0,
        (spec_claim_script(Some(b), now).1 == 0) == crate::ratelimiter::local::spec_claim(b).1,
{
}

/// Refill monotonicity for the shared variant: at the window transition the
/// counter is refilled to exactly the capacity, so until the next release or
/// transition at most `capacity` further claims succeed.
pub proof fn lemma_shared_refill_window_bound(b: Bucket, now: u64, n: nat)
    requires
        b.deadline matches Some(t) && now >= t,
    ensures
        spec_expire(b, now).permits == b.size,
        crate::ratelimiter::local::granted_in(spec_expire(b, now), n) <= b.size,
{
    crate::ratelimiter::local::lemma_granted_at_most_permits(spec_expire(b, now), n);
}

/// A granted claim always takes exactly one permit, and the script grants
/// exactly when the (lazily transitioned) window has a permit left.
pub proof fn lemma_claim_script_grants_one(b: Option<Bucket>, now: u64)
    ensures
        ({
            let b1 = spec_expire(or_fresh(b), now);
            let (b2, e) = spec_claim_script(b, now);
            &&& (e == 0 <==> b1.permits > 0)
            &&& (e == 0 ==> b2.permits == b1.permits - 1)
            &&& (e != 0 ==> b2 == b1)
        }),
{
}

} // verus!
