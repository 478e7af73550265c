//! Process-local rate limiter.
//!
//! Each bucket owns a pool of permits (`permits`), the capacity of the
//! current window (`size`, initially 1), and at most one armed window timer
//! (`deadline`). A claim takes one permit and does not give it back on its
//! own: returning permits is solely the business of `release` and of the
//! window timer's fire (`refill`).
//!
//! The runtime that drives this state machine performs the actual waiting:
//! when `try_claim` refuses, the caller parks until a release or refill and
//! retries; when `release` answers with a timer command, the caller arms or
//! reschedules the one window timer and calls `refill` when it fires.

use vstd::prelude::*;
use crate::ratelimiter::RatelimitInfo;

verus! {

/// Per-bucket state: available permits, window capacity, armed timer.
#[derive(Debug, Clone, Copy, PartialEq, Eq)]
pub struct Bucket {
    /// Unused capacity of the current window.
    pub permits: usize,
    /// Capacity of the window, as most recently reported.
    pub size: usize,
    /// Absolute fire time (ms) of the armed window timer, if one exists.
    pub deadline: Option<u64>,
}

/// What the caller of `release` must do with the bucket's window timer.
#[derive(Debug, Clone, Copy, PartialEq, Eq)]
pub enum TimerCommand {
    /// No timer work.
    NoTimer,
    /// No timer existed: spawn one that fires at the given instant.
    Arm(u64),
    /// A timer exists: move its fire time to the given instant.
    Reschedule(u64),
}

#[derive(Debug, Clone, Copy, PartialEq, Eq)]
pub enum ReleaseError {
    /// `release` was issued for a bucket that no claim ever touched.
    ReleaseWithoutClaim,
}

/// The state a bucket is born with: one permit, capacity one, no timer.
pub open spec fn fresh_bucket() -> Bucket {
    Bucket { permits: 1, size: 1, deadline: None }
}

pub open spec fn or_fresh(b: Option<Bucket>) -> Bucket {
    match b {
        Some(bb) => bb,
        None => fresh_bucket(),
    }
}

pub open spec fn sat_add_usize(a: usize, b: usize) -> usize {
    if a + b <= usize::MAX {
        (a + b) as usize
    } else {
        usize::MAX
    }
}

pub open spec fn sat_add_u64(a: u64, b: u64) -> u64 {
    if a + b <= u64::MAX {
        (a + b) as u64
    } else {
        u64::MAX
    }
}

/// One claim attempt: grants exactly one permit when any is available.
pub open spec fn spec_claim(b: Bucket) -> (Bucket, bool) {
    if b.permits > 0 {
        (Bucket { permits: (b.permits - 1) as usize, size: b.size, deadline: b.deadline }, true)
    } else {
        (b, false)
    }
}

/// One release: with no armed timer a permit is handed straight back; a
/// reported reset delay arms (or reschedules) the window timer; a reported
/// capacity grows the pool by the increase and is remembered as the new
/// window size (a shrink never revokes already-granted permits).
pub open spec fn spec_release(b: Bucket, info: RatelimitInfo, now: u64) -> (Bucket, TimerCommand) {
    let p1 = if b.deadline is None {
        sat_add_usize(b.permits, 1)
    } else {
        b.permits
    };
    let dl = match info.resets_in {
        Some(d) => Some(sat_add_u64(now, d)),
        None => b.deadline,
    };
    let cmd = match info.resets_in {
        Some(d) => if b.deadline is Some {
            TimerCommand::Reschedule(sat_add_u64(now, d))
        } else {
            TimerCommand::Arm(sat_add_u64(now, d))
        },
        None => TimerCommand::NoTimer,
    };
    let p2 = match info.limit {
        Some(n) => if n > b.size {
            sat_add_usize(p1, (n - b.size) as usize)
        } else {
            p1
        },
        None => p1,
    };
    let sz = match info.limit {
        Some(n) => n,
        None => b.size,
    };
    (Bucket { permits: p2, size: sz, deadline: dl }, cmd)
}

/// The window timer fired: the pool grows by the window's capacity and the
/// timer slot is cleared.
pub open spec fn spec_refill(b: Bucket) -> Bucket {
    Bucket { permits: sat_add_usize(b.permits, b.size), size: b.size, deadline: None }
}

/// First bucket stored under `k`, if any.
pub open spec fn spec_get_bucket(s: Seq<(Vec<u8>, Bucket)>, k: Seq<u8>) -> Option<Bucket>
    decreases s.len(),
{
    if s.len() == 0 {
        None
    } else if s[0].0@ == k {
        Some(s[0].1)
    } else {
        spec_get_bucket(s.drop_first(), k)
    }
}

pub(crate) proof fn lemma_get_none_no_key(s: Seq<(Vec<u8>, Bucket)>, k: Seq<u8>)
    requires
        spec_get_bucket(s, k) is None,
    ensures
        forall|j: int| 0 <= j < s.len() ==> s[j].0@ != k,
    decreases s.len(),
{
    if s.len() > 0 {
        lemma_get_none_no_key(s.drop_first(), k);
        assert forall|j: int| 0 <= j < s.len() implies s[j].0@ != k by {
            if j > 0 {
                assert(s.drop_first()[j - 1] == s[j]);
            }
        }
    }
}

pub(crate) proof fn lemma_get_update(s: Seq<(Vec<u8>, Bucket)>, i: int, p: (Vec<u8>, Bucket))
    requires
        0 <= i < s.len(),
        p.0@ == s[i].0@,
        forall|j: int| 0 <= j < i ==> s[j].0@ != s[i].0@,
    ensures
        spec_get_bucket(s.update(i, p), s[i].0@) == Some(p.1),
        forall|k: Seq<u8>| k != s[i].0@ ==> spec_get_bucket(s.update(i, p), k) == spec_get_bucket(
            s,
            k,
        ),
    decreases s.len(),
{
    let su = s.update(i, p);
    if i == 0 {
        assert(su[0] == p);
        assert(su.drop_first() =~= s.drop_first());
        assert forall|k: Seq<u8>| k != s[i].0@ implies spec_get_bucket(su, k) == spec_get_bucket(
            s,
            k,
        ) by {
            assert(su[0].0@ == s[0].0@);
        }
    } else {
        assert(su[0] == s[0]);
        assert(su.drop_first() =~= s.drop_first().update(i - 1, p));
        assert(s.drop_first()[i - 1] == s[i]);
        assert forall|j: int| #![trigger s.drop_first()[j]] 0 <= j < i - 1 implies s.drop_first()[j].0@
            != s.drop_first()[i - 1].0@ by {
            assert(s.drop_first()[j] == s[j + 1]);
        }
        lemma_get_update(s.drop_first(), i - 1, p);
        assert(s[0].0@ != s[i].0@);
        assert(spec_get_bucket(su, s[i].0@) == Some(p.1));
        assert forall|k: Seq<u8>| k != s[i].0@ implies spec_get_bucket(su, k) == spec_get_bucket(
            s,
            k,
        ) by {
            if s[0].0@ != k {
                assert(spec_get_bucket(su, k) == spec_get_bucket(su.drop_first(), k));
                assert(spec_get_bucket(s, k) == spec_get_bucket(s.drop_first(), k));
            }
        }
    }
}

pub(crate) proof fn lemma_get_push(s: Seq<(Vec<u8>, Bucket)>, p: (Vec<u8>, Bucket))
    ensures
        spec_get_bucket(s, p.0@) is None ==> spec_get_bucket(s.push(p), p.0@) == Some(p.1),
        forall|k: Seq<u8>| k != p.0@ ==> spec_get_bucket(s.push(p), k) == spec_get_bucket(s, k),
    decreases s.len(),
{
    if s.len() == 0 {
        assert(s.push(p)[0] == p);
        assert(s.push(p).drop_first() =~= Seq::<(Vec<u8>, Bucket)>::empty());
        assert forall|k: Seq<u8>| k != p.0@ implies spec_get_bucket(s.push(p), k)
            == spec_get_bucket(s, k) by {
            assert(spec_get_bucket(s.push(p), k) == spec_get_bucket(s.push(p).drop_first(), k));
        }
    } else {
        assert(s.push(p)[0] == s[0]);
        assert(s.push(p).drop_first() =~= s.drop_first().push(p));
        lemma_get_push(s.drop_first(), p);
        assert forall|k: Seq<u8>| k != p.0@ implies spec_get_bucket(s.push(p), k)
            == spec_get_bucket(s, k) by {
            if s[0].0@ != k {
                assert(spec_get_bucket(s.push(p), k) == spec_get_bucket(
                    s.push(p).drop_first(),
                    k,
                ));
                assert(spec_get_bucket(s, k) == spec_get_bucket(s.drop_first(), k));
            }
        }
    }
}

/// The process-local limiter: a lazily grown set of named buckets.
pub struct LocalRatelimiter {
    buckets: Vec<(Vec<u8>, Bucket)>,
}

impl LocalRatelimiter {
    /// The bucket stored under `k`, if one was ever claimed.
    pub closed spec fn bucket_of(&self, k: Seq<u8>) -> Option<Bucket> {
        spec_get_bucket(self.buckets@, k)
    }

    /// Bucket names are unique.
    pub closed spec fn wf(&self) -> bool {
        forall|i: int, j: int|
            0 <= i < j < self.buckets@.len() ==> self.buckets@[i].0@ != self.buckets@[j].0@
    }

    pub fn new() -> (r: Self)
        ensures
            r.wf(),
            forall|k: Seq<u8>| r.bucket_of(k) is None,
    {
        LocalRatelimiter { buckets: Vec::new() }
    }

    /// Index of the bucket named `name`, if present.
    fn find_index(&self, name: &[u8]) -> (r: Option<usize>)
        ensures
            match r {
                Some(i) => {
                    &&& i < self.buckets@.len()
                    &&& self.buckets@[i as int].0@ == name@
                    &&& (forall|j: int| 0 <= j < i ==> self.buckets@[j].0@ != name@)
                    &&& self.bucket_of(name@) == Some(self.buckets@[i as int].1)
                },
                None => self.bucket_of(name@) is None,
            },
    {
        let n = self.buckets.len();
        let mut i: usize = 0;
        proof {
            assert(self.buckets@.skip(0) =~= self.buckets@);
        }
        while i < n
            invariant
                0 <= i <= n,
                n == self.buckets@.len(),
                spec_get_bucket(self.buckets@.skip(i as int), name@) == spec_get_bucket(
                    self.buckets@,
                    name@,
                ),
                forall|j: int| 0 <= j < i ==> self.buckets@[j].0@ != name@,
            decreases n - i,
        {
            proof {
                assert(self.buckets@.skip(i as int)[0] == self.buckets@[i as int]);
            }
            if crate::util::bytes_eq(self.buckets[i].0.as_slice(), name) {
                return Some(i);
            }
            proof {
                assert(self.buckets@.skip(i as int).drop_first() =~= self.buckets@.skip(
                    i as int + 1,
                ));
            }
            i += 1;
        }
        proof {
            assert(self.buckets@.skip(n as int) =~= Seq::<(Vec<u8>, Bucket)>::empty());
        }
        None
    }

    /// One claim attempt on `name`, creating the bucket on first contact.
    ///
    /// Grants (and consumes) exactly one permit when the bucket has any;
    /// otherwise leaves the bucket untouched and reports `false`, in which
    /// case the caller waits for a release or a window refill and retries.
    pub fn try_claim(&mut self, name: &[u8]) -> (granted: bool)
        requires
            old(self).wf(),
        ensures
            final(self).wf(),
            granted == spec_claim(or_fresh(old(self).bucket_of(name@))).1,
            final(self).bucket_of(name@) == Some(
                spec_claim(or_fresh(old(self).bucket_of(name@))).0,
            ),
            forall|k: Seq<u8>| k != name@ ==> final(self).bucket_of(k) == old(self).bucket_of(k),
    {
        match self.find_index(name) {
            Some(i) => {
                let b0 = self.buckets[i].1;
                let (b1, granted) = if b0.permits > 0 {
                    (
                        Bucket { permits: b0.permits - 1, size: b0.size, deadline: b0.deadline },
                        true,
                    )
                } else {
                    (b0, false)
                };
                let mut key: Vec<u8> = Vec::new();
                key.extend_from_slice(name);
                proof {
                    assert(key@ =~= name@);
                    assert(self.buckets@[i as int].0@ == name@);
                }
                self.buckets[i] = (key, b1);
                proof {
                    lemma_get_update(old(self).buckets@, i as int, self.buckets@[i as int]);
                }
                granted
            },
            None => {
                // first contact: the bucket is born with one permit and that
                // permit is granted to this claim
                let mut key: Vec<u8> = Vec::new();
                key.extend_from_slice(name);
                proof {
                    assert(key@ =~= name@);
                }
                let b1 = Bucket { permits: 0, size: 1, deadline: None };
                proof {
                    lemma_get_none_no_key(old(self).buckets@, name@);
                    lemma_get_push(old(self).buckets@, (key, b1));
                }
                self.buckets.push((key, b1));
                true
            },
        }
    }

    /// Record post-response knowledge on `name`.
    ///
    /// Fails with `ReleaseWithoutClaim` exactly when no claim ever touched
    /// the bucket. Otherwise applies `spec_release` and answers with what
    /// the caller must do about the window timer.
    pub fn release(&mut self, name: &[u8], info: &RatelimitInfo, now_ms: u64) -> (r: Result<
        TimerCommand,
        ReleaseError,
    >)
        requires
            old(self).wf(),
        ensures
            final(self).wf(),
            r is Err <==> old(self).bucket_of(name@) is None,
            match r {
                Ok(cmd) => {
                    &&& old(self).bucket_of(name@) matches Some(b0)
                    &&& final(self).bucket_of(name@) == Some(spec_release(b0, *info, now_ms).0)
                    &&& cmd == spec_release(b0, *info, now_ms).1
                    &&& (forall|k: Seq<u8>|
                        k != name@ ==> final(self).bucket_of(k) == old(self).bucket_of(k))
                },
                Err(e) => e == ReleaseError::ReleaseWithoutClaim && *final(self) == *old(self),
            },
    {
        match self.find_index(name) {
            None => Err(ReleaseError::ReleaseWithoutClaim),
            Some(i) => {
                let b0 = self.buckets[i].1;
                let p1 = if b0.deadline.is_none() {
                    sat_add_usize_exec(b0.permits, 1)
                } else {
                    b0.permits
                };
                let (dl, cmd) = match info.resets_in {
                    Some(d) => {
                        let t = sat_add_u64_exec(now_ms, d);
                        if b0.deadline.is_some() {
                            (Some(t), TimerCommand::Reschedule(t))
                        } else {
                            (Some(t), TimerCommand::Arm(t))
                        }
                    },
                    None => (b0.deadline, TimerCommand::NoTimer),
                };
                let (p2, sz) = match info.limit {
                    Some(n) => if n > b0.size {
                        (sat_add_usize_exec(p1, n - b0.size), n)
                    } else {
                        (p1, n)
                    },
                    None => (p1, b0.size),
                };
                let b1 = Bucket { permits: p2, size: sz, deadline: dl };
                let mut key: Vec<u8> = Vec::new();
                key.extend_from_slice(name);
                proof {
                    assert(key@ =~= name@);
                    assert(self.buckets@[i as int].0@ == name@);
                }
                self.buckets[i] = (key, b1);
                proof {
                    lemma_get_update(old(self).buckets@, i as int, self.buckets@[i as int]);
                }
                Ok(cmd)
            },
        }
    }

    /// The window timer of `name` fired: refill the pool by the window's
    /// capacity and clear the timer slot. A fire for an unknown bucket is a
    /// no-op (buckets are never removed, so this does not arise in use).
    pub fn refill(&mut self, name: &[u8])
        requires
            old(self).wf(),
        ensures
            final(self).wf(),
            match old(self).bucket_of(name@) {
                Some(b0) => final(self).bucket_of(name@) == Some(spec_refill(b0)) && (forall|
                    k: Seq<u8>,
                |
                    k != name@ ==> final(self).bucket_of(k) == old(self).bucket_of(k)),
                None => *final(self) == *old(self),
            },
    {
        match self.find_index(name) {
            None => (),
            Some(i) => {
                let b0 = self.buckets[i].1;
                let b1 = Bucket {
                    permits: sat_add_usize_exec(b0.permits, b0.size),
                    size: b0.size,
                    deadline: None,
                };
                let mut key: Vec<u8> = Vec::new();
                key.extend_from_slice(name);
                proof {
                    assert(key@ =~= name@);
                    assert(self.buckets@[i as int].0@ == name@);
                }
                self.buckets[i] = (key, b1);
                proof {
                    lemma_get_update(old(self).buckets@, i as int, self.buckets@[i as int]);
                }
            },
        }
    }
}

impl Default for LocalRatelimiter {
    /// An empty limiter: no bucket exists yet.
    fn default() -> (r: Self)
        ensures
            r.wf(),
            forall|k: Seq<u8>| r.bucket_of(k) is None,
    {
        LocalRatelimiter::new()
    }
}

fn sat_add_usize_exec(a: usize, b: usize) -> (r: usize)
    ensures
        r == sat_add_usize(a, b),
{
    if a <= usize::MAX - b {
        a + b
    } else {
        usize::MAX
    }
}

fn sat_add_u64_exec(a: u64, b: u64) -> (r: u64)
    ensures
        r == sat_add_u64(a, b),
{
    if a <= u64::MAX - b {
        a + b
    } else {
        u64::MAX
    }
}

/// Permits granted by `n` consecutive claim attempts with no release and no
/// refill in between.
pub open spec fn granted_in(b: Bucket, n: nat) -> nat
    decreases n,
{
    if n == 0 {
        0
    } else {
        (if spec_claim(b).1 {
            1nat
        } else {
            0nat
        }) + granted_in(spec_claim(b).0, (n - 1) as nat)
    }
}

pub proof fn lemma_granted_at_most_permits(b: Bucket, n: nat)
    ensures
        granted_in(b, n) <= b.permits,
    decreases n,
{
    if n > 0 {
        lemma_granted_at_most_permits(spec_claim(b).0, (n - 1) as nat);
    }
}

/// The exact count: `n` attempts on a pool of `p` permits grant
/// `min(n, p)`.
pub proof fn lemma_granted_exactly(b: Bucket, n: nat)
    ensures
        granted_in(b, n) == if n <= b.permits {
            n
        } else {
            b.permits as nat
        },
    decreases n,
{
    if n > 0 {
        lemma_granted_exactly(spec_claim(b).0, (n - 1) as nat);
    }
}

/// Mutual exclusion within a window: on any timeline on which `release` is
/// not called (and the window timer does not fire), a bucket whose permit
/// pool does not exceed its capacity grants at most `capacity` claims, no
/// matter how many are attempted. Fresh buckets and buckets refilled from a
/// drained pool satisfy the premise.
pub proof fn lemma_window_mutual_exclusion(b: Bucket, n: nat)
    requires
        b.permits <= b.size,
    ensures
        granted_in(b, n) <= b.size,
{
    lemma_granted_at_most_permits(b, n);
}

/// Refill monotonicity: after a release armed the window timer and the pool
/// was drained, the refill at the window transition restores exactly
/// `capacity` permits, so until the next release or refill at most
/// `capacity` further claims succeed.
pub proof fn lemma_refill_window_bound(b: Bucket, n: nat)
    requires
        b.permits == 0,
    ensures
        spec_refill(b).permits == b.size,
        granted_in(spec_refill(b), n) <= b.size,
{
    lemma_granted_at_most_permits(spec_refill(b), n);
}

/// Per-bucket history: the events that can touch one bucket.
#[derive(Debug, Clone, Copy, PartialEq, Eq)]
pub enum BucketEvent {
    /// A claim attempt (granted or not).
    Claim,
    /// A release carrying the given info at the given instant.
    Release(RatelimitInfo, u64),
    /// The window timer fired.
    Refill,
}

pub open spec fn apply_event(b: Option<Bucket>, e: BucketEvent) -> Option<Bucket> {
    match e {
        BucketEvent::Claim => Some(spec_claim(or_fresh(b)).0),
        BucketEvent::Release(info, now) => match b {
            Some(bb) => Some(spec_release(bb, info, now).0),
            None => None,
        },
        BucketEvent::Refill => match b {
            Some(bb) => Some(spec_refill(bb)),
            None => None,
        },
    }
}

pub open spec fn apply_events(b: Option<Bucket>, evs: Seq<BucketEvent>) -> Option<Bucket>
    decreases evs.len(),
{
    if evs.len() == 0 {
        b
    } else {
        apply_events(apply_event(b, evs[0]), evs.drop_first())
    }
}

/// No release without claim: on a history that contains no claim, a bucket
/// never comes into being, so every release in that history (and any release
/// issued next) finds no bucket and fails with `ReleaseWithoutClaim`.
pub proof fn lemma_release_without_claim_fails(evs: Seq<BucketEvent>)
    requires
        forall|i: int| 0 <= i < evs.len() ==> !(evs[i] is Claim),
    ensures
        apply_events(None, evs) is None,
    decreases evs.len(),
{
    if evs.len() > 0 {
        lemma_release_without_claim_fails(evs.drop_first());
    }
}

} // verus!
