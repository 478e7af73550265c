//! Cancellation bookkeeping for in-flight requests.
//!
//! The harness keeps, per correlation id, a handle with which the running
//! task can be signalled. A cancellation message carries a correlation id as
//! its body: if a task is registered under it, that task's handle is taken
//! out and signalled, and the task ends without replying. A completed task
//! takes its own entry out. Handles are opaque tokens here; the runtime maps
//! them to its real wakers.

use vstd::prelude::*;

verus! {

/// First token stored under `k`, if any.
pub open spec fn spec_get_token(s: Seq<(Vec<u8>, u64)>, k: Seq<u8>) -> Option<u64>
    decreases s.len(),
{
    if s.len() == 0 {
        None
    } else if s[0].0@ == k {
        Some(s[0].1)
    } else {
        spec_get_token(s.drop_first(), k)
    }
}

proof fn lemma_token_none_no_key(s: Seq<(Vec<u8>, u64)>, k: Seq<u8>)
    requires
        spec_get_token(s, k) is None,
    ensures
        forall|j: int| 0 <= j < s.len() ==> s[j].0@ != k,
    decreases s.len(),
{
    if s.len() > 0 {
        lemma_token_none_no_key(s.drop_first(), k);
        assert forall|j: int| 0 <= j < s.len() implies s[j].0@ != k by {
            if j > 0 {
                assert(s.drop_first()[j - 1] == s[j]);
            }
        }
    }
}

proof fn lemma_no_key_token_none(s: Seq<(Vec<u8>, u64)>, k: Seq<u8>)
    requires
        forall|j: int| 0 <= j < s.len() ==> s[j].0@ != k,
    ensures
        spec_get_token(s, k) is None,
    decreases s.len(),
{
    if s.len() > 0 {
        assert forall|j: int| 0 <= j < s.drop_first().len() implies s.drop_first()[j].0@ != k by {
            assert(s.drop_first()[j] == s[j + 1]);
        }
        lemma_no_key_token_none(s.drop_first(), k);
    }
}

proof fn lemma_token_update(s: Seq<(Vec<u8>, u64)>, i: int, p: (Vec<u8>, u64))
    requires
        0 <= i < s.len(),
        p.0@ == s[i].0@,
        forall|j: int| 0 <= j < i ==> s[j].0@ != s[i].0@,
    ensures
        spec_get_token(s.update(i, p), s[i].0@) == Some(p.1),
        forall|k: Seq<u8>| k != s[i].0@ ==> spec_get_token(s.update(i, p), k) == spec_get_token(
            s,
            k,
        ),
    decreases s.len(),
{
    let su = s.update(i, p);
    if i == 0 {
        assert(su[0] == p);
        assert(su.drop_first() =~= s.drop_first());
        assert forall|k: Seq<u8>| k != s[i].0@ implies spec_get_token(su, k) == spec_get_token(
            s,
            k,
        ) by {
            assert(su[0].0@ == s[0].0@);
        }
    } else {
        assert(su[0] == s[0]);
        assert(su.drop_first() =~= s.drop_first().update(i - 1, p));
        assert(s.drop_first()[i - 1] == s[i]);
        assert forall|j: int| #![trigger s.drop_first()[j]] 0 <= j < i - 1 implies s.drop_first()[j].0@
            != s.drop_first()[i - 1].0@ by {
            assert(s.drop_first()[j] == s[j + 1]);
        }
        lemma_token_update(s.drop_first(), i - 1, p);
        assert(s[0].0@ != s[i].0@);
        assert(spec_get_token(su, s[i].0@) == Some(p.1));
        assert forall|k: Seq<u8>| k != s[i].0@ implies spec_get_token(su, k) == spec_get_token(
            s,
            k,
        ) by {
            if s[0].0@ != k {
                assert(spec_get_token(su, k) == spec_get_token(su.drop_first(), k));
                assert(spec_get_token(s, k) == spec_get_token(s.drop_first(), k));
            }
        }
    }
}

proof fn lemma_token_push(s: Seq<(Vec<u8>, u64)>, p: (Vec<u8>, u64))
    ensures
        spec_get_token(s, p.0@) is None ==> spec_get_token(s.push(p), p.0@) == Some(p.1),
        forall|k: Seq<u8>| k != p.0@ ==> spec_get_token(s.push(p), k) == spec_get_token(s, k),
    decreases s.len(),
{
    if s.len() == 0 {
        assert(s.push(p)[0] == p);
        assert(s.push(p).drop_first() =~= Seq::<(Vec<u8>, u64)>::empty());
        assert forall|k: Seq<u8>| k != p.0@ implies spec_get_token(s.push(p), k) == spec_get_token(
            s,
            k,
        ) by {
            assert(spec_get_token(s.push(p), k) == spec_get_token(s.push(p).drop_first(), k));
        }
    } else {
        assert(s.push(p)[0] == s[0]);
        assert(s.push(p).drop_first() =~= s.drop_first().push(p));
        lemma_token_push(s.drop_first(), p);
        assert forall|k: Seq<u8>| k != p.0@ implies spec_get_token(s.push(p), k) == spec_get_token(
            s,
            k,
        ) by {
            if s[0].0@ != k {
                assert(spec_get_token(s.push(p), k) == spec_get_token(
                    s.push(p).drop_first(),
                    k,
                ));
                assert(spec_get_token(s, k) == spec_get_token(s.drop_first(), k));
            }
        }
    }
}

proof fn lemma_token_remove(s: Seq<(Vec<u8>, u64)>, i: int)
    requires
        0 <= i < s.len(),
        forall|a: int, b: int| 0 <= a < b < s.len() ==> s[a].0@ != s[b].0@,
    ensures
        spec_get_token(s.subrange(0, i) + s.subrange(i + 1, s.len() as int), s[i].0@) is None,
        forall|k: Seq<u8>|
            k != s[i].0@ ==> spec_get_token(
                s.subrange(0, i) + s.subrange(i + 1, s.len() as int),
                k,
            ) == spec_get_token(s, k),
    decreases s.len(),
{
    let sr = s.subrange(0, i) + s.subrange(i + 1, s.len() as int);
    if i == 0 {
        assert(sr =~= s.drop_first());
        assert forall|j: int| 0 <= j < sr.len() implies sr[j].0@ != s[0].0@ by {
            assert(sr[j] == s[j + 1]);
        }
        lemma_no_key_token_none(sr, s[0].0@);
        assert forall|k: Seq<u8>| k != s[0].0@ implies spec_get_token(sr, k) == spec_get_token(
            s,
            k,
        ) by {
            assert(spec_get_token(s, k) == spec_get_token(s.drop_first(), k));
        }
    } else {
        assert(sr[0] == s[0]);
        assert(sr.drop_first() =~= s.drop_first().subrange(0, i - 1) + s.drop_first().subrange(
            i,
            s.drop_first().len() as int,
        ));
        assert forall|a: int, b: int|
            0 <= a < b < s.drop_first().len() implies s.drop_first()[a].0@
            != s.drop_first()[b].0@ by {
            assert(s.drop_first()[a] == s[a + 1]);
            assert(s.drop_first()[b] == s[b + 1]);
        }
        assert(s.drop_first()[i - 1] == s[i]);
        lemma_token_remove(s.drop_first(), i - 1);
        assert(s[0].0@ != s[i].0@);
        assert(spec_get_token(sr, s[i].0@) == spec_get_token(sr.drop_first(), s[i].0@));
        assert forall|k: Seq<u8>| k != s[i].0@ implies spec_get_token(sr, k) == spec_get_token(
            s,
            k,
        ) by {
            if s[0].0@ != k {
                assert(spec_get_token(sr, k) == spec_get_token(sr.drop_first(), k));
                assert(spec_get_token(s, k) == spec_get_token(s.drop_first(), k));
            }
        }
    }
}

/// The in-flight map: correlation id to cancellation handle token.
pub struct CancellationRegistry {
    entries: Vec<(Vec<u8>, u64)>,
}

impl CancellationRegistry {
    /// The handle registered under `k`, if the request is in flight.
    pub closed spec fn token_of(&self, k: Seq<u8>) -> Option<u64> {
        spec_get_token(self.entries@, k)
    }

    /// Correlation ids are unique.
    pub closed spec fn wf(&self) -> bool {
        forall|i: int, j: int|
            0 <= i < j < self.entries@.len() ==> self.entries@[i].0@ != self.entries@[j].0@
    }

    pub fn new() -> (r: Self)
        ensures
            r.wf(),
            forall|k: Seq<u8>| r.token_of(k) is None,
    {
        CancellationRegistry { entries: Vec::new() }
    }

    fn find_index(&self, id: &[u8]) -> (r: Option<usize>)
        ensures
            match r {
                Some(i) => {
                    &&& i < self.entries@.len()
                    &&& self.entries@[i as int].0@ == id@
                    &&& (forall|j: int| 0 <= j < i ==> self.entries@[j].0@ != id@)
                    &&& self.token_of(id@) == Some(self.entries@[i as int].1)
                },
                None => self.token_of(id@) is None,
            },
    {
        let n = self.entries.len();
        let mut i: usize = 0;
        proof {
            assert(self.entries@.skip(0) =~= self.entries@);
        }
        while i < n
            invariant
                0 <= i <= n,
                n == self.entries@.len(),
                spec_get_token(self.entries@.skip(i as int), id@) == spec_get_token(
                    self.entries@,
                    id@,
                ),
                forall|j: int| 0 <= j < i ==> self.entries@[j].0@ != id@,
            decreases n - i,
        {
            proof {
                assert(self.entries@.skip(i as int)[0] == self.entries@[i as int]);
            }
            if crate::util::bytes_eq(self.entries[i].0.as_slice(), id) {
                return Some(i);
            }
            proof {
                assert(self.entries@.skip(i as int).drop_first() =~= self.entries@.skip(
                    i as int + 1,
                ));
            }
            i += 1;
        }
        proof {
            assert(self.entries@.skip(n as int) =~= Seq::<(Vec<u8>, u64)>::empty());
        }
        None
    }

    /// A task for correlation id `id` started: remember its handle. A second
    /// registration under the same id replaces the first, as a redelivered
    /// message supersedes the task it interrupted.
    pub fn register(&mut self, id: &[u8], token: u64)
        requires
            old(self).wf(),
        ensures
            final(self).wf(),
            final(self).token_of(id@) == Some(token),
            forall|k: Seq<u8>| k != id@ ==> final(self).token_of(k) == old(self).token_of(k),
    {
        let mut key: Vec<u8> = Vec::new();
        key.extend_from_slice(id);
        proof {
            assert(key@ =~= id@);
        }
        match self.find_index(id) {
            Some(i) => {
                proof {
                    assert(self.entries@[i as int].0@ == id@);
                }
                self.entries[i] = (key, token);
                proof {
                    lemma_token_update(old(self).entries@, i as int, self.entries@[i as int]);
                }
            },
            None => {
                proof {
                    lemma_token_none_no_key(old(self).entries@, id@);
                    lemma_token_push(old(self).entries@, (key, token));
                }
                self.entries.push((key, token));
            },
        }
    }

    /// Take the handle registered under `id` out, if any: used both when the
    /// task completes (it removes itself) and when a cancellation message
    /// names the id (the caller signals the returned handle; the task then
    /// ends without replying).
    pub fn take(&mut self, id: &[u8]) -> (r: Option<u64>)
        requires
            old(self).wf(),
        ensures
            final(self).wf(),
            r == old(self).token_of(id@),
            final(self).token_of(id@) is None,
            forall|k: Seq<u8>| k != id@ ==> final(self).token_of(k) == old(self).token_of(k),
    {
        match self.find_index(id) {
            None => None,
            Some(i) => {
                let (_, token) = self.entries.remove(i);
                proof {
                    assert(self.entries@ =~= old(self).entries@.subrange(0, i as int) + old(
                        self,
                    ).entries@.subrange(i as int + 1, old(self).entries@.len() as int));
                    lemma_token_remove(old(self).entries@, i as int);
                    assert forall|a: int, b: int|
                        0 <= a < b < self.entries@.len() implies self.entries@[a].0@
                        != self.entries@[b].0@ by {
                        let oe = old(self).entries@;
                        let a0: int = if a < i { a } else { a + 1 };
                        let b0: int = if b < i { b } else { b + 1 };
                        assert(self.entries@[a] == oe[a0]);
                        assert(self.entries@[b] == oe[b0]);
                    }
                }
                Some(token)
            },
        }
    }
}

impl Default for CancellationRegistry {
    /// An empty registry: nothing is in flight.
    fn default() -> (r: Self)
        ensures
            r.wf(),
            forall|k: Seq<u8>| r.token_of(k) is None,
    {
        CancellationRegistry::new()
    }
}

} // verus!
