//! Byte-level helpers shared across the library: searching, comparison, and
//! decimal rendering.

use vstd::prelude::*;

verus! {

/// First index at or after `i` where `b` occurs in `s`, or `s.len()`.
pub open spec fn find_from(s: Seq<u8>, i: int, b: u8) -> int
    decreases s.len() - i when 0 <= i <= s.len()
{
    if i >= s.len() {
        s.len() as int
    } else if s[i] == b {
        i
    } else {
        find_from(s, i + 1, b)
    }
}

pub proof fn lemma_find_from(s: Seq<u8>, i: int, b: u8)
    requires
        0 <= i <= s.len(),
    ensures
        i <= find_from(s, i, b) <= s.len(),
        find_from(s, i, b) < s.len() ==> s[find_from(s, i, b)] == b,
        forall|j: int| i <= j < find_from(s, i, b) ==> s[j] != b,
    decreases s.len() - i,
{
    if i < s.len() && s[i] != b {
        lemma_find_from(s, i + 1, b);
    }
}

/// `find_from` returns `k` exactly when `b` is absent before `k` and `k` is
/// either an occurrence of `b` or the end of the sequence.
pub proof fn lemma_find_from_is(s: Seq<u8>, i: int, b: u8, k: int)
    requires
        0 <= i <= k <= s.len(),
        forall|j: int| i <= j < k ==> s[j] != b,
        k < s.len() ==> s[k] == b,
    ensures
        find_from(s, i, b) == k,
    decreases k - i,
{
    if i < k {
        lemma_find_from_is(s, i + 1, b, k);
    }
}

/// Byte-wise equality of two slices.
pub fn bytes_eq(a: &[u8], b: &[u8]) -> (r: bool)
    ensures
        r <==> a@ == b@,
{
    if a.len() != b.len() {
        proof {
            assert(a@ != b@) by {
                assert(a@.len() != b@.len());
            }
        }
        return false;
    }
    let n = a.len();
    let mut i: usize = 0;
    while i < n
        invariant
            n == a@.len() == b@.len(),
            0 <= i <= n,
            forall|j: int| 0 <= j < i ==> a@[j] == b@[j],
        decreases n - i,
    {
        if a[i] != b[i] {
            return false;
        }
        i += 1;
    }
    proof {
        assert(a@ =~= b@);
    }
    true
}

/// First index at or after `from` where `b` occurs, or the slice's length.
pub fn find_byte(s: &[u8], from: usize, b: u8) -> (r: usize)
    requires
        from <= s@.len(),
    ensures
        r == find_from(s@, from as int, b),
{
    let n = s.len();
    let mut i: usize = from;
    while i < n
        invariant
            from <= i <= n,
            n == s@.len(),
            forall|j: int| from <= j < i ==> s@[j] != b,
        decreases n - i,
    {
        if s[i] == b {
            proof {
                lemma_find_from_is(s@, from as int, b, i as int);
            }
            return i;
        }
        i += 1;
    }
    proof {
        lemma_find_from_is(s@, from as int, b, n as int);
    }
    n
}

/// Canonical decimal rendering of `x`.
pub open spec fn spec_fmt_u64(x: u64) -> Seq<u8>
    decreases x,
{
    if x < 10 {
        seq![('0' as u8 + x) as u8]
    } else {
        spec_fmt_u64(x / 10).push(('0' as u8 + x % 10) as u8)
    }
}

pub fn fmt_u64(x: u64) -> (r: Vec<u8>)
    ensures
        r@ == spec_fmt_u64(x),
    decreases x,
{
    if x < 10 {
        let r: Vec<u8> = vec!['0' as u8 + (x as u8)];
        proof {
            assert(r@ =~= spec_fmt_u64(x));
        }
        r
    } else {
        let mut r = fmt_u64(x / 10);
        r.push('0' as u8 + ((x % 10) as u8));
        r
    }
}

} // verus!
