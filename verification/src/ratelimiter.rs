//! Rate-limit information extracted from HTTP response headers.
//!
//! Every HTTP response may carry two headers: `x-ratelimit-limit` (the
//! window's capacity, a decimal integer) and `x-ratelimit-reset-after` (the
//! window's remaining lifetime in seconds, a decimal number, converted here to
//! milliseconds). Absent or malformed headers mean "no new information".

use vstd::prelude::*;
use crate::util::find_from;

pub mod local;
pub mod redis;

verus! {

/// Post-response knowledge handed to a limiter's `release`.
#[derive(Debug, Clone, Copy, PartialEq, Eq)]
pub struct RatelimitInfo {
    /// New window capacity, if the response reported one.
    pub limit: Option<usize>,
    /// Milliseconds until the current window resets, if reported.
    pub resets_in: Option<u64>,
}

impl Default for RatelimitInfo {
    /// No information: neither capacity nor reset delay.
    fn default() -> (r: Self)
        ensures
            r.limit is None,
            r.resets_in is None,
    {
        RatelimitInfo { limit: None, resets_in: None }
    }
}

pub open spec fn is_digit(b: u8) -> bool {
    '0' as u8 <= b <= '9' as u8
}

pub open spec fn digit_val(b: u8) -> nat {
    (b - '0' as u8) as nat
}

pub open spec fn all_digits(s: Seq<u8>) -> bool {
    forall|i: int| 0 <= i < s.len() ==> is_digit(s[i])
}

/// Value of a digit string read in base ten.
pub open spec fn dec_val(s: Seq<u8>) -> nat
    decreases s.len(),
{
    if s.len() == 0 {
        0
    } else {
        dec_val(s.drop_last()) * 10 + digit_val(s.last())
    }
}

/// A longer digit string never has a smaller value.
pub proof fn lemma_dec_val_prefix_le(s: Seq<u8>, i: int)
    requires
        0 <= i <= s.len(),
    ensures
        dec_val(s.subrange(0, i)) <= dec_val(s),
    decreases s.len() - i,
{
    if i < s.len() {
        let t = s.subrange(0, i + 1);
        assert(t.drop_last() =~= s.subrange(0, i));
        lemma_dec_val_prefix_le(s, i + 1);
        assert(dec_val(s.subrange(0, i)) * 10 + digit_val(t.last()) >= dec_val(s.subrange(0, i)));
    } else {
        assert(s.subrange(0, i) =~= s);
    }
}

/// A non-empty, all-digit string whose value fits the type parses; anything
/// else does not.
pub open spec fn spec_parse_u64(s: Seq<u8>) -> Option<u64> {
    if s.len() > 0 && all_digits(s) && dec_val(s) <= u64::MAX {
        Some(dec_val(s) as u64)
    } else {
        None
    }
}

pub open spec fn spec_parse_usize(s: Seq<u8>) -> Option<usize> {
    if s.len() > 0 && all_digits(s) && dec_val(s) <= usize::MAX {
        Some(dec_val(s) as usize)
    } else {
        None
    }
}

/// Digits of `s` as a number, if `s` is all digits (empty means zero) and the
/// value fits `u64`.
fn parse_digits_u64(s: &[u8]) -> (r: Option<u64>)
    ensures
        match r {
            Some(v) => all_digits(s@) && dec_val(s@) <= u64::MAX && v == dec_val(s@),
            None => !(all_digits(s@) && dec_val(s@) <= u64::MAX),
        },
{
    let n = s.len();
    let mut acc: u64 = 0;
    let mut i: usize = 0;
    while i < n
        invariant
            0 <= i <= n,
            n == s@.len(),
            all_digits(s@.subrange(0, i as int)),
            acc == dec_val(s@.subrange(0, i as int)),
        decreases n - i,
    {
        let b = s[i];
        if b < '0' as u8 || b > '9' as u8 {
            return None;
        }
        let d = (b - '0' as u8) as u64;
        if acc > (u64::MAX - d) / 10 {
            proof {
                let p = s@.subrange(0, i as int + 1);
                assert(p.drop_last() =~= s@.subrange(0, i as int));
                assert(dec_val(p) > u64::MAX);
                lemma_dec_val_prefix_le(s@, i as int + 1);
            }
            return None;
        }
        proof {
            let p = s@.subrange(0, i as int + 1);
            assert(p.drop_last() =~= s@.subrange(0, i as int));
        }
        acc = acc * 10 + d;
        i += 1;
    }
    proof {
        assert(s@.subrange(0, n as int) =~= s@);
    }
    Some(acc)
}

fn parse_digits_usize(s: &[u8]) -> (r: Option<usize>)
    ensures
        match r {
            Some(v) => all_digits(s@) && dec_val(s@) <= usize::MAX && v == dec_val(s@),
            None => !(all_digits(s@) && dec_val(s@) <= usize::MAX),
        },
{
    let n = s.len();
    let mut acc: usize = 0;
    let mut i: usize = 0;
    while i < n
        invariant
            0 <= i <= n,
            n == s@.len(),
            all_digits(s@.subrange(0, i as int)),
            acc == dec_val(s@.subrange(0, i as int)),
        decreases n - i,
    {
        let b = s[i];
        if b < '0' as u8 || b > '9' as u8 {
            return None;
        }
        let d = (b - '0' as u8) as usize;
        if acc > (usize::MAX - d) / 10 {
            proof {
                let p = s@.subrange(0, i as int + 1);
                assert(p.drop_last() =~= s@.subrange(0, i as int));
                assert(dec_val(p) > usize::MAX);
                lemma_dec_val_prefix_le(s@, i as int + 1);
            }
            return None;
        }
        proof {
            let p = s@.subrange(0, i as int + 1);
            assert(p.drop_last() =~= s@.subrange(0, i as int));
        }
        acc = acc * 10 + d;
        i += 1;
    }
    proof {
        assert(s@.subrange(0, n as int) =~= s@);
    }
    Some(acc)
}

/// Parse a decimal integer (the `x-ratelimit-limit` header).
pub fn parse_limit(s: &[u8]) -> (r: Option<usize>)
    ensures
        r == spec_parse_usize(s@),
{
    if s.len() == 0 {
        return None;
    }
    parse_digits_usize(s)
}

/// Milliseconds contributed by the fractional digits: only the first three
/// count (the rest name fractions of a millisecond, which are dropped).
pub open spec fn frac_ms(fr: Seq<u8>) -> nat {
    if fr.len() == 0 {
        0
    } else if fr.len() == 1 {
        digit_val(fr[0]) * 100
    } else if fr.len() == 2 {
        digit_val(fr[0]) * 100 + digit_val(fr[1]) * 10
    } else {
        digit_val(fr[0]) * 100 + digit_val(fr[1]) * 10 + digit_val(fr[2])
    }
}

/// Parse decimal seconds (`x-ratelimit-reset-after`) to milliseconds.
///
/// The string is digits with at most one dot; at least one digit must be
/// present. The value is truncated to the millisecond.
pub open spec fn spec_parse_reset_ms(s: Seq<u8>) -> Option<u64> {
    let dot = find_from(s, 0, '.' as u8);
    if dot == s.len() {
        if s.len() > 0 && all_digits(s) && dec_val(s) * 1000 <= u64::MAX {
            Some((dec_val(s) * 1000) as u64)
        } else {
            None
        }
    } else {
        let ip = s.subrange(0, dot);
        let fr = s.subrange(dot + 1, s.len() as int);
        if (ip.len() > 0 || fr.len() > 0) && all_digits(ip) && all_digits(fr) && dec_val(ip) * 1000
            + frac_ms(fr) <= u64::MAX {
            Some((dec_val(ip) * 1000 + frac_ms(fr)) as u64)
        } else {
            None
        }
    }
}

pub fn parse_reset_after_ms(s: &[u8]) -> (r: Option<u64>)
    ensures
        r == spec_parse_reset_ms(s@),
{
    let n = s.len();
    let dot = crate::util::find_byte(s, 0, '.' as u8);
    proof {
        crate::util::lemma_find_from(s@, 0, '.' as u8);
    }
    if dot == n {
        if n == 0 {
            return None;
        }
        match parse_digits_u64(s) {
            Some(v) => {
                if v <= u64::MAX / 1000 {
                    proof {
                        assert(v * 1000 <= (u64::MAX / 1000) * 1000 <= u64::MAX);
                    }
                    Some(v * 1000)
                } else {
                    proof {
                        assert(v * 1000 > u64::MAX) by {
                            assert(v >= u64::MAX / 1000 + 1);
                            assert(v * 1000 >= (u64::MAX / 1000 + 1) * 1000);
                            assert((u64::MAX / 1000 + 1) * 1000 > u64::MAX);
                        }
                    }
                    None
                }
            },
            None => None,
        }
    } else {
        let ip: &[u8] = &s[0..dot];
        let fr: &[u8] = &s[dot + 1..n];
        if ip.len() == 0 && fr.len() == 0 {
            return None;
        }
        let iv = match parse_digits_u64(ip) {
            Some(v) => v,
            None => {
                return None;
            },
        };
        // every fractional digit must be a digit, not only the first three
        let fv = match parse_digits_u64(fr) {
            Some(_) => {
                let mut f: u64 = 0;
                if fr.len() >= 1 {
                    f = f + (fr[0] - '0' as u8) as u64 * 100;
                }
                if fr.len() >= 2 {
                    f = f + (fr[1] - '0' as u8) as u64 * 10;
                }
                if fr.len() >= 3 {
                    f = f + (fr[2] - '0' as u8) as u64;
                }
                proof {
                    assert(f == frac_ms(fr@));
                }
                f
            },
            None => {
                if fr.len() == 0 {
                    0
                } else {
                    // the fractional value overflows u64 only when it is
                    // astronomically long yet still all digits; retry with the
                    // digit test alone
                    let mut j: usize = 0;
                    let m = fr.len();
                    while j < m
                        invariant
                            0 <= j <= m,
                            m == fr@.len(),
                            n == s@.len(),
                            dot < n,
                            dot == find_from(s@, 0, '.' as u8),
                            fr@ == s@.subrange(dot as int + 1, n as int),
                            all_digits(fr@.subrange(0, j as int)),
                        decreases m - j,
                    {
                        let b = fr[j];
                        if b < '0' as u8 || b > '9' as u8 {
                            proof {
                                assert(fr@ =~= s@.subrange(dot as int + 1, n as int));
                                assert(!is_digit(fr@[j as int]));
                                assert(!all_digits(s@.subrange(dot as int + 1, n as int)));
                            }
                            return None;
                        }
                        proof {
                            assert(fr@.subrange(0, j as int + 1).drop_last() =~= fr@.subrange(
                                0,
                                j as int,
                            ));
                        }
                        j += 1;
                    }
                    proof {
                        assert(fr@.subrange(0, m as int) =~= fr@);
                    }
                    let mut f: u64 = 0;
                    if fr.len() >= 1 {
                        f = f + (fr[0] - '0' as u8) as u64 * 100;
                    }
                    if fr.len() >= 2 {
                        f = f + (fr[1] - '0' as u8) as u64 * 10;
                    }
                    if fr.len() >= 3 {
                        f = f + (fr[2] - '0' as u8) as u64;
                    }
                    proof {
                        assert(f == frac_ms(fr@));
                    }
                    f
                }
            },
        };
        if iv <= u64::MAX / 1000 {
            proof {
                assert(iv * 1000 <= (u64::MAX / 1000) * 1000 <= u64::MAX);
            }
            let p = iv * 1000;
            if fv <= u64::MAX - p {
                Some(p + fv)
            } else {
                None
            }
        } else {
            proof {
                assert(iv * 1000 > u64::MAX) by {
                    assert(iv >= u64::MAX / 1000 + 1);
                    assert(iv * 1000 >= (u64::MAX / 1000 + 1) * 1000);
                    assert((u64::MAX / 1000 + 1) * 1000 > u64::MAX);
                }
            }
            None
        }
    }
}

/// First value stored under `key`, if any.
pub open spec fn spec_lookup(hs: Seq<(Vec<u8>, Vec<u8>)>, key: Seq<u8>) -> Option<Seq<u8>>
    decreases hs.len(),
{
    if hs.len() == 0 {
        None
    } else if hs[0].0@ == key {
        Some(hs[0].1@)
    } else {
        spec_lookup(hs.drop_first(), key)
    }
}

/// Fetch a header value by exact (lower-case) name.
pub fn get_header(headers: &Vec<(Vec<u8>, Vec<u8>)>, key: &[u8]) -> (r: Option<Vec<u8>>)
    ensures
        match r {
            Some(v) => spec_lookup(headers@, key@) == Some(v@),
            None => spec_lookup(headers@, key@) is None,
        },
{
    let n = headers.len();
    let mut i: usize = 0;
    proof {
        assert(headers@.skip(0) =~= headers@);
    }
    while i < n
        invariant
            0 <= i <= n,
            n == headers@.len(),
            spec_lookup(headers@.skip(i as int), key@) == spec_lookup(headers@, key@),
        decreases n - i,
    {
        if crate::util::bytes_eq(headers[i].0.as_slice(), key) {
            let mut v: Vec<u8> = Vec::new();
            v.extend_from_slice(headers[i].1.as_slice());
            proof {
                assert(headers@.skip(i as int)[0] == headers@[i as int]);
                assert(v@ =~= headers@[i as int].1@);
            }
            return Some(v);
        }
        proof {
            assert(headers@.skip(i as int).drop_first() =~= headers@.skip(i as int + 1));
            assert(headers@.skip(i as int)[0] == headers@[i as int]);
        }
        i += 1;
    }
    proof {
        assert(headers@.skip(n as int) =~= Seq::<(Vec<u8>, Vec<u8>)>::empty());
    }
    None
}

pub open spec fn limit_key() -> Seq<u8> {
    seq![
        'x' as u8,
        '-' as u8,
        'r' as u8,
        'a' as u8,
        't' as u8,
        'e' as u8,
        'l' as u8,
        'i' as u8,
        'm' as u8,
        'i' as u8,
        't' as u8,
        '-' as u8,
        'l' as u8,
        'i' as u8,
        'm' as u8,
        'i' as u8,
        't' as u8,
    ]
}

pub open spec fn reset_after_key() -> Seq<u8> {
    seq![
        'x' as u8,
        '-' as u8,
        'r' as u8,
        'a' as u8,
        't' as u8,
        'e' as u8,
        'l' as u8,
        'i' as u8,
        'm' as u8,
        'i' as u8,
        't' as u8,
        '-' as u8,
        'r' as u8,
        'e' as u8,
        's' as u8,
        'e' as u8,
        't' as u8,
        '-' as u8,
        'a' as u8,
        'f' as u8,
        't' as u8,
        'e' as u8,
        'r' as u8,
    ]
}

/// Capacity reported by the headers, if present and well-formed.
pub open spec fn spec_limit_from(hs: Seq<(Vec<u8>, Vec<u8>)>) -> Option<usize> {
    match spec_lookup(hs, limit_key()) {
        Some(v) => spec_parse_usize(v),
        None => None,
    }
}

/// Reset delay in milliseconds reported by the headers, if present and
/// well-formed.
pub open spec fn spec_resets_from(hs: Seq<(Vec<u8>, Vec<u8>)>) -> Option<u64> {
    match spec_lookup(hs, reset_after_key()) {
        Some(v) => spec_parse_reset_ms(v),
        None => None,
    }
}

impl RatelimitInfo {
    /// Read both rate-limit headers out of a response's header list.
    pub fn from_headers(headers: &Vec<(Vec<u8>, Vec<u8>)>) -> (r: RatelimitInfo)
        ensures
            r.limit == spec_limit_from(headers@),
            r.resets_in == spec_resets_from(headers@),
    {
        let limit_name: Vec<u8> = vec![
            'x' as u8,
            '-' as u8,
            'r' as u8,
            'a' as u8,
            't' as u8,
            'e' as u8,
            'l' as u8,
            'i' as u8,
            'm' as u8,
            'i' as u8,
            't' as u8,
            '-' as u8,
            'l' as u8,
            'i' as u8,
            'm' as u8,
            'i' as u8,
            't' as u8,
        ];
        proof {
            assert(limit_name@ =~= limit_key());
        }
        let reset_name: Vec<u8> = vec![
            'x' as u8,
            '-' as u8,
            'r' as u8,
            'a' as u8,
            't' as u8,
            'e' as u8,
            'l' as u8,
            'i' as u8,
            'm' as u8,
            'i' as u8,
            't' as u8,
            '-' as u8,
            'r' as u8,
            'e' as u8,
            's' as u8,
            'e' as u8,
            't' as u8,
            '-' as u8,
            'a' as u8,
            'f' as u8,
            't' as u8,
            'e' as u8,
            'r' as u8,
        ];
        proof {
            assert(reset_name@ =~= reset_after_key());
        }
        let limit = match get_header(headers, limit_name.as_slice()) {
            Some(v) => parse_limit(v.as_slice()),
            None => None,
        };
        let resets_in = match get_header(headers, reset_name.as_slice()) {
            Some(v) => parse_reset_after_ms(v.as_slice()),
            None => None,
        };
        RatelimitInfo { limit, resets_in }
    }
}

} // verus!
