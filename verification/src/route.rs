//! Route templating: collapse a concrete URL path into a rate-limit bucket key.
//!
//! Remote quotas are granted per route template, not per concrete URL, so two
//! paths that differ only in the id following a top-level `guilds`, `channels`
//! or `webhooks` segment must map to the same bucket. `make_route` replaces
//! that id with the literal `:id` and leaves every other path unchanged.

use vstd::prelude::*;
use crate::util::{bytes_eq, find_byte, find_from, lemma_find_from, lemma_find_from_is};

verus! {

/// The only way `make_route` can fail: the path does not begin with `/`.
#[derive(Debug, Clone, Copy, PartialEq, Eq, Structural)]
pub enum RouteError {
    RelativePath,
}

pub open spec fn slash_byte() -> u8 {
    '/' as u8
}

pub open spec fn guilds_seg() -> Seq<u8> {
    seq!['g' as u8, 'u' as u8, 'i' as u8, 'l' as u8, 'd' as u8, 's' as u8]
}

pub open spec fn channels_seg() -> Seq<u8> {
    seq!['c' as u8, 'h' as u8, 'a' as u8, 'n' as u8, 'n' as u8, 'e' as u8, 'l' as u8, 's' as u8]
}

pub open spec fn webhooks_seg() -> Seq<u8> {
    seq!['w' as u8, 'e' as u8, 'b' as u8, 'h' as u8, 'o' as u8, 'o' as u8, 'k' as u8, 's' as u8]
}

pub open spec fn id_seg() -> Seq<u8> {
    seq![':' as u8, 'i' as u8, 'd' as u8]
}

/// A first segment after which the following id is collapsed.
pub open spec fn is_scoped_segment(seg: Seq<u8>) -> bool {
    seg == guilds_seg() || seg == channels_seg() || seg == webhooks_seg()
}

/// The bucket key of an absolute path: if the first segment is `guilds`,
/// `channels` or `webhooks` and a second segment exists, that second segment
/// becomes `:id`; otherwise the path is returned unchanged. A path that does
/// not start with `/` has no bucket key.
pub open spec fn spec_make_route(s: Seq<u8>) -> Option<Seq<u8>> {
    if s.len() == 0 || s[0] != slash_byte() {
        None
    } else {
        let e1 = find_from(s, 1, slash_byte());
        if is_scoped_segment(s.subrange(1, e1)) && e1 < s.len() {
            let e2 = find_from(s, e1 + 1, slash_byte());
            Some(s.subrange(0, e1 + 1) + id_seg() + s.subrange(e2, s.len() as int))
        } else {
            Some(s)
        }
    }
}

fn scoped_pattern_guilds() -> (r: Vec<u8>)
    ensures
        r@ == guilds_seg(),
{
    let r: Vec<u8> = vec!['g' as u8, 'u' as u8, 'i' as u8, 'l' as u8, 'd' as u8, 's' as u8];
    proof {
        assert(r@ =~= guilds_seg());
    }
    r
}

fn scoped_pattern_channels() -> (r: Vec<u8>)
    ensures
        r@ == channels_seg(),
{
    let r: Vec<u8> = vec![
        'c' as u8,
        'h' as u8,
        'a' as u8,
        'n' as u8,
        'n' as u8,
        'e' as u8,
        'l' as u8,
        's' as u8,
    ];
    proof {
        assert(r@ =~= channels_seg());
    }
    r
}

fn scoped_pattern_webhooks() -> (r: Vec<u8>)
    ensures
        r@ == webhooks_seg(),
{
    let r: Vec<u8> = vec![
        'w' as u8,
        'e' as u8,
        'b' as u8,
        'h' as u8,
        'o' as u8,
        'o' as u8,
        'k' as u8,
        's' as u8,
    ];
    proof {
        assert(r@ =~= webhooks_seg());
    }
    r
}

/// Derive the bucket key of `path`.
///
/// Fails with `RelativePath` exactly when `path` does not begin with `/`.
pub fn make_route(path: &[u8]) -> (r: Result<Vec<u8>, RouteError>)
    ensures
        match r {
            Ok(out) => spec_make_route(path@) == Some(out@),
            Err(e) => e == RouteError::RelativePath && spec_make_route(path@) is None,
        },
{
    if path.len() == 0 || path[0] != '/' as u8 {
        return Err(RouteError::RelativePath);
    }
    let e1 = find_byte(path, 1, '/' as u8);
    proof {
        lemma_find_from(path@, 1, slash_byte());
    }
    let seg1: &[u8] = &path[1..e1];
    let scoped = bytes_eq(seg1, scoped_pattern_guilds().as_slice()) || bytes_eq(
        seg1,
        scoped_pattern_channels().as_slice(),
    ) || bytes_eq(seg1, scoped_pattern_webhooks().as_slice());
    if scoped && e1 < path.len() {
        let e2 = find_byte(path, e1 + 1, '/' as u8);
        proof {
            lemma_find_from(path@, e1 + 1, slash_byte());
        }
        let mut out: Vec<u8> = Vec::new();
        out.extend_from_slice(&path[0..e1 + 1]);
        out.push(':' as u8);
        out.push('i' as u8);
        out.push('d' as u8);
        out.extend_from_slice(&path[e2..path.len()]);
        proof {
            assert(out@ =~= path@.subrange(0, e1 + 1) + id_seg() + path@.subrange(
                e2 as int,
                path@.len() as int,
            ));
        }
        Ok(out)
    } else {
        let mut out: Vec<u8> = Vec::new();
        out.extend_from_slice(path);
        proof {
            assert(out@ =~= path@);
        }
        Ok(out)
    }
}

/// Templating law for scoped segments: for any id `x` that is non-empty and
/// contains no `/`, and any remainder `rest`, the bucket key of
/// `/<seg>/<x>/<rest>` is `/<seg>/:id/<rest>`.
pub proof fn lemma_scoped_route_collapses_id(seg: Seq<u8>, x: Seq<u8>, rest: Seq<u8>)
    requires
        is_scoped_segment(seg),
        x.len() > 0,
        forall|j: int| 0 <= j < x.len() ==> x[j] != slash_byte(),
        forall|j: int| 0 <= j < seg.len() ==> seg[j] != slash_byte(),
    ensures
        spec_make_route(seq![slash_byte()] + seg + seq![slash_byte()] + x + seq![slash_byte()] + rest)
            == Some(seq![slash_byte()] + seg + seq![slash_byte()] + id_seg() + seq![slash_byte()] + rest),
{
    let s = seq![slash_byte()] + seg + seq![slash_byte()] + x + seq![slash_byte()] + rest;
    let e1 = 1 + seg.len() as int;
    let e2 = e1 + 1 + x.len() as int;
    assert(s.len() == 3 + seg.len() + x.len() + rest.len());
    assert(s[0] == slash_byte());
    assert forall|j: int| 1 <= j < e1 implies s[j] != slash_byte() by {
        assert(s[j] == seg[j - 1]);
    }
    assert(s[e1] == slash_byte());
    lemma_find_from_is(s, 1, slash_byte(), e1);
    assert(s.subrange(1, e1) =~= seg);
    assert forall|j: int| e1 + 1 <= j < e2 implies s[j] != slash_byte() by {
        assert(s[j] == x[j - e1 - 1]);
    }
    assert(s[e2] == slash_byte());
    lemma_find_from_is(s, e1 + 1, slash_byte(), e2);
    assert(s.subrange(0, e1 + 1) =~= seq![slash_byte()] + seg + seq![slash_byte()]);
    assert(s.subrange(e2, s.len() as int) =~= seq![slash_byte()] + rest);
    assert(s.subrange(0, e1 + 1) + id_seg() + s.subrange(e2, s.len() as int) =~= seq![slash_byte()]
        + seg + seq![slash_byte()] + id_seg() + seq![slash_byte()] + rest);
}

/// Identity law: an absolute path whose first segment is not `guilds`,
/// `channels` or `webhooks` is its own bucket key.
pub proof fn lemma_unscoped_route_is_identity(s: Seq<u8>)
    requires
        s.len() > 0,
        s[0] == slash_byte(),
        !is_scoped_segment(s.subrange(1, find_from(s, 1, slash_byte()))),
    ensures
        spec_make_route(s) == Some(s),
{
}

} // verus!
