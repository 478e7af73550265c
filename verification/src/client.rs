//! The request executor: build the HTTP call a request envelope names, and
//! decide, step by step, what the per-message task does next.
//!
//! The executor's I/O — the limiter wait, the bus acknowledgement, the HTTP
//! call, the reply — is driven by the runtime. This module holds what can be
//! decided from plain values: the target URL and its validation (with the
//! exact error classification the outcome envelope reports), the bucket the
//! request falls under, the effective deadline, and the step machine whose
//! transitions fix the order of claim, acknowledgement, call, release and
//! reply.

use vstd::prelude::*;
use crate::models::{ErrorKind, SerializableHttpRequest};
use crate::route::{spec_make_route, make_route, slash_byte};
use crate::util::{fmt_u64, spec_fmt_u64};

verus! {

// ------------------------------------------------------------- validation

pub open spec fn is_alpha(b: u8) -> bool {
    ('a' as u8 <= b <= 'z' as u8) || ('A' as u8 <= b <= 'Z' as u8)
}

pub open spec fn is_dig(b: u8) -> bool {
    '0' as u8 <= b <= '9' as u8
}

pub open spec fn is_hex_digit(b: u8) -> bool {
    is_dig(b) || ('a' as u8 <= b <= 'f' as u8) || ('A' as u8 <= b <= 'F' as u8)
}

/// Unreserved URI characters.
pub open spec fn is_unreserved(b: u8) -> bool {
    is_alpha(b) || is_dig(b) || b == '-' as u8 || b == '.' as u8 || b == '_' as u8 || b
        == '~' as u8
}

/// URI sub-delimiters.
pub open spec fn is_subdelim(b: u8) -> bool {
    b == '!' as u8 || b == '$' as u8 || b == '&' as u8 || b == '\'' as u8 || b == '(' as u8 || b
        == ')' as u8 || b == '*' as u8 || b == '+' as u8 || b == ',' as u8 || b == ';' as u8 || b
        == '=' as u8
}

/// A path character other than `/` and percent escapes.
pub open spec fn is_pchar_plain(b: u8) -> bool {
    is_unreserved(b) || is_subdelim(b) || b == ':' as u8 || b == '@' as u8
}

/// A valid URI path: path characters and `/`, with every `%` starting a
/// two-digit hex escape.
pub open spec fn path_ok(s: Seq<u8>) -> bool {
    forall|i: int|
        0 <= i < s.len() ==> {
            &&& (is_pchar_plain(#[trigger] s[i]) || s[i] == '/' as u8 || s[i] == '%' as u8)
            &&& (s[i] == '%' as u8 ==> i + 2 < s.len() && is_hex_digit(s[i + 1]) && is_hex_digit(
                s[i + 2],
            ))
        }
}

/// A valid query string: path characters plus `/` and `?`, with the same
/// percent-escape rule.
pub open spec fn query_ok(s: Seq<u8>) -> bool {
    forall|i: int|
        0 <= i < s.len() ==> {
            &&& (is_pchar_plain(#[trigger] s[i]) || s[i] == '/' as u8 || s[i] == '?' as u8 || s[i]
                == '%' as u8)
            &&& (s[i] == '%' as u8 ==> i + 2 < s.len() && is_hex_digit(s[i + 1]) && is_hex_digit(
                s[i + 2],
            ))
        }
}

/// An HTTP method token character.
pub open spec fn is_tchar(b: u8) -> bool {
    is_alpha(b) || is_dig(b) || b == '!' as u8 || b == '#' as u8 || b == '$' as u8 || b
        == '%' as u8 || b == '&' as u8 || b == '\'' as u8 || b == '*' as u8 || b == '+' as u8 || b
        == '-' as u8 || b == '.' as u8 || b == '^' as u8 || b == '_' as u8 || b == '`' as u8 || b
        == '|' as u8 || b == '~' as u8
}

/// A non-empty token of token characters.
pub open spec fn method_ok(s: Seq<u8>) -> bool {
    s.len() > 0 && forall|i: int| 0 <= i < s.len() ==> is_tchar(#[trigger] s[i])
}

pub open spec fn header_name_ok(s: Seq<u8>) -> bool {
    s.len() > 0 && forall|i: int| 0 <= i < s.len() ==> is_tchar(#[trigger] s[i])
}

/// A header value: visible ASCII, space or tab, or opaque high bytes; no
/// control characters.
pub open spec fn header_value_ok(s: Seq<u8>) -> bool {
    forall|i: int|
        0 <= i < s.len() ==> (#[trigger] s[i] == 9 || (32 <= s[i] && s[i] != 127))
}

pub open spec fn headers_ok(hs: Seq<(Seq<u8>, Seq<u8>)>) -> bool {
    forall|i: int|
        0 <= i < hs.len() ==> header_name_ok((#[trigger] hs[i]).0) && header_value_ok(hs[i].1)
}

/// A URI scheme: a letter followed by letters, digits, `+`, `-` or `.`.
pub open spec fn scheme_ok(s: Seq<u8>) -> bool {
    s.len() > 0 && is_alpha(s[0]) && forall|i: int|
        0 <= i < s.len() ==> (is_alpha(#[trigger] s[i]) || is_dig(s[i]) || s[i] == '+' as u8 || s[i]
            == '-' as u8 || s[i] == '.' as u8)
}

/// An authority as this proxy accepts it: registered-name characters plus
/// `:` for a port.
pub open spec fn authority_ok(s: Seq<u8>) -> bool {
    s.len() > 0 && forall|i: int|
        0 <= i < s.len() ==> (is_unreserved(#[trigger] s[i]) || is_subdelim(s[i]) || s[i]
            == ':' as u8)
}

fn check_range(s: &[u8], which: u8) -> (r: bool)
    requires
        which == 1 || which == 2,
    ensures
        which == 1 ==> (r <==> path_ok(s@)),
        which == 2 ==> (r <==> query_ok(s@)),
{
    let n = s.len();
    let mut i: usize = 0;
    while i < n
        invariant
            0 <= i <= n,
            n == s@.len(),
            which == 1 || which == 2,
            forall|j: int|
                0 <= j < i ==> {
                    &&& (is_pchar_plain(#[trigger] s@[j]) || s@[j] == '/' as u8 || (which == 2
                        && s@[j] == '?' as u8) || s@[j] == '%' as u8)
                    &&& (s@[j] == '%' as u8 ==> j + 2 < s@.len() && is_hex_digit(s@[j + 1])
                        && is_hex_digit(s@[j + 2]))
                },
        decreases n - i,
    {
        let b = s[i];
        let plain = (b >= 'a' as u8 && b <= 'z' as u8) || (b >= 'A' as u8 && b <= 'Z' as u8) || (b
            >= '0' as u8 && b <= '9' as u8) || b == '-' as u8 || b == '.' as u8 || b == '_' as u8
            || b == '~' as u8 || b == '!' as u8 || b == '$' as u8 || b == '&' as u8 || b
            == '\'' as u8 || b == '(' as u8 || b == ')' as u8 || b == '*' as u8 || b == '+' as u8
            || b == ',' as u8 || b == ';' as u8 || b == '=' as u8 || b == ':' as u8 || b
            == '@' as u8 || b == '/' as u8 || (which == 2 && b == '?' as u8);
        if b == '%' as u8 {
            if n - i < 3 {
                return false;
            }
            let h1 = s[i + 1];
            let h2 = s[i + 2];
            let hex1 = (h1 >= '0' as u8 && h1 <= '9' as u8) || (h1 >= 'a' as u8 && h1 <= 'f' as u8)
                || (h1 >= 'A' as u8 && h1 <= 'F' as u8);
            let hex2 = (h2 >= '0' as u8 && h2 <= '9' as u8) || (h2 >= 'a' as u8 && h2 <= 'f' as u8)
                || (h2 >= 'A' as u8 && h2 <= 'F' as u8);
            if !(hex1 && hex2) {
                return false;
            }
        } else if !plain {
            return false;
        }
        i += 1;
    }
    true
}

fn check_token(s: &[u8]) -> (r: bool)
    ensures
        r <==> method_ok(s@),
{
    if s.len() == 0 {
        return false;
    }
    let n = s.len();
    let mut i: usize = 0;
    while i < n
        invariant
            0 <= i <= n,
            n == s@.len(),
            forall|j: int| 0 <= j < i ==> is_tchar(#[trigger] s@[j]),
        decreases n - i,
    {
        let b = s[i];
        let ok = (b >= 'a' as u8 && b <= 'z' as u8) || (b >= 'A' as u8 && b <= 'Z' as u8) || (b
            >= '0' as u8 && b <= '9' as u8) || b == '!' as u8 || b == '#' as u8 || b == '$' as u8
            || b == '%' as u8 || b == '&' as u8 || b == '\'' as u8 || b == '*' as u8 || b
            == '+' as u8 || b == '-' as u8 || b == '.' as u8 || b == '^' as u8 || b == '_' as u8
            || b == '`' as u8 || b == '|' as u8 || b == '~' as u8;
        if !ok {
            return false;
        }
        i += 1;
    }
    true
}

fn check_header_value(s: &[u8]) -> (r: bool)
    ensures
        r <==> header_value_ok(s@),
{
    let n = s.len();
    let mut i: usize = 0;
    while i < n
        invariant
            0 <= i <= n,
            n == s@.len(),
            forall|j: int| 0 <= j < i ==> (#[trigger] s@[j] == 9 || (32 <= s@[j] && s@[j] != 127)),
        decreases n - i,
    {
        let b = s[i];
        if !(b == 9 || (b >= 32 && b != 127)) {
            return false;
        }
        i += 1;
    }
    true
}

fn check_headers(hs: &Vec<(Vec<u8>, Vec<u8>)>) -> (r: bool)
    ensures
        r <==> headers_ok(hs.deep_view()),
{
    let n = hs.len();
    let mut i: usize = 0;
    proof {
        assert(hs.deep_view().len() == hs@.len());
    }
    while i < n
        invariant
            0 <= i <= n,
            n == hs@.len(),
            hs.deep_view().len() == n,
            forall|j: int|
                0 <= j < i ==> header_name_ok((#[trigger] hs.deep_view()[j]).0) && header_value_ok(
                    hs.deep_view()[j].1,
                ),
        decreases n - i,
    {
        proof {
            assert(hs.deep_view()[i as int] == hs@[i as int].deep_view());
            assert(hs@[i as int].deep_view().0 =~= hs@[i as int].0@);
            assert(hs@[i as int].deep_view().1 =~= hs@[i as int].1@);
        }
        if !check_token(hs[i].0.as_slice()) {
            return false;
        }
        if !check_header_value(hs[i].1.as_slice()) {
            return false;
        }
        i += 1;
    }
    true
}

// ------------------------------------------------------------ target URL

/// `path` with one leading `/` removed, if it has one.
pub open spec fn strip_slash(p: Seq<u8>) -> Seq<u8> {
    if p.len() > 0 && p[0] == slash_byte() {
        p.drop_first()
    } else {
        p
    }
}

pub open spec fn api_prefix() -> Seq<u8> {
    seq![
        '/' as u8,
        'a' as u8,
        'p' as u8,
        'i' as u8,
        '/' as u8,
        'v' as u8,
    ]
}

/// The path actually fetched: `/api/v<version>/` then the envelope's path
/// with its leading slash dropped.
pub open spec fn spec_target_path(version: u8, path: Seq<u8>) -> Seq<u8> {
    api_prefix() + spec_fmt_u64(version as u64) + seq![slash_byte()] + strip_slash(path)
}

/// The query string: `k=v` pairs joined by `&`.
pub open spec fn spec_query_string(q: Seq<(Seq<u8>, Seq<u8>)>) -> Seq<u8>
    decreases q.len(),
{
    if q.len() == 0 {
        Seq::empty()
    } else if q.len() == 1 {
        q[0].0 + seq!['=' as u8] + q[0].1
    } else {
        spec_query_string(q.drop_last()) + seq!['&' as u8] + q.last().0 + seq!['=' as u8]
            + q.last().1
    }
}

/// The full target: `scheme://authority<path>` with `?query` when the query
/// string is non-empty.
pub open spec fn spec_url(
    scheme: Seq<u8>,
    base: Seq<u8>,
    tpath: Seq<u8>,
    qs: Seq<u8>,
) -> Seq<u8> {
    let head = scheme + seq![':' as u8, '/' as u8, '/' as u8] + base + tpath;
    if qs.len() > 0 {
        head + seq!['?' as u8] + qs
    } else {
        head
    }
}

fn build_target_path(version: u8, path: &[u8]) -> (r: Vec<u8>)
    ensures
        r@ == spec_target_path(version, path@),
{
    let mut out: Vec<u8> = vec![
        '/' as u8,
        'a' as u8,
        'p' as u8,
        'i' as u8,
        '/' as u8,
        'v' as u8,
    ];
    proof {
        assert(out@ =~= api_prefix());
    }
    let v = fmt_u64(version as u64);
    out.extend_from_slice(v.as_slice());
    out.push('/' as u8);
    if path.len() > 0 && path[0] == '/' as u8 {
        out.extend_from_slice(&path[1..path.len()]);
        proof {
            assert(path@.subrange(1, path@.len() as int) =~= strip_slash(path@));
            assert(out@ =~= spec_target_path(version, path@));
        }
    } else {
        out.extend_from_slice(path);
        proof {
            assert(out@ =~= spec_target_path(version, path@));
        }
    }
    out
}

fn build_query_string(q: &Vec<(Vec<u8>, Vec<u8>)>) -> (r: Vec<u8>)
    ensures
        r@ == spec_query_string(q.deep_view()),
{
    let ghost ps = q.deep_view();
    proof {
        assert(ps.len() == q@.len());
    }
    let mut out: Vec<u8> = Vec::new();
    let n = q.len();
    let mut i: usize = 0;
    proof {
        assert(ps.take(0) =~= Seq::<(Seq<u8>, Seq<u8>)>::empty());
        assert(out@ =~= spec_query_string(ps.take(0)));
    }
    while i < n
        invariant
            0 <= i <= n,
            n == q@.len(),
            ps == q.deep_view(),
            ps.len() == n,
            out@ == spec_query_string(ps.take(i as int)),
        decreases n - i,
    {
        proof {
            assert(ps[i as int] == q@[i as int].deep_view());
            assert(q@[i as int].deep_view().0 =~= q@[i as int].0@);
            assert(q@[i as int].deep_view().1 =~= q@[i as int].1@);
        }
        if i > 0 {
            out.push('&' as u8);
        }
        out.extend_from_slice(q[i].0.as_slice());
        out.push('=' as u8);
        out.extend_from_slice(q[i].1.as_slice());
        proof {
            let t = ps.take(i as int + 1);
            assert(t.drop_last() =~= ps.take(i as int));
            assert(t.last() == ps[i as int]);
            if i == 0 {
                assert(out@ =~= spec_query_string(t));
            } else {
                assert(out@ =~= spec_query_string(t));
            }
        }
        i += 1;
    }
    proof {
        assert(ps.take(n as int) =~= ps);
    }
    out
}

// -------------------------------------------------------------- the client

/// The executor's fixed configuration: where the remote API lives and the
/// server-wide ceiling on any one request.
#[derive(Debug, Clone, PartialEq, Eq)]
pub struct Client {
    /// URL scheme, e.g. `https`.
    pub api_scheme: Vec<u8>,
    /// Remote API version; the path prefix is `/api/v<version>/`.
    pub api_version: u8,
    /// Authority (host, optionally `:port`) of the remote API.
    pub api_base: Vec<u8>,
    /// Server-configured ceiling on one request, in milliseconds.
    pub timeout: Option<u64>,
}

/// The fully validated HTTP call a request envelope names.
#[derive(Debug, Clone, PartialEq, Eq)]
pub struct RequestPlan {
    /// Validated method token.
    pub method: Vec<u8>,
    /// Full target URL.
    pub url: Vec<u8>,
    /// The URL's path part; the rate-limit bucket is derived from it.
    pub api_path: Vec<u8>,
    /// Validated headers, as given.
    pub headers: Vec<(Vec<u8>, Vec<u8>)>,
    /// Request body, as given.
    pub body: Option<Vec<u8>>,
}

impl Client {
    /// A scheme and authority this executor will build URLs from.
    pub open spec fn wf(&self) -> bool {
        scheme_ok(self.api_scheme@) && authority_ok(self.api_base@)
    }

    /// Make a client, refusing a malformed scheme or authority.
    pub fn new(api_scheme: Vec<u8>, api_version: u8, api_base: Vec<u8>, timeout: Option<u64>) -> (r:
        Option<Client>)
        ensures
            match r {
                Some(c) => {
                    &&& c.wf()
                    &&& c.api_scheme == api_scheme
                    &&& c.api_version == api_version
                    &&& c.api_base == api_base
                    &&& c.timeout == timeout
                },
                None => !(scheme_ok(api_scheme@) && authority_ok(api_base@)),
            },
    {
        let scheme_good = if api_scheme.len() == 0 {
            false
        } else {
            let b0 = api_scheme[0];
            let first = (b0 >= 'a' as u8 && b0 <= 'z' as u8) || (b0 >= 'A' as u8 && b0
                <= 'Z' as u8);
            first && check_scheme_tail(api_scheme.as_slice())
        };
        if !scheme_good {
            return None;
        }
        let base_good = if api_base.len() == 0 {
            false
        } else {
            check_authority(api_base.as_slice())
        };
        if !base_good {
            return None;
        }
        Some(Client { api_scheme, api_version, api_base, timeout })
    }

    /// Build the validated HTTP call of one request envelope.
    ///
    /// The target path is checked first, then the query string, then the
    /// method, then the headers; the first rejection names the outcome.
    pub fn create_request(&self, data: &SerializableHttpRequest) -> (r: Result<
        RequestPlan,
        ErrorKind,
    >)
        requires
            self.wf(),
        ensures
            ({
                let tpath = spec_target_path(self.api_version, data.path@);
                let qs = match data.query {
                    Some(_) => spec_query_string(data.query.deep_view()->Some_0),
                    None => Seq::<u8>::empty(),
                };
                match r {
                    Ok(plan) => {
                        &&& path_ok(tpath)
                        &&& query_ok(qs)
                        &&& method_ok(data.method@)
                        &&& headers_ok(data.headers.deep_view())
                        &&& plan.method@ == data.method@
                        &&& plan.api_path@ == tpath
                        &&& plan.url@ == spec_url(self.api_scheme@, self.api_base@, tpath, qs)
                        &&& plan.headers.deep_view() == data.headers.deep_view()
                        &&& plan.body.deep_view() == data.body.deep_view()
                    },
                    Err(k) => {
                        &&& (k == ErrorKind::Path <==> !path_ok(tpath))
                        &&& (k == ErrorKind::Query <==> path_ok(tpath) && !query_ok(qs))
                        &&& (k == ErrorKind::Method <==> path_ok(tpath) && query_ok(qs)
                            && !method_ok(data.method@))
                        &&& (k == ErrorKind::Headers <==> path_ok(tpath) && query_ok(qs)
                            && method_ok(data.method@) && !headers_ok(data.headers.deep_view()))
                        &&& (k == ErrorKind::Path || k == ErrorKind::Query || k == ErrorKind::Method
                            || k == ErrorKind::Headers)
                    },
                }
            }),
    {
        let tpath = build_target_path(self.api_version, data.path.as_slice());
        if !check_range(tpath.as_slice(), 1) {
            return Err(ErrorKind::Path);
        }
        let qs = match &data.query {
            Some(q) => build_query_string(q),
            None => Vec::new(),
        };
        proof {
            if data.query is None {
                assert(qs@ =~= Seq::<u8>::empty());
            }
        }
        if !check_range(qs.as_slice(), 2) {
            return Err(ErrorKind::Query);
        }
        if !check_token(data.method.as_slice()) {
            return Err(ErrorKind::Method);
        }
        if !check_headers(&data.headers) {
            return Err(ErrorKind::Headers);
        }
        let mut url: Vec<u8> = Vec::new();
        url.extend_from_slice(self.api_scheme.as_slice());
        url.push(':' as u8);
        url.push('/' as u8);
        url.push('/' as u8);
        url.extend_from_slice(self.api_base.as_slice());
        url.extend_from_slice(tpath.as_slice());
        if qs.len() > 0 {
            url.push('?' as u8);
            url.extend_from_slice(qs.as_slice());
        }
        proof {
            assert(url@ =~= spec_url(self.api_scheme@, self.api_base@, tpath@, qs@));
        }
        let mut method: Vec<u8> = Vec::new();
        method.extend_from_slice(data.method.as_slice());
        let mut headers: Vec<(Vec<u8>, Vec<u8>)> = Vec::new();
        let n = data.headers.len();
        let mut i: usize = 0;
        while i < n
            invariant
                0 <= i <= n,
                n == data.headers@.len(),
                headers.deep_view() =~~= data.headers.deep_view().take(i as int),
            decreases n - i,
        {
            let mut hk: Vec<u8> = Vec::new();
            hk.extend_from_slice(data.headers[i].0.as_slice());
            let mut hv: Vec<u8> = Vec::new();
            hv.extend_from_slice(data.headers[i].1.as_slice());
            let ghost prev = headers.deep_view();
            headers.push((hk, hv));
            proof {
                assert(headers.deep_view() =~~= prev.push(
                    (data.headers@[i as int].0@, data.headers@[i as int].1@),
                ));
                assert(data.headers.deep_view()[i as int] == data.headers@[i as int].deep_view());
                assert(data.headers@[i as int].deep_view().0 =~= data.headers@[i as int].0@);
                assert(data.headers@[i as int].deep_view().1 =~= data.headers@[i as int].1@);
                assert(headers.deep_view() =~~= data.headers.deep_view().take(i as int + 1));
            }
            i += 1;
        }
        proof {
            assert(data.headers.deep_view().take(n as int) =~~= data.headers.deep_view());
        }
        let body = match &data.body {
            Some(b) => {
                let mut bb: Vec<u8> = Vec::new();
                bb.extend_from_slice(b.as_slice());
                proof {
                    assert(bb.deep_view() =~= b.deep_view());
                }
                Some(bb)
            },
            None => None,
        };
        let mut api_path: Vec<u8> = Vec::new();
        api_path.extend_from_slice(tpath.as_slice());
        proof {
            assert(method@ =~= data.method@);
            assert(api_path@ =~= tpath@);
        }
        Ok(RequestPlan { method, url, api_path, headers, body })
    }

    /// The bucket a plan's call falls under. The target path always begins
    /// with `/`, so a bucket always exists.
    pub fn bucket_for(&self, plan: &RequestPlan) -> (r: Vec<u8>)
        requires
            plan.api_path@.len() > 0,
            plan.api_path@[0] == slash_byte(),
        ensures
            spec_make_route(plan.api_path@) == Some(r@),
    {
        match make_route(plan.api_path.as_slice()) {
            Ok(b) => b,
            Err(_) => {
                proof {
                    assert(false);
                }
                Vec::new()
            },
        }
    }

    /// The deadline that bounds one request: the smaller of the server-wide
    /// ceiling and the envelope's own bound; absent when neither exists.
    pub fn effective_timeout(&self, request: Option<u64>) -> (r: Option<u64>)
        ensures
            r matches Some(m) ==> {
                &&& (self.timeout matches Some(s) ==> m <= s)
                &&& (request matches Some(q) ==> m <= q)
                &&& (self.timeout == Some(m) || request == Some(m))
            },
            r is None <==> (self.timeout is None && request is None),
    {
        match (self.timeout, request) {
            (Some(s), Some(q)) => if s <= q {
                Some(s)
            } else {
                Some(q)
            },
            (Some(s), None) => Some(s),
            (None, Some(q)) => Some(q),
            (None, None) => None,
        }
    }
}

fn check_scheme_tail(s: &[u8]) -> (r: bool)
    requires
        s@.len() > 0,
    ensures
        r <==> (forall|i: int|
            0 <= i < s@.len() ==> (is_alpha(#[trigger] s@[i]) || is_dig(s@[i]) || s@[i]
                == '+' as u8 || s@[i] == '-' as u8 || s@[i] == '.' as u8)),
{
    let n = s.len();
    let mut i: usize = 0;
    while i < n
        invariant
            0 <= i <= n,
            n == s@.len(),
            forall|j: int|
                0 <= j < i ==> (is_alpha(#[trigger] s@[j]) || is_dig(s@[j]) || s@[j] == '+' as u8
                    || s@[j] == '-' as u8 || s@[j] == '.' as u8),
        decreases n - i,
    {
        let b = s[i];
        let ok = (b >= 'a' as u8 && b <= 'z' as u8) || (b >= 'A' as u8 && b <= 'Z' as u8) || (b
            >= '0' as u8 && b <= '9' as u8) || b == '+' as u8 || b == '-' as u8 || b == '.' as u8;
        if !ok {
            return false;
        }
        i += 1;
    }
    true
}

fn check_authority(s: &[u8]) -> (r: bool)
    requires
        s@.len() > 0,
    ensures
        r <==> authority_ok(s@),
{
    let n = s.len();
    let mut i: usize = 0;
    while i < n
        invariant
            0 <= i <= n,
            n == s@.len(),
            forall|j: int|
                0 <= j < i ==> (is_unreserved(#[trigger] s@[j]) || is_subdelim(s@[j]) || s@[j]
                    == ':' as u8),
        decreases n - i,
    {
        let b = s[i];
        let ok = (b >= 'a' as u8 && b <= 'z' as u8) || (b >= 'A' as u8 && b <= 'Z' as u8) || (b
            >= '0' as u8 && b <= '9' as u8) || b == '-' as u8 || b == '.' as u8 || b == '_' as u8
            || b == '~' as u8 || b == '!' as u8 || b == '$' as u8 || b == '&' as u8 || b
            == '\'' as u8 || b == '(' as u8 || b == ')' as u8 || b == '*' as u8 || b == '+' as u8
            || b == ',' as u8 || b == ';' as u8 || b == '=' as u8 || b == ':' as u8;
        if !ok {
            return false;
        }
        i += 1;
    }
    true
}

} // verus!

verus! {

// -------------------------------------------------------- the step machine

/// Where a per-message task stands.
#[derive(Debug, Clone, Copy, PartialEq, Eq, Structural)]
pub enum ExecPhase {
    /// Decoding the envelope and building the call.
    Deciding,
    /// Waiting on the limiter's claim.
    Claiming,
    /// Claim granted; acknowledging the bus message.
    Acking,
    /// HTTP call in flight.
    Fetching,
    /// Returning post-response knowledge to the limiter.
    Releasing,
    /// Sending the outcome envelope.
    Replying,
    /// Finished (replied, or cancelled without a reply).
    Done,
}

/// What the runtime reports back to the machine.
#[derive(Debug, Clone, Copy, PartialEq, Eq, Structural)]
pub enum ExecEvent {
    /// The envelope decoded and the call was built.
    BuildOk,
    /// Decoding or building failed; the outcome carries the failure's kind.
    BuildFailed,
    /// The limiter granted a permit.
    ClaimOk,
    /// The limiter failed (a broken store, not a full bucket).
    ClaimFailed,
    /// The bus acknowledged the message.
    Acked,
    /// The HTTP call answered.
    HttpOk,
    /// The HTTP transport failed.
    HttpFailed,
    /// The limiter recorded the release.
    Released,
    /// The limiter failed to record the release.
    ReleaseFailed,
    /// The outcome envelope was sent.
    Replied,
    /// The publisher abandoned the call.
    Cancelled,
    /// The effective deadline elapsed.
    TimedOut,
}

/// What the runtime must do next.
#[derive(Debug, Clone, Copy, PartialEq, Eq, Structural)]
pub enum ExecAction {
    /// Ask the limiter for a permit on the plan's bucket.
    DoClaim,
    /// Acknowledge the bus message.
    DoAck,
    /// Execute the HTTP call.
    DoHttp,
    /// Hand the response's rate-limit info to the limiter.
    DoRelease,
    /// Reply with the outcome envelope.
    DoReply,
    /// Nothing; the task is finished or the event changed nothing.
    DoNothing,
}

/// One step of the per-message task.
///
/// The acknowledgement is deliberately placed between the claim and the
/// HTTP call: once a request has consumed a permit from the shared quota it
/// must not be redelivered, while work that never claimed may be redelivered
/// freely. A cancellation ends the task silently in any phase; an elapsed
/// deadline ends it with a timeout outcome. The release is performed whether
/// the HTTP call answered or failed, as the response headers (or their
/// absence) are what refills the bucket.
pub open spec fn spec_exec_step(p: ExecPhase, e: ExecEvent) -> (ExecPhase, ExecAction) {
    match (p, e) {
        (ExecPhase::Deciding, ExecEvent::BuildOk) => (ExecPhase::Claiming, ExecAction::DoClaim),
        (ExecPhase::Deciding, ExecEvent::BuildFailed) => (
            ExecPhase::Replying,
            ExecAction::DoReply,
        ),
        (ExecPhase::Claiming, ExecEvent::ClaimOk) => (ExecPhase::Acking, ExecAction::DoAck),
        (ExecPhase::Claiming, ExecEvent::ClaimFailed) => (
            ExecPhase::Replying,
            ExecAction::DoReply,
        ),
        (ExecPhase::Acking, ExecEvent::Acked) => (ExecPhase::Fetching, ExecAction::DoHttp),
        (ExecPhase::Fetching, ExecEvent::HttpOk) => (ExecPhase::Releasing, ExecAction::DoRelease),
        (ExecPhase::Fetching, ExecEvent::HttpFailed) => (
            ExecPhase::Releasing,
            ExecAction::DoRelease,
        ),
        (ExecPhase::Releasing, ExecEvent::Released) => (ExecPhase::Replying, ExecAction::DoReply),
        (ExecPhase::Releasing, ExecEvent::ReleaseFailed) => (
            ExecPhase::Replying,
            ExecAction::DoReply,
        ),
        (ExecPhase::Replying, ExecEvent::Replied) => (ExecPhase::Done, ExecAction::DoNothing),
        (_, ExecEvent::Cancelled) => (ExecPhase::Done, ExecAction::DoNothing),
        (_, ExecEvent::TimedOut) => if p is Done {
            (ExecPhase::Done, ExecAction::DoNothing)
        } else {
            (ExecPhase::Replying, ExecAction::DoReply)
        },
        _ => (p, ExecAction::DoNothing),
    }
}

/// One step of the per-message task; `spec_exec_step` is the transition
/// relation.
pub fn exec_step(p: ExecPhase, e: ExecEvent) -> (r: (ExecPhase, ExecAction))
    ensures
        r == spec_exec_step(p, e),
{
    match (p, e) {
        (ExecPhase::Deciding, ExecEvent::BuildOk) => (ExecPhase::Claiming, ExecAction::DoClaim),
        (ExecPhase::Deciding, ExecEvent::BuildFailed) => (
            ExecPhase::Replying,
            ExecAction::DoReply,
        ),
        (ExecPhase::Claiming, ExecEvent::ClaimOk) => (ExecPhase::Acking, ExecAction::DoAck),
        (ExecPhase::Claiming, ExecEvent::ClaimFailed) => (
            ExecPhase::Replying,
            ExecAction::DoReply,
        ),
        (ExecPhase::Acking, ExecEvent::Acked) => (ExecPhase::Fetching, ExecAction::DoHttp),
        (ExecPhase::Fetching, ExecEvent::HttpOk) => (ExecPhase::Releasing, ExecAction::DoRelease),
        (ExecPhase::Fetching, ExecEvent::HttpFailed) => (
            ExecPhase::Releasing,
            ExecAction::DoRelease,
        ),
        (ExecPhase::Releasing, ExecEvent::Released) => (ExecPhase::Replying, ExecAction::DoReply),
        (ExecPhase::Releasing, ExecEvent::ReleaseFailed) => (
            ExecPhase::Replying,
            ExecAction::DoReply,
        ),
        (ExecPhase::Replying, ExecEvent::Replied) => (ExecPhase::Done, ExecAction::DoNothing),
        (_, ExecEvent::Cancelled) => (ExecPhase::Done, ExecAction::DoNothing),
        (_, ExecEvent::TimedOut) => {
            if p == ExecPhase::Done {
                (ExecPhase::Done, ExecAction::DoNothing)
            } else {
                (ExecPhase::Replying, ExecAction::DoReply)
            }
        },
        _ => (p, ExecAction::DoNothing),
    }
}

/// The phase after a run of events, starting from `Deciding`.
pub open spec fn phase_after(evs: Seq<ExecEvent>) -> ExecPhase
    decreases evs.len(),
{
    if evs.len() == 0 {
        ExecPhase::Deciding
    } else {
        spec_exec_step(phase_after(evs.drop_last()), evs.last()).0
    }
}

/// The action the machine emits at step `i` of a run.
pub open spec fn action_at(evs: Seq<ExecEvent>, i: int) -> ExecAction {
    spec_exec_step(phase_after(evs.take(i)), evs[i]).1
}

proof fn lemma_action_prefix(evs: Seq<ExecEvent>, k: int, i: int)
    requires
        0 <= i < k <= evs.len(),
    ensures
        action_at(evs.take(k), i) == action_at(evs, i),
{
    assert(evs.take(k).take(i) =~= evs.take(i));
    assert(evs.take(k)[i] == evs[i]);
}

proof fn lemma_acking_has_ack(evs: Seq<ExecEvent>)
    requires
        phase_after(evs) == ExecPhase::Acking,
    ensures
        exists|i: int| 0 <= i < evs.len() && #[trigger] action_at(evs, i) == ExecAction::DoAck,
    decreases evs.len(),
{
    let n = evs.len() as int;
    let pre = evs.drop_last();
    let p0 = phase_after(pre);
    if p0 == ExecPhase::Claiming && evs.last() == ExecEvent::ClaimOk {
        assert(evs.take(n - 1) =~= pre);
        assert(action_at(evs, n - 1) == ExecAction::DoAck);
    } else {
        assert(p0 == ExecPhase::Acking);
        lemma_acking_has_ack(pre);
        let i = choose|i: int|
            0 <= i < pre.len() && #[trigger] action_at(pre, i) == ExecAction::DoAck;
        assert(evs.take(i) =~= pre.take(i));
        assert(evs[i] == pre[i]);
        assert(action_at(evs, i) == ExecAction::DoAck);
    }
}

proof fn lemma_claiming_has_claim(evs: Seq<ExecEvent>)
    requires
        phase_after(evs) == ExecPhase::Claiming,
    ensures
        exists|i: int| 0 <= i < evs.len() && #[trigger] action_at(evs, i) == ExecAction::DoClaim,
    decreases evs.len(),
{
    let n = evs.len() as int;
    let pre = evs.drop_last();
    let p0 = phase_after(pre);
    if p0 == ExecPhase::Deciding && evs.last() == ExecEvent::BuildOk {
        assert(evs.take(n - 1) =~= pre);
        assert(action_at(evs, n - 1) == ExecAction::DoClaim);
    } else {
        assert(p0 == ExecPhase::Claiming);
        lemma_claiming_has_claim(pre);
        let i = choose|i: int|
            0 <= i < pre.len() && #[trigger] action_at(pre, i) == ExecAction::DoClaim;
        assert(evs.take(i) =~= pre.take(i));
        assert(evs[i] == pre[i]);
        assert(action_at(evs, i) == ExecAction::DoClaim);
    }
}

/// Ack ordering, first half: the machine acknowledges only at the step on
/// which the claim returned, and a claim action precedes it.
pub proof fn lemma_ack_only_when_claim_returns(evs: Seq<ExecEvent>, i: int)
    requires
        0 <= i < evs.len(),
        action_at(evs, i) == ExecAction::DoAck,
    ensures
        phase_after(evs.take(i)) == ExecPhase::Claiming,
        evs[i] == ExecEvent::ClaimOk,
        exists|h: int| 0 <= h < i && #[trigger] action_at(evs, h) == ExecAction::DoClaim,
{
    lemma_claiming_has_claim(evs.take(i));
    let h = choose|h: int|
        0 <= h < evs.take(i).len() && #[trigger] action_at(evs.take(i), h) == ExecAction::DoClaim;
    lemma_action_prefix(evs, i, h);
    assert(action_at(evs, h) == ExecAction::DoClaim);
}

/// Ack ordering, second half: the machine starts the HTTP call only after
/// the acknowledgement was performed — never before the claim.
pub proof fn lemma_http_only_after_ack(evs: Seq<ExecEvent>, j: int)
    requires
        0 <= j < evs.len(),
        action_at(evs, j) == ExecAction::DoHttp,
    ensures
        phase_after(evs.take(j)) == ExecPhase::Acking,
        evs[j] == ExecEvent::Acked,
        exists|i: int| 0 <= i < j && #[trigger] action_at(evs, i) == ExecAction::DoAck,
{
    lemma_acking_has_ack(evs.take(j));
    let i = choose|i: int|
        0 <= i < evs.take(j).len() && #[trigger] action_at(evs.take(j), i) == ExecAction::DoAck;
    lemma_action_prefix(evs, j, i);
    assert(action_at(evs, i) == ExecAction::DoAck);
}

/// A cancelled task never replies: from the step a cancellation arrives, the
/// task is done and every later action is `DoNothing`.
pub proof fn lemma_cancelled_stays_silent(evs: Seq<ExecEvent>, i: int, j: int)
    requires
        0 <= i <= j < evs.len(),
        evs[i] == ExecEvent::Cancelled,
        forall|k: int| i < k <= j ==> evs[k] != ExecEvent::TimedOut,
    ensures
        phase_after(evs.take(j + 1)) == ExecPhase::Done,
        i < j ==> action_at(evs, j) == ExecAction::DoNothing,
    decreases j - i,
{
    if j == i {
        assert(evs.take(j + 1).drop_last() =~= evs.take(j));
        assert(evs.take(j + 1).last() == evs[i]);
    } else {
        lemma_cancelled_stays_silent(evs, i, j - 1);
        assert(evs.take(j + 1).drop_last() =~= evs.take(j));
        assert(evs.take(j + 1).last() == evs[j]);
        assert(action_at(evs, j) == spec_exec_step(phase_after(evs.take(j)), evs[j]).1);
    }
}

} // verus!
