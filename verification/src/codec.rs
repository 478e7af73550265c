//! Wire codec for the envelopes.
//!
//! A simple self-describing binary layout, stable across publishers and the
//! proxy: integers are little-endian and fixed-width, byte strings are an
//! 8-byte length followed by the bytes, lists are an 8-byte count followed
//! by the items, optional fields are a one-byte presence tag (0 absent,
//! 1 present) followed by the value, and an outcome starts with the status's
//! one-byte wire ordinal. Decoding accepts exactly the encodings and demands
//! the whole buffer be consumed; the round-trip laws at the end of this
//! module state that decoding an encoding yields the value encoded.

use vstd::prelude::*;
use vstd::bytes::*;
use crate::models::{
    RequestResponse,
    RequestResponseBody,
    ResponseStatus,
    SerializableHttpRequest,
    SerializableHttpResponse,
    spec_status_code,
    spec_status_from_code,
};

verus! {

// ---------------------------------------------------------------- encoding

pub open spec fn enc_u64(x: u64) -> Seq<u8> {
    spec_u64_to_le_bytes(x)
}

pub open spec fn enc_u16(x: u16) -> Seq<u8> {
    spec_u16_to_le_bytes(x)
}

pub open spec fn enc_bytes(b: Seq<u8>) -> Seq<u8> {
    enc_u64(b.len() as u64) + b
}

pub open spec fn enc_opt_bytes(ob: Option<Seq<u8>>) -> Seq<u8> {
    match ob {
        None => seq![0u8],
        Some(b) => seq![1u8] + enc_bytes(b),
    }
}

pub open spec fn enc_pairs_items(ps: Seq<(Seq<u8>, Seq<u8>)>) -> Seq<u8>
    decreases ps.len(),
{
    if ps.len() == 0 {
        Seq::empty()
    } else {
        enc_bytes(ps[0].0) + enc_bytes(ps[0].1) + enc_pairs_items(ps.drop_first())
    }
}

pub open spec fn enc_pairs(ps: Seq<(Seq<u8>, Seq<u8>)>) -> Seq<u8> {
    enc_u64(ps.len() as u64) + enc_pairs_items(ps)
}

pub open spec fn enc_opt_pairs(op: Option<Seq<(Seq<u8>, Seq<u8>)>>) -> Seq<u8> {
    match op {
        None => seq![0u8],
        Some(ps) => seq![1u8] + enc_pairs(ps),
    }
}

pub open spec fn enc_opt_u64(ot: Option<u64>) -> Seq<u8> {
    match ot {
        None => seq![0u8],
        Some(t) => seq![1u8] + enc_u64(t),
    }
}

/// Field sizes must fit their length words.
pub open spec fn wf_pairs(ps: Seq<(Seq<u8>, Seq<u8>)>) -> bool {
    &&& ps.len() <= u64::MAX
    &&& (forall|i: int|
        0 <= i < ps.len() ==> (#[trigger] ps[i]).0.len() <= u64::MAX && ps[i].1.len() <= u64::MAX)
}

// ---------------------------------------------------------------- decoding

pub open spec fn dec_u64(s: Seq<u8>, i: int) -> Option<(u64, int)> {
    if 0 <= i && i + 8 <= s.len() {
        Some((spec_u64_from_le_bytes(s.subrange(i, i + 8)), i + 8))
    } else {
        None
    }
}

pub open spec fn dec_u16(s: Seq<u8>, i: int) -> Option<(u16, int)> {
    if 0 <= i && i + 2 <= s.len() {
        Some((spec_u16_from_le_bytes(s.subrange(i, i + 2)), i + 2))
    } else {
        None
    }
}

pub open spec fn dec_byte(s: Seq<u8>, i: int) -> Option<(u8, int)> {
    if 0 <= i && i + 1 <= s.len() {
        Some((s[i], i + 1))
    } else {
        None
    }
}

pub open spec fn dec_bytes(s: Seq<u8>, i: int) -> Option<(Seq<u8>, int)> {
    match dec_u64(s, i) {
        Some((n, j)) => if j + n <= s.len() {
            Some((s.subrange(j, j + n), j + n))
        } else {
            None
        },
        None => None,
    }
}

pub open spec fn dec_opt_bytes(s: Seq<u8>, i: int) -> Option<(Option<Seq<u8>>, int)> {
    match dec_byte(s, i) {
        Some((tag, j)) => if tag == 0 {
            Some((None, j))
        } else if tag == 1 {
            match dec_bytes(s, j) {
                Some((b, k)) => Some((Some(b), k)),
                None => None,
            }
        } else {
            None
        },
        None => None,
    }
}

pub open spec fn dec_pairs_items(s: Seq<u8>, i: int, n: nat) -> Option<
    (Seq<(Seq<u8>, Seq<u8>)>, int),
>
    decreases n,
{
    if n == 0 {
        Some((Seq::empty(), i))
    } else {
        match dec_bytes(s, i) {
            Some((k1, j1)) => match dec_bytes(s, j1) {
                Some((v1, j2)) => match dec_pairs_items(s, j2, (n - 1) as nat) {
                    Some((rest, j3)) => Some((seq![(k1, v1)] + rest, j3)),
                    None => None,
                },
                None => None,
            },
            None => None,
        }
    }
}

pub open spec fn dec_pairs(s: Seq<u8>, i: int) -> Option<(Seq<(Seq<u8>, Seq<u8>)>, int)> {
    match dec_u64(s, i) {
        Some((n, j)) => dec_pairs_items(s, j, n as nat),
        None => None,
    }
}

pub open spec fn dec_opt_pairs(s: Seq<u8>, i: int) -> Option<
    (Option<Seq<(Seq<u8>, Seq<u8>)>>, int),
> {
    match dec_byte(s, i) {
        Some((tag, j)) => if tag == 0 {
            Some((None, j))
        } else if tag == 1 {
            match dec_pairs(s, j) {
                Some((ps, k)) => Some((Some(ps), k)),
                None => None,
            }
        } else {
            None
        },
        None => None,
    }
}

pub open spec fn dec_opt_u64(s: Seq<u8>, i: int) -> Option<(Option<u64>, int)> {
    match dec_byte(s, i) {
        Some((tag, j)) => if tag == 0 {
            Some((None, j))
        } else if tag == 1 {
            match dec_u64(s, j) {
                Some((v, k)) => Some((Some(v), k)),
                None => None,
            }
        } else {
            None
        },
        None => None,
    }
}

// ------------------------------------------------------- round-trip lemmas

pub proof fn lemma_dec_u64_of_enc(s: Seq<u8>, i: int, x: u64)
    requires
        0 <= i,
        i + 8 <= s.len(),
        s.subrange(i, i + 8) == enc_u64(x),
    ensures
        dec_u64(s, i) == Some((x, i + 8)),
{
    lemma_auto_spec_u64_to_from_le_bytes();
}

pub proof fn lemma_dec_u16_of_enc(s: Seq<u8>, i: int, x: u16)
    requires
        0 <= i,
        i + 2 <= s.len(),
        s.subrange(i, i + 2) == enc_u16(x),
    ensures
        dec_u16(s, i) == Some((x, i + 2)),
{
    lemma_auto_spec_u16_to_from_le_bytes();
    assert(spec_u16_to_le_bytes(x).len() == 2);
    assert(spec_u16_from_le_bytes(spec_u16_to_le_bytes(x)) == x);
    assert(spec_u16_from_le_bytes(s.subrange(i, i + 2)) == x);
}

pub proof fn lemma_dec_bytes_of_enc(s: Seq<u8>, i: int, b: Seq<u8>)
    requires
        0 <= i,
        b.len() <= u64::MAX,
        i + 8 + b.len() <= s.len(),
        s.subrange(i, i + 8 + b.len()) == enc_bytes(b),
    ensures
        dec_bytes(s, i) == Some((b, i + 8 + b.len())),
{
    lemma_auto_spec_u64_to_from_le_bytes();
    let chunk = s.subrange(i, i + 8 + b.len());
    assert(enc_u64((b.len() as u64)).len() == 8);
    assert(s.subrange(i, i + 8) =~= chunk.subrange(0, 8));
    assert(chunk.subrange(0, 8) =~= enc_u64(b.len() as u64));
    lemma_dec_u64_of_enc(s, i, b.len() as u64);
    assert(s.subrange(i + 8, i + 8 + b.len()) =~= chunk.subrange(8, 8 + b.len() as int));
    assert(chunk.subrange(8, 8 + b.len() as int) =~= b);
}

pub proof fn lemma_dec_opt_bytes_of_enc(s: Seq<u8>, i: int, ob: Option<Seq<u8>>)
    requires
        0 <= i,
        (ob matches Some(b) ==> b.len() <= u64::MAX),
        i + enc_opt_bytes(ob).len() <= s.len(),
        s.subrange(i, i + enc_opt_bytes(ob).len()) == enc_opt_bytes(ob),
    ensures
        dec_opt_bytes(s, i) == Some((ob, i + enc_opt_bytes(ob).len())),
{
    let chunk = s.subrange(i, i + enc_opt_bytes(ob).len());
    match ob {
        None => {
            assert(chunk.len() == 1);
            assert(s[i] == chunk[0]);
        },
        Some(b) => {
            lemma_auto_spec_u64_to_from_le_bytes();
            assert(s[i] == chunk[0]);
            assert(chunk[0] == 1u8);
            assert(s.subrange(i + 1, i + 1 + 8 + b.len()) =~= chunk.subrange(
                1,
                9 + b.len() as int,
            ));
            assert(chunk.subrange(1, 9 + b.len() as int) =~= enc_bytes(b));
            lemma_dec_bytes_of_enc(s, i + 1, b);
        },
    }
}

pub proof fn lemma_dec_pairs_items_of_enc(s: Seq<u8>, i: int, ps: Seq<(Seq<u8>, Seq<u8>)>)
    requires
        0 <= i,
        wf_pairs(ps),
        i + enc_pairs_items(ps).len() <= s.len(),
        s.subrange(i, i + enc_pairs_items(ps).len()) == enc_pairs_items(ps),
    ensures
        dec_pairs_items(s, i, ps.len()) == Some((ps, i + enc_pairs_items(ps).len())),
    decreases ps.len(),
{
    lemma_auto_spec_u64_to_from_le_bytes();
    if ps.len() > 0 {
        let k0 = ps[0].0;
        let v0 = ps[0].1;
        let ek = enc_bytes(k0);
        let ev = enc_bytes(v0);
        let rest = enc_pairs_items(ps.drop_first());
        let chunk = s.subrange(i, i + enc_pairs_items(ps).len());
        assert(enc_pairs_items(ps) == ek + ev + rest);
        assert(ek.len() == 8 + k0.len());
        assert(ev.len() == 8 + v0.len());
        assert(s.subrange(i, i + ek.len()) =~= chunk.subrange(0, ek.len() as int));
        assert(chunk.subrange(0, ek.len() as int) =~= ek);
        lemma_dec_bytes_of_enc(s, i, k0);
        let j1 = i + ek.len();
        assert(s.subrange(j1, j1 + ev.len()) =~= chunk.subrange(
            ek.len() as int,
            (ek.len() + ev.len()) as int,
        ));
        assert(chunk.subrange(ek.len() as int, (ek.len() + ev.len()) as int) =~= ev);
        lemma_dec_bytes_of_enc(s, j1, v0);
        let j2 = j1 + ev.len();
        assert(s.subrange(j2, j2 + rest.len()) =~= chunk.subrange(
            (ek.len() + ev.len()) as int,
            chunk.len() as int,
        ));
        assert(chunk.subrange((ek.len() + ev.len()) as int, chunk.len() as int) =~= rest);
        assert(wf_pairs(ps.drop_first())) by {
            assert(forall|t: int|
                0 <= t < ps.drop_first().len() ==> #[trigger] ps.drop_first()[t] == ps[t + 1]);
        }
        lemma_dec_pairs_items_of_enc(s, j2, ps.drop_first());
        assert(seq![(k0, v0)] + ps.drop_first() =~= ps);
    }
}

pub proof fn lemma_dec_pairs_of_enc(s: Seq<u8>, i: int, ps: Seq<(Seq<u8>, Seq<u8>)>)
    requires
        0 <= i,
        wf_pairs(ps),
        i + enc_pairs(ps).len() <= s.len(),
        s.subrange(i, i + enc_pairs(ps).len()) == enc_pairs(ps),
    ensures
        dec_pairs(s, i) == Some((ps, i + enc_pairs(ps).len())),
{
    lemma_auto_spec_u64_to_from_le_bytes();
    let chunk = s.subrange(i, i + enc_pairs(ps).len());
    assert(s.subrange(i, i + 8) =~= chunk.subrange(0, 8));
    assert(chunk.subrange(0, 8) =~= enc_u64(ps.len() as u64));
    lemma_dec_u64_of_enc(s, i, ps.len() as u64);
    let j = i + 8;
    assert(s.subrange(j, j + enc_pairs_items(ps).len()) =~= chunk.subrange(8, chunk.len() as int));
    assert(chunk.subrange(8, chunk.len() as int) =~= enc_pairs_items(ps));
    lemma_dec_pairs_items_of_enc(s, j, ps);
}

pub proof fn lemma_dec_opt_pairs_of_enc(s: Seq<u8>, i: int, op: Option<Seq<(Seq<u8>, Seq<u8>)>>)
    requires
        0 <= i,
        (op matches Some(ps) ==> wf_pairs(ps)),
        i + enc_opt_pairs(op).len() <= s.len(),
        s.subrange(i, i + enc_opt_pairs(op).len()) == enc_opt_pairs(op),
    ensures
        dec_opt_pairs(s, i) == Some((op, i + enc_opt_pairs(op).len())),
{
    let chunk = s.subrange(i, i + enc_opt_pairs(op).len());
    match op {
        None => {
            assert(s[i] == chunk[0]);
        },
        Some(ps) => {
            assert(s[i] == chunk[0]);
            assert(chunk[0] == 1u8);
            assert(s.subrange(i + 1, i + 1 + enc_pairs(ps).len()) =~= chunk.subrange(
                1,
                chunk.len() as int,
            ));
            assert(chunk.subrange(1, chunk.len() as int) =~= enc_pairs(ps));
            lemma_dec_pairs_of_enc(s, i + 1, ps);
        },
    }
}

pub proof fn lemma_dec_opt_u64_of_enc(s: Seq<u8>, i: int, ot: Option<u64>)
    requires
        0 <= i,
        i + enc_opt_u64(ot).len() <= s.len(),
        s.subrange(i, i + enc_opt_u64(ot).len()) == enc_opt_u64(ot),
    ensures
        dec_opt_u64(s, i) == Some((ot, i + enc_opt_u64(ot).len())),
{
    let chunk = s.subrange(i, i + enc_opt_u64(ot).len());
    match ot {
        None => {
            assert(s[i] == chunk[0]);
        },
        Some(t) => {
            lemma_auto_spec_u64_to_from_le_bytes();
            assert(s[i] == chunk[0]);
            assert(chunk[0] == 1u8);
            assert(s.subrange(i + 1, i + 1 + 8) =~= chunk.subrange(1, 9));
            assert(chunk.subrange(1, 9) =~= enc_u64(t));
            lemma_dec_u64_of_enc(s, i + 1, t);
        },
    }
}

// ------------------------------------------------------------- deep models

/// The mathematical shape of a request envelope.
pub ghost struct ReqModel {
    pub method: Seq<u8>,
    pub path: Seq<u8>,
    pub query: Option<Seq<(Seq<u8>, Seq<u8>)>>,
    pub body: Option<Seq<u8>>,
    pub headers: Seq<(Seq<u8>, Seq<u8>)>,
    pub timeout: Option<u64>,
}

/// The mathematical shape of a response envelope.
pub ghost struct RespModel {
    pub status: u16,
    pub headers: Seq<(Seq<u8>, Seq<u8>)>,
    pub url: Seq<u8>,
    pub body: Seq<u8>,
}

/// The mathematical shape of an outcome envelope.
pub ghost struct OutcomeModel {
    pub status: ResponseStatus,
    pub body: Result<RespModel, Seq<u8>>,
}

impl DeepView for SerializableHttpRequest {
    type V = ReqModel;

    open spec fn deep_view(&self) -> ReqModel {
        ReqModel {
            method: self.method.deep_view(),
            path: self.path.deep_view(),
            query: self.query.deep_view(),
            body: self.body.deep_view(),
            headers: self.headers.deep_view(),
            timeout: self.timeout,
        }
    }
}

impl DeepView for SerializableHttpResponse {
    type V = RespModel;

    open spec fn deep_view(&self) -> RespModel {
        RespModel {
            status: self.status,
            headers: self.headers.deep_view(),
            url: self.url.deep_view(),
            body: self.body.deep_view(),
        }
    }
}

impl DeepView for RequestResponse<SerializableHttpResponse> {
    type V = OutcomeModel;

    open spec fn deep_view(&self) -> OutcomeModel {
        OutcomeModel {
            status: self.status,
            body: match self.body {
                RequestResponseBody::Success(ref resp) => Ok(resp.deep_view()),
                RequestResponseBody::Error(ref msg) => Err(msg.deep_view()),
            },
        }
    }
}

// -------------------------------------------------------- envelope layout

pub open spec fn spec_encode_request(m: ReqModel) -> Seq<u8> {
    enc_bytes(m.method) + enc_bytes(m.path) + enc_opt_pairs(m.query) + enc_opt_bytes(m.body)
        + enc_pairs(m.headers) + enc_opt_u64(m.timeout)
}

pub open spec fn spec_encode_response(m: RespModel) -> Seq<u8> {
    enc_u16(m.status) + enc_pairs(m.headers) + enc_bytes(m.url) + enc_bytes(m.body)
}

pub open spec fn spec_encode_outcome(m: OutcomeModel) -> Seq<u8> {
    seq![spec_status_code(m.status)] + match m.body {
        Ok(resp) => seq![1u8] + spec_encode_response(resp),
        Err(msg) => seq![0u8] + enc_bytes(msg),
    }
}

/// Every field's size fits its length word.
pub open spec fn wf_req(m: ReqModel) -> bool {
    &&& m.method.len() <= u64::MAX
    &&& m.path.len() <= u64::MAX
    &&& (m.query matches Some(q) ==> wf_pairs(q))
    &&& (m.body matches Some(b) ==> b.len() <= u64::MAX)
    &&& wf_pairs(m.headers)
}

pub open spec fn wf_resp(m: RespModel) -> bool {
    &&& wf_pairs(m.headers)
    &&& m.url.len() <= u64::MAX
    &&& m.body.len() <= u64::MAX
}

pub open spec fn wf_outcome(m: OutcomeModel) -> bool {
    match m.body {
        Ok(resp) => wf_resp(resp),
        Err(msg) => msg.len() <= u64::MAX,
    }
}

pub open spec fn dec_request_fields(s: Seq<u8>, i: int) -> Option<(ReqModel, int)> {
    match dec_bytes(s, i) {
        Some((method, j1)) => match dec_bytes(s, j1) {
            Some((path, j2)) => match dec_opt_pairs(s, j2) {
                Some((query, j3)) => match dec_opt_bytes(s, j3) {
                    Some((body, j4)) => match dec_pairs(s, j4) {
                        Some((headers, j5)) => match dec_opt_u64(s, j5) {
                            Some((timeout, j6)) => Some(
                                (ReqModel { method, path, query, body, headers, timeout }, j6),
                            ),
                            None => None,
                        },
                        None => None,
                    },
                    None => None,
                },
                None => None,
            },
            None => None,
        },
        None => None,
    }
}

/// The request a buffer encodes, if it is exactly one encoded request.
pub open spec fn spec_decode_request(s: Seq<u8>) -> Option<ReqModel> {
    match dec_request_fields(s, 0) {
        Some((m, p)) => if p == s.len() {
            Some(m)
        } else {
            None
        },
        None => None,
    }
}

pub open spec fn dec_response_fields(s: Seq<u8>, i: int) -> Option<(RespModel, int)> {
    match dec_u16(s, i) {
        Some((status, j1)) => match dec_pairs(s, j1) {
            Some((headers, j2)) => match dec_bytes(s, j2) {
                Some((url, j3)) => match dec_bytes(s, j3) {
                    Some((body, j4)) => Some((RespModel { status, headers, url, body }, j4)),
                    None => None,
                },
                None => None,
            },
            None => None,
        },
        None => None,
    }
}

/// The response a buffer encodes, if it is exactly one encoded response.
pub open spec fn spec_decode_response(s: Seq<u8>) -> Option<RespModel> {
    match dec_response_fields(s, 0) {
        Some((m, p)) => if p == s.len() {
            Some(m)
        } else {
            None
        },
        None => None,
    }
}

/// The outcome a buffer encodes, if it is exactly one encoded outcome.
pub open spec fn spec_decode_outcome(s: Seq<u8>) -> Option<OutcomeModel> {
    match dec_byte(s, 0) {
        Some((code, j1)) => match spec_status_from_code(code) {
            Some(status) => match dec_byte(s, j1) {
                Some((tag, j2)) => if tag == 1 {
                    match dec_response_fields(s, j2) {
                        Some((resp, p)) => if p == s.len() {
                            Some(OutcomeModel { status, body: Ok(resp) })
                        } else {
                            None
                        },
                        None => None,
                    }
                } else if tag == 0 {
                    match dec_bytes(s, j2) {
                        Some((msg, p)) => if p == s.len() {
                            Some(OutcomeModel { status, body: Err(msg) })
                        } else {
                            None
                        },
                        None => None,
                    }
                } else {
                    None
                },
                None => None,
            },
            None => None,
        },
        None => None,
    }
}

// --------------------------------------------- envelope round-trip lemmas

pub proof fn lemma_dec_request_fields_of_enc(s: Seq<u8>, i: int, m: ReqModel)
    requires
        0 <= i,
        wf_req(m),
        i + spec_encode_request(m).len() <= s.len(),
        s.subrange(i, i + spec_encode_request(m).len()) == spec_encode_request(m),
    ensures
        dec_request_fields(s, i) == Some((m, i + spec_encode_request(m).len())),
{
    let c1 = enc_bytes(m.method);
    let c2 = enc_bytes(m.path);
    let c3 = enc_opt_pairs(m.query);
    let c4 = enc_opt_bytes(m.body);
    let c5 = enc_pairs(m.headers);
    let c6 = enc_opt_u64(m.timeout);
    let chunk = s.subrange(i, i + spec_encode_request(m).len());
    let o1 = c1.len() as int;
    let o2 = o1 + c2.len();
    let o3 = o2 + c3.len();
    let o4 = o3 + c4.len();
    let o5 = o4 + c5.len();
    let o6 = o5 + c6.len();
    assert(chunk.len() == o6);
    assert(s.subrange(i, i + o1) =~= chunk.subrange(0, o1));
    assert(chunk.subrange(0, o1) =~= c1);
    lemma_auto_spec_u64_to_from_le_bytes();
    lemma_dec_bytes_of_enc(s, i, m.method);
    assert(s.subrange(i + o1, i + o2) =~= chunk.subrange(o1, o2));
    assert(chunk.subrange(o1, o2) =~= c2);
    lemma_dec_bytes_of_enc(s, i + o1, m.path);
    assert(s.subrange(i + o2, i + o3) =~= chunk.subrange(o2, o3));
    assert(chunk.subrange(o2, o3) =~= c3);
    lemma_dec_opt_pairs_of_enc(s, i + o2, m.query);
    assert(s.subrange(i + o3, i + o4) =~= chunk.subrange(o3, o4));
    assert(chunk.subrange(o3, o4) =~= c4);
    lemma_dec_opt_bytes_of_enc(s, i + o3, m.body);
    assert(s.subrange(i + o4, i + o5) =~= chunk.subrange(o4, o5));
    assert(chunk.subrange(o4, o5) =~= c5);
    lemma_dec_pairs_of_enc(s, i + o4, m.headers);
    assert(s.subrange(i + o5, i + o6) =~= chunk.subrange(o5, o6));
    assert(chunk.subrange(o5, o6) =~= c6);
    lemma_dec_opt_u64_of_enc(s, i + o5, m.timeout);
}

/// Envelope round trip: decoding an encoded request yields the request, for
/// every combination of present and absent fields.
pub proof fn lemma_request_roundtrip(m: ReqModel)
    requires
        wf_req(m),
    ensures
        spec_decode_request(spec_encode_request(m)) == Some(m),
{
    let s = spec_encode_request(m);
    assert(s.subrange(0, s.len() as int) =~= s);
    lemma_dec_request_fields_of_enc(s, 0, m);
}

pub proof fn lemma_dec_response_fields_of_enc(s: Seq<u8>, i: int, m: RespModel)
    requires
        0 <= i,
        wf_resp(m),
        i + spec_encode_response(m).len() <= s.len(),
        s.subrange(i, i + spec_encode_response(m).len()) == spec_encode_response(m),
    ensures
        dec_response_fields(s, i) == Some((m, i + spec_encode_response(m).len())),
{
    let c1 = enc_u16(m.status);
    let c2 = enc_pairs(m.headers);
    let c3 = enc_bytes(m.url);
    let c4 = enc_bytes(m.body);
    let chunk = s.subrange(i, i + spec_encode_response(m).len());
    lemma_auto_spec_u16_to_from_le_bytes();
    lemma_auto_spec_u64_to_from_le_bytes();
    let o1 = c1.len() as int;
    let o2 = o1 + c2.len();
    let o3 = o2 + c3.len();
    let o4 = o3 + c4.len();
    assert(chunk.len() == o4);
    assert(s.subrange(i, i + o1) =~= chunk.subrange(0, o1));
    assert(chunk.subrange(0, o1) =~= c1);
    lemma_dec_u16_of_enc(s, i, m.status);
    assert(s.subrange(i + o1, i + o2) =~= chunk.subrange(o1, o2));
    assert(chunk.subrange(o1, o2) =~= c2);
    lemma_dec_pairs_of_enc(s, i + o1, m.headers);
    assert(s.subrange(i + o2, i + o3) =~= chunk.subrange(o2, o3));
    assert(chunk.subrange(o2, o3) =~= c3);
    lemma_dec_bytes_of_enc(s, i + o2, m.url);
    assert(s.subrange(i + o3, i + o4) =~= chunk.subrange(o3, o4));
    assert(chunk.subrange(o3, o4) =~= c4);
    lemma_dec_bytes_of_enc(s, i + o3, m.body);
}

/// Envelope round trip for responses.
pub proof fn lemma_response_roundtrip(m: RespModel)
    requires
        wf_resp(m),
    ensures
        spec_decode_response(spec_encode_response(m)) == Some(m),
{
    let s = spec_encode_response(m);
    assert(s.subrange(0, s.len() as int) =~= s);
    lemma_dec_response_fields_of_enc(s, 0, m);
}

/// Envelope round trip for outcomes, both the success and the error arm.
pub proof fn lemma_outcome_roundtrip(m: OutcomeModel)
    requires
        wf_outcome(m),
    ensures
        spec_decode_outcome(spec_encode_outcome(m)) == Some(m),
{
    let s = spec_encode_outcome(m);
    crate::models::lemma_status_code_roundtrip(m.status);
    match m.body {
        Ok(resp) => {
            let c = spec_encode_response(resp);
            assert(s.len() == 2 + c.len());
            assert(s[0] == spec_status_code(m.status));
            assert(s[1] == 1u8);
            assert(s.subrange(2, 2 + c.len() as int) =~= c);
            lemma_dec_response_fields_of_enc(s, 2, resp);
        },
        Err(msg) => {
            let c = enc_bytes(msg);
            lemma_auto_spec_u64_to_from_le_bytes();
            assert(c.len() == 8 + msg.len());
            assert(s.len() == 2 + c.len());
            assert(s[0] == spec_status_code(m.status));
            assert(s[1] == 0u8);
            assert(s.subrange(2, 2 + c.len() as int) =~= c);
            lemma_dec_bytes_of_enc(s, 2, msg);
        },
    }
}

// -------------------------------------------------------- exec primitives

pub fn write_u64(out: &mut Vec<u8>, x: u64)
    ensures
        final(out)@ == old(out)@ + enc_u64(x),
{
    let b = u64_to_le_bytes(x);
    out.extend_from_slice(b.as_slice());
    proof {
        assert(final(out)@ =~= old(out)@ + enc_u64(x));
    }
}

pub fn write_u16(out: &mut Vec<u8>, x: u16)
    ensures
        final(out)@ == old(out)@ + enc_u16(x),
{
    let b = u16_to_le_bytes(x);
    out.extend_from_slice(b.as_slice());
    proof {
        assert(final(out)@ =~= old(out)@ + enc_u16(x));
    }
}

pub fn write_byte(out: &mut Vec<u8>, x: u8)
    ensures
        final(out)@ == old(out)@ + seq![x],
{
    out.push(x);
    proof {
        assert(final(out)@ =~= old(out)@ + seq![x]);
    }
}

pub fn write_bytes(out: &mut Vec<u8>, b: &[u8])
    ensures
        final(out)@ == old(out)@ + enc_bytes(b@),
{
    write_u64(out, b.len() as u64);
    out.extend_from_slice(b);
    proof {
        assert(final(out)@ =~= old(out)@ + enc_bytes(b@));
    }
}

pub fn read_u64(buf: &[u8], pos: usize) -> (r: Option<(u64, usize)>)
    ensures
        match r {
            Some((v, p)) => dec_u64(buf@, pos as int) == Some((v, p as int)),
            None => dec_u64(buf@, pos as int) is None,
        },
{
    if pos <= buf.len() && buf.len() - pos >= 8 {
        let v = u64_from_le_bytes(&buf[pos..pos + 8]);
        Some((v, pos + 8))
    } else {
        None
    }
}

pub fn read_u16(buf: &[u8], pos: usize) -> (r: Option<(u16, usize)>)
    ensures
        match r {
            Some((v, p)) => dec_u16(buf@, pos as int) == Some((v, p as int)),
            None => dec_u16(buf@, pos as int) is None,
        },
{
    if pos <= buf.len() && buf.len() - pos >= 2 {
        let v = u16_from_le_bytes(&buf[pos..pos + 2]);
        Some((v, pos + 2))
    } else {
        None
    }
}

pub fn read_byte(buf: &[u8], pos: usize) -> (r: Option<(u8, usize)>)
    ensures
        match r {
            Some((v, p)) => dec_byte(buf@, pos as int) == Some((v, p as int)),
            None => dec_byte(buf@, pos as int) is None,
        },
{
    if pos < buf.len() {
        Some((buf[pos], pos + 1))
    } else {
        None
    }
}

pub fn read_bytes(buf: &[u8], pos: usize) -> (r: Option<(Vec<u8>, usize)>)
    ensures
        match r {
            Some((v, p)) => dec_bytes(buf@, pos as int) == Some((v@, p as int)),
            None => dec_bytes(buf@, pos as int) is None,
        },
{
    match read_u64(buf, pos) {
        None => None,
        Some((n, j)) => {
            if n <= (buf.len() - j) as u64 {
                let ln = n as usize;
                let mut v: Vec<u8> = Vec::new();
                v.extend_from_slice(&buf[j..j + ln]);
                proof {
                    assert(v@ =~= buf@.subrange(j as int, j as int + n as int));
                }
                Some((v, j + ln))
            } else {
                None
            }
        },
    }
}

} // verus!

verus! {

// ------------------------------------------------------- exec pair lists

proof fn lemma_enc_pairs_items_snoc(ps: Seq<(Seq<u8>, Seq<u8>)>, i: int)
    requires
        0 <= i < ps.len(),
    ensures
        enc_pairs_items(ps.take(i + 1)) == enc_pairs_items(ps.take(i)) + enc_bytes(ps[i].0)
            + enc_bytes(ps[i].1),
    decreases i,
{
    if i == 0 {
        assert(ps.take(1)[0] == ps[0]);
        assert(ps.take(1).drop_first() =~= Seq::<(Seq<u8>, Seq<u8>)>::empty());
        assert(ps.take(0) =~= Seq::<(Seq<u8>, Seq<u8>)>::empty());
        assert(enc_pairs_items(ps.take(1)) =~= enc_pairs_items(ps.take(0)) + enc_bytes(ps[0].0)
            + enc_bytes(ps[0].1));
    } else {
        lemma_enc_pairs_items_snoc(ps.drop_first(), i - 1);
        assert(ps.take(i + 1)[0] == ps[0]);
        assert(ps.take(i)[0] == ps[0]);
        assert(ps.take(i + 1).drop_first() =~= ps.drop_first().take(i));
        assert(ps.take(i).drop_first() =~= ps.drop_first().take(i - 1));
        assert(ps.drop_first()[i - 1] == ps[i]);
        assert(enc_pairs_items(ps.take(i + 1)) =~= enc_pairs_items(ps.take(i)) + enc_bytes(
            ps[i].0,
        ) + enc_bytes(ps[i].1));
    }
}

pub fn write_pairs(out: &mut Vec<u8>, hs: &Vec<(Vec<u8>, Vec<u8>)>)
    ensures
        final(out)@ == old(out)@ + enc_pairs(hs.deep_view()),
{
    let ghost ps = hs.deep_view();
    proof {
        assert(ps.len() == hs@.len());
    }
    write_u64(out, hs.len() as u64);
    let n = hs.len();
    let mut i: usize = 0;
    proof {
        assert(ps.take(0) =~= Seq::<(Seq<u8>, Seq<u8>)>::empty());
        assert(out@ =~= old(out)@ + enc_u64(n as u64) + enc_pairs_items(ps.take(0)));
    }
    while i < n
        invariant
            0 <= i <= n,
            n == hs@.len(),
            ps == hs.deep_view(),
            ps.len() == n,
            out@ == old(out)@ + enc_u64(n as u64) + enc_pairs_items(ps.take(i as int)),
        decreases n - i,
    {
        proof {
            assert(ps[i as int] == hs@[i as int].deep_view());
            assert(hs@[i as int].deep_view().0 =~= hs@[i as int].0@);
            assert(hs@[i as int].deep_view().1 =~= hs@[i as int].1@);
        }
        write_bytes(out, hs[i].0.as_slice());
        write_bytes(out, hs[i].1.as_slice());
        proof {
            lemma_enc_pairs_items_snoc(ps, i as int);
            assert(out@ =~= old(out)@ + enc_u64(n as u64) + enc_pairs_items(
                ps.take(i as int + 1),
            ));
        }
        i += 1;
    }
    proof {
        assert(ps.take(n as int) =~= ps);
        assert(final(out)@ =~= old(out)@ + enc_pairs(ps));
    }
}

pub fn read_pairs(buf: &[u8], pos: usize) -> (r: Option<(Vec<(Vec<u8>, Vec<u8>)>, usize)>)
    ensures
        match r {
            Some((v, p)) => dec_pairs(buf@, pos as int) == Some((v.deep_view(), p as int)),
            None => dec_pairs(buf@, pos as int) is None,
        },
{
    let (n, start) = match read_u64(buf, pos) {
        Some(x) => x,
        None => {
            return None;
        },
    };
    let mut acc: Vec<(Vec<u8>, Vec<u8>)> = Vec::new();
    let mut cur: usize = start;
    let mut k: u64 = 0;
    while k < n
        invariant
            0 <= k <= n,
            cur <= buf@.len(),
            dec_u64(buf@, pos as int) == Some((n, start as int)),
            acc.deep_view().len() == k,
            ({
                match dec_pairs_items(buf@, cur as int, (n - k) as nat) {
                    Some((rest, p)) => dec_pairs_items(buf@, start as int, n as nat) == Some(
                        (acc.deep_view() + rest, p),
                    ),
                    None => dec_pairs_items(buf@, start as int, n as nat) is None,
                }
            }),
        decreases n - k,
    {
        let (key, j1) = match read_bytes(buf, cur) {
            Some(x) => x,
            None => {
                return None;
            },
        };
        let (val, j2) = match read_bytes(buf, j1) {
            Some(x) => x,
            None => {
                return None;
            },
        };
        proof {
            let ghost old_acc = acc.deep_view();
            assert(dec_bytes(buf@, cur as int) == Some((key@, j1 as int)));
        }
        let ghost prev = acc.deep_view();
        acc.push((key, val));
        proof {
            assert(acc.deep_view() =~~= prev.push((key@, val@)));
            match dec_pairs_items(buf@, j2 as int, (n - k - 1) as nat) {
                Some((rest2, p2)) => {
                    assert(dec_pairs_items(buf@, cur as int, (n - k) as nat) == Some(
                        (seq![(key@, val@)] + rest2, p2),
                    ));
                    assert(prev + (seq![(key@, val@)] + rest2) =~~= acc.deep_view() + rest2);
                },
                None => {
                    assert(dec_pairs_items(buf@, cur as int, (n - k) as nat) is None);
                },
            }
        }
        cur = j2;
        k = k + 1;
    }
    proof {
        assert(dec_pairs_items(buf@, cur as int, 0) == Some(
            (Seq::<(Seq<u8>, Seq<u8>)>::empty(), cur as int),
        ));
        assert(acc.deep_view() + Seq::<(Seq<u8>, Seq<u8>)>::empty() =~= acc.deep_view());
    }
    Some((acc, cur))
}

pub fn read_opt_bytes(buf: &[u8], pos: usize) -> (r: Option<(Option<Vec<u8>>, usize)>)
    ensures
        match r {
            Some((v, p)) => dec_opt_bytes(buf@, pos as int) == Some((v.deep_view(), p as int)),
            None => dec_opt_bytes(buf@, pos as int) is None,
        },
{
    match read_byte(buf, pos) {
        None => None,
        Some((tag, j)) => {
            if tag == 0 {
                Some((None, j))
            } else if tag == 1 {
                match read_bytes(buf, j) {
                    Some((b, k)) => Some((Some(b), k)),
                    None => None,
                }
            } else {
                None
            }
        },
    }
}

pub fn read_opt_pairs(buf: &[u8], pos: usize) -> (r: Option<
    (Option<Vec<(Vec<u8>, Vec<u8>)>>, usize),
>)
    ensures
        match r {
            Some((v, p)) => dec_opt_pairs(buf@, pos as int) == Some((v.deep_view(), p as int)),
            None => dec_opt_pairs(buf@, pos as int) is None,
        },
{
    match read_byte(buf, pos) {
        None => None,
        Some((tag, j)) => {
            if tag == 0 {
                Some((None, j))
            } else if tag == 1 {
                match read_pairs(buf, j) {
                    Some((ps, k)) => Some((Some(ps), k)),
                    None => None,
                }
            } else {
                None
            }
        },
    }
}

pub fn read_opt_u64(buf: &[u8], pos: usize) -> (r: Option<(Option<u64>, usize)>)
    ensures
        match r {
            Some((v, p)) => dec_opt_u64(buf@, pos as int) == Some((v, p as int)),
            None => dec_opt_u64(buf@, pos as int) is None,
        },
{
    match read_byte(buf, pos) {
        None => None,
        Some((tag, j)) => {
            if tag == 0 {
                Some((None, j))
            } else if tag == 1 {
                match read_u64(buf, j) {
                    Some((v, k)) => Some((Some(v), k)),
                    None => None,
                }
            } else {
                None
            }
        },
    }
}

// --------------------------------------------------------- exec envelopes

/// Encode a request envelope for the bus.
pub fn encode_request(e: &SerializableHttpRequest) -> (r: Vec<u8>)
    ensures
        r@ == spec_encode_request(e.deep_view()),
{
    let mut out: Vec<u8> = Vec::new();
    write_bytes(&mut out, e.method.as_slice());
    write_bytes(&mut out, e.path.as_slice());
    match &e.query {
        None => write_byte(&mut out, 0),
        Some(q) => {
            write_byte(&mut out, 1);
            write_pairs(&mut out, q);
        },
    }
    match &e.body {
        None => write_byte(&mut out, 0),
        Some(b) => {
            write_byte(&mut out, 1);
            write_bytes(&mut out, b.as_slice());
        },
    }
    write_pairs(&mut out, &e.headers);
    match e.timeout {
        None => write_byte(&mut out, 0),
        Some(t) => {
            write_byte(&mut out, 1);
            write_u64(&mut out, t);
        },
    }
    proof {
        assert(e.method.deep_view() =~= e.method@);
        assert(e.path.deep_view() =~= e.path@);
        if e.body is Some {
            assert(e.body->Some_0.deep_view() =~= e.body->Some_0@);
        }
        assert(out@ =~= spec_encode_request(e.deep_view()));
    }
    out
}

/// Decode a request envelope; answers only for exactly one well-formed
/// encoding.
pub fn decode_request(buf: &[u8]) -> (r: Option<SerializableHttpRequest>)
    ensures
        match r {
            Some(env) => spec_decode_request(buf@) == Some(env.deep_view()),
            None => spec_decode_request(buf@) is None,
        },
{
    let (method, p1) = match read_bytes(buf, 0) {
        Some(x) => x,
        None => {
            return None;
        },
    };
    let (path, p2) = match read_bytes(buf, p1) {
        Some(x) => x,
        None => {
            return None;
        },
    };
    let (query, p3) = match read_opt_pairs(buf, p2) {
        Some(x) => x,
        None => {
            return None;
        },
    };
    let (body, p4) = match read_opt_bytes(buf, p3) {
        Some(x) => x,
        None => {
            return None;
        },
    };
    let (headers, p5) = match read_pairs(buf, p4) {
        Some(x) => x,
        None => {
            return None;
        },
    };
    let (timeout, p6) = match read_opt_u64(buf, p5) {
        Some(x) => x,
        None => {
            return None;
        },
    };
    if p6 != buf.len() {
        return None;
    }
    let env = SerializableHttpRequest { method, path, query, body, headers, timeout };
    proof {
        assert(env.method.deep_view() =~= env.method@);
        assert(env.path.deep_view() =~= env.path@);
        if env.body is Some {
            assert(env.body->Some_0.deep_view() =~= env.body->Some_0@);
        }
    }
    Some(env)
}

fn write_response_fields(out: &mut Vec<u8>, e: &SerializableHttpResponse)
    ensures
        final(out)@ == old(out)@ + spec_encode_response(e.deep_view()),
{
    write_u16(out, e.status);
    write_pairs(out, &e.headers);
    write_bytes(out, e.url.as_slice());
    write_bytes(out, e.body.as_slice());
    proof {
        assert(e.url.deep_view() =~= e.url@);
        assert(e.body.deep_view() =~= e.body@);
        assert(final(out)@ =~= old(out)@ + spec_encode_response(e.deep_view()));
    }
}

/// Encode a response envelope.
pub fn encode_response(e: &SerializableHttpResponse) -> (r: Vec<u8>)
    ensures
        r@ == spec_encode_response(e.deep_view()),
{
    let mut out: Vec<u8> = Vec::new();
    write_response_fields(&mut out, e);
    proof {
        assert(out@ =~= spec_encode_response(e.deep_view()));
    }
    out
}

fn read_response_fields(buf: &[u8], pos: usize) -> (r: Option<(SerializableHttpResponse, usize)>)
    ensures
        match r {
            Some((env, p)) => dec_response_fields(buf@, pos as int) == Some(
                (env.deep_view(), p as int),
            ),
            None => dec_response_fields(buf@, pos as int) is None,
        },
{
    let (status, p1) = match read_u16(buf, pos) {
        Some(x) => x,
        None => {
            return None;
        },
    };
    let (headers, p2) = match read_pairs(buf, p1) {
        Some(x) => x,
        None => {
            return None;
        },
    };
    let (url, p3) = match read_bytes(buf, p2) {
        Some(x) => x,
        None => {
            return None;
        },
    };
    let (body, p4) = match read_bytes(buf, p3) {
        Some(x) => x,
        None => {
            return None;
        },
    };
    let env = SerializableHttpResponse { status, headers, url, body };
    proof {
        assert(env.url.deep_view() =~= env.url@);
        assert(env.body.deep_view() =~= env.body@);
    }
    Some((env, p4))
}

/// Decode a response envelope; answers only for exactly one well-formed
/// encoding.
pub fn decode_response(buf: &[u8]) -> (r: Option<SerializableHttpResponse>)
    ensures
        match r {
            Some(env) => spec_decode_response(buf@) == Some(env.deep_view()),
            None => spec_decode_response(buf@) is None,
        },
{
    match read_response_fields(buf, 0) {
        Some((env, p)) => {
            if p == buf.len() {
                Some(env)
            } else {
                None
            }
        },
        None => None,
    }
}

/// Encode an outcome envelope for the reply.
pub fn encode_outcome(o: &RequestResponse<SerializableHttpResponse>) -> (r: Vec<u8>)
    ensures
        r@ == spec_encode_outcome(o.deep_view()),
{
    let mut out: Vec<u8> = Vec::new();
    write_byte(&mut out, o.status.code());
    match &o.body {
        RequestResponseBody::Success(resp) => {
            write_byte(&mut out, 1);
            write_response_fields(&mut out, resp);
        },
        RequestResponseBody::Error(msg) => {
            write_byte(&mut out, 0);
            write_bytes(&mut out, msg.as_slice());
        },
    }
    proof {
        match &o.body {
            RequestResponseBody::Error(m) => {
                assert(m.deep_view() =~= m@);
            },
            _ => {},
        }
        assert(out@ =~= spec_encode_outcome(o.deep_view()));
    }
    out
}

/// Decode an outcome envelope; answers only for exactly one well-formed
/// encoding whose status ordinal is known.
pub fn decode_outcome(buf: &[u8]) -> (r: Option<RequestResponse<SerializableHttpResponse>>)
    ensures
        match r {
            Some(o) => spec_decode_outcome(buf@) == Some(o.deep_view()),
            None => spec_decode_outcome(buf@) is None,
        },
{
    let (code, p1) = match read_byte(buf, 0) {
        Some(x) => x,
        None => {
            return None;
        },
    };
    let status = match ResponseStatus::from_code(code) {
        Some(s) => s,
        None => {
            return None;
        },
    };
    let (tag, p2) = match read_byte(buf, p1) {
        Some(x) => x,
        None => {
            return None;
        },
    };
    if tag == 1 {
        match read_response_fields(buf, p2) {
            Some((resp, p)) => {
                if p == buf.len() {
                    Some(RequestResponse { status, body: RequestResponseBody::Success(resp) })
                } else {
                    None
                }
            },
            None => None,
        }
    } else if tag == 0 {
        match read_bytes(buf, p2) {
            Some((msg, p)) => {
                if p == buf.len() {
                    let o = RequestResponse {
                        status,
                        body: RequestResponseBody::Error(msg),
                    };
                    proof {
                        match &o.body {
                            RequestResponseBody::Error(m) => {
                                assert(m.deep_view() =~= m@);
                            },
                            _ => {},
                        }
                    }
                    Some(o)
                } else {
                    None
                }
            },
            None => None,
        }
    } else {
        None
    }
}

} // verus!
