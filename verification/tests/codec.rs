use spectacles_proxy::codec::{
    decode_outcome, decode_request, decode_response, encode_outcome, encode_request,
    encode_response,
};
use spectacles_proxy::models::{
    RequestResponse, RequestResponseBody, ResponseStatus, SerializableHttpRequest,
    SerializableHttpResponse,
};

fn sparse_request() -> SerializableHttpRequest {
    SerializableHttpRequest {
        method: b"GET".to_vec(),
        path: b"/foo/bar".to_vec(),
        query: None,
        body: None,
        headers: vec![],
        timeout: None,
    }
}

fn full_request() -> SerializableHttpRequest {
    SerializableHttpRequest {
        method: b"POST".to_vec(),
        path: b"/guilds/1234/roles".to_vec(),
        query: Some(vec![
            (b"limit".to_vec(), b"10".to_vec()),
            (b"after".to_vec(), b"77".to_vec()),
        ]),
        body: Some(b"{\"name\":\"role\"}".to_vec()),
        headers: vec![
            (b"authorization".to_vec(), b"Bot abc".to_vec()),
            (b"content-type".to_vec(), b"application/json".to_vec()),
        ],
        timeout: Some(15000),
    }
}

#[test]
fn request_roundtrip_sparse() {
    let e = sparse_request();
    assert_eq!(decode_request(&encode_request(&e)).unwrap(), e);
}

#[test]
fn request_roundtrip_full() {
    let e = full_request();
    assert_eq!(decode_request(&encode_request(&e)).unwrap(), e);
}

#[test]
fn request_roundtrip_empty_collections() {
    let e = SerializableHttpRequest {
        method: b"GET".to_vec(),
        path: b"".to_vec(),
        query: Some(vec![]),
        body: Some(vec![]),
        headers: vec![(b"k".to_vec(), b"".to_vec())],
        timeout: Some(0),
    };
    assert_eq!(decode_request(&encode_request(&e)).unwrap(), e);
}

#[test]
fn response_roundtrip() {
    let e = SerializableHttpResponse {
        status: 200,
        headers: vec![(b"x-ratelimit-limit".to_vec(), b"5".to_vec())],
        url: b"http://mock/api/v6/foo/bar".to_vec(),
        body: b"[\"hello world\"]".to_vec(),
    };
    assert_eq!(decode_response(&encode_response(&e)).unwrap(), e);
}

#[test]
fn outcome_roundtrip_success() {
    let o = RequestResponse {
        status: ResponseStatus::Success,
        body: RequestResponseBody::Success(SerializableHttpResponse {
            status: 200,
            headers: vec![],
            url: b"http://mock/api/v6/foo/bar".to_vec(),
            body: b"[\"hello world\"]".to_vec(),
        }),
    };
    assert_eq!(decode_outcome(&encode_outcome(&o)).unwrap(), o);
}

#[test]
fn outcome_roundtrip_error() {
    let o = RequestResponse {
        status: ResponseStatus::RequestTimeout,
        body: RequestResponseBody::Error(b"deadline elapsed".to_vec()),
    };
    assert_eq!(decode_outcome(&encode_outcome(&o)).unwrap(), o);
}

#[test]
fn outcome_wire_starts_with_status_ordinal() {
    let o = RequestResponse::<SerializableHttpResponse> {
        status: ResponseStatus::RequestFailure,
        body: RequestResponseBody::Error(b"boom".to_vec()),
    };
    let bytes = encode_outcome(&o);
    assert_eq!(bytes[0], 7);
    assert_eq!(bytes[1], 0);
}

#[test]
fn decode_rejects_trailing_bytes() {
    let mut bytes = encode_request(&sparse_request());
    bytes.push(0);
    assert!(decode_request(&bytes).is_none());
}

#[test]
fn decode_rejects_truncation_and_bad_tags() {
    let bytes = encode_request(&full_request());
    assert!(decode_request(&bytes[..bytes.len() - 1]).is_none());
    assert!(decode_request(&[]).is_none());
    // an outcome whose status ordinal is unknown
    let mut o = encode_outcome(&RequestResponse::<SerializableHttpResponse> {
        status: ResponseStatus::Success,
        body: RequestResponseBody::Error(b"x".to_vec()),
    });
    o[0] = 200;
    assert!(decode_outcome(&o).is_none());
}

#[test]
fn status_codes_are_stable() {
    let all = [
        (ResponseStatus::Success, 0u8),
        (ResponseStatus::Unknown, 1),
        (ResponseStatus::InvalidRequestFormat, 2),
        (ResponseStatus::InvalidPath, 3),
        (ResponseStatus::InvalidQuery, 4),
        (ResponseStatus::InvalidMethod, 5),
        (ResponseStatus::InvalidHeaders, 6),
        (ResponseStatus::RequestFailure, 7),
        (ResponseStatus::RequestTimeout, 8),
    ];
    for (s, c) in all {
        assert_eq!(s.code(), c);
        assert_eq!(ResponseStatus::from_code(c), Some(s));
    }
    assert_eq!(ResponseStatus::from_code(9), None);
}

#[test]
fn wire_format_is_little_endian_length_prefixed() {
    let bytes = encode_request(&sparse_request());
    // method: 8-byte little-endian length, then the bytes
    assert_eq!(&bytes[..8], &[3, 0, 0, 0, 0, 0, 0, 0]);
    assert_eq!(&bytes[8..11], b"GET");
}
