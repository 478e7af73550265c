use spectacles_proxy::broker::CancellationRegistry;
use spectacles_proxy::client::{
    exec_step, Client, ExecAction, ExecEvent, ExecPhase,
};
use spectacles_proxy::models::{
    ErrorKind, RequestResponse, RequestResponseBody, ResponseStatus, SerializableHttpRequest,
    SerializableHttpResponse,
};
use spectacles_proxy::ratelimiter::{parse_limit, parse_reset_after_ms, RatelimitInfo};

fn client() -> Client {
    Client::new(b"http".to_vec(), 6, b"mock".to_vec(), None).unwrap()
}

fn get_request(path: &[u8]) -> SerializableHttpRequest {
    SerializableHttpRequest {
        method: b"GET".to_vec(),
        path: path.to_vec(),
        query: None,
        body: None,
        headers: vec![],
        timeout: None,
    }
}

#[test]
fn client_rejects_bad_scheme_or_authority() {
    assert!(Client::new(b"1http".to_vec(), 6, b"mock".to_vec(), None).is_none());
    assert!(Client::new(b"".to_vec(), 6, b"mock".to_vec(), None).is_none());
    assert!(Client::new(b"http".to_vec(), 6, b"mo ck".to_vec(), None).is_none());
    assert!(Client::new(b"https".to_vec(), 6, b"discord.com:443".to_vec(), None).is_some());
}

#[test]
fn create_request_builds_happy_path_url() {
    let c = client();
    let plan = c.create_request(&get_request(b"/foo/bar")).unwrap();
    assert_eq!(plan.url, b"http://mock/api/v6/foo/bar".to_vec());
    assert_eq!(plan.api_path, b"/api/v6/foo/bar".to_vec());
    assert_eq!(plan.method, b"GET".to_vec());
    assert_eq!(c.bucket_for(&plan), b"/api/v6/foo/bar".to_vec());
}

#[test]
fn create_request_buckets_collapse_guild_ids() {
    let c = client();
    // the bucket is derived from the full URL path, whose first segment is
    // `api`, so it is the path itself
    let plan = c.create_request(&get_request(b"/guilds/1234/roles")).unwrap();
    assert_eq!(plan.api_path, b"/api/v6/guilds/1234/roles".to_vec());
    assert_eq!(c.bucket_for(&plan), b"/api/v6/guilds/1234/roles".to_vec());
}

#[test]
fn create_request_appends_query_string() {
    let c = client();
    let mut data = get_request(b"/foo");
    data.query = Some(vec![
        (b"limit".to_vec(), b"10".to_vec()),
        (b"after".to_vec(), b"7".to_vec()),
    ]);
    let plan = c.create_request(&data).unwrap();
    assert_eq!(plan.url, b"http://mock/api/v6/foo?limit=10&after=7".to_vec());
}

#[test]
fn create_request_classifies_failures() {
    let c = client();
    let mut bad_method = get_request(b"/foo");
    bad_method.method = b"GE T".to_vec();
    assert_eq!(c.create_request(&bad_method).unwrap_err(), ErrorKind::Method);

    let bad_path = get_request(b"/foo bar");
    assert_eq!(c.create_request(&bad_path).unwrap_err(), ErrorKind::Path);

    let mut bad_query = get_request(b"/foo");
    bad_query.query = Some(vec![(b"k".to_vec(), b"a b".to_vec())]);
    assert_eq!(c.create_request(&bad_query).unwrap_err(), ErrorKind::Query);

    let mut bad_header = get_request(b"/foo");
    bad_header.headers = vec![(b"x\n".to_vec(), b"v".to_vec())];
    assert_eq!(c.create_request(&bad_header).unwrap_err(), ErrorKind::Headers);

    let mut bad_value = get_request(b"/foo");
    bad_value.headers = vec![(b"x".to_vec(), b"a\rb".to_vec())];
    assert_eq!(c.create_request(&bad_value).unwrap_err(), ErrorKind::Headers);
}

#[test]
fn error_kinds_map_to_statuses() {
    let cases = [
        (ErrorKind::Decode, ResponseStatus::InvalidRequestFormat),
        (ErrorKind::Path, ResponseStatus::InvalidPath),
        (ErrorKind::Query, ResponseStatus::InvalidQuery),
        (ErrorKind::Method, ResponseStatus::InvalidMethod),
        (ErrorKind::Headers, ResponseStatus::InvalidHeaders),
        (ErrorKind::Request, ResponseStatus::RequestFailure),
        (ErrorKind::Timeout, ResponseStatus::RequestTimeout),
        (ErrorKind::Other, ResponseStatus::Unknown),
    ];
    for (k, s) in cases {
        assert_eq!(ResponseStatus::from_error_kind(k), s);
    }
}

#[test]
fn outcome_wraps_success_and_failure() {
    let resp = SerializableHttpResponse {
        status: 200,
        headers: vec![],
        url: b"http://mock/api/v6/foo/bar".to_vec(),
        body: b"[\"hello world\"]".to_vec(),
    };
    let ok = RequestResponse::from_outcome(Ok(resp.clone()));
    assert_eq!(ok.status, ResponseStatus::Success);
    assert_eq!(ok.body, RequestResponseBody::Success(resp));

    let err = RequestResponse::<SerializableHttpResponse>::from_outcome(Err((
        ErrorKind::Timeout,
        b"deadline elapsed".to_vec(),
    )));
    assert_eq!(err.status, ResponseStatus::RequestTimeout);
    assert_eq!(err.body, RequestResponseBody::Error(b"deadline elapsed".to_vec()));
}

#[test]
fn effective_timeout_takes_the_smaller_bound() {
    let mut c = client();
    assert_eq!(c.effective_timeout(None), None);
    assert_eq!(c.effective_timeout(Some(7000)), Some(7000));
    c.timeout = Some(10000);
    assert_eq!(c.effective_timeout(None), Some(10000));
    assert_eq!(c.effective_timeout(Some(7000)), Some(7000));
    assert_eq!(c.effective_timeout(Some(12000)), Some(10000));
}

#[test]
fn executor_run_acks_after_claim_and_before_http() {
    let events = [
        ExecEvent::BuildOk,
        ExecEvent::ClaimOk,
        ExecEvent::Acked,
        ExecEvent::HttpOk,
        ExecEvent::Released,
        ExecEvent::Replied,
    ];
    let mut phase = ExecPhase::Deciding;
    let mut actions = Vec::new();
    for e in events {
        let (next, action) = exec_step(phase, e);
        actions.push(action);
        phase = next;
    }
    assert_eq!(phase, ExecPhase::Done);
    assert_eq!(
        actions,
        vec![
            ExecAction::DoClaim,
            ExecAction::DoAck,
            ExecAction::DoHttp,
            ExecAction::DoRelease,
            ExecAction::DoReply,
            ExecAction::DoNothing,
        ]
    );
    let ack_at = actions.iter().position(|a| *a == ExecAction::DoAck).unwrap();
    let claim_at = actions.iter().position(|a| *a == ExecAction::DoClaim).unwrap();
    let http_at = actions.iter().position(|a| *a == ExecAction::DoHttp).unwrap();
    assert!(claim_at < ack_at && ack_at < http_at);
}

#[test]
fn executor_releases_after_failed_http_and_times_out() {
    let (p, a) = exec_step(ExecPhase::Fetching, ExecEvent::HttpFailed);
    assert_eq!((p, a), (ExecPhase::Releasing, ExecAction::DoRelease));
    let (p, a) = exec_step(ExecPhase::Claiming, ExecEvent::TimedOut);
    assert_eq!((p, a), (ExecPhase::Replying, ExecAction::DoReply));
    let (p, a) = exec_step(ExecPhase::Deciding, ExecEvent::BuildFailed);
    assert_eq!((p, a), (ExecPhase::Replying, ExecAction::DoReply));
}

#[test]
fn cancellation_ends_the_task_without_reply() {
    for phase in [
        ExecPhase::Deciding,
        ExecPhase::Claiming,
        ExecPhase::Acking,
        ExecPhase::Fetching,
        ExecPhase::Releasing,
        ExecPhase::Replying,
    ] {
        assert_eq!(exec_step(phase, ExecEvent::Cancelled), (ExecPhase::Done, ExecAction::DoNothing));
    }
}

#[test]
fn cancellation_registry_targets_one_request() {
    let mut reg = CancellationRegistry::new();
    reg.register(b"X", 7);
    reg.register(b"Y", 8);
    // the cancellation message for X signals X's task and nothing else
    assert_eq!(reg.take(b"X"), Some(7));
    assert_eq!(reg.take(b"X"), None);
    assert_eq!(reg.take(b"Y"), Some(8));
    assert_eq!(reg.take(b"Z"), None);
    // re-registration replaces the handle
    reg.register(b"X", 9);
    reg.register(b"X", 10);
    assert_eq!(reg.take(b"X"), Some(10));
}

#[test]
fn ratelimit_info_reads_both_headers() {
    let headers = vec![
        (b"content-type".to_vec(), b"application/json".to_vec()),
        (b"x-ratelimit-limit".to_vec(), b"5".to_vec()),
        (b"x-ratelimit-reset-after".to_vec(), b"1.5".to_vec()),
    ];
    let info = RatelimitInfo::from_headers(&headers);
    assert_eq!(info.limit, Some(5));
    assert_eq!(info.resets_in, Some(1500));
}

#[test]
fn ratelimit_info_tolerates_absent_or_malformed_headers() {
    let info = RatelimitInfo::from_headers(&vec![]);
    assert_eq!(info.limit, None);
    assert_eq!(info.resets_in, None);
    let bad = vec![
        (b"x-ratelimit-limit".to_vec(), b"five".to_vec()),
        (b"x-ratelimit-reset-after".to_vec(), b"1.2.3".to_vec()),
    ];
    let info = RatelimitInfo::from_headers(&bad);
    assert_eq!(info.limit, None);
    assert_eq!(info.resets_in, None);
}

#[test]
fn header_parsers_match_exact_values() {
    assert_eq!(parse_limit(b"0"), Some(0));
    assert_eq!(parse_limit(b"120"), Some(120));
    assert_eq!(parse_limit(b""), None);
    assert_eq!(parse_limit(b"-1"), None);
    assert_eq!(parse_reset_after_ms(b"5"), Some(5000));
    assert_eq!(parse_reset_after_ms(b"1.5"), Some(1500));
    assert_eq!(parse_reset_after_ms(b"0.064"), Some(64));
    assert_eq!(parse_reset_after_ms(b"2.0009"), Some(2000));
    assert_eq!(parse_reset_after_ms(b".25"), Some(250));
    assert_eq!(parse_reset_after_ms(b"3."), Some(3000));
    assert_eq!(parse_reset_after_ms(b"."), None);
    assert_eq!(parse_reset_after_ms(b""), None);
    assert_eq!(parse_reset_after_ms(b"abc"), None);
}

#[test]
fn reset_parser_truncates_to_the_millisecond() {
    assert_eq!(parse_reset_after_ms(b"1.23456"), Some(1234));
    assert_eq!(parse_reset_after_ms(b"0.0001"), Some(0));
    assert_eq!(parse_reset_after_ms(b"10.999"), Some(10999));
}
