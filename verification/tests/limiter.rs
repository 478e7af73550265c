use spectacles_proxy::ratelimiter::local::{ReleaseError, LocalRatelimiter, TimerCommand};
use spectacles_proxy::ratelimiter::redis::{
    claim_directive, notify_channel, release_args, size_key, wakeup_matches, ClaimDirective,
    SharedStore,
};
use spectacles_proxy::ratelimiter::RatelimitInfo;

fn no_info() -> RatelimitInfo {
    RatelimitInfo { limit: None, resets_in: None }
}

#[test]
fn local_claim_then_release_frees_permit() {
    let mut limiter = LocalRatelimiter::new();
    assert!(limiter.try_claim(b"foo"));
    assert!(!limiter.try_claim(b"foo"));
    assert_eq!(limiter.release(b"foo", &no_info(), 0).unwrap(), TimerCommand::NoTimer);
    assert!(limiter.try_claim(b"foo"));
    assert!(!limiter.try_claim(b"foo"));
}

#[test]
fn local_release_without_claim_fails() {
    let mut limiter = LocalRatelimiter::new();
    assert_eq!(limiter.release(b"foo", &no_info(), 0).unwrap_err(), ReleaseError::ReleaseWithoutClaim);
    // a claim on another bucket does not help
    assert!(limiter.try_claim(b"bar"));
    assert_eq!(limiter.release(b"foo", &no_info(), 0).unwrap_err(), ReleaseError::ReleaseWithoutClaim);
}

#[test]
fn local_timeout_refill() {
    let mut limiter = LocalRatelimiter::new();
    assert!(limiter.try_claim(b"foo"));
    // a release that arms the window timer still hands one permit back,
    // because no timer was armed yet
    let info = RatelimitInfo { limit: None, resets_in: Some(5000) };
    assert_eq!(limiter.release(b"foo", &info, 0).unwrap(), TimerCommand::Arm(5000));
    // the permit is available until drained
    assert!(limiter.try_claim(b"foo"));
    assert!(!limiter.try_claim(b"foo"));
    // the next claim succeeds only once the timer fires and refills
    limiter.refill(b"foo");
    assert!(limiter.try_claim(b"foo"));
    assert!(!limiter.try_claim(b"foo"));
}

#[test]
fn local_rearm_reschedules_existing_timer() {
    let mut limiter = LocalRatelimiter::new();
    assert!(limiter.try_claim(b"foo"));
    let first = RatelimitInfo { limit: None, resets_in: Some(5000) };
    assert_eq!(limiter.release(b"foo", &first, 0).unwrap(), TimerCommand::Arm(5000));
    let second = RatelimitInfo { limit: None, resets_in: Some(4000) };
    assert_eq!(limiter.release(b"foo", &second, 1000).unwrap(), TimerCommand::Reschedule(5000));
}

#[test]
fn local_capacity_increase() {
    let mut limiter = LocalRatelimiter::new();
    assert!(limiter.try_claim(b"foo"));
    let grow = RatelimitInfo { limit: Some(2), resets_in: None };
    assert_eq!(limiter.release(b"foo", &grow, 0).unwrap(), TimerCommand::NoTimer);
    // one permit back from the release, one more from growing 1 -> 2
    assert!(limiter.try_claim(b"foo"));
    assert!(limiter.try_claim(b"foo"));
    assert!(!limiter.try_claim(b"foo"));
    // a later release at the same capacity frees exactly one permit
    assert_eq!(limiter.release(b"foo", &grow, 0).unwrap(), TimerCommand::NoTimer);
    assert!(limiter.try_claim(b"foo"));
    assert!(!limiter.try_claim(b"foo"));
}

#[test]
fn local_shrink_keeps_granted_permits() {
    let mut limiter = LocalRatelimiter::new();
    assert!(limiter.try_claim(b"foo"));
    let grow = RatelimitInfo { limit: Some(3), resets_in: None };
    assert_eq!(limiter.release(b"foo", &grow, 0).unwrap(), TimerCommand::NoTimer);
    // pool now 3; shrink to 1 revokes nothing already granted
    let shrink = RatelimitInfo { limit: Some(1), resets_in: None };
    assert_eq!(limiter.release(b"foo", &shrink, 0).unwrap(), TimerCommand::NoTimer);
    // the shrink release itself returned one permit (no timer armed)
    assert!(limiter.try_claim(b"foo"));
    assert!(limiter.try_claim(b"foo"));
    assert!(limiter.try_claim(b"foo"));
    assert!(limiter.try_claim(b"foo"));
    assert!(!limiter.try_claim(b"foo"));
}

#[test]
fn shared_claim_and_release() {
    let mut store = SharedStore::new();
    // fresh bucket: first claim granted
    assert_eq!(store.claim_script(b"foo", 0), 0);
    // drained, no capacity information: wait for a wakeup
    assert_eq!(store.claim_script(b"foo", 0), -1);
    // a plain release grants one permit back and publishes
    assert_eq!(store.release_script(b"foo", 0, 0, 0).unwrap(), true);
    assert_eq!(store.claim_script(b"foo", 0), 0);
}

#[test]
fn shared_release_without_claim_fails() {
    let mut store = SharedStore::new();
    assert_eq!(
        store.release_script(b"foo", 0, 0, 0).unwrap_err(),
        ReleaseError::ReleaseWithoutClaim
    );
}

#[test]
fn shared_window_reset() {
    let mut store = SharedStore::new();
    assert_eq!(store.claim_script(b"foo", 0), 0);
    // the window resets 5000 ms after the release; no permit is granted by
    // the release itself beyond the usual no-timer hand-back
    assert_eq!(store.release_script(b"foo", 0, 5000, 0).unwrap(), true);
    assert_eq!(store.claim_script(b"foo", 100), 0);
    // drained: the script reports the remaining window lifetime
    assert_eq!(store.claim_script(b"foo", 1000), 4000);
    // at the reset instant the counter is refilled to the capacity
    assert_eq!(store.claim_script(b"foo", 5000), 0);
}

#[test]
fn shared_capacity_increase() {
    let mut store = SharedStore::new();
    assert_eq!(store.claim_script(b"foo", 0), 0);
    assert_eq!(store.release_script(b"foo", 2, 0, 0).unwrap(), true);
    assert_eq!(store.claim_script(b"foo", 0), 0);
    assert_eq!(store.claim_script(b"foo", 0), 0);
    assert_eq!(store.claim_script(b"foo", 0), -1);
}

#[test]
fn claim_directive_interprets_expiration() {
    assert_eq!(claim_directive(0), ClaimDirective::Granted);
    assert_eq!(claim_directive(4000), ClaimDirective::SleepMs(4000));
    assert_eq!(claim_directive(-1), ClaimDirective::AwaitWakeup);
}

#[test]
fn wakeup_filter_matches_bucket_only() {
    assert!(wakeup_matches(b"foo", b"foo"));
    assert!(!wakeup_matches(b"bar", b"foo"));
    assert!(!wakeup_matches(b"", b"foo"));
}

#[test]
fn release_script_arguments_render_in_decimal() {
    let info = RatelimitInfo { limit: Some(2), resets_in: Some(5000) };
    let (limit_arg, resets_arg) = release_args(&info);
    assert_eq!(limit_arg, b"2".to_vec());
    assert_eq!(resets_arg, b"5000".to_vec());
    let (l0, r0) = release_args(&no_info());
    assert_eq!(l0, b"0".to_vec());
    assert_eq!(r0, b"0".to_vec());
    let big = RatelimitInfo { limit: Some(12345), resets_in: Some(67890) };
    let (lb, rb) = release_args(&big);
    assert_eq!(lb, b"12345".to_vec());
    assert_eq!(rb, b"67890".to_vec());
}

#[test]
fn store_key_names() {
    assert_eq!(size_key(b"foo"), b"foo_size".to_vec());
    assert_eq!(notify_channel(), b"rest_ready".to_vec());
}

#[test]
fn release_script_arguments_render_the_largest_value() {
    let info = RatelimitInfo { limit: None, resets_in: Some(u64::MAX) };
    let (_, resets_arg) = release_args(&info);
    assert_eq!(resets_arg, b"18446744073709551615".to_vec());
}
