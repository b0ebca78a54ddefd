use std::time::{Duration, Instant};

use praxis::context::{RequestCtx, RetryPolicy, Upstream};
use praxis::retry::{
    RetryDecision, after_connect_failure, after_response, handle_connect_failure,
    legacy_default_policy, maybe_retry_response, record_retry_exhausted_if_attempted,
    release_retry_state,
};

type Ctx = RequestCtx<&'static str>;

const BACKOFF: Duration = Duration::from_millis(25);
const RETRY: RetryDecision = RetryDecision::Retry { backoff: BACKOFF };

fn ctx_with(address: &str, configured: bool) -> Ctx {
    let mut ctx = Ctx::new();
    ctx.upstream_for_retry = Some(Upstream { address: address.to_owned() });
    ctx.retry_policy = Some(RetryPolicy { configured });
    ctx.endpoint_reselector = true;
    ctx
}

fn address(ctx: &Ctx) -> Option<&str> {
    ctx.upstream_for_retry.as_ref().map(|upstream| upstream.address.as_str())
}

#[test]
fn configured_retry_gives_the_endpoint_up() {
    let mut ctx = ctx_with("10.0.0.1:80", true);
    let outcome = after_connect_failure(&mut ctx, RETRY);
    assert!(outcome.retry);
    assert_eq!(outcome.released.as_deref(), Some("10.0.0.1:80"));
    assert!(!outcome.exhausted);
    assert_eq!(ctx.retries, 1);
    assert_eq!(ctx.pending_backoff, Some(BACKOFF));
    assert!(ctx.reselect_on_retry);
    assert_eq!(ctx.attempted_endpoints, vec!["10.0.0.1:80"]);
    assert_eq!(address(&ctx), None);
}

#[test]
fn configured_retry_without_a_reselector_releases_nothing() {
    let mut ctx = ctx_with("10.0.0.1:80", true);
    ctx.endpoint_reselector = false;
    let outcome = after_connect_failure(&mut ctx, RETRY);
    assert_eq!(outcome.released, None);
    assert_eq!(address(&ctx), None);
}

#[test]
fn legacy_retry_keeps_the_endpoint() {
    let mut ctx = ctx_with("10.0.0.1:80", false);
    for retries in 1..4 {
        let outcome = after_connect_failure(&mut ctx, RETRY);
        assert!(outcome.retry);
        assert_eq!(outcome.released, None);
        assert_eq!(ctx.retries, retries);
    }
    assert!(!ctx.reselect_on_retry);
    assert_eq!(ctx.attempted_endpoints, vec!["10.0.0.1:80"], "an endpoint is noted once");
    assert_eq!(address(&ctx), Some("10.0.0.1:80"));
}

#[test]
fn missing_policy_is_the_legacy_one() {
    let mut ctx = ctx_with("a", true);
    ctx.retry_policy = None;
    after_connect_failure(&mut ctx, RETRY);
    assert_eq!(address(&ctx), Some("a"));
    assert!(!legacy_default_policy().configured);
}

#[test]
fn a_decision_not_to_retry_is_authoritative() {
    let mut ctx = ctx_with("a", true);
    let outcome = after_connect_failure(&mut ctx, RetryDecision::DoNotRetry);
    assert!(!outcome.retry);
    assert!(!outcome.exhausted, "no retry was attempted");
    assert_eq!(ctx.retries, 0);
    assert_eq!(address(&ctx), Some("a"));
    ctx.retries = 2;
    let outcome = after_connect_failure(&mut ctx, RetryDecision::DoNotRetry);
    assert!(outcome.exhausted);
    assert!(record_retry_exhausted_if_attempted(&ctx));
}

#[test]
fn connect_failure_asks_once_the_attempt_is_over() {
    let mut ctx = ctx_with("a", true);
    let start = Instant::now();
    ctx.upstream_connect_start = Some(start);
    ctx.metrics_cluster_shared = Some("backend".to_owned());
    let failure = handle_connect_failure(&mut ctx, |ctx: &Ctx, policy: &RetryPolicy| {
        assert!(ctx.upstream_connect_start.is_none());
        assert_eq!(ctx.retries, 0);
        assert!(policy.configured);
        RETRY
    });
    assert_eq!(failure.connect_start, Some(start));
    assert_eq!(failure.cluster.as_deref(), Some("backend"));
    assert!(failure.outcome.retry);
    assert_eq!(failure.outcome.released.as_deref(), Some("a"));
    assert!(ctx.upstream_connect_start.is_none());
    assert_eq!(ctx.retries, 1);
}

#[test]
fn connect_failure_without_a_retry_keeps_the_state() {
    let mut ctx = ctx_with("a", false);
    let failure =
        handle_connect_failure(&mut ctx, |_: &Ctx, _: &RetryPolicy| RetryDecision::DoNotRetry);
    assert!(!failure.outcome.retry);
    assert_eq!(failure.cluster, None);
    assert_eq!(failure.connect_start, None);
    assert_eq!(ctx.retries, 0);
}

#[test]
fn retriable_response_becomes_an_error() {
    let mut ctx = ctx_with("a", true);
    let error = maybe_retry_response(&mut ctx, 503, |_: &Ctx, _: &RetryPolicy, status: u16| {
        assert_eq!(status, 503);
        RETRY
    })
    .unwrap();
    assert_eq!(error.status, 503);
    assert_eq!(error.explanation, "retriable upstream status");
    assert!(error.retry);
    assert_eq!(error.released.as_deref(), Some("a"));
    assert_eq!(ctx.retries, 1);
    assert_eq!(ctx.attempted_endpoints, vec!["a"]);
}

#[test]
fn other_responses_are_forwarded() {
    let mut ctx = ctx_with("a", true);
    assert!(after_response(&mut ctx, 200, RetryDecision::DoNotRetry).is_none());
    assert_eq!(ctx.retries, 0);
    assert_eq!(address(&ctx), Some("a"));
}

#[test]
fn failed_endpoints_are_distinct() {
    let mut ctx = ctx_with("a", true);
    for endpoint in ["a", "b", "a", "c", "b"] {
        ctx.upstream_for_retry = Some(Upstream { address: endpoint.to_owned() });
        after_connect_failure(&mut ctx, RETRY);
    }
    assert_eq!(ctx.attempted_endpoints, vec!["a", "b", "c"]);
    assert_eq!(ctx.retries, 5);
    let outcome = after_connect_failure(&mut ctx, RETRY);
    assert_eq!(outcome.released, None, "nothing is in use any more");
}

#[test]
fn retry_state_is_left_once() {
    let mut ctx = Ctx::new();
    assert_eq!(release_retry_state(&mut ctx), None);
    assert!(!ctx.cluster_retry_state_released);
    ctx.cluster_retry_state = Some("state");
    assert_eq!(release_retry_state(&mut ctx), Some("state"));
    assert!(ctx.cluster_retry_state_released);
    assert_eq!(release_retry_state(&mut ctx), None);
    ctx.cluster_retry_state = Some("again");
    assert_eq!(release_retry_state(&mut ctx), None);
    assert_eq!(ctx.cluster_retry_state, Some("again"));
}
