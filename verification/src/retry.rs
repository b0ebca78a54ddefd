//! Retry state management.
//!
//! Keeps what a request remembers between attempts: how often it was retried,
//! how long to wait, which endpoints failed, and whether the next attempt
//! selects another one. Whether to retry at all is decided elsewhere, from
//! the retry policy and the state of the cluster; the decision comes in as a
//! [`RetryDecision`].

use core::time::Duration;
use std::time::Instant;

use vstd::prelude::*;

use crate::context::{RequestCtx, RetryPolicy, Upstream};
use crate::http_headers;
use crate::text;
use crate::text::same_text;

verus! {

/// Whether an attempt is to be repeated.
#[derive(Clone, Copy, Debug)]
pub enum RetryDecision {
    /// Try again after a while.
    Retry {
        /// How long to wait.
        backoff: Duration,
    },
    /// Let the failure, or the response, stand.
    DoNotRetry,
}

/// What a request remembers between attempts.
#[verifier::ext_equal]
pub struct RetryModel {
    /// How many retries there were.
    pub retries: int,
    /// How long to wait before the next attempt.
    pub pending_backoff: Option<Duration>,
    /// Whether the next attempt selects an endpoint anew.
    pub reselect_on_retry: bool,
    /// The endpoints that failed.
    pub attempted: Seq<Seq<char>>,
    /// The endpoint that is in use.
    pub upstream: Option<Seq<char>>,
}

/// The address of an endpoint.
pub open spec fn address_of(upstream: Option<Upstream>) -> Option<Seq<char>> {
    match upstream {
        Some(endpoint) => Some(endpoint.address@),
        None => None,
    }
}

/// What a request remembers between attempts.
pub open spec fn retry_model<S>(ctx: RequestCtx<S>) -> RetryModel {
    RetryModel {
        retries: ctx.retries as int,
        pending_backoff: ctx.pending_backoff,
        reselect_on_retry: ctx.reselect_on_retry,
        attempted: http_headers::texts(ctx.attempted_endpoints@),
        upstream: address_of(ctx.upstream_for_retry),
    }
}

/// Whether two states differ only in what a request remembers between attempts.
pub open spec fn same_otherwise<S>(a: RequestCtx<S>, b: RequestCtx<S>) -> bool {
    &&& a.client_addr == b.client_addr
    &&& a.client_http_version == b.client_http_version
    &&& a.cluster_retry_state == b.cluster_retry_state
    &&& a.cluster_retry_state_released == b.cluster_retry_state_released
    &&& a.downstream_tls == b.downstream_tls
    &&& a.endpoint_reselector == b.endpoint_reselector
    &&& a.error_type == b.error_type
    &&& a.metrics_cluster == b.metrics_cluster
    &&& a.metrics_cluster_shared == b.metrics_cluster_shared
    &&& a.metrics_route == b.metrics_route
    &&& a.request_body_bytes == b.request_body_bytes
    &&& a.request_snapshot == b.request_snapshot
    &&& a.response_body_bytes == b.response_body_bytes
    &&& a.retry_policy == b.retry_policy
    &&& a.upstream_connect_start == b.upstream_connect_start
    &&& a.upstream_response_status == b.upstream_response_status
}

/// What a request remembers once a retry was decided on: one retry more, the
/// backoff, and the endpoint in use among those that failed, once. A
/// configured policy gives that endpoint up; the legacy one keeps it.
pub open spec fn retried(state: RetryModel, backoff: Duration, configured: bool) -> RetryModel {
    RetryModel {
        retries: state.retries + 1,
        pending_backoff: Some(backoff),
        reselect_on_retry: configured,
        attempted: match state.upstream {
            Some(address) if !state.attempted.contains(address) => state.attempted.push(address),
            _ => state.attempted,
        },
        upstream: if configured {
            None
        } else {
            state.upstream
        },
    }
}

/// The endpoint whose in-flight counter a retry releases.
pub open spec fn given_up(state: RetryModel, reselector: bool, configured: bool) -> Option<
    Seq<char>,
> {
    if configured && reselector {
        state.upstream
    } else {
        None
    }
}

/// The policy that applies to requests that carry none.
pub open spec fn legacy_policy() -> RetryPolicy {
    RetryPolicy { configured: false }
}

/// The policy that applies to a request.
pub open spec fn applicable_policy<S>(ctx: RequestCtx<S>) -> RetryPolicy {
    match ctx.retry_policy {
        Some(policy) => policy,
        None => legacy_policy(),
    }
}

/// The legacy retry policy, for requests that carry none.
pub fn legacy_default_policy() -> (res: RetryPolicy)
    ensures
        res == legacy_policy(),
{
    RetryPolicy { configured: false }
}

fn policy_for<S>(ctx: &RequestCtx<S>) -> (res: RetryPolicy)
    ensures
        res == applicable_policy(*ctx),
{
    match ctx.retry_policy {
        Some(policy) => policy,
        None => legacy_default_policy(),
    }
}

fn was_attempted(attempted: &Vec<String>, address: &str) -> (res: bool)
    ensures
        res == http_headers::texts(attempted@).contains(address@),
{
    let ghost all = http_headers::texts(attempted@);
    let mut i: usize = 0;
    while i < attempted.len()
        invariant
            i <= attempted@.len(),
            all == http_headers::texts(attempted@),
            forall|j: int| 0 <= j < i ==> all[j] != address@,
        decreases attempted@.len() - i,
    {
        if same_text(attempted[i].as_str(), address) {
            assert(all[i as int] == address@);
            return true;
        }
        i += 1;
    }
    false
}

/// Records a retry in what a request remembers, and returns the endpoint whose
/// in-flight counter is to be released.
fn begin_retry<S>(ctx: &mut RequestCtx<S>, backoff: Duration, configured: bool) -> (res: Option<
    String,
>)
    requires
        old(ctx).retries < u32::MAX,
    ensures
        retry_model(*final(ctx)) == retried(retry_model(*old(ctx)), backoff, configured),
        same_otherwise(*old(ctx), *final(ctx)),
        text::text_of(res) == given_up(
            retry_model(*old(ctx)),
            old(ctx).endpoint_reselector,
            configured,
        ),
{
    ctx.retries = ctx.retries + 1;
    ctx.pending_backoff = Some(backoff);
    ctx.reselect_on_retry = configured;
    let address: Option<String> = match &ctx.upstream_for_retry {
        Some(upstream) => Some(upstream.address.clone()),
        None => None,
    };
    let mut released: Option<String> = None;
    if let Some(address) = address {
        if configured && ctx.endpoint_reselector {
            released = Some(address.clone());
        }
        if !was_attempted(&ctx.attempted_endpoints, address.as_str()) {
            ctx.attempted_endpoints.push(address);
        }
    }
    if configured {
        ctx.upstream_for_retry = None;
    }
    assert(retry_model(*ctx).attempted =~= retried(
        retry_model(*old(ctx)),
        backoff,
        configured,
    ).attempted);
    released
}

/// What follows from a decision on a failed attempt to connect.
#[derive(Debug)]
pub struct FailureOutcome {
    /// Whether the error that is handed on is marked for a retry.
    pub retry: bool,
    /// The endpoint whose in-flight counter is to be released.
    pub released: Option<String>,
    /// Whether a retry that had been attempted is to be counted as exhausted.
    pub exhausted: bool,
}

/// What is to be done about a failed attempt to connect.
#[derive(Debug)]
pub struct ConnectFailure {
    /// The cluster that the failure is counted for, where one was selected.
    pub cluster: Option<String>,
    /// When the attempt began, where that is known: its duration is recorded.
    pub connect_start: Option<Instant>,
    /// What follows from the decision.
    pub outcome: FailureOutcome,
}

/// Whether the exhausted retries of a request are counted: only where at
/// least one retry was attempted.
pub fn record_retry_exhausted_if_attempted<S>(ctx: &RequestCtx<S>) -> (res: bool)
    ensures
        res == (ctx.retries > 0),
{
    ctx.retries > 0
}

/// What a failed attempt to connect leads to under a decision.
pub open spec fn connect_failure_outcome<S>(
    before: RequestCtx<S>,
    after: RequestCtx<S>,
    outcome: FailureOutcome,
    decision: RetryDecision,
) -> bool {
    let configured = applicable_policy(before).configured;
    match decision {
        RetryDecision::Retry { backoff } => {
            &&& retry_model(after) == retried(retry_model(before), backoff, configured)
            &&& same_otherwise(before, after)
            &&& outcome.retry
            &&& text::text_of(outcome.released) == given_up(
                retry_model(before),
                before.endpoint_reselector,
                configured,
            )
            &&& !outcome.exhausted
        },
        RetryDecision::DoNotRetry => {
            &&& after == before
            &&& !outcome.retry
            &&& outcome.released is None
            &&& outcome.exhausted == (before.retries > 0)
        },
    }
}

/// Carries out the decision on a failed attempt to connect.
///
/// The decision is authoritative: the error is marked for a retry exactly
/// where one was decided on.
pub fn after_connect_failure<S>(ctx: &mut RequestCtx<S>, decision: RetryDecision) -> (res:
    FailureOutcome)
    requires
        decision is Retry ==> old(ctx).retries < u32::MAX,
    ensures
        connect_failure_outcome(*old(ctx), *final(ctx), res, decision),
{
    match decision {
        RetryDecision::Retry { backoff } => {
            let policy = policy_for(ctx);
            let released = begin_retry(ctx, backoff, policy.configured);
            FailureOutcome { retry: true, released, exhausted: false }
        },
        RetryDecision::DoNotRetry => {
            let exhausted = record_retry_exhausted_if_attempted(ctx);
            FailureOutcome { retry: false, released: None, exhausted }
        },
    }
}

/// The state of a request whose attempt to connect is over.
pub open spec fn connect_ended<S>(ctx: RequestCtx<S>) -> RequestCtx<S> {
    RequestCtx { upstream_connect_start: None, ..ctx }
}

/// Handles a failed attempt to connect to the upstream.
///
/// `decide` is asked once, with the state of the request, whose attempt to
/// connect is over by then, and with the policy that applies to it.
pub fn handle_connect_failure<S, F: FnOnce(&RequestCtx<S>, &RetryPolicy) -> RetryDecision>(
    ctx: &mut RequestCtx<S>,
    decide: F,
) -> (res: ConnectFailure)
    requires
        call_requires(decide, (&connect_ended(*old(ctx)), &applicable_policy(*old(ctx)))),
        forall|decision: RetryDecision|
            #[trigger] call_ensures(
                decide,
                (&connect_ended(*old(ctx)), &applicable_policy(*old(ctx))),
                decision,
            ) && decision is Retry ==> old(ctx).retries < u32::MAX,
    ensures
        res.cluster == old(ctx).metrics_cluster_shared,
        res.connect_start == old(ctx).upstream_connect_start,
        exists|decision: RetryDecision|
            #[trigger] call_ensures(
                decide,
                (&connect_ended(*old(ctx)), &applicable_policy(*old(ctx))),
                decision,
            ) && connect_failure_outcome(
                connect_ended(*old(ctx)),
                *final(ctx),
                res.outcome,
                decision,
            ),
{
    let cluster: Option<String> = match &ctx.metrics_cluster_shared {
        Some(cluster) => Some(cluster.clone()),
        None => None,
    };
    let connect_start = ctx.upstream_connect_start.take();
    assert(*ctx == connect_ended(*old(ctx)));
    let policy = policy_for(ctx);
    let decision = decide(ctx, &policy);
    let outcome = after_connect_failure(ctx, decision);
    ConnectFailure { cluster, connect_start, outcome }
}

/// The error by which a response is given up for a retry.
#[derive(Debug)]
pub struct RetriableResponse {
    /// The status that the upstream answered with.
    pub status: u16,
    /// What the error says.
    pub explanation: &'static str,
    /// Whether the error is marked for a retry.
    pub retry: bool,
    /// The endpoint whose in-flight counter is to be released.
    pub released: Option<String>,
}

/// What the error says by which a response is given up for a retry.
pub const RETRIABLE_STATUS: &'static str = "retriable upstream status";

/// What a response with `status` leads to under a decision: `None` where it
/// is forwarded.
pub open spec fn response_outcome<S>(
    before: RequestCtx<S>,
    after: RequestCtx<S>,
    status: u16,
    outcome: Option<RetriableResponse>,
    decision: RetryDecision,
) -> bool {
    let configured = applicable_policy(before).configured;
    match decision {
        RetryDecision::Retry { backoff } => {
            &&& retry_model(after) == retried(retry_model(before), backoff, configured)
            &&& same_otherwise(before, after)
            &&& outcome is Some
            &&& outcome.unwrap().status == status
            &&& outcome.unwrap().explanation@ == RETRIABLE_STATUS@
            &&& outcome.unwrap().retry
            &&& text::text_of(outcome.unwrap().released) == given_up(
                retry_model(before),
                before.endpoint_reselector,
                configured,
            )
        },
        RetryDecision::DoNotRetry => after == before && outcome is None,
    }
}

/// Carries out the decision on a response with `status`.
pub fn after_response<S>(ctx: &mut RequestCtx<S>, status: u16, decision: RetryDecision) -> (res:
    Option<RetriableResponse>)
    requires
        decision is Retry ==> old(ctx).retries < u32::MAX,
    ensures
        response_outcome(*old(ctx), *final(ctx), status, res, decision),
{
    match decision {
        RetryDecision::Retry { backoff } => {
            let policy = policy_for(ctx);
            let released = begin_retry(ctx, backoff, policy.configured);
            Some(
                RetriableResponse { status, explanation: RETRIABLE_STATUS, retry: true, released },
            )
        },
        RetryDecision::DoNotRetry => None,
    }
}

/// Gives a response up for a retry, or lets it be forwarded (`None`).
///
/// `decide` is asked once, with the state of the request, the policy that
/// applies to it, and the status of the response.
pub fn maybe_retry_response<S, F: FnOnce(&RequestCtx<S>, &RetryPolicy, u16) -> RetryDecision>(
    ctx: &mut RequestCtx<S>,
    status: u16,
    decide: F,
) -> (res: Option<RetriableResponse>)
    requires
        call_requires(decide, (&*old(ctx), &applicable_policy(*old(ctx)), status)),
        forall|decision: RetryDecision|
            #[trigger] call_ensures(
                decide,
                (&*old(ctx), &applicable_policy(*old(ctx)), status),
                decision,
            ) && decision is Retry ==> old(ctx).retries < u32::MAX,
    ensures
        exists|decision: RetryDecision|
            #[trigger] call_ensures(
                decide,
                (&*old(ctx), &applicable_policy(*old(ctx)), status),
                decision,
            ) && response_outcome(*old(ctx), *final(ctx), status, res, decision),
{
    let policy = policy_for(ctx);
    let decision = decide(ctx, &policy, status);
    after_response(ctx, status, decision)
}

/// What leaves the shared retry state, of a request that holds `state` and
/// has, or has not, left it before.
pub open spec fn leaving<S>(state: Option<S>, released: bool) -> Option<S> {
    if released {
        None
    } else {
        state
    }
}

/// Takes the shared retry state out of a request that has not left it yet.
///
/// What comes back is to be left; nothing comes back from a request that
/// holds none, or has left it before.
pub fn release_retry_state<S>(ctx: &mut RequestCtx<S>) -> (res: Option<S>)
    ensures
        res == leaving(old(ctx).cluster_retry_state, old(ctx).cluster_retry_state_released),
        *final(ctx) == match res {
            Some(_) => RequestCtx {
                cluster_retry_state: None,
                cluster_retry_state_released: true,
                ..*old(ctx)
            },
            None => *old(ctx),
        },
        leaving(final(ctx).cluster_retry_state, final(ctx).cluster_retry_state_released) is None,
{
    if ctx.cluster_retry_state_released {
        return None;
    }
    let state = ctx.cluster_retry_state.take();
    if state.is_some() {
        ctx.cluster_retry_state_released = true;
    }
    state
}

// -----------------------------------------------------------------------------
// Laws
// -----------------------------------------------------------------------------

/// However often a request is retried, no endpoint is among the failed ones
/// twice, those that were stay in their places, and the endpoint that was in
/// use is among them.
pub proof fn failed_endpoints_are_distinct(state: RetryModel, backoff: Duration, configured: bool)
    requires
        state.attempted.no_duplicates(),
    ensures
        retried(state, backoff, configured).attempted.no_duplicates(),
        state.attempted.is_prefix_of(retried(state, backoff, configured).attempted),
        state.upstream matches Some(address) ==> retried(
            state,
            backoff,
            configured,
        ).attempted.contains(address),
{
    let after = retried(state, backoff, configured).attempted;
    assert(state.attempted =~= after.subrange(0, state.attempted.len() as int));
    if let Some(address) = state.upstream {
        if !state.attempted.contains(address) {
            assert(after.last() == address);
            assert forall|i: int, j: int|
                0 <= i < after.len() && 0 <= j < after.len() && i != j implies after[i]
                != after[j] by {
                if i == after.len() - 1 {
                    assert(state.attempted[j] == after[j]);
                }
                if j == after.len() - 1 {
                    assert(state.attempted[i] == after[i]);
                }
            }
        }
    }
}

/// Only a configured policy selects another endpoint: it gives the one in use
/// up, and releases it where there is something to release it with. The
/// legacy policy keeps it, counter and all.
pub proof fn reselection_is_opt_in(state: RetryModel, backoff: Duration, reselector: bool)
    ensures
        retried(state, backoff, true).upstream is None,
        retried(state, backoff, true).reselect_on_retry,
        given_up(state, true, true) == state.upstream,
        retried(state, backoff, false).upstream == state.upstream,
        !retried(state, backoff, false).reselect_on_retry,
        given_up(state, reselector, false) is None,
        !legacy_policy().configured,
{
}

/// An endpoint that a retry gave up is not released again by the next one,
/// unless it was selected anew in between.
pub proof fn endpoints_are_released_once(
    state: RetryModel,
    backoff: Duration,
    reselector: bool,
    configured: bool,
)
    requires
        given_up(state, reselector, configured) is Some,
    ensures
        given_up(retried(state, backoff, configured), reselector, configured) is None,
{
}

/// Whatever a request remembers, a retry counts for one more and leaves exactly
/// its own backoff pending.
pub proof fn every_retry_leaves_its_backoff(state: RetryModel, backoff: Duration, configured: bool)
    ensures
        retried(state, backoff, configured).retries == state.retries + 1,
        retried(state, backoff, configured).pending_backoff == Some(backoff),
{
}

/// Every retry counts for one more and leaves its own backoff pending, whatever
/// was pending before and however many retries there were. The endpoints that
/// failed stay in their places, and the one in use joins them behind the last,
/// unless it is there already. It stays in use exactly where it is not
/// selected anew. Nothing else of the request changes.
pub proof fn retries_are_recorded<S>(
    before: RequestCtx<S>,
    after: RequestCtx<S>,
    backoff: Duration,
    configured: bool,
)
    requires
        retry_model(after) == retried(retry_model(before), backoff, configured),
        same_otherwise(before, after),
    ensures
        after.retries == before.retries + 1,
        after.pending_backoff == Some(backoff),
        after.reselect_on_retry == configured,
        configured ==> after.upstream_for_retry is None,
        !configured ==> (after.upstream_for_retry is Some <==> before.upstream_for_retry is Some),
        !configured && after.upstream_for_retry is Some
            ==> after.upstream_for_retry.unwrap().address@
            == before.upstream_for_retry.unwrap().address@,
        after.attempted_endpoints@.len() >= before.attempted_endpoints@.len(),
        forall|i: int|
            0 <= i < before.attempted_endpoints@.len() ==> (
            #[trigger] after.attempted_endpoints@[i])@ == before.attempted_endpoints@[i]@,
        before.upstream_for_retry is None ==> after.attempted_endpoints@.len()
            == before.attempted_endpoints@.len(),
        before.upstream_for_retry matches Some(upstream) ==> {
            let known = exists|i: int|
                0 <= i < before.attempted_endpoints@.len() && (
                #[trigger] before.attempted_endpoints@[i])@ == upstream.address@;
            &&& known ==> after.attempted_endpoints@.len() == before.attempted_endpoints@.len()
            &&& !known ==> after.attempted_endpoints@.len() == before.attempted_endpoints@.len()
                + 1 && after.attempted_endpoints@.last()@ == upstream.address@
        },
        after.client_addr == before.client_addr,
        after.client_http_version == before.client_http_version,
        after.cluster_retry_state == before.cluster_retry_state,
        after.cluster_retry_state_released == before.cluster_retry_state_released,
        after.downstream_tls == before.downstream_tls,
        after.endpoint_reselector == before.endpoint_reselector,
        after.error_type == before.error_type,
        after.metrics_cluster == before.metrics_cluster,
        after.metrics_cluster_shared == before.metrics_cluster_shared,
        after.metrics_route == before.metrics_route,
        after.request_body_bytes == before.request_body_bytes,
        after.request_snapshot == before.request_snapshot,
        after.response_body_bytes == before.response_body_bytes,
        after.retry_policy == before.retry_policy,
        after.upstream_connect_start == before.upstream_connect_start,
        after.upstream_response_status == before.upstream_response_status,
{
    let old_list = retry_model(before).attempted;
    let new_list = retry_model(after).attempted;
    assert(old_list.len() == before.attempted_endpoints@.len());
    assert(new_list.len() == after.attempted_endpoints@.len());
    assert forall|i: int| 0 <= i < before.attempted_endpoints@.len() implies (
    #[trigger] after.attempted_endpoints@[i])@ == before.attempted_endpoints@[i]@ by {
        assert(new_list[i] == after.attempted_endpoints@[i]@);
        assert(old_list[i] == before.attempted_endpoints@[i]@);
    }
    if let Some(upstream) = before.upstream_for_retry {
        if exists|i: int|
            0 <= i < before.attempted_endpoints@.len() && (
            #[trigger] before.attempted_endpoints@[i])@ == upstream.address@ {
            let i = choose|i: int|
                0 <= i < before.attempted_endpoints@.len() && (
                #[trigger] before.attempted_endpoints@[i])@ == upstream.address@;
            assert(old_list[i] == upstream.address@);
        } else {
            assert(!old_list.contains(upstream.address@)) by {
                if old_list.contains(upstream.address@) {
                    let k = old_list.index_of(upstream.address@);
                    assert(before.attempted_endpoints@[k]@ == upstream.address@);
                }
            }
            assert(new_list.last() == after.attempted_endpoints@.last()@);
        }
    }
}

/// What is decided on a failed attempt to connect is done. A retry marks the
/// error, counts once and leaves its backoff pending; the endpoint in use is
/// released exactly where the request's own policy is a configured one and
/// another can be selected. Without a retry the request stays as it is, and
/// retries are exhausted exactly where there were any.
pub proof fn connect_decisions_are_carried_out<S>(
    before: RequestCtx<S>,
    after: RequestCtx<S>,
    outcome: FailureOutcome,
    decision: RetryDecision,
)
    requires
        connect_failure_outcome(before, after, outcome, decision),
    ensures
        outcome.retry <==> decision is Retry,
        outcome.exhausted <==> decision is DoNotRetry && before.retries > 0,
        outcome.released is Some <==> {
            &&& decision is Retry
            &&& before.retry_policy matches Some(policy) && policy.configured
            &&& before.endpoint_reselector
            &&& before.upstream_for_retry is Some
        },
        outcome.released matches Some(address) ==> address@
            == before.upstream_for_retry.unwrap().address@,
        decision is DoNotRetry ==> after == before,
        decision matches RetryDecision::Retry { backoff } ==> {
            &&& after.retries == before.retries + 1
            &&& after.pending_backoff == Some(backoff)
            &&& after.reselect_on_retry <==> (before.retry_policy matches Some(policy)
                && policy.configured)
            &&& after.reselect_on_retry ==> after.upstream_for_retry is None
            &&& same_otherwise(before, after)
        },
{
    if let RetryDecision::Retry { backoff } = decision {
        retries_are_recorded(before, after, backoff, applicable_policy(before).configured);
    }
}

/// What is decided on a response is done. A retry gives the response up, marks
/// the error, counts once and leaves its backoff pending; without one the
/// response is forwarded, and the request stays as it is.
pub proof fn response_decisions_are_carried_out<S>(
    before: RequestCtx<S>,
    after: RequestCtx<S>,
    status: u16,
    outcome: Option<RetriableResponse>,
    decision: RetryDecision,
)
    requires
        response_outcome(before, after, status, outcome, decision),
    ensures
        outcome is Some <==> decision is Retry,
        outcome matches Some(response) ==> {
            &&& response.status == status
            &&& response.retry
            &&& response.explanation@ == "retriable upstream status"@
            &&& response.released is Some <==> {
                &&& before.retry_policy matches Some(policy) && policy.configured
                &&& before.endpoint_reselector
                &&& before.upstream_for_retry is Some
            }
            &&& response.released matches Some(address) ==> address@
                == before.upstream_for_retry.unwrap().address@
        },
        decision is DoNotRetry ==> after == before,
        decision matches RetryDecision::Retry { backoff } ==> {
            &&& after.retries == before.retries + 1
            &&& after.pending_backoff == Some(backoff)
            &&& after.reselect_on_retry <==> (before.retry_policy matches Some(policy)
                && policy.configured)
            &&& after.reselect_on_retry ==> after.upstream_for_retry is None
            &&& same_otherwise(before, after)
        },
{
    if let RetryDecision::Retry { backoff } = decision {
        retries_are_recorded(before, after, backoff, applicable_policy(before).configured);
    }
}

/// A request's own policy applies to it, and only a request without one gets
/// the legacy policy, which nobody configured. Of a request whose attempt to
/// connect is over, nothing but the start of the attempt is forgotten.
pub proof fn own_policies_come_first<S>(ctx: RequestCtx<S>)
    ensures
        ctx.retry_policy matches Some(policy) ==> applicable_policy(ctx) == policy,
        ctx.retry_policy is None ==> !applicable_policy(ctx).configured,
        applicable_policy(connect_ended(ctx)) == applicable_policy(ctx),
        connect_ended(ctx).upstream_connect_start is None,
        ctx == (RequestCtx {
            upstream_connect_start: ctx.upstream_connect_start,
            ..connect_ended(ctx)
        }),
{
}

/// A request leaves the shared retry state that it holds, and only once.
pub proof fn shared_state_is_left_once<S>(state: S)
    ensures
        leaving(Some(state), false) == Some(state),
        leaving(Some(state), true) is None,
        leaving(None::<S>, false) is None,
        leaving(None::<S>, true) is None,
{
}

} // verus!
