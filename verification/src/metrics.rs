//! Request metrics.
//!
//! Gathers what is counted of a completed request. The label that stands for
//! a method, a status, a missing cluster or a missing route is chosen where
//! the metrics are recorded.

use vstd::prelude::*;

use crate::context::RequestCtx;
use crate::session_header;
use crate::session_header::method_text;
use crate::text;

verus! {

/// The method of a request that carries none.
pub const UNKNOWN_METHOD: &'static str = "UNKNOWN";

/// A request that reached an upstream endpoint.
#[derive(Debug)]
pub struct UpstreamRequest<'a> {
    /// The address of the endpoint.
    pub address: &'a str,
    /// The status that it answered with.
    pub status: u16,
}

/// What is counted of a completed request.
#[derive(Debug)]
pub struct RequestMetrics<'a> {
    /// The status of the response, or 0 where none was sent.
    pub status_code: u16,
    /// The method.
    pub method: &'a str,
    /// The cluster, where one was selected.
    pub cluster: Option<&'a str>,
    /// The route, where one matched.
    pub route: Option<&'a str>,
    /// The upstream exchange, where there was one.
    pub upstream: Option<UpstreamRequest<'a>>,
    /// The class of the error that ended the request.
    pub error_type: Option<&'a str>,
    /// How many bytes of request body were read.
    pub request_body_bytes: u64,
    /// How many bytes of response body were sent.
    pub response_body_bytes: u64,
}

/// The method that a request is counted under.
pub open spec fn counted_method<S>(
    header: pingora_http::RequestHeader,
    ctx: RequestCtx<S>,
) -> Seq<char> {
    let method = session_header::session_method(header);
    if method.len() > 0 {
        method
    } else {
        match ctx.request_snapshot {
            Some(request) => request.method@,
            None => UNKNOWN_METHOD@,
        }
    }
}

/// The endpoint that a request reached, with the status that it answered.
pub open spec fn reached_upstream<S>(ctx: RequestCtx<S>) -> Option<(Seq<char>, u16)> {
    match (ctx.upstream_response_status, ctx.upstream_for_retry) {
        (Some(status), Some(upstream)) => Some((upstream.address@, status)),
        _ => None,
    }
}

/// What an upstream exchange stands for.
pub open spec fn upstream_view(upstream: Option<UpstreamRequest>) -> Option<(Seq<char>, u16)> {
    match upstream {
        Some(request) => Some((request.address@, request.status)),
        None => None,
    }
}

/// The method that a request is counted under.
///
/// Falls back to the request snapshot where the session's header has been
/// consumed, and to `"UNKNOWN"` where neither carries a method.
pub fn request_method_label<'a, S>(
    header: &'a pingora_http::RequestHeader,
    ctx: &'a RequestCtx<S>,
) -> (res: &'a str)
    ensures
        res@ == counted_method(*header, *ctx),
{
    let method = method_text(header);
    if method.is_empty() {
        match &ctx.request_snapshot {
            Some(request) => request.method.as_str(),
            None => UNKNOWN_METHOD,
        }
    } else {
        method
    }
}

/// The upstream exchange that is counted.
///
/// Only a request that reached an upstream has an upstream status: rejections
/// and failures to connect are not counted.
pub fn emit_upstream_request_metric<'a, S>(ctx: &'a RequestCtx<S>) -> (res: Option<
    UpstreamRequest<'a>,
>)
    ensures
        upstream_view(res) == reached_upstream(*ctx),
{
    match ctx.upstream_response_status {
        Some(status) => match &ctx.upstream_for_retry {
            Some(upstream) => Some(UpstreamRequest { address: upstream.address.as_str(), status }),
            None => None,
        },
        None => None,
    }
}

fn borrowed<'a>(text: &'a Option<String>) -> (res: Option<&'a str>)
    ensures
        text::str_of(res) == text::text_of(*text),
{
    match text {
        Some(found) => Some(found.as_str()),
        None => None,
    }
}

/// What is counted of a completed request: nothing where no recorder is
/// installed. `written` is the status of the response that was sent.
pub fn emit_request_metrics<'a, S>(
    recorder_installed: bool,
    header: &'a pingora_http::RequestHeader,
    written: Option<u16>,
    ctx: &'a RequestCtx<S>,
) -> (res: Option<RequestMetrics<'a>>)
    ensures
        res is Some == recorder_installed,
        res matches Some(metrics) ==> {
            &&& metrics.status_code == match written {
                Some(status) => status,
                None => 0,
            }
            &&& metrics.method@ == counted_method(*header, *ctx)
            &&& text::str_of(metrics.cluster) == text::text_of(ctx.metrics_cluster_shared)
            &&& text::str_of(metrics.route) == text::text_of(ctx.metrics_route)
            &&& upstream_view(metrics.upstream) == reached_upstream(*ctx)
            &&& text::str_of(metrics.error_type) == text::text_of(ctx.error_type)
            &&& metrics.request_body_bytes == ctx.request_body_bytes
            &&& metrics.response_body_bytes == ctx.response_body_bytes
        },
{
    if !recorder_installed {
        return None;
    }
    let status_code: u16 = match written {
        Some(status) => status,
        None => 0,
    };
    Some(
        RequestMetrics {
            status_code,
            method: request_method_label(header, ctx),
            cluster: borrowed(&ctx.metrics_cluster_shared),
            route: borrowed(&ctx.metrics_route),
            upstream: emit_upstream_request_metric(ctx),
            error_type: borrowed(&ctx.error_type),
            request_body_bytes: ctx.request_body_bytes,
            response_body_bytes: ctx.response_body_bytes,
        },
    )
}

// -----------------------------------------------------------------------------
// Laws
// -----------------------------------------------------------------------------

/// A request is counted for its upstream exactly where the upstream answered
/// and an endpoint is in use, whatever the answer: under the address of that
/// endpoint, with that status.
pub proof fn answered_requests_are_counted<S>(ctx: RequestCtx<S>, upstream: Option<UpstreamRequest>)
    ensures
        reached_upstream(ctx) is Some <==> ctx.upstream_response_status is Some
            && ctx.upstream_for_retry is Some,
        reached_upstream(ctx) matches Some(reached) ==> {
            &&& reached.0 == ctx.upstream_for_retry.unwrap().address@
            &&& reached.1 == ctx.upstream_response_status.unwrap()
        },
        upstream_view(upstream) is Some <==> upstream is Some,
        upstream matches Some(request) ==> upstream_view(upstream) == Some(
            (request.address@, request.status),
        ),
{
}

/// A request is counted under its own method wherever it has one, else under
/// that of its snapshot, and as unknown only where it has neither.
pub proof fn requests_are_counted_under_their_method<S>(
    header: pingora_http::RequestHeader,
    ctx: RequestCtx<S>,
)
    ensures
        session_header::session_method(header) != Seq::<char>::empty() ==> counted_method(
            header,
            ctx,
        ) == session_header::session_method(header),
        session_header::session_method(header) == Seq::<char>::empty() && ctx.request_snapshot
            is Some ==> counted_method(header, ctx) == ctx.request_snapshot.unwrap().method@,
        session_header::session_method(header) == Seq::<char>::empty() && ctx.request_snapshot
            is None ==> counted_method(header, ctx) == "UNKNOWN"@,
{
    if session_header::session_method(header).len() == 0 {
        assert(session_header::session_method(header) =~= Seq::empty());
    }
}

} // verus!
