//! Per-request state of the proxy.

use core::time::Duration;
use std::time::Instant;

use vstd::prelude::*;

use crate::request::Request;

verus! {

#[verifier::external_type_specification]
#[verifier::external_body]
pub struct ExInstant(Instant);

/// The address of a client.
#[derive(Clone, Copy, Debug, PartialEq, Eq, Structural)]
pub enum ClientAddr {
    /// An IPv4 address, by its four octets.
    V4(u8, u8, u8, u8),
    /// An IPv6 address, by its eight segments.
    V6(u16, u16, u16, u16, u16, u16, u16, u16),
}

/// The HTTP version that a client speaks.
#[derive(Clone, Copy, Debug, PartialEq, Eq, Structural)]
pub enum HttpVersion {
    /// HTTP/0.9.
    Http09,
    /// HTTP/1.0.
    Http10,
    /// HTTP/1.1.
    Http11,
    /// HTTP/2.
    Http2,
    /// HTTP/3.
    Http3,
    /// Any other version.
    Other,
}

/// An upstream endpoint.
#[derive(Debug)]
pub struct Upstream {
    /// Where the endpoint listens.
    pub address: String,
}

/// What the handling of retries reads of a retry policy.
#[derive(Clone, Copy, Debug, PartialEq, Eq, Structural)]
pub struct RetryPolicy {
    /// Whether an operator configured the policy.
    pub configured: bool,
}

/// The state of one request, from its arrival to its last log line.
///
/// `S` is the retry state that the requests to one cluster share.
#[derive(Debug)]
pub struct RequestCtx<S> {
    /// Endpoints that a retry has given up on.
    pub attempted_endpoints: Vec<String>,
    /// The client's address.
    pub client_addr: Option<ClientAddr>,
    /// The HTTP version of the downstream connection.
    pub client_http_version: Option<HttpVersion>,
    /// The shared retry state that this request has entered.
    pub cluster_retry_state: Option<S>,
    /// Whether this request has left the shared retry state.
    pub cluster_retry_state_released: bool,
    /// Whether the downstream connection is encrypted.
    pub downstream_tls: bool,
    /// Whether another endpoint of the cluster can be selected on a retry.
    pub endpoint_reselector: bool,
    /// The class of the error that ended the request.
    pub error_type: Option<String>,
    /// The cluster that was selected, as spans name it.
    pub metrics_cluster: Option<String>,
    /// The cluster that was selected, as metrics name it.
    pub metrics_cluster_shared: Option<String>,
    /// The route that matched.
    pub metrics_route: Option<String>,
    /// How long to wait before the next attempt.
    pub pending_backoff: Option<Duration>,
    /// How many bytes of request body were read.
    pub request_body_bytes: u64,
    /// The request, as it was when the filters first saw it.
    pub request_snapshot: Option<Request>,
    /// Whether the next attempt selects an endpoint anew.
    pub reselect_on_retry: bool,
    /// How many bytes of response body were sent.
    pub response_body_bytes: u64,
    /// How many retries there were.
    pub retries: u32,
    /// The retry policy of the route.
    pub retry_policy: Option<RetryPolicy>,
    /// When the attempt to connect to the upstream began.
    pub upstream_connect_start: Option<Instant>,
    /// The upstream that is in use.
    pub upstream_for_retry: Option<Upstream>,
    /// The status that the upstream answered with.
    pub upstream_response_status: Option<u16>,
}

impl<S> RequestCtx<S> {
    /// The state of a request that has just arrived.
    pub fn new() -> (res: Self)
        ensures
            res.attempted_endpoints@ == Seq::<String>::empty(),
            res.client_addr is None,
            res.client_http_version is None,
            res.cluster_retry_state is None,
            !res.cluster_retry_state_released,
            !res.downstream_tls,
            !res.endpoint_reselector,
            res.error_type is None,
            res.metrics_cluster is None,
            res.metrics_cluster_shared is None,
            res.metrics_route is None,
            res.pending_backoff is None,
            res.request_body_bytes == 0,
            res.request_snapshot is None,
            !res.reselect_on_retry,
            res.response_body_bytes == 0,
            res.retries == 0,
            res.retry_policy is None,
            res.upstream_connect_start is None,
            res.upstream_for_retry is None,
            res.upstream_response_status is None,
    {
        RequestCtx {
            attempted_endpoints: Vec::new(),
            client_addr: None,
            client_http_version: None,
            cluster_retry_state: None,
            cluster_retry_state_released: false,
            downstream_tls: false,
            endpoint_reselector: false,
            error_type: None,
            metrics_cluster: None,
            metrics_cluster_shared: None,
            metrics_route: None,
            pending_backoff: None,
            request_body_bytes: 0,
            request_snapshot: None,
            reselect_on_retry: false,
            response_body_bytes: 0,
            retries: 0,
            retry_policy: None,
            upstream_connect_start: None,
            upstream_for_retry: None,
            upstream_response_status: None,
        }
    }
}

} // verus!
