use praxis::context::{ClientAddr, HttpVersion, RequestCtx, Upstream};
use praxis::metrics::{emit_request_metrics, emit_upstream_request_metric, request_method_label};
use praxis::request::Request;
use praxis::request_utils::{
    create_request_span, normalize_mapped_ipv4, snapshot_for_early_exit, template_or_route,
    templated_route,
};
use praxis::spans::{
    DisabledSpans, SpanField, SpanValue, http_version_label, record_response_span_attributes,
    record_response_span_fields, record_upstream_exchange_span,
};

type Ctx = RequestCtx<()>;
type Matcher = fn(&str) -> Option<String>;

fn make_ctx() -> Ctx {
    Ctx::new()
}

fn snapshot(method: &str, path: &str) -> Request {
    Request { method: method.to_owned(), path: path.to_owned(), headers: http::HeaderMap::new() }
}

fn header(method: &str, path: &str) -> pingora_http::RequestHeader {
    pingora_http::RequestHeader::build(method, path.as_bytes(), None).unwrap()
}

fn shown(fields: &[SpanField]) -> Vec<(&'static str, String)> {
    fields
        .iter()
        .map(|field| {
            let value = match &field.value {
                SpanValue::Code(code) => code.to_string(),
                SpanValue::Text(text) => text.clone(),
                SpanValue::Size(size) => size.to_string(),
            };
            (field.name, value)
        })
        .collect()
}

fn expected(fields: &[(&'static str, &str)]) -> Vec<(&'static str, String)> {
    fields.iter().map(|(name, value)| (*name, (*value).to_owned())).collect()
}

fn busy_ctx() -> Ctx {
    let mut ctx = make_ctx();
    ctx.metrics_route = Some("/users".to_owned());
    ctx.metrics_cluster = Some("backend".to_owned());
    ctx.metrics_cluster_shared = Some("backend".to_owned());
    ctx.upstream_for_retry = Some(Upstream { address: "10.0.0.1:80".to_owned() });
    ctx.upstream_response_status = Some(502);
    ctx.response_body_bytes = 12;
    ctx.request_body_bytes = 7;
    ctx.error_type = Some("upstream".to_owned());
    ctx
}

#[test]
fn templated_route_no_templates() {
    let ctx = make_ctx();
    let input_route = Some("raw-route".to_owned());

    let result = templated_route(None::<Matcher>, &ctx, input_route.clone());

    assert_eq!(result, input_route, "no templates should return input unchanged");
}

#[test]
fn templated_route_no_request_snapshot() {
    let ctx = make_ctx();

    let result = templated_route(None::<Matcher>, &ctx, None);

    assert!(result.is_none(), "no snapshot should return None");
}

#[test]
fn templated_route_matches_the_snapshot_path() {
    let mut ctx = make_ctx();
    let matcher: Matcher = |path| {
        if path == "/users/7" { Some("/users/{id}".to_owned()) } else { None }
    };
    let raw = Some("raw".to_owned());
    assert_eq!(templated_route(Some(matcher), &ctx, raw.clone()), raw, "no snapshot, no match");
    ctx.request_snapshot = Some(snapshot("GET", "/users/7"));
    assert_eq!(
        templated_route(Some(matcher), &ctx, raw.clone()).as_deref(),
        Some("/users/{id}")
    );
    ctx.request_snapshot = Some(snapshot("GET", "/other"));
    assert_eq!(templated_route(Some(matcher), &ctx, raw.clone()), raw);
    assert_eq!(template_or_route(Some("t".to_owned()), raw).as_deref(), Some("t"));
}

#[test]
fn version_labels() {
    assert_eq!(http_version_label(HttpVersion::Http09), "0.9");
    assert_eq!(http_version_label(HttpVersion::Http10), "1.0");
    assert_eq!(http_version_label(HttpVersion::Http11), "1.1");
    assert_eq!(http_version_label(HttpVersion::Http2), "2");
    assert_eq!(http_version_label(HttpVersion::Http3), "3");
    assert_eq!(http_version_label(HttpVersion::Other), "unknown");
}

#[test]
fn response_fields_of_a_failure() {
    let spans = record_response_span_fields(Some(503), "GET", Some(503), &busy_ctx(), false);
    assert_eq!(
        shown(&spans.request),
        expected(&[
            ("http.response.status_code", "503"),
            ("otel.status_code", "ERROR"),
            ("error.type", "503"),
            ("http.route", "/users"),
            ("otel.name", "GET /users"),
            ("upstream.address", "10.0.0.1:80"),
            ("upstream.cluster", "backend"),
        ])
    );
    assert_eq!(
        shown(&spans.upstream_exchange),
        expected(&[("http.response.status_code", "502"), ("http.response.body.size", "12")])
    );
}

#[test]
fn error_type_marks_server_errors_only() {
    for (status, marked) in [(499, false), (500, true), (599, true), (600, false)] {
        let spans = record_response_span_fields(Some(status), "GET", None, &make_ctx(), true);
        let found = spans.request.iter().any(|field| field.name == "error.type");
        assert_eq!(found, marked, "{status}");
        assert!(spans.upstream_exchange.is_empty());
    }
    let spans = record_response_span_fields(None, "GET", None, &make_ctx(), true);
    assert!(spans.request.is_empty());
}

#[test]
fn exchange_falls_back_to_the_written_status() {
    let ctx = make_ctx();
    assert_eq!(
        shown(&record_upstream_exchange_span(&ctx, Some(204), false)),
        expected(&[("http.response.status_code", "204"), ("http.response.body.size", "0")])
    );
    assert_eq!(
        shown(&record_upstream_exchange_span(&ctx, None, false)),
        expected(&[("http.response.body.size", "0")])
    );
    assert!(record_upstream_exchange_span(&ctx, Some(204), true).is_empty());
}

#[test]
fn a_disabled_span_records_nothing() {
    let header = header("PUT", "/users/7");
    let off = DisabledSpans { request: true, upstream_exchange: false };
    let spans = record_response_span_attributes(&header, Some(200), &busy_ctx(), off);
    assert!(spans.request.is_empty());
    assert!(spans.upstream_exchange.is_empty());
    let on = DisabledSpans { request: false, upstream_exchange: false };
    let spans = record_response_span_attributes(&header, Some(200), &busy_ctx(), on);
    assert!(shown(&spans.request).contains(&("otel.name", "PUT /users".to_owned())));
    assert_eq!(spans.upstream_exchange.len(), 2);
}

#[test]
fn metrics_of_a_request() {
    let header = header("POST", "/users");
    let ctx = busy_ctx();
    let metrics = emit_request_metrics(true, &header, Some(201), &ctx).unwrap();
    assert_eq!(metrics.status_code, 201);
    assert_eq!(metrics.method, "POST");
    assert_eq!(metrics.cluster, Some("backend"));
    assert_eq!(metrics.route, Some("/users"));
    assert_eq!(metrics.error_type, Some("upstream"));
    assert_eq!((metrics.request_body_bytes, metrics.response_body_bytes), (7, 12));
    let upstream = metrics.upstream.unwrap();
    assert_eq!((upstream.address, upstream.status), ("10.0.0.1:80", 502));
}

#[test]
fn metrics_need_a_recorder() {
    assert!(emit_request_metrics(false, &header("GET", "/"), Some(200), &make_ctx()).is_none());
    let ctx = make_ctx();
    let header = header("GET", "/");
    let metrics = emit_request_metrics(true, &header, None, &ctx).unwrap();
    assert_eq!(metrics.status_code, 0);
    assert!(metrics.cluster.is_none() && metrics.route.is_none() && metrics.upstream.is_none());
}

#[test]
fn only_answered_requests_count_for_the_upstream() {
    let mut ctx = busy_ctx();
    assert!(emit_upstream_request_metric(&ctx).is_some());
    ctx.upstream_response_status = None;
    assert!(emit_upstream_request_metric(&ctx).is_none());
    ctx.upstream_response_status = Some(200);
    ctx.upstream_for_retry = None;
    assert!(emit_upstream_request_metric(&ctx).is_none());
}

#[test]
fn method_of_a_request() {
    let mut ctx = make_ctx();
    ctx.request_snapshot = Some(snapshot("PATCH", "/"));
    assert_eq!(request_method_label(&header("DELETE", "/"), &ctx), "DELETE");
}

#[test]
fn span_of_a_request() {
    let mut header = header("GET", "/a/b?c=d");
    header.insert_header("Host", "example.org:8080").unwrap();
    header.insert_header("User-Agent", "curl/8").unwrap();
    let mut ctx = make_ctx();
    ctx.downstream_tls = true;
    ctx.client_http_version = Some(HttpVersion::Http2);
    ctx.client_addr = Some(ClientAddr::V4(192, 0, 2, 1));
    let span = create_request_span(&header, &ctx);
    assert_eq!(span.method, "GET");
    assert_eq!(span.url_scheme, "https");
    assert_eq!(span.path, "/a/b");
    assert_eq!(span.server_address.as_deref(), Some("example.org"));
    assert_eq!(span.server_port, Some(8080));
    assert_eq!(span.client_address, Some(ClientAddr::V4(192, 0, 2, 1)));
    assert_eq!(span.protocol_version, "2");
    assert_eq!(span.user_agent.as_deref(), Some("curl/8"));
}

#[test]
fn span_defaults() {
    let span_header = header("GET", "/");
    let span = create_request_span(&span_header, &make_ctx());
    assert_eq!(span.url_scheme, "http");
    assert_eq!(span.path, "/");
    assert_eq!(span.protocol_version, "1.1");
    assert!(span.server_address.is_none() && span.server_port.is_none());
    assert!(span.user_agent.is_none() && span.client_address.is_none());
}

#[test]
fn host_is_split_at_the_first_colon() {
    for (host, address, port) in [
        ("example.org", "example.org", None),
        ("example.org:", "example.org", None),
        ("example.org:+80", "example.org", Some(80)),
        ("example.org:65535", "example.org", Some(65535)),
        ("example.org:65536", "example.org", None),
        ("example.org:80:81", "example.org", None),
        ("[::1]:80", "[", None),
        (":443", "", Some(443)),
    ] {
        let mut header = header("GET", "/");
        header.insert_header("host", host).unwrap();
        let span = create_request_span(&header, &make_ctx());
        assert_eq!(span.server_address.as_deref(), Some(address), "{host}");
        assert_eq!(span.server_port, port, "{host}");
    }
}

#[test]
fn early_exit_fills_in_what_is_missing() {
    let mut ctx = make_ctx();
    let mapped = ClientAddr::V6(0, 0, 0, 0, 0, 0xffff, 0xc000, 0x0201);
    snapshot_for_early_exit(&mut ctx, || snapshot("GET", "/a"), Some(mapped));
    assert_eq!(ctx.request_snapshot.as_ref().unwrap().path, "/a");
    assert_eq!(ctx.client_addr, Some(ClientAddr::V4(192, 0, 2, 1)));
    snapshot_for_early_exit(&mut ctx, || panic!("asked twice"), None);
    assert_eq!(ctx.request_snapshot.as_ref().unwrap().path, "/a");
    assert_eq!(ctx.client_addr, Some(ClientAddr::V4(192, 0, 2, 1)));
}

#[test]
fn only_mapped_addresses_are_normalized() {
    let v6 = ClientAddr::V6(0x2001, 0xdb8, 0, 0, 0, 0xffff, 1, 2);
    assert_eq!(normalize_mapped_ipv4(v6), v6);
    let v4 = ClientAddr::V4(1, 2, 3, 4);
    assert_eq!(normalize_mapped_ipv4(v4), v4);
    assert_eq!(
        normalize_mapped_ipv4(ClientAddr::V6(0, 0, 0, 0, 0, 0xffff, 0xffff, 0x00ff)),
        ClientAddr::V4(255, 255, 0, 255)
    );
    let once = normalize_mapped_ipv4(ClientAddr::V6(0, 0, 0, 0, 0, 0xffff, 1, 2));
    assert_eq!(normalize_mapped_ipv4(once), once);
}
