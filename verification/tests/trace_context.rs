use std::borrow::Cow;

use http::HeaderMap;
use praxis::header_mutations::apply_pending_header_mutations;
use praxis::http_headers::FieldName;
use praxis::request::Request;
use praxis::trace_context::{InboundTrace, SpanId, TraceContext, TraceId, parse_traceparent};
use praxis::trace_context_filter::{
    ConfigValue, FilterAction, FilterError, HttpFilterContext, TraceContextFilter, Warning,
    ensure_extra_header, ensure_traceparent_header, initialize_trace_context, pending_request_id,
    resolve_request_id, reuse_existing_trace_context, warn_competing_request_id,
};

fn make_filter() -> TraceContextFilter {
    TraceContextFilter::from_config(&ConfigValue::Null).unwrap()
}

fn make_request() -> Request {
    Request { method: "GET".to_owned(), path: "/".to_owned(), headers: HeaderMap::new() }
}

fn request_with(headers: &[(&'static str, &str)]) -> Request {
    let mut request = make_request();
    for (name, value) in headers {
        request.headers.append(*name, value.parse().unwrap());
    }
    request
}

fn make_context(request: &Request) -> HttpFilterContext<'_> {
    HttpFilterContext {
        request,
        extra_request_headers: Vec::new(),
        request_headers_to_remove: Vec::new(),
        trace_context: None,
    }
}

fn request_id(digit: char) -> String {
    digit.to_string().repeat(32)
}

fn trace_id(digit: char) -> TraceId {
    TraceId::new(digit.to_string().repeat(32)).unwrap()
}

fn span_id(digit: char) -> SpanId {
    SpanId::new(digit.to_string().repeat(16)).unwrap()
}

fn find_extra_header(ctx: &HttpFilterContext<'_>, name: &str) -> Option<String> {
    ctx.extra_request_headers
        .iter()
        .find(|(n, _)| n.eq_ignore_ascii_case(name))
        .map(|(_, v)| v.clone())
}

fn count_extra(ctx: &HttpFilterContext<'_>, name: &str) -> usize {
    ctx.extra_request_headers.iter().filter(|(n, _)| n.eq_ignore_ascii_case(name)).count()
}

fn run(ctx: &mut HttpFilterContext<'_>, digit: char) -> Vec<Warning> {
    let mut warnings = Vec::new();
    let action = make_filter()
        .on_request(
            ctx,
            || request_id(digit),
            || trace_id(digit),
            || span_id(digit),
            &mut warnings,
        )
        .unwrap();
    assert!(matches!(action, FilterAction::Continue));
    warnings
}

const VALID: &str = "00-4bf92f3577b34da6a3ce929d0e0e4736-00f067aa0ba902b7-01";

#[test]
fn generates_new_trace_and_request_id_when_absent() {
    let req = make_request();
    let mut ctx = make_context(&req);

    run(&mut ctx, 'a');

    let tc = ctx.trace_context.as_ref().expect("TraceContext stored");
    assert_eq!(tc.request_id().len(), 32);
    assert_eq!(tc.flags(), "01");

    let traceparent = find_extra_header(&ctx, "traceparent").expect("traceparent injected");
    let tp = parse_traceparent(&traceparent).expect("well-formed");
    assert_eq!(tp.flags, "01");
    assert_eq!(find_extra_header(&ctx, "x-request-id").as_deref(), Some(tc.request_id()));
}

#[test]
fn joins_existing_trace_with_valid_traceparent() {
    let req = request_with(&[("traceparent", VALID)]);
    let mut ctx = make_context(&req);
    run(&mut ctx, 'a');

    let traceparent = find_extra_header(&ctx, "traceparent").unwrap();
    let tp = parse_traceparent(&traceparent).unwrap();
    assert_eq!(tp.trace_id, "4bf92f3577b34da6a3ce929d0e0e4736");
    let parts: Vec<&str> = traceparent.split('-').collect();
    assert_ne!(parts[2], "00f067aa0ba902b7");
    assert_eq!(tp.flags, "01");
}

#[test]
fn malformed_and_all_zero_traceparent_fall_back_to_new_trace() {
    for bad in [
        "garbage-value",
        "00-00000000000000000000000000000000-00f067aa0ba902b7-01",
        "00-4bf92f3577b34da6a3ce929d0e0e4736-0000000000000000-01",
    ] {
        let req = request_with(&[("traceparent", bad)]);
        let mut ctx = make_context(&req);
        run(&mut ctx, 'b');
        let traceparent = find_extra_header(&ctx, "traceparent").unwrap();
        let tp = parse_traceparent(&traceparent).unwrap();
        assert!(tp.flags == "01", "fallback trace should be sampled for {bad}");
        assert_ne!(tp.trace_id, "00000000000000000000000000000000");
    }
}

#[test]
fn masks_reserved_flags_on_join() {
    let req =
        request_with(&[("traceparent", "00-4bf92f3577b34da6a3ce929d0e0e4736-00f067aa0ba902b7-03")]);
    let mut ctx = make_context(&req);
    run(&mut ctx, 'a');
    let traceparent = find_extra_header(&ctx, "traceparent").unwrap();
    assert!(traceparent.ends_with("-01"), "reserved bits must be masked: {traceparent}");
}

#[test]
fn future_version_accepted_emits_version_00() {
    let req = request_with(&[(
        "traceparent",
        "02-4bf92f3577b34da6a3ce929d0e0e4736-00f067aa0ba902b7-01-extra",
    )]);
    let mut ctx = make_context(&req);
    run(&mut ctx, 'a');
    let traceparent = find_extra_header(&ctx, "traceparent").unwrap();
    assert!(traceparent.starts_with("00-"));
    assert!(traceparent.contains("4bf92f3577b34da6a3ce929d0e0e4736"));
}

#[test]
fn reuses_pending_request_id_from_earlier_filter() {
    let req = make_request();
    let mut ctx = make_context(&req);
    ctx.extra_request_headers
        .push((Cow::Borrowed("x-request-id"), "from-request-id-filter".into()));
    run(&mut ctx, 'a');

    let tc = ctx.trace_context.as_ref().unwrap();
    assert_eq!(tc.request_id(), "from-request-id-filter");
    assert_eq!(count_extra(&ctx, "x-request-id"), 1, "must not duplicate pending x-request-id");
}

#[test]
fn pending_request_id_wins_over_conflicting_inbound_header() {
    let req = request_with(&[("x-request-id", "client-request-id")]);
    let mut ctx = make_context(&req);
    ctx.extra_request_headers
        .push((Cow::Borrowed("x-request-id"), "from-request-id-filter".into()));

    let warnings = run(&mut ctx, 'a');

    let tc = ctx.trace_context.as_ref().unwrap();
    assert_eq!(tc.request_id(), "from-request-id-filter");
    assert_eq!(find_extra_header(&ctx, "x-request-id").as_deref(), Some("from-request-id-filter"));
    assert_eq!(warnings.len(), 1);
    assert!(matches!(
        &warnings[0],
        Warning::PendingOverInbound { pending, inbound }
            if pending == "from-request-id-filter" && inbound == "client-request-id"
    ));
}

#[test]
fn idempotent_on_request_does_not_duplicate_headers() {
    let req = make_request();
    let mut ctx = make_context(&req);
    run(&mut ctx, 'a');
    let first_count = ctx.extra_request_headers.len();
    run(&mut ctx, 'b');
    assert_eq!(
        ctx.extra_request_headers.len(),
        first_count,
        "second on_request must not duplicate pending headers"
    );
    assert_eq!(count_extra(&ctx, "traceparent"), 1);
    assert_eq!(count_extra(&ctx, "x-request-id"), 1);
}

#[test]
fn ensure_extra_header_preserves_existing_competing_value() {
    let req = make_request();
    let mut ctx = make_context(&req);
    ctx.extra_request_headers
        .push((Cow::Borrowed("traceparent"), "existing-traceparent".into()));

    let mut warnings = Vec::new();
    ensure_extra_header(&mut ctx, "traceparent", "new-traceparent", &mut warnings);

    let values: Vec<_> = ctx
        .extra_request_headers
        .iter()
        .filter(|(n, _)| n.eq_ignore_ascii_case("traceparent"))
        .map(|(_, v)| v.as_str())
        .collect();
    assert_eq!(values, vec!["existing-traceparent"]);
    assert!(matches!(
        &warnings[..],
        [Warning::CompetingHeader { header, existing, expected }]
            if header == "traceparent"
                && existing == "existing-traceparent"
                && expected == "new-traceparent"
    ));
}

#[test]
fn competing_pending_request_id_is_detected() {
    let req = make_request();
    let mut ctx = make_context(&req);
    run(&mut ctx, 'a');
    let expected = ctx.trace_context.as_ref().unwrap().request_id().to_owned();
    ctx.extra_request_headers.push((Cow::Borrowed("x-request-id"), "later-competing-id".into()));
    let mut warnings = Vec::new();
    warn_competing_request_id(&ctx, &expected, &mut warnings);
    assert_eq!(
        ctx.trace_context.as_ref().unwrap().request_id(),
        expected,
        "competing extras are warn-only; TraceContext stays authoritative"
    );
    assert!(matches!(
        &warnings[..],
        [Warning::CompetingRequestId { existing, .. }] if existing == "later-competing-id"
    ));
}

#[test]
fn apply_trace_propagation_injects_fresh_span_same_trace() {
    let req = make_request();
    let mut ctx = make_context(&req);
    run(&mut ctx, 'a');

    let primary = find_extra_header(&ctx, "traceparent").unwrap();
    let primary_tp = parse_traceparent(&primary).unwrap();

    let tc = ctx.trace_context.as_ref().unwrap();
    let ((id_name, fw_rid), (tp_name, fw_tp)) = tc.headers_for_hop(&span_id('b'));
    assert_eq!(id_name, "x-request-id");
    assert_eq!(tp_name, "traceparent");
    let fw_parsed = parse_traceparent(&fw_tp).unwrap();
    assert_eq!(fw_parsed.trace_id, primary_tp.trace_id);
    assert_ne!(
        fw_tp.split("-").nth(2).unwrap(),
        primary.split("-").nth(2).unwrap(),
        "each outbound hop must mint a fresh span id"
    );
    assert_eq!(fw_rid, tc.request_id());
}

#[test]
fn forwards_tracestate_when_traceparent_valid() {
    let req = request_with(&[
        ("traceparent", VALID),
        ("tracestate", "congo=t61rcWkgMzE,rojo=00f067aa0ba902b7"),
    ]);
    let mut ctx = make_context(&req);
    run(&mut ctx, 'a');
    assert_eq!(
        find_extra_header(&ctx, "tracestate").as_deref(),
        Some("congo=t61rcWkgMzE,rojo=00f067aa0ba902b7")
    );
}

#[test]
fn strips_tracestate_when_traceparent_invalid() {
    let req = request_with(&[("traceparent", "garbage"), ("tracestate", "congo=t61rcWkgMzE")]);
    let mut ctx = make_context(&req);
    run(&mut ctx, 'a');
    assert!(find_extra_header(&ctx, "tracestate").is_none());
    assert!(ctx.request_headers_to_remove.iter().any(|h| h.as_str() == "tracestate"));
}

#[test]
fn preserves_unsampled_flag() {
    let req =
        request_with(&[("traceparent", "00-4bf92f3577b34da6a3ce929d0e0e4736-00f067aa0ba902b7-00")]);
    let mut ctx = make_context(&req);
    run(&mut ctx, 'a');
    let traceparent = find_extra_header(&ctx, "traceparent").unwrap();
    assert!(traceparent.ends_with("-00"));
    assert_eq!(ctx.trace_context.as_ref().unwrap().flags(), "00");
}

#[test]
fn from_config_empty_and_null_succeed() {
    let config = ConfigValue::Mapping(Vec::new());
    assert_eq!(TraceContextFilter::from_config(&config).unwrap().name(), "trace_context");
    assert_eq!(
        TraceContextFilter::from_config(&ConfigValue::Null).unwrap().name(),
        "trace_context"
    );
}

#[test]
fn from_config_rejects_unknown_fields() {
    let config = ConfigValue::Mapping(vec!["bogus".to_owned()]);
    assert!(matches!(
        TraceContextFilter::from_config(&config),
        Err(FilterError::UnknownField(key)) if key == "bogus"
    ));
}

#[test]
fn from_config_rejects_what_is_no_mapping() {
    assert!(matches!(
        TraceContextFilter::from_config(&ConfigValue::Other),
        Err(FilterError::NotAMapping)
    ));
}

#[test]
fn emitted_traceparent_is_exact() {
    let req = request_with(&[("traceparent", VALID)]);
    let mut ctx = make_context(&req);
    run(&mut ctx, 'c');
    assert_eq!(
        find_extra_header(&ctx, "traceparent").as_deref(),
        Some("00-4bf92f3577b34da6a3ce929d0e0e4736-cccccccccccccccc-01")
    );
    let names: Vec<&str> = ctx.request_headers_to_remove.iter().map(FieldName::as_str).collect();
    assert_eq!(names, vec!["traceparent", "x-request-id"]);
}

#[test]
fn repeated_tracestate_is_joined() {
    let mut req =
        request_with(&[("traceparent", VALID), ("tracestate", "a=1"), ("tracestate", "b=2")]);
    req.headers.append("tracestate", http::HeaderValue::from_bytes(b"\xff").unwrap());
    let mut ctx = make_context(&req);
    run(&mut ctx, 'a');
    assert_eq!(find_extra_header(&ctx, "tracestate").as_deref(), Some("a=1, b=2"));
    let names: Vec<&str> = ctx.request_headers_to_remove.iter().map(FieldName::as_str).collect();
    assert_eq!(names, vec!["traceparent", "x-request-id", "tracestate"]);
}

#[test]
fn traceparent_grammar() {
    let id = "4bf92f3577b34da6a3ce929d0e0e4736";
    assert!(parse_traceparent(VALID).is_some());
    for bad in [
        "",
        "00-4bf92f3577b34da6a3ce929d0e0e4736-00f067aa0ba902b7",
        "00-4BF92F3577B34DA6A3CE929D0E0E4736-00f067aa0ba902b7-01",
        "ff-4bf92f3577b34da6a3ce929d0e0e4736-00f067aa0ba902b7-01",
        "00-4bf92f3577b34da6a3ce929d0e0e4736-00f067aa0ba902b7-01-extra",
        "00_4bf92f3577b34da6a3ce929d0e0e4736-00f067aa0ba902b7-01",
        "00-4bf92f3577b34da6a3ce929d0e0e473g-00f067aa0ba902b7-01",
        "00-4bf92f3577b34da6a3ce929d0e0e4736-00f067aa0ba902b7-0x",
        "01-4bf92f3577b34da6a3ce929d0e0e4736-00f067aa0ba902b7-01extra",
    ] {
        assert!(parse_traceparent(bad).is_none(), "{bad}");
    }
    let unsampled = parse_traceparent("00-4bf92f3577b34da6a3ce929d0e0e4736-00f067aa0ba902b7-fe");
    assert_eq!(unsampled.as_ref().unwrap().flags, "00");
    assert_eq!(unsampled.unwrap().trace_id, id);
}

#[test]
fn traceparent_round_trip() {
    let trace = parse_traceparent(VALID).unwrap();
    let tc = TraceContext::from_inbound("id".to_owned(), &trace);
    let (_, (_, traceparent)) = tc.headers_for_hop(&span_id('d'));
    let again = parse_traceparent(&traceparent).unwrap();
    assert_eq!(again.trace_id, tc.trace_id());
    assert_eq!(again.flags, tc.flags());
}

#[test]
fn generated_ids_are_checked() {
    let ok = "a".repeat(32);
    assert!(TraceId::new("0".repeat(32)).is_none());
    assert!(TraceId::new("A".repeat(32)).is_none());
    assert!(TraceId::new("a".repeat(31)).is_none());
    assert!(SpanId::new("0".repeat(16)).is_none());
    assert!(SpanId::new("b".repeat(15)).is_none());
    assert_eq!(SpanId::new("b".repeat(16)).unwrap().as_str(), "b".repeat(16));
    let id = TraceId::new(ok.clone()).unwrap();
    assert_eq!(id.as_str(), ok);
    let tc = TraceContext::new_sampled("r".to_owned(), &id);
    assert_eq!((tc.request_id(), tc.trace_id(), tc.flags()), ("r", ok.as_str(), "01"));
    assert_eq!(tc.clone().trace_id(), ok);
}

#[test]
fn identifiers_are_generated_only_where_needed() {
    let req = request_with(&[("traceparent", VALID), ("x-request-id", "inbound")]);
    let mut ctx = make_context(&req);
    let mut warnings = Vec::new();
    let filter = make_filter();
    filter
        .on_request(
            &mut ctx,
            || panic!("the request has an ID"),
            || panic!("the request has a trace"),
            || span_id('a'),
            &mut warnings,
        )
        .unwrap();
    filter
        .on_request(
            &mut ctx,
            || panic!("the context has an ID"),
            || panic!("the context has a trace"),
            || panic!("a traceparent is pending"),
            &mut warnings,
        )
        .unwrap();
    assert_eq!(resolve_request_id(&ctx, || panic!("an ID is pending"), &mut warnings), "inbound");
    let tc = ctx.trace_context.as_ref().unwrap().clone();
    ensure_traceparent_header(
        &mut ctx,
        &tc,
        tc.trace_id(),
        || panic!("a traceparent is pending"),
        &mut warnings,
    );
    assert!(warnings.is_empty());
}

#[test]
fn request_id_precedence() {
    let inbound = request_with(&[("x-request-id", "inbound")]);
    let mut warnings = Vec::new();
    let mut ctx = make_context(&inbound);
    assert_eq!(resolve_request_id(&ctx, || request_id('a'), &mut warnings), "inbound");
    ctx.extra_request_headers.push((Cow::Borrowed("X-Request-Id"), "pending".into()));
    assert_eq!(resolve_request_id(&ctx, || request_id('a'), &mut warnings), "pending");
    assert_eq!(warnings.len(), 1);
    let none = make_request();
    let ctx = make_context(&none);
    assert_eq!(resolve_request_id(&ctx, || request_id('a'), &mut warnings), "a".repeat(32));
}

#[test]
fn distinct_pending_ids_are_reported() {
    let req = make_request();
    let mut ctx = make_context(&req);
    let mut warnings = Vec::new();
    assert_eq!(pending_request_id(&ctx, &mut warnings), None);
    ctx.extra_request_headers.push((Cow::Borrowed("x-request-id"), "one".into()));
    ctx.extra_request_headers.push((Cow::Borrowed("x-request-id"), "one".into()));
    assert_eq!(pending_request_id(&ctx, &mut warnings).as_deref(), Some("one"));
    assert!(warnings.is_empty());
    ctx.extra_request_headers.push((Cow::Owned("X-REQUEST-ID".to_owned()), "two".into()));
    assert_eq!(pending_request_id(&ctx, &mut warnings).as_deref(), Some("one"));
    assert!(matches!(&warnings[..], [Warning::DistinctPendingIds { first }] if first == "one"));
}

#[test]
fn a_pending_traceparent_of_another_trace_is_reported() {
    let req = make_request();
    let mut ctx = make_context(&req);
    run(&mut ctx, 'a');
    let tc = ctx.trace_context.as_ref().unwrap().clone();
    let mut warnings = Vec::new();
    ensure_traceparent_header(&mut ctx, &tc, tc.trace_id(), || span_id('b'), &mut warnings);
    assert!(warnings.is_empty(), "another parent-id is no conflict");
    ctx.extra_request_headers.push((Cow::Borrowed("traceparent"), VALID.to_owned()));
    ensure_traceparent_header(&mut ctx, &tc, tc.trace_id(), || span_id('b'), &mut warnings);
    assert!(matches!(
        &warnings[..],
        [Warning::CompetingTraceparent { existing, expected_trace_id }]
            if existing == VALID && expected_trace_id == tc.trace_id()
    ));
    assert_eq!(count_extra(&ctx, "traceparent"), 2);
}

#[test]
fn an_existing_context_is_reused() {
    let req = request_with(&[("traceparent", VALID), ("x-request-id", "inbound")]);
    let mut ctx = make_context(&req);
    let mut warnings = Vec::new();
    assert!(!reuse_existing_trace_context(&mut ctx, || span_id('a'), &mut warnings));
    assert!(ctx.extra_request_headers.is_empty());
    let trace = InboundTrace { trace_id: "b".repeat(32), flags: "00".to_owned() };
    ctx.trace_context = Some(TraceContext::from_inbound("shared".to_owned(), &trace));
    assert!(reuse_existing_trace_context(&mut ctx, || span_id('a'), &mut warnings));
    assert_eq!(find_extra_header(&ctx, "x-request-id").as_deref(), Some("shared"));
    assert_eq!(
        find_extra_header(&ctx, "traceparent").as_deref(),
        Some("00-bbbbbbbbbbbbbbbbbbbbbbbbbbbbbbbb-aaaaaaaaaaaaaaaa-00")
    );
    assert!(ctx.request_headers_to_remove.is_empty());
    assert!(warnings.is_empty());
}

#[test]
fn a_context_is_joined_or_started() {
    let req = make_request();
    let ctx = make_context(&req);
    let mut warnings = Vec::new();
    let trace = parse_traceparent(VALID).unwrap();
    let joined = initialize_trace_context(
        &ctx,
        Some(&trace),
        || request_id('e'),
        || panic!("the trace is joined"),
        &mut warnings,
    );
    assert_eq!(joined.trace_id(), trace.trace_id);
    let started = initialize_trace_context(
        &ctx,
        None,
        || request_id('e'),
        || trace_id('e'),
        &mut warnings,
    );
    assert_eq!(started.trace_id(), "e".repeat(32));
    assert_eq!(started.flags(), "01");
    assert_eq!(started.request_id(), "e".repeat(32));
}

fn forwarded(request: &Request, ctx: &HttpFilterContext<'_>) -> HeaderMap {
    let mut headers = request.headers.clone();
    apply_pending_header_mutations(
        &mut headers,
        &ctx.request_headers_to_remove,
        &[],
        &ctx.extra_request_headers,
    );
    headers
}

#[test]
fn forwarded_hop_is_correlated() {
    let mut req =
        request_with(&[("traceparent", VALID), ("tracestate", "a=1"), ("tracestate", "b=2")]);
    req.headers.append("traceparent", "another".parse().unwrap());
    req.headers.append("x-request-id", "first".parse().unwrap());
    req.headers.append("x-request-id", "second".parse().unwrap());
    let mut ctx = make_context(&req);
    run(&mut ctx, 'd');
    let headers = forwarded(&req, &ctx);
    let all = |name: &str| -> Vec<&str> {
        headers.get_all(name).iter().map(|value| value.to_str().unwrap()).collect()
    };
    assert_eq!(all("x-request-id"), vec!["first"]);
    assert_eq!(
        all("traceparent"),
        vec!["00-4bf92f3577b34da6a3ce929d0e0e4736-dddddddddddddddd-01"]
    );
    assert_eq!(all("tracestate"), vec!["a=1, b=2"]);
}

#[test]
fn forwarded_hop_has_no_tracestate_of_an_invalid_trace() {
    let req = request_with(&[("traceparent", "garbage"), ("tracestate", "a=1")]);
    let mut ctx = make_context(&req);
    run(&mut ctx, 'd');
    let headers = forwarded(&req, &ctx);
    assert!(!headers.contains_key("tracestate"));
    assert_eq!(
        headers.get("traceparent").unwrap(),
        "00-dddddddddddddddddddddddddddddddd-dddddddddddddddd-01"
    );
}
