//! Span attributes of a request.
//!
//! Says what is recorded on the root span of a request and on the span of its
//! upstream exchange, by the [OpenTelemetry HTTP conventions][otel].
//!
//! [otel]: https://opentelemetry.io/docs/specs/semconv/http/http-spans/

use vstd::prelude::*;
use vstd::string::*;

use crate::context::{HttpVersion, RequestCtx};
use crate::session_header;
use crate::session_header::method_text;
use crate::text;
use crate::text::decimal;

verus! {

/// The value of a span attribute.
#[derive(Debug)]
pub enum SpanValue {
    /// A status code.
    Code(u16),
    /// A text.
    Text(String),
    /// A number of bytes.
    Size(u64),
}

/// A span attribute.
#[derive(Debug)]
pub struct SpanField {
    /// The name of the attribute.
    pub name: &'static str,
    /// Its value.
    pub value: SpanValue,
}

/// What the value of a span attribute stands for.
#[verifier::ext_equal]
pub enum ValueView {
    /// A status code.
    Code(u16),
    /// A text.
    Text(Seq<char>),
    /// A number of bytes.
    Size(u64),
}

impl View for SpanValue {
    type V = ValueView;

    open spec fn view(&self) -> ValueView {
        match self {
            SpanValue::Code(code) => ValueView::Code(*code),
            SpanValue::Text(text) => ValueView::Text(text@),
            SpanValue::Size(size) => ValueView::Size(*size),
        }
    }
}

/// The names and values of a list of span attributes.
pub open spec fn span_view(fields: Seq<SpanField>) -> Seq<(Seq<char>, ValueView)> {
    fields.map_values(|field: SpanField| (field.name@, field.value@))
}

/// The value of `network.protocol.version` for an HTTP version.
pub open spec fn version_label(version: HttpVersion) -> &'static str {
    match version {
        HttpVersion::Http09 => "0.9",
        HttpVersion::Http10 => "1.0",
        HttpVersion::Http11 => "1.1",
        HttpVersion::Http2 => "2",
        HttpVersion::Http3 => "3",
        HttpVersion::Other => "unknown",
    }
}

/// The value of `network.protocol.version` for an HTTP version.
pub fn http_version_label(version: HttpVersion) -> (res: &'static str)
    ensures
        res == version_label(version),
{
    match version {
        HttpVersion::Http09 => "0.9",
        HttpVersion::Http10 => "1.0",
        HttpVersion::Http11 => "1.1",
        HttpVersion::Http2 => "2",
        HttpVersion::Http3 => "3",
        HttpVersion::Other => "unknown",
    }
}

/// Whether a status says that the server failed.
pub open spec fn is_server_error(status: u16) -> bool {
    500 <= status < 600
}

/// What the status of the response adds to the root span.
pub open spec fn status_fields(status: Option<u16>) -> Seq<(Seq<char>, ValueView)> {
    match status {
        Some(code) => {
            let known = if code > 0 {
                seq![("http.response.status_code"@, ValueView::Code(code))]
            } else {
                Seq::empty()
            };
            if is_server_error(code) {
                known + seq![
                    ("otel.status_code"@, ValueView::Text("ERROR"@)),
                    ("error.type"@, ValueView::Text(text::decimal_text(code as nat))),
                ]
            } else {
                known
            }
        },
        None => Seq::empty(),
    }
}

/// What the route that matched adds to the root span.
pub open spec fn route_fields(method: Seq<char>, route: Option<String>) -> Seq<
    (Seq<char>, ValueView),
> {
    match route {
        Some(route) => seq![
            ("http.route"@, ValueView::Text(route@)),
            ("otel.name"@, ValueView::Text(method + seq![' '] + route@)),
        ],
        None => Seq::empty(),
    }
}

/// What the endpoint and the cluster that were in use add to the root span.
pub open spec fn upstream_fields<S>(ctx: RequestCtx<S>) -> Seq<(Seq<char>, ValueView)> {
    let address = match ctx.upstream_for_retry {
        Some(upstream) => seq![("upstream.address"@, ValueView::Text(upstream.address@))],
        None => Seq::empty(),
    };
    let cluster = match ctx.metrics_cluster {
        Some(cluster) => seq![("upstream.cluster"@, ValueView::Text(cluster@))],
        None => Seq::empty(),
    };
    address + cluster
}

/// What the response adds to the root span.
pub open spec fn response_fields<S>(
    status: Option<u16>,
    method: Seq<char>,
    ctx: RequestCtx<S>,
) -> Seq<(Seq<char>, ValueView)> {
    status_fields(status) + route_fields(method, ctx.metrics_route) + upstream_fields(ctx)
}

/// What the response adds to the span of the upstream exchange: the status of
/// the upstream, or that of the response where the upstream's was not seen.
pub open spec fn exchange_fields<S>(ctx: RequestCtx<S>, written: Option<u16>) -> Seq<
    (Seq<char>, ValueView),
> {
    let status = match ctx.upstream_response_status {
        Some(status) => Some(status),
        None => written,
    };
    let code = match status {
        Some(status) => seq![("http.response.status_code"@, ValueView::Code(status))],
        None => Seq::empty(),
    };
    code + seq![("http.response.body.size"@, ValueView::Size(ctx.response_body_bytes))]
}

fn add_field(fields: &mut Vec<SpanField>, name: &'static str, value: SpanValue)
    ensures
        span_view(final(fields)@) == span_view(old(fields)@).push((name@, value@)),
{
    fields.push(SpanField { name, value });
    assert(span_view(fields@) =~= span_view(old(fields)@).push((name@, value@)));
}

/// What the response adds to the root span.
fn request_span_fields<S>(status: Option<u16>, method: &str, ctx: &RequestCtx<S>) -> (res: Vec<
    SpanField,
>)
    ensures
        span_view(res@) == response_fields(status, method@, *ctx),
{
    let mut fields: Vec<SpanField> = Vec::new();
    assert(span_view(fields@) =~= Seq::empty());
    if let Some(code) = status {
        if code > 0 {
            add_field(&mut fields, "http.response.status_code", SpanValue::Code(code));
        }
        if 500 <= code && code < 600 {
            add_field(&mut fields, "otel.status_code", SpanValue::Text("ERROR".to_owned()));
            add_field(&mut fields, "error.type", SpanValue::Text(decimal(code as u64)));
        }
    }
    assert(span_view(fields@) =~= status_fields(status));
    if let Some(route) = &ctx.metrics_route {
        add_field(&mut fields, "http.route", SpanValue::Text(route.clone()));
        let mut name: String = method.to_owned();
        name.append(" ");
        name.append(route.as_str());
        proof {
            reveal_strlit(" ");
            assert(name@ =~= method@ + seq![' '] + route@);
        }
        add_field(&mut fields, "otel.name", SpanValue::Text(name));
    }
    assert(span_view(fields@) =~= status_fields(status) + route_fields(method@, ctx.metrics_route));
    if let Some(upstream) = &ctx.upstream_for_retry {
        add_field(&mut fields, "upstream.address", SpanValue::Text(upstream.address.clone()));
    }
    if let Some(cluster) = &ctx.metrics_cluster {
        add_field(&mut fields, "upstream.cluster", SpanValue::Text(cluster.clone()));
    }
    assert(span_view(fields@) =~= response_fields(status, method@, *ctx));
    fields
}

/// What the response adds to the span of the upstream exchange, unless that
/// span is disabled.
pub fn record_upstream_exchange_span<S>(
    ctx: &RequestCtx<S>,
    written: Option<u16>,
    disabled: bool,
) -> (res: Vec<SpanField>)
    ensures
        span_view(res@) == if disabled {
            Seq::empty()
        } else {
            exchange_fields(*ctx, written)
        },
{
    let mut fields: Vec<SpanField> = Vec::new();
    assert(span_view(fields@) =~= Seq::empty());
    if disabled {
        return fields;
    }
    let status = match ctx.upstream_response_status {
        Some(status) => Some(status),
        None => written,
    };
    if let Some(status) = status {
        add_field(&mut fields, "http.response.status_code", SpanValue::Code(status));
    }
    add_field(&mut fields, "http.response.body.size", SpanValue::Size(ctx.response_body_bytes));
    assert(span_view(fields@) =~= exchange_fields(*ctx, written));
    fields
}

/// What a response adds to the spans of its request.
#[derive(Debug)]
pub struct ResponseSpans {
    /// The attributes for the root span, in the order of recording.
    pub request: Vec<SpanField>,
    /// The attributes for the span of the upstream exchange.
    pub upstream_exchange: Vec<SpanField>,
}

/// Which spans of a request are disabled.
#[derive(Clone, Copy, Debug, PartialEq, Eq, Structural)]
pub struct DisabledSpans {
    /// Whether the root span is.
    pub request: bool,
    /// Whether the span of the upstream exchange is.
    pub upstream_exchange: bool,
}

/// What a response adds to the spans of its request, once its status and the
/// request's method are known. `written` is the status of the response that
/// was sent.
pub fn record_response_span_fields<S>(
    status: Option<u16>,
    method: &str,
    written: Option<u16>,
    ctx: &RequestCtx<S>,
    exchange_disabled: bool,
) -> (res: ResponseSpans)
    ensures
        span_view(res.request@) == response_fields(status, method@, *ctx),
        span_view(res.upstream_exchange@) == if exchange_disabled {
            Seq::empty()
        } else {
            exchange_fields(*ctx, written)
        },
{
    let request = request_span_fields(status, method, ctx);
    let upstream_exchange = record_upstream_exchange_span(ctx, written, exchange_disabled);
    ResponseSpans { request, upstream_exchange }
}

/// What a response adds to the spans of its request: nothing at all where the
/// root span is disabled. `written` is the status of the response that was
/// sent, if there was one.
pub fn record_response_span_attributes<S>(
    header: &pingora_http::RequestHeader,
    written: Option<u16>,
    ctx: &RequestCtx<S>,
    disabled: DisabledSpans,
) -> (res: ResponseSpans)
    ensures
        span_view(res.request@) == if disabled.request {
            Seq::empty()
        } else {
            response_fields(written, session_header::session_method(*header), *ctx)
        },
        span_view(res.upstream_exchange@) == if disabled.request || disabled.upstream_exchange {
            Seq::empty()
        } else {
            exchange_fields(*ctx, written)
        },
{
    if disabled.request {
        let res = ResponseSpans { request: Vec::new(), upstream_exchange: Vec::new() };
        assert(span_view(res.request@) =~= Seq::empty());
        assert(span_view(res.upstream_exchange@) =~= Seq::empty());
        return res;
    }
    record_response_span_fields(
        written,
        method_text(header),
        written,
        ctx,
        disabled.upstream_exchange,
    )
}

// -----------------------------------------------------------------------------
// Laws
// -----------------------------------------------------------------------------

/// Whether an attribute is recorded.
pub open spec fn records(fields: Seq<(Seq<char>, ValueView)>, name: Seq<char>) -> bool {
    exists|i: int| 0 <= i < fields.len() && (#[trigger] fields[i]).0 == name
}

proof fn attributes_have_their_own_names()
    ensures
        "http.response.status_code"@ != "otel.status_code"@,
        "http.response.status_code"@ != "error.type"@,
        "http.response.status_code"@ != "http.route"@,
        "http.response.status_code"@ != "otel.name"@,
        "http.response.status_code"@ != "upstream.address"@,
        "http.response.status_code"@ != "upstream.cluster"@,
        "http.response.status_code"@ != "http.response.body.size"@,
        "otel.status_code"@ != "error.type"@,
        "otel.status_code"@ != "http.route"@,
        "otel.status_code"@ != "otel.name"@,
        "otel.status_code"@ != "upstream.address"@,
        "otel.status_code"@ != "upstream.cluster"@,
        "otel.status_code"@ != "http.response.body.size"@,
        "error.type"@ != "http.route"@,
        "error.type"@ != "otel.name"@,
        "error.type"@ != "upstream.address"@,
        "error.type"@ != "upstream.cluster"@,
        "error.type"@ != "http.response.body.size"@,
        "http.route"@ != "otel.name"@,
        "http.route"@ != "upstream.address"@,
        "http.route"@ != "upstream.cluster"@,
        "http.route"@ != "http.response.body.size"@,
        "otel.name"@ != "upstream.address"@,
        "otel.name"@ != "upstream.cluster"@,
        "otel.name"@ != "http.response.body.size"@,
        "upstream.address"@ != "upstream.cluster"@,
        "upstream.address"@ != "http.response.body.size"@,
        "upstream.cluster"@ != "http.response.body.size"@,
{
    reveal_strlit("http.response.status_code");
    reveal_strlit("otel.status_code");
    reveal_strlit("error.type");
    reveal_strlit("http.route");
    reveal_strlit("otel.name");
    reveal_strlit("upstream.address");
    reveal_strlit("upstream.cluster");
    reveal_strlit("http.response.body.size");
    assert("http.response.status_code"@.len() == 25);
    assert("otel.status_code"@.len() == 16);
    assert("error.type"@.len() == 10);
    assert("http.route"@.len() == 10);
    assert("otel.name"@.len() == 9);
    assert("upstream.address"@.len() == 16);
    assert("upstream.cluster"@.len() == 16);
    assert("http.response.body.size"@.len() == 23);
    assert("http.route"@[0] == 'h' && "error.type"@[0] == 'e');
    assert("otel.status_code"@[0] == 'o' && "upstream.address"@[0] == 'u');
    assert("upstream.cluster"@[0] == 'u');
    assert("upstream.address"@[9] == 'a' && "upstream.cluster"@[9] == 'c');
}

/// The root span is marked with an error type exactly where the server failed,
/// and is renamed exactly where a route matched.
pub proof fn failures_and_routes_are_marked<S>(
    status: Option<u16>,
    method: Seq<char>,
    ctx: RequestCtx<S>,
)
    ensures
        records(response_fields(status, method, ctx), "error.type"@) == (status matches Some(code)
            && is_server_error(code)),
        records(response_fields(status, method, ctx), "otel.name"@) == ctx.metrics_route is Some,
{
    attributes_have_their_own_names();
    let fields = response_fields(status, method, ctx);
    let first = status_fields(status);
    let second = route_fields(method, ctx.metrics_route);
    if let Some(code) = status {
        if is_server_error(code) {
            assert(fields[2] == first[2]);
        }
    }
    if ctx.metrics_route is Some {
        assert(fields[first.len() as int + 1] == second[1]);
    }
}

proof fn parts_hold_what_the_whole_holds(
    a: Seq<(Seq<char>, ValueView)>,
    b: Seq<(Seq<char>, ValueView)>,
    x: (Seq<char>, ValueView),
)
    ensures
        (a + b).contains(x) <==> a.contains(x) || b.contains(x),
{
    if a.contains(x) {
        let i = a.index_of(x);
        assert((a + b)[i] == x);
    }
    if b.contains(x) {
        let i = b.index_of(x);
        assert((a + b)[a.len() + i] == x);
    }
    if (a + b).contains(x) {
        let i = (a + b).index_of(x);
        assert((a + b)[i] == x);
        if i < a.len() {
            assert(a[i] == x);
        } else {
            assert(b[i - a.len()] == x);
        }
    }
}

proof fn status_is_recorded(status: Option<u16>, x: (Seq<char>, ValueView))
    ensures
        status_fields(status).contains(x) <==> (status matches Some(code) && {
            ||| code > 0 && x == ("http.response.status_code"@, ValueView::Code(code))
            ||| 500 <= code <= 599 && x == ("otel.status_code"@, ValueView::Text("ERROR"@))
            ||| 500 <= code <= 599 && x == (
                "error.type"@,
                ValueView::Text(text::decimal_text(code as nat)),
            )
        }),
{
    let fields = status_fields(status);
    if let Some(code) = status {
        if code > 0 {
            assert(fields[0] == ("http.response.status_code"@, ValueView::Code(code)));
        }
        if 500 <= code <= 599 {
            assert(fields[1] == ("otel.status_code"@, ValueView::Text("ERROR"@)));
            assert(fields[2] == (
                "error.type"@,
                ValueView::Text(text::decimal_text(code as nat)),
            ));
        }
    }
    if fields.contains(x) {
        let i = fields.index_of(x);
        assert(fields[i] == x);
    }
}

proof fn route_is_recorded(method: Seq<char>, route: Option<String>, x: (Seq<char>, ValueView))
    ensures
        route_fields(method, route).contains(x) <==> (route matches Some(route) && {
            ||| x == ("http.route"@, ValueView::Text(route@))
            ||| x == ("otel.name"@, ValueView::Text(method + seq![' '] + route@))
        }),
{
    let fields = route_fields(method, route);
    if let Some(route) = route {
        assert(fields[0] == ("http.route"@, ValueView::Text(route@)));
        assert(fields[1] == ("otel.name"@, ValueView::Text(method + seq![' '] + route@)));
    }
    if fields.contains(x) {
        let i = fields.index_of(x);
        assert(fields[i] == x);
    }
}

proof fn upstream_is_recorded<S>(ctx: RequestCtx<S>, x: (Seq<char>, ValueView))
    ensures
        upstream_fields(ctx).contains(x) <==> {
            ||| ctx.upstream_for_retry matches Some(upstream) && x == (
                "upstream.address"@,
                ValueView::Text(upstream.address@),
            )
            ||| ctx.metrics_cluster matches Some(cluster) && x == (
                "upstream.cluster"@,
                ValueView::Text(cluster@),
            )
        },
{
    let fields = upstream_fields(ctx);
    if let Some(upstream) = ctx.upstream_for_retry {
        assert(fields[0] == ("upstream.address"@, ValueView::Text(upstream.address@)));
    }
    if let Some(cluster) = ctx.metrics_cluster {
        assert(fields.last() == ("upstream.cluster"@, ValueView::Text(cluster@)));
        assert(fields[fields.len() - 1] == fields.last());
    }
    if fields.contains(x) {
        let i = fields.index_of(x);
        assert(fields[i] == x);
    }
}

/// What the root span records of a response, attribute by attribute: each
/// status but 0; an error and its type for each status from 500 to 599; the
/// route, and the method with it as the name of the span; the endpoint; and the
/// cluster. Nothing else is recorded.
pub proof fn responses_are_recorded<S>(
    status: Option<u16>,
    method: Seq<char>,
    ctx: RequestCtx<S>,
    name: Seq<char>,
    value: ValueView,
)
    ensures
        response_fields(status, method, ctx).contains((name, value)) <==> {
            ||| name == "http.response.status_code"@ && status is Some && status != Some(0u16)
                && value == ValueView::Code(status.unwrap())
            ||| name == "otel.status_code"@ && status is Some && status.unwrap() / 100 == 5
                && value == ValueView::Text("ERROR"@)
            ||| name == "error.type"@ && status is Some && status.unwrap() / 100 == 5 && value
                == ValueView::Text(text::decimal_text(status.unwrap() as nat))
            ||| name == "http.route"@ && ctx.metrics_route is Some && value == ValueView::Text(
                ctx.metrics_route.unwrap()@,
            )
            ||| name == "otel.name"@ && ctx.metrics_route is Some && value == ValueView::Text(
                method + seq![' '] + ctx.metrics_route.unwrap()@,
            )
            ||| name == "upstream.address"@ && ctx.upstream_for_retry is Some && value
                == ValueView::Text(ctx.upstream_for_retry.unwrap().address@)
            ||| name == "upstream.cluster"@ && ctx.metrics_cluster is Some && value
                == ValueView::Text(ctx.metrics_cluster.unwrap()@)
        },
{
    let x = (name, value);
    let first = status_fields(status);
    let second = route_fields(method, ctx.metrics_route);
    let third = upstream_fields(ctx);
    parts_hold_what_the_whole_holds(first, second, x);
    parts_hold_what_the_whole_holds(first + second, third, x);
    status_is_recorded(status, x);
    route_is_recorded(method, ctx.metrics_route, x);
    upstream_is_recorded(ctx, x);
}

/// No attribute is recorded twice.
pub proof fn attributes_are_recorded_once<S>(
    status: Option<u16>,
    method: Seq<char>,
    ctx: RequestCtx<S>,
    written: Option<u16>,
)
    ensures
        forall|i: int, j: int|
            0 <= i < j < response_fields(status, method, ctx).len() ==> (
            #[trigger] response_fields(status, method, ctx)[i]).0 != (
            #[trigger] response_fields(status, method, ctx)[j]).0,
        forall|i: int, j: int|
            0 <= i < j < exchange_fields(ctx, written).len() ==> (
            #[trigger] exchange_fields(ctx, written)[i]).0 != (
            #[trigger] exchange_fields(ctx, written)[j]).0,
{
    attributes_have_their_own_names();
}

/// What the span of the upstream exchange records: the size of the response
/// body, whatever it is; and the status that the upstream answered with, or that
/// was sent where the upstream's was not seen, whichever it is. Nothing else is
/// recorded.
pub proof fn exchanges_are_recorded<S>(
    ctx: RequestCtx<S>,
    written: Option<u16>,
    name: Seq<char>,
    value: ValueView,
)
    ensures
        exchange_fields(ctx, written).contains((name, value)) <==> {
            ||| name == "http.response.body.size"@ && value == ValueView::Size(
                ctx.response_body_bytes,
            )
            ||| name == "http.response.status_code"@ && ctx.upstream_response_status is Some
                && value == ValueView::Code(ctx.upstream_response_status.unwrap())
            ||| name == "http.response.status_code"@ && ctx.upstream_response_status is None
                && written is Some && value == ValueView::Code(written.unwrap())
        },
{
    let fields = exchange_fields(ctx, written);
    let x = (name, value);
    assert(fields[fields.len() - 1] == (
        "http.response.body.size"@,
        ValueView::Size(ctx.response_body_bytes),
    ));
    if let Some(status) = ctx.upstream_response_status {
        assert(fields[0] == ("http.response.status_code"@, ValueView::Code(status)));
    } else if let Some(status) = written {
        assert(fields[0] == ("http.response.status_code"@, ValueView::Code(status)));
    }
    if fields.contains(x) {
        let i = fields.index_of(x);
        assert(fields[i] == x);
    }
}

/// A list of attributes stands for their names and values, in order.
pub proof fn lists_stand_for_their_attributes(fields: Seq<SpanField>)
    ensures
        span_view(fields).len() == fields.len(),
        forall|i: int|
            0 <= i < fields.len() ==> (#[trigger] span_view(fields)[i]).0 == fields[i].name@,
        forall|i: int|
            0 <= i < fields.len() ==> (#[trigger] span_view(fields)[i]).1 == match fields[i].value {
                SpanValue::Code(code) => ValueView::Code(code),
                SpanValue::Text(text) => ValueView::Text(text@),
                SpanValue::Size(size) => ValueView::Size(size),
            },
{
}

/// Each HTTP version has a label of its own: its number, or that it is unknown.
pub proof fn versions_have_their_own_labels(a: HttpVersion, b: HttpVersion)
    ensures
        a == HttpVersion::Http09 <==> version_label(a)@ == seq!['0', '.', '9'],
        a == HttpVersion::Http10 <==> version_label(a)@ == seq!['1', '.', '0'],
        a == HttpVersion::Http11 <==> version_label(a)@ == seq!['1', '.', '1'],
        a == HttpVersion::Http2 <==> version_label(a)@ == seq!['2'],
        a == HttpVersion::Http3 <==> version_label(a)@ == seq!['3'],
        a == HttpVersion::Other <==> version_label(a)@ == "unknown"@,
        version_label(a)@ == version_label(b)@ ==> a == b,
{
    reveal_strlit("0.9");
    reveal_strlit("1.0");
    reveal_strlit("1.1");
    reveal_strlit("2");
    reveal_strlit("3");
    reveal_strlit("unknown");
    assert("0.9"@ =~= seq!['0', '.', '9']);
    assert("1.0"@ =~= seq!['1', '.', '0']);
    assert("1.1"@ =~= seq!['1', '.', '1']);
    assert("2"@ =~= seq!['2']);
    assert("3"@ =~= seq!['3']);
    assert("unknown"@.len() == 7);
    assert(seq!['0', '.', '9'][0] == '0' && seq!['1', '.', '0'][0] == '1');
    assert(seq!['1', '.', '0'][2] == '0' && seq!['1', '.', '1'][2] == '1');
    assert(seq!['1', '.', '1'][0] == '1' && seq!['2'][0] == '2' && seq!['3'][0] == '3');
}

} // verus!
