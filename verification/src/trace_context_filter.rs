//! W3C Trace Context propagation filter.
//!
//! Initializes the request-scoped [`TraceContext`] and injects `x-request-id`
//! and `traceparent` on the forwarded hop.
//!
//! Request ID resolution prefers a pending value of an earlier filter over the
//! inbound header, then falls back to the inbound header, then to a generated
//! ID.

use std::borrow::Cow;

use vstd::prelude::*;
use vstd::string::*;

use crate::header_mutations::cow_text;
use crate::http_headers;
use crate::http_headers::{FieldName, get_text, map_get_all};
use crate::request::Request;
use crate::text;
use crate::trace_context;
use crate::trace_context::{
    FreshModel, InboundModel, InboundTrace, REQUEST_ID_HEADER, SpanId, TRACEPARENT_HEADER,
    TraceContext, TraceId, TraceModel, parse_traceparent,
};

verus! {

/// The W3C `tracestate` header.
pub const TRACESTATE_HEADER: &'static str = "tracestate";

// -----------------------------------------------------------------------------
// Filter context
// -----------------------------------------------------------------------------

/// What filters see and change of a request.
pub struct HttpFilterContext<'a> {
    /// The inbound request.
    pub request: &'a Request,
    /// Headers to set on the forwarded request.
    pub extra_request_headers: Vec<(Cow<'static, str>, String)>,
    /// Headers to remove from the forwarded request.
    pub request_headers_to_remove: Vec<FieldName>,
    /// The trace context, once it is initialized.
    pub trace_context: Option<TraceContext>,
}

/// The content of an [`HttpFilterContext`].
pub struct ContextModel {
    /// The inbound headers.
    pub inbound: http_headers::Fields,
    /// Headers to set on the forwarded request.
    pub extra: Seq<(Seq<char>, Seq<char>)>,
    /// Names of headers to remove from the forwarded request.
    pub removed: Seq<Seq<char>>,
    /// The trace context.
    pub trace: Option<TraceModel>,
}

/// The texts of pending headers.
pub open spec fn extra_model(extra: Seq<(Cow<'static, str>, String)>) -> Seq<
    (Seq<char>, Seq<char>),
> {
    extra.map_values(|entry: (Cow<'static, str>, String)| (entry.0@, entry.1@))
}

/// The texts of names.
pub open spec fn names_model(names: Seq<FieldName>) -> Seq<Seq<char>> {
    names.map_values(|name: FieldName| name@)
}

impl<'a> View for HttpFilterContext<'a> {
    type V = ContextModel;

    open spec fn view(&self) -> ContextModel {
        ContextModel {
            inbound: http_headers::header_fields(self.request.headers),
            extra: extra_model(self.extra_request_headers@),
            removed: names_model(self.request_headers_to_remove@),
            trace: match self.trace_context {
                Some(trace) => Some(trace@),
                None => None,
            },
        }
    }
}

/// The values of the pending headers named `name`, in order.
pub open spec fn values_named(extra: Seq<(Seq<char>, Seq<char>)>, name: Seq<char>) -> Seq<Seq<char>>
    decreases extra.len(),
{
    if extra.len() == 0 {
        Seq::empty()
    } else if text::same_ignoring_case(extra.last().0, name) {
        values_named(extra.drop_last(), name).push(extra.last().1)
    } else {
        values_named(extra.drop_last(), name)
    }
}

// -----------------------------------------------------------------------------
// Warnings
// -----------------------------------------------------------------------------

/// A conflict between correlation headers, for the operator.
#[derive(Debug)]
pub enum Warning {
    /// Several distinct `x-request-id` values are pending; the first is used.
    DistinctPendingIds {
        /// The value that is used.
        first: String,
    },
    /// The pending and the inbound `x-request-id` differ; the pending is used.
    PendingOverInbound {
        /// The value that is used.
        pending: String,
        /// The value that is not.
        inbound: String,
    },
    /// A different value is pending for a correlation header; it stays.
    CompetingHeader {
        /// The header.
        header: String,
        /// The value that stays.
        existing: String,
        /// The value of the trace context.
        expected: String,
    },
    /// A `traceparent` of another trace, or none at all, is pending.
    CompetingTraceparent {
        /// The value that stays.
        existing: String,
        /// The trace-id of the trace context.
        expected_trace_id: String,
    },
    /// A pending `x-request-id` differs from that of the trace context.
    CompetingRequestId {
        /// The value that stays.
        existing: String,
        /// The value of the trace context.
        expected: String,
    },
}

/// The content of a [`Warning`].
pub enum WarningModel {
    /// Several distinct `x-request-id` values are pending.
    DistinctPendingIds { first: Seq<char> },
    /// The pending and the inbound `x-request-id` differ.
    PendingOverInbound { pending: Seq<char>, inbound: Seq<char> },
    /// A different value is pending for a correlation header.
    CompetingHeader { header: Seq<char>, existing: Seq<char>, expected: Seq<char> },
    /// A `traceparent` of another trace, or none at all, is pending.
    CompetingTraceparent { existing: Seq<char>, expected_trace_id: Seq<char> },
    /// A pending `x-request-id` differs from that of the trace context.
    CompetingRequestId { existing: Seq<char>, expected: Seq<char> },
}

impl View for Warning {
    type V = WarningModel;

    open spec fn view(&self) -> WarningModel {
        match self {
            Warning::DistinctPendingIds { first } => WarningModel::DistinctPendingIds {
                first: first@,
            },
            Warning::PendingOverInbound { pending, inbound } => WarningModel::PendingOverInbound {
                pending: pending@,
                inbound: inbound@,
            },
            Warning::CompetingHeader { header, existing, expected } => {
                WarningModel::CompetingHeader {
                    header: header@,
                    existing: existing@,
                    expected: expected@,
                }
            },
            Warning::CompetingTraceparent { existing, expected_trace_id } => {
                WarningModel::CompetingTraceparent {
                    existing: existing@,
                    expected_trace_id: expected_trace_id@,
                }
            },
            Warning::CompetingRequestId { existing, expected } => WarningModel::CompetingRequestId {
                existing: existing@,
                expected: expected@,
            },
        }
    }
}

/// The contents of a list of warnings.
pub open spec fn warnings_model(warnings: Seq<Warning>) -> Seq<WarningModel> {
    warnings.map_values(|warning: Warning| warning@)
}

proof fn warnings_push(warnings: Seq<Warning>, warning: Warning)
    ensures
        warnings_model(warnings.push(warning)) == warnings_model(warnings).push(warning@),
{
    assert(warnings_model(warnings.push(warning)) =~= warnings_model(warnings).push(warning@));
}

/// A warning for each of `values` that differs from `value`, in order.
pub open spec fn competing_header_warnings(
    header: Seq<char>,
    values: Seq<Seq<char>>,
    value: Seq<char>,
) -> Seq<WarningModel>
    decreases values.len(),
{
    if values.len() == 0 {
        Seq::empty()
    } else {
        let head = competing_header_warnings(header, values.drop_last(), value);
        if values.last() != value {
            head.push(
                WarningModel::CompetingHeader { header, existing: values.last(), expected: value },
            )
        } else {
            head
        }
    }
}

/// A warning for each of `values` that is not a `traceparent` of the trace
/// `trace_id`, in order.
pub open spec fn competing_traceparent_warnings(
    values: Seq<Seq<char>>,
    trace_id: Seq<char>,
) -> Seq<WarningModel>
    decreases values.len(),
{
    if values.len() == 0 {
        Seq::empty()
    } else {
        let head = competing_traceparent_warnings(values.drop_last(), trace_id);
        if is_of_trace(values.last(), trace_id) {
            head
        } else {
            head.push(
                WarningModel::CompetingTraceparent {
                    existing: values.last(),
                    expected_trace_id: trace_id,
                },
            )
        }
    }
}

/// Whether `value` is a `traceparent` of the trace `trace_id`.
pub open spec fn is_of_trace(value: Seq<char>, trace_id: Seq<char>) -> bool {
    match trace_context::parsed_traceparent(value) {
        Some(parsed) => parsed.trace_id == trace_id,
        None => false,
    }
}

/// A warning for each of the pending `x-request-id` `values` that differs from
/// `expected`, in order.
pub open spec fn competing_id_warnings(values: Seq<Seq<char>>, expected: Seq<char>) -> Seq<
    WarningModel,
>
    decreases values.len(),
{
    if values.len() == 0 {
        Seq::empty()
    } else {
        let head = competing_id_warnings(values.drop_last(), expected);
        if values.last() != expected {
            head.push(WarningModel::CompetingRequestId { existing: values.last(), expected })
        } else {
            head
        }
    }
}

// -----------------------------------------------------------------------------
// Names
// -----------------------------------------------------------------------------

/// The three header names are valid, and no two of them are the same.
proof fn header_names()
    ensures
        http_headers::is_plain_name(REQUEST_ID_HEADER@),
        http_headers::is_plain_name(TRACEPARENT_HEADER@),
        http_headers::is_plain_name(TRACESTATE_HEADER@),
        http_headers::is_header_name(REQUEST_ID_HEADER@),
        http_headers::is_header_name(TRACEPARENT_HEADER@),
        http_headers::is_header_name(TRACESTATE_HEADER@),
        !text::same_ignoring_case(REQUEST_ID_HEADER@, TRACEPARENT_HEADER@),
        !text::same_ignoring_case(REQUEST_ID_HEADER@, TRACESTATE_HEADER@),
        !text::same_ignoring_case(TRACEPARENT_HEADER@, TRACESTATE_HEADER@),
        !text::same_ignoring_case(TRACEPARENT_HEADER@, REQUEST_ID_HEADER@),
        !text::same_ignoring_case(TRACESTATE_HEADER@, REQUEST_ID_HEADER@),
        !text::same_ignoring_case(TRACESTATE_HEADER@, TRACEPARENT_HEADER@),
{
    reveal_strlit("x-request-id");
    reveal_strlit("traceparent");
    reveal_strlit("tracestate");
    assert(REQUEST_ID_HEADER@ =~= seq!['x', '-', 'r', 'e', 'q', 'u', 'e', 's', 't', '-', 'i', 'd']);
    assert(TRACEPARENT_HEADER@ =~= seq!['t', 'r', 'a', 'c', 'e', 'p', 'a', 'r', 'e', 'n', 't']);
    assert(TRACESTATE_HEADER@ =~= seq!['t', 'r', 'a', 'c', 'e', 's', 't', 'a', 't', 'e']);
}

// -----------------------------------------------------------------------------
// Request ID resolution
// -----------------------------------------------------------------------------

/// The first pending `x-request-id`, if any.
pub open spec fn pending_id(extra: Seq<(Seq<char>, Seq<char>)>) -> Option<Seq<char>> {
    let values = values_named(extra, REQUEST_ID_HEADER@);
    if values.len() == 0 {
        None
    } else {
        Some(values[0])
    }
}

/// A warning where the pending `x-request-id` values are not all the same.
pub open spec fn pending_id_warnings(extra: Seq<(Seq<char>, Seq<char>)>) -> Seq<WarningModel> {
    let values = values_named(extra, REQUEST_ID_HEADER@);
    if exists|i: int| 0 < i < values.len() && #[trigger] values[i] != values[0] {
        seq![WarningModel::DistinctPendingIds { first: values[0] }]
    } else {
        Seq::empty()
    }
}

/// The request ID that a request brings along: the pending one, else the
/// inbound one.
pub open spec fn known_id(context: ContextModel) -> Option<Seq<char>> {
    match pending_id(context.extra) {
        Some(pending) => Some(pending),
        None => http_headers::first_text(context.inbound, REQUEST_ID_HEADER@),
    }
}

/// The request ID of the shared trace context: the one that the request brings
/// along, else the generated one.
pub open spec fn resolved_id(context: ContextModel, generated: Seq<char>) -> Seq<char> {
    match known_id(context) {
        Some(id) => id,
        None => generated,
    }
}

/// What is warned of when the request ID is resolved.
pub open spec fn resolution_warnings(context: ContextModel) -> Seq<WarningModel> {
    let inbound = http_headers::first_text(context.inbound, REQUEST_ID_HEADER@);
    match (pending_id(context.extra), inbound) {
        (Some(pending), Some(inbound)) if pending != inbound => pending_id_warnings(
            context.extra,
        ).push(WarningModel::PendingOverInbound { pending, inbound }),
        _ => pending_id_warnings(context.extra),
    }
}

/// The values of the pending headers named `name`, in order.
fn collect_named(extra: &Vec<(Cow<'static, str>, String)>, name: &str) -> (res: Vec<String>)
    ensures
        http_headers::texts(res@) == values_named(extra_model(extra@), name@),
{
    let ghost model = extra_model(extra@);
    let mut out: Vec<String> = Vec::new();
    let mut i: usize = 0;
    assert(http_headers::texts(out@) =~= values_named(model.take(0), name@));
    while i < extra.len()
        invariant
            i <= extra@.len(),
            model == extra_model(extra@),
            http_headers::texts(out@) == values_named(model.take(i as int), name@),
        decreases extra@.len() - i,
    {
        let (entry_name, entry_value) = &extra[i];
        proof {
            assert(model.take(i + 1).drop_last() =~= model.take(i as int));
            assert(model.take(i + 1).last() == (entry_name@, entry_value@));
        }
        if text::eq_ignore_ascii_case(cow_text(entry_name), name) {
            let ghost before = out@;
            out.push(entry_value.clone());
            assert(http_headers::texts(out@) =~= http_headers::texts(before).push(entry_value@));
        }
        i = i + 1;
    }
    assert(model.take(extra@.len() as int) =~= model);
    out
}

/// Return the first pending `x-request-id` value scheduled for upstream
/// injection.
pub fn pending_request_id(ctx: &HttpFilterContext<'_>, warnings: &mut Vec<Warning>) -> (res: Option<
    String,
>)
    ensures
        match pending_id(ctx@.extra) {
            Some(id) => res matches Some(s) && s@ == id,
            None => res is None,
        },
        warnings_model(final(warnings)@) == warnings_model(old(warnings)@) + pending_id_warnings(
            ctx@.extra,
        ),
{
    let values = collect_named(&ctx.extra_request_headers, REQUEST_ID_HEADER);
    let ghost model = values_named(ctx@.extra, REQUEST_ID_HEADER@);
    if values.len() == 0 {
        assert(model.len() == 0) by {
            assert(http_headers::texts(values@).len() == 0);
        }
        assert(warnings_model(warnings@) =~= warnings_model(old(warnings)@) + pending_id_warnings(
            ctx@.extra,
        ));
        return None;
    }
    assert(model[0] == values@[0]@);
    let mut distinct: bool = false;
    let mut i: usize = 1;
    while i < values.len()
        invariant
            1 <= i <= values@.len(),
            model == http_headers::texts(values@),
            distinct <==> exists|k: int| 0 < k < i && #[trigger] model[k] != model[0],
        decreases values@.len() - i,
    {
        assert(model[i as int] == values@[i as int]@);
        if !(values[i] == values[0]) {
            distinct = true;
        }
        i = i + 1;
    }
    if distinct {
        proof {
            warnings_push(warnings@, Warning::DistinctPendingIds { first: values@[0] });
        }
        warnings.push(Warning::DistinctPendingIds { first: values[0].clone() });
    }
    assert(warnings_model(warnings@) =~= warnings_model(old(warnings)@) + pending_id_warnings(
        ctx@.extra,
    ));
    Some(values[0].clone())
}

/// Resolve the request ID for the shared trace context.
///
/// Precedence is a pending value from an earlier filter, then the inbound
/// `x-request-id` header, then a generated ID; `generate` is asked only then. A
/// conflict between a pending and an inbound value is warned of and resolved by
/// keeping the pending one.
pub fn resolve_request_id<G: FnOnce() -> String>(
    ctx: &HttpFilterContext<'_>,
    generate: G,
    warnings: &mut Vec<Warning>,
) -> (res: String)
    requires
        known_id(ctx@) is None ==> call_requires(generate, ()),
    ensures
        match known_id(ctx@) {
            Some(id) => res@ == id,
            None => call_ensures(generate, (), res),
        },
        warnings_model(final(warnings)@) == warnings_model(old(warnings)@) + resolution_warnings(
            ctx@,
        ),
{
    proof {
        header_names();
    }
    let inbound = get_text(&ctx.request.headers, REQUEST_ID_HEADER);
    let pending = pending_request_id(ctx, warnings);
    match (pending, inbound) {
        (Some(pending), Some(inbound)) => {
            if !(pending == inbound) {
                let warning = Warning::PendingOverInbound { pending: pending.clone(), inbound };
                proof {
                    warnings_push(warnings@, warning);
                }
                warnings.push(warning);
                assert(warnings_model(warnings@) =~= warnings_model(old(warnings)@)
                    + resolution_warnings(ctx@));
            }
            pending
        },
        (Some(pending), None) => pending,
        (None, Some(inbound)) => inbound,
        (None, None) => generate(),
    }
}

// -----------------------------------------------------------------------------
// Generated identifiers
// -----------------------------------------------------------------------------

/// Whether `text` is what `generate` gave, where a request ID was needed.
pub open spec fn id_drawn<G: FnOnce() -> String>(
    generate: G,
    needed: bool,
    text: Seq<char>,
) -> bool {
    needed ==> exists|id: String| #[trigger] call_ensures(generate, (), id) && id@ == text
}

/// Whether `text` is a trace-id, and what `generate` gave, where one was needed.
pub open spec fn trace_drawn<T: FnOnce() -> TraceId>(
    generate: T,
    needed: bool,
    text: Seq<char>,
) -> bool {
    &&& trace_context::is_trace_id(text)
    &&& needed ==> exists|id: TraceId| #[trigger] call_ensures(generate, (), id) && id@ == text
}

/// Whether `text` is a parent-id, and what `generate` gave, where one was needed.
pub open spec fn span_drawn<P: FnOnce() -> SpanId>(
    generate: P,
    needed: bool,
    text: Seq<char>,
) -> bool {
    &&& trace_context::is_span_id(text)
    &&& needed ==> exists|id: SpanId| #[trigger] call_ensures(generate, (), id) && id@ == text
}

/// There are valid identifiers.
proof fn some_ids()
    ensures
        trace_context::is_trace_id(Seq::new(32, |i: int| 'a')),
        trace_context::is_span_id(Seq::new(16, |i: int| 'a')),
{
    assert(Seq::new(32, |i: int| 'a')[0] != '0');
    assert(Seq::new(16, |i: int| 'a')[0] != '0');
}

// -----------------------------------------------------------------------------
// Header injection
// -----------------------------------------------------------------------------

/// The pending headers with `name` set to `value`, unless it is pending
/// already.
pub open spec fn ensured(
    extra: Seq<(Seq<char>, Seq<char>)>,
    name: Seq<char>,
    value: Seq<char>,
) -> Seq<(Seq<char>, Seq<char>)> {
    if values_named(extra, name).len() == 0 {
        extra.push((name, value))
    } else {
        extra
    }
}

/// Leave a competing pending extra in place rather than duplicating it.
pub fn ensure_extra_header(
    ctx: &mut HttpFilterContext<'_>,
    name: &'static str,
    value: &str,
    warnings: &mut Vec<Warning>,
)
    ensures
        final(ctx)@ == (ContextModel {
            extra: ensured(old(ctx)@.extra, name@, value@),
            ..old(ctx)@
        }),
        final(ctx).request == old(ctx).request,
        warnings_model(final(warnings)@) == warnings_model(old(warnings)@)
            + competing_header_warnings(
            name@,
            values_named(old(ctx)@.extra, name@),
            value@,
        ),
{
    let existing = collect_named(&ctx.extra_request_headers, name);
    let ghost values = values_named(old(ctx)@.extra, name@);
    assert(values.len() == existing@.len());
    if existing.len() == 0 {
        let ghost before = ctx.extra_request_headers@;
        ctx.extra_request_headers.push((Cow::Borrowed(name), value.to_owned()));
        assert(extra_model(ctx.extra_request_headers@) =~= extra_model(before).push(
            (name@, value@),
        ));
        assert(warnings_model(warnings@) =~= warnings_model(old(warnings)@)
            + competing_header_warnings(name@, values, value@));
        return ;
    }
    let expected = value.to_owned();
    let mut i: usize = 0;
    assert(values.take(0) =~= Seq::empty());
    assert(warnings_model(warnings@) =~= warnings_model(old(warnings)@)
        + competing_header_warnings(name@, values.take(0), value@));
    while i < existing.len()
        invariant
            i <= existing@.len(),
            values == http_headers::texts(existing@),
            expected@ == value@,
            warnings_model(warnings@) == warnings_model(old(warnings)@)
                + competing_header_warnings(name@, values.take(i as int), value@),
        decreases existing@.len() - i,
    {
        assert(values.take(i + 1).drop_last() =~= values.take(i as int));
        assert(values.take(i + 1).last() == existing@[i as int]@);
        if !(existing[i] == expected) {
            let warning = Warning::CompetingHeader {
                header: name.to_owned(),
                existing: existing[i].clone(),
                expected: expected.clone(),
            };
            proof {
                warnings_push(warnings@, warning);
            }
            warnings.push(warning);
        }
        assert(warnings_model(warnings@) =~= warnings_model(old(warnings)@)
            + competing_header_warnings(name@, values.take(i + 1), value@));
        i = i + 1;
    }
    assert(values.take(values.len() as int) =~= values);
}

/// Whether no `traceparent` is pending.
pub open spec fn no_traceparent(extra: Seq<(Seq<char>, Seq<char>)>) -> bool {
    values_named(extra, TRACEPARENT_HEADER@).len() == 0
}

/// Ensure the forwarded hop has a `traceparent`, without warning of a pending
/// one that differs in its parent-id alone. `new_span_id` is asked only where
/// none is pending.
pub fn ensure_traceparent_header<P: FnOnce() -> SpanId>(
    ctx: &mut HttpFilterContext<'_>,
    tc: &TraceContext,
    expected_trace_id: &str,
    new_span_id: P,
    warnings: &mut Vec<Warning>,
)
    requires
        no_traceparent(old(ctx)@.extra) ==> call_requires(new_span_id, ()),
    ensures
        exists|span_id: Seq<char>| #[trigger]
            span_drawn(
                new_span_id,
                no_traceparent(old(ctx)@.extra),
                span_id,
            ) && final(ctx)@ == (ContextModel {
                extra: ensured(
                    old(ctx)@.extra,
                    TRACEPARENT_HEADER@,
                    trace_context::hop_traceparent(tc@, span_id),
                ),
                ..old(ctx)@
            }),
        final(ctx).request == old(ctx).request,
        warnings_model(final(warnings)@) == warnings_model(old(warnings)@)
            + competing_traceparent_warnings(
            values_named(old(ctx)@.extra, TRACEPARENT_HEADER@),
            expected_trace_id@,
        ),
{
    proof {
        some_ids();
    }
    let existing = collect_named(&ctx.extra_request_headers, TRACEPARENT_HEADER);
    let ghost values = values_named(old(ctx)@.extra, TRACEPARENT_HEADER@);
    assert(values.len() == existing@.len());
    if existing.len() == 0 {
        let span_id = new_span_id();
        let (_, (_, traceparent)) = tc.headers_for_hop(&span_id);
        let ghost before = ctx.extra_request_headers@;
        let ghost pushed = traceparent@;
        ctx.extra_request_headers.push((Cow::Borrowed(TRACEPARENT_HEADER), traceparent));
        assert(extra_model(ctx.extra_request_headers@) =~= extra_model(before).push(
            (TRACEPARENT_HEADER@, pushed),
        ));
        assert(span_drawn(new_span_id, true, span_id@));
        assert(warnings_model(warnings@) =~= warnings_model(old(warnings)@)
            + competing_traceparent_warnings(values, expected_trace_id@));
        return ;
    }
    assert(span_drawn(new_span_id, false, Seq::new(16, |i: int| 'a')));
    let mut i: usize = 0;
    assert(values.take(0) =~= Seq::empty());
    assert(warnings_model(warnings@) =~= warnings_model(old(warnings)@)
        + competing_traceparent_warnings(values.take(0), expected_trace_id@));
    while i < existing.len()
        invariant
            i <= existing@.len(),
            values == http_headers::texts(existing@),
            warnings_model(warnings@) == warnings_model(old(warnings)@)
                + competing_traceparent_warnings(values.take(i as int), expected_trace_id@),
        decreases existing@.len() - i,
    {
        assert(values.take(i + 1).drop_last() =~= values.take(i as int));
        assert(values.take(i + 1).last() == existing@[i as int]@);
        let matching = match parse_traceparent(existing[i].as_str()) {
            Some(parsed) => text::same_text(parsed.trace_id.as_str(), expected_trace_id),
            None => false,
        };
        assert(matching == is_of_trace(existing@[i as int]@, expected_trace_id@));
        if !matching {
            let warning = Warning::CompetingTraceparent {
                existing: existing[i].clone(),
                expected_trace_id: expected_trace_id.to_owned(),
            };
            proof {
                warnings_push(warnings@, warning);
            }
            warnings.push(warning);
        }
        assert(warnings_model(warnings@) =~= warnings_model(old(warnings)@)
            + competing_traceparent_warnings(values.take(i + 1), expected_trace_id@));
        i = i + 1;
    }
    assert(values.take(values.len() as int) =~= values);
}

/// Warn when pending forwarded request headers disagree with the shared
/// request ID.
pub fn warn_competing_request_id(
    ctx: &HttpFilterContext<'_>,
    expected: &str,
    warnings: &mut Vec<Warning>,
)
    ensures
        warnings_model(final(warnings)@) == warnings_model(old(warnings)@) + competing_id_warnings(
            values_named(ctx@.extra, REQUEST_ID_HEADER@),
            expected@,
        ),
{
    let existing = collect_named(&ctx.extra_request_headers, REQUEST_ID_HEADER);
    let ghost values = values_named(ctx@.extra, REQUEST_ID_HEADER@);
    let wanted = expected.to_owned();
    let mut i: usize = 0;
    assert(values.len() == existing@.len());
    assert(values.take(0) =~= Seq::empty());
    assert(warnings_model(warnings@) =~= warnings_model(old(warnings)@) + competing_id_warnings(
        values.take(0),
        expected@,
    ));
    while i < existing.len()
        invariant
            i <= existing@.len(),
            values == http_headers::texts(existing@),
            wanted@ == expected@,
            warnings_model(warnings@) == warnings_model(old(warnings)@) + competing_id_warnings(
                values.take(i as int),
                expected@,
            ),
        decreases existing@.len() - i,
    {
        assert(values.take(i + 1).drop_last() =~= values.take(i as int));
        assert(values.take(i + 1).last() == existing@[i as int]@);
        if !(existing[i] == wanted) {
            let warning = Warning::CompetingRequestId {
                existing: existing[i].clone(),
                expected: wanted.clone(),
            };
            proof {
                warnings_push(warnings@, warning);
            }
            warnings.push(warning);
        }
        assert(warnings_model(warnings@) =~= warnings_model(old(warnings)@)
            + competing_id_warnings(values.take(i + 1), expected@));
        i = i + 1;
    }
    assert(values.take(values.len() as int) =~= values);
}

/// Have `name` removed from the forwarded request.
fn remove_header(ctx: &mut HttpFilterContext<'_>, name: &'static str)
    requires
        http_headers::is_header_name(name@),
    ensures
        final(ctx)@ == (ContextModel { removed: old(ctx)@.removed.push(name@), ..old(ctx)@ }),
        final(ctx).request == old(ctx).request,
{
    let ghost before = ctx.request_headers_to_remove@;
    let field_name = FieldName::from_static(name);
    let ghost pushed = field_name;
    ctx.request_headers_to_remove.push(field_name);
    assert(names_model(ctx.request_headers_to_remove@) =~= names_model(before).push(pushed@));
}

// -----------------------------------------------------------------------------
// tracestate
// -----------------------------------------------------------------------------

/// The texts of those of `values` that are visible ASCII, in order.
pub open spec fn readable(values: Seq<http_headers::ValueModel>) -> Seq<Seq<char>>
    decreases values.len(),
{
    if values.len() == 0 {
        Seq::empty()
    } else {
        match http_headers::visible_text(values.last().0) {
            Some(value) => readable(values.drop_last()).push(value),
            None => readable(values.drop_last()),
        }
    }
}

/// `values` as one text, with a comma and a space between each two.
pub open spec fn comma_joined(values: Seq<Seq<char>>) -> Seq<char>
    decreases values.len(),
{
    if values.len() == 0 {
        Seq::empty()
    } else if values.len() == 1 {
        values[0]
    } else {
        comma_joined(values.drop_last()) + ", "@ + values.last()
    }
}

/// The context after the inbound `tracestate` is forwarded: where there is a
/// readable one, it replaces the inbound header.
pub open spec fn tracestate_forwarded(context: ContextModel) -> ContextModel {
    let values = readable(http_headers::values_of(context.inbound, TRACESTATE_HEADER@));
    if values.len() == 0 {
        context
    } else {
        ContextModel {
            removed: context.removed.push(TRACESTATE_HEADER@),
            extra: ensured(context.extra, TRACESTATE_HEADER@, comma_joined(values)),
            ..context
        }
    }
}

/// What is warned of when the inbound `tracestate` is forwarded.
pub open spec fn tracestate_warnings(context: ContextModel) -> Seq<WarningModel> {
    let values = readable(http_headers::values_of(context.inbound, TRACESTATE_HEADER@));
    if values.len() == 0 {
        Seq::empty()
    } else {
        competing_header_warnings(
            TRACESTATE_HEADER@,
            values_named(context.extra, TRACESTATE_HEADER@),
            comma_joined(values),
        )
    }
}

/// The readable inbound `tracestate` values, in order.
fn readable_tracestate(request: &Request) -> (res: Vec<String>)
    ensures
        http_headers::texts(res@) == readable(
            http_headers::values_of(
                http_headers::header_fields(request.headers),
                TRACESTATE_HEADER@,
            ),
        ),
{
    proof {
        header_names();
    }
    let all = map_get_all(&request.headers, TRACESTATE_HEADER);
    let ghost values = http_headers::values_of(
        http_headers::header_fields(request.headers),
        TRACESTATE_HEADER@,
    );
    let mut out: Vec<String> = Vec::new();
    let mut i: usize = 0;
    assert(http_headers::texts(out@) =~= readable(values.take(0)));
    while i < all.len()
        invariant
            i <= all@.len(),
            all@.len() == values.len(),
            forall|k: int| 0 <= k < all@.len() ==> (#[trigger] all@[k])@ == values[k],
            http_headers::texts(out@) == readable(values.take(i as int)),
        decreases all@.len() - i,
    {
        proof {
            assert(values.take(i + 1).drop_last() =~= values.take(i as int));
            assert(values.take(i + 1).last() == all@[i as int]@);
        }
        if let Ok(value) = all[i].to_str() {
            let ghost before = out@;
            let ghost pushed = value@;
            out.push(value);
            assert(http_headers::texts(out@) =~= http_headers::texts(before).push(pushed));
        }
        i = i + 1;
    }
    assert(values.take(values.len() as int) =~= values);
    out
}

/// `values` as one text, with a comma and a space between each two.
fn join(values: &Vec<String>) -> (res: String)
    requires
        values@.len() > 0,
    ensures
        res@ == comma_joined(http_headers::texts(values@)),
{
    let ghost model = http_headers::texts(values@);
    let mut out = values[0].clone();
    let mut i: usize = 1;
    assert(model.take(1)[0] == values@[0]@);
    while i < values.len()
        invariant
            1 <= i <= values@.len(),
            model == http_headers::texts(values@),
            out@ == comma_joined(model.take(i as int)),
        decreases values@.len() - i,
    {
        assert(model.take(i + 1).drop_last() =~= model.take(i as int));
        assert(model.take(i + 1).last() == values@[i as int]@);
        out.append(", ");
        out.append(values[i].as_str());
        i = i + 1;
    }
    assert(model.take(model.len() as int) =~= model);
    out
}

/// Forward inbound `tracestate` when the inbound `traceparent` was valid.
pub fn forward_tracestate(ctx: &mut HttpFilterContext<'_>, warnings: &mut Vec<Warning>)
    ensures
        final(ctx)@ == tracestate_forwarded(old(ctx)@),
        final(ctx).request == old(ctx).request,
        warnings_model(final(warnings)@) == warnings_model(old(warnings)@) + tracestate_warnings(
            old(ctx)@,
        ),
{
    let values = readable_tracestate(ctx.request);
    assert(http_headers::texts(values@).len() == values@.len());
    if values.len() == 0 {
        assert(warnings_model(warnings@) =~= warnings_model(old(warnings)@)
            + tracestate_warnings(old(ctx)@));
        return ;
    }
    let combined = join(&values);
    proof {
        header_names();
    }
    remove_header(ctx, TRACESTATE_HEADER);
    ensure_extra_header(ctx, TRACESTATE_HEADER, combined.as_str(), warnings);
}

/// Remove inbound `tracestate` when there is no valid inbound `traceparent`.
pub fn strip_tracestate(ctx: &mut HttpFilterContext<'_>)
    ensures
        final(ctx)@ == (ContextModel {
            removed: old(ctx)@.removed.push(TRACESTATE_HEADER@),
            ..old(ctx)@
        }),
        final(ctx).request == old(ctx).request,
{
    proof {
        header_names();
    }
    remove_header(ctx, TRACESTATE_HEADER);
}

// -----------------------------------------------------------------------------
// Trace context
// -----------------------------------------------------------------------------

/// What the inbound `traceparent` says, where there is a valid one.
pub open spec fn inbound_trace(fields: http_headers::Fields) -> Option<InboundModel> {
    match http_headers::first_text(fields, TRACEPARENT_HEADER@) {
        Some(value) => trace_context::parsed_traceparent(value),
        None => None,
    }
}

/// The trace context of a request: that of the inbound trace, or of a new
/// sampled trace, with the resolved request ID.
pub open spec fn initial_trace(
    context: ContextModel,
    incoming: Option<InboundModel>,
    fresh: FreshModel,
) -> TraceModel {
    TraceModel {
        request_id: resolved_id(context, fresh.request_id),
        trace_id: match incoming {
            Some(trace) => trace.trace_id,
            None => fresh.trace_id,
        },
        flags: match incoming {
            Some(trace) => trace.flags,
            None => trace_context::flags_text(true),
        },
    }
}

/// Build the request-scoped trace context from inbound trace data or a new
/// trace. Identifiers are generated only where they are needed.
pub fn initialize_trace_context<G: FnOnce() -> String, T: FnOnce() -> TraceId>(
    ctx: &HttpFilterContext<'_>,
    incoming: Option<&InboundTrace>,
    new_request_id: G,
    new_trace_id: T,
    warnings: &mut Vec<Warning>,
) -> (res: TraceContext)
    requires
        incoming matches Some(trace) ==> trace.well_formed(),
        known_id(ctx@) is None ==> call_requires(new_request_id, ()),
        incoming is None ==> call_requires(new_trace_id, ()),
    ensures
        match known_id(ctx@) {
            Some(id) => res@.request_id == id,
            None => id_drawn(new_request_id, true, res@.request_id),
        },
        match incoming {
            Some(trace) => res@.trace_id == trace@.trace_id && res@.flags == trace@.flags,
            None => trace_drawn(new_trace_id, true, res@.trace_id) && res@.flags
                == trace_context::flags_text(true),
        },
        trace_context::is_trace(res@),
        warnings_model(final(warnings)@) == warnings_model(old(warnings)@) + resolution_warnings(
            ctx@,
        ),
{
    let request_id = resolve_request_id(ctx, new_request_id, warnings);
    match incoming {
        Some(trace) => TraceContext::from_inbound(request_id, trace),
        None => {
            let trace_id = new_trace_id();
            TraceContext::new_sampled(request_id, &trace_id)
        },
    }
}

/// The pending headers with both correlation headers of a hop ensured.
pub open spec fn correlated(
    extra: Seq<(Seq<char>, Seq<char>)>,
    trace: TraceModel,
    span_id: Seq<char>,
) -> Seq<(Seq<char>, Seq<char>)> {
    ensured(
        ensured(extra, REQUEST_ID_HEADER@, trace.request_id),
        TRACEPARENT_HEADER@,
        trace_context::hop_traceparent(trace, span_id),
    )
}

/// What is warned of when the correlation headers are first injected.
pub open spec fn injection_warnings(
    extra: Seq<(Seq<char>, Seq<char>)>,
    trace: TraceModel,
    span_id: Seq<char>,
) -> Seq<WarningModel> {
    let with_id = ensured(extra, REQUEST_ID_HEADER@, trace.request_id);
    competing_header_warnings(
        REQUEST_ID_HEADER@,
        values_named(extra, REQUEST_ID_HEADER@),
        trace.request_id,
    ) + competing_header_warnings(
        TRACEPARENT_HEADER@,
        values_named(with_id, TRACEPARENT_HEADER@),
        trace_context::hop_traceparent(trace, span_id),
    ) + competing_id_warnings(
        values_named(correlated(extra, trace, span_id), REQUEST_ID_HEADER@),
        trace.request_id,
    )
}

/// Inject correlation headers for the forwarded upstream request.
///
/// Removes untrusted downstream copies and adds the values of the trace
/// context, unless other values are pending already.
pub fn inject_correlation_headers(
    ctx: &mut HttpFilterContext<'_>,
    tc: &TraceContext,
    span_id: &SpanId,
    warnings: &mut Vec<Warning>,
)
    ensures
        final(ctx)@ == (ContextModel {
            removed: old(ctx)@.removed.push(TRACEPARENT_HEADER@).push(REQUEST_ID_HEADER@),
            extra: correlated(old(ctx)@.extra, tc@, span_id@),
            ..old(ctx)@
        }),
        trace_context::is_span_id(span_id@),
        final(ctx).request == old(ctx).request,
        warnings_model(final(warnings)@) == warnings_model(old(warnings)@) + injection_warnings(
            old(ctx)@.extra,
            tc@,
            span_id@,
        ),
{
    let request_id = tc.request_id().to_owned();
    let (_, (_, traceparent)) = tc.headers_for_hop(span_id);
    proof {
        header_names();
    }
    remove_header(ctx, TRACEPARENT_HEADER);
    remove_header(ctx, REQUEST_ID_HEADER);
    ensure_extra_header(ctx, REQUEST_ID_HEADER, request_id.as_str(), warnings);
    ensure_extra_header(ctx, TRACEPARENT_HEADER, traceparent.as_str(), warnings);
    warn_competing_request_id(ctx, request_id.as_str(), warnings);
    assert(warnings_model(warnings@) =~= warnings_model(old(warnings)@) + injection_warnings(
        old(ctx)@.extra,
        tc@,
        span_id@,
    ));
}

/// What is warned of when an initialized trace context is reused.
pub open spec fn reuse_warnings(
    extra: Seq<(Seq<char>, Seq<char>)>,
    trace: TraceModel,
    span_id: Seq<char>,
) -> Seq<WarningModel> {
    let with_id = ensured(extra, REQUEST_ID_HEADER@, trace.request_id);
    competing_header_warnings(
        REQUEST_ID_HEADER@,
        values_named(extra, REQUEST_ID_HEADER@),
        trace.request_id,
    ) + competing_traceparent_warnings(
        values_named(with_id, TRACEPARENT_HEADER@),
        trace.trace_id,
    ) + competing_id_warnings(
        values_named(correlated(extra, trace, span_id), REQUEST_ID_HEADER@),
        trace.request_id,
    )
}

/// Reuse an already-initialized request-scoped trace context.
///
/// Pending forwarded-hop headers stay where they are; a parent-id that differs
/// from a fresh one is no conflict. `new_span_id` is asked only where there is a
/// trace context and no `traceparent` is pending.
pub fn reuse_existing_trace_context<P: FnOnce() -> SpanId>(
    ctx: &mut HttpFilterContext<'_>,
    new_span_id: P,
    warnings: &mut Vec<Warning>,
) -> (res: bool)
    requires
        old(ctx)@.trace is Some && no_traceparent(old(ctx)@.extra) ==> call_requires(
            new_span_id,
            (),
        ),
    ensures
        final(ctx).request == old(ctx).request,
        match old(ctx)@.trace {
            Some(trace) => {
                &&& res
                &&& exists|span_id: Seq<char>| #[trigger]
                    span_drawn(
                        new_span_id,
                        no_traceparent(old(ctx)@.extra),
                        span_id,
                    ) && final(ctx)@ == (ContextModel {
                        extra: correlated(old(ctx)@.extra, trace, span_id),
                        ..old(ctx)@
                    }) && warnings_model(final(warnings)@) == warnings_model(old(warnings)@)
                        + reuse_warnings(old(ctx)@.extra, trace, span_id)
            },
            None => {
                &&& !res
                &&& final(ctx)@ == old(ctx)@
                &&& final(warnings)@ == old(warnings)@
            },
        },
{
    let tc = match &ctx.trace_context {
        Some(tc) => tc.clone(),
        None => {
            return false;
        },
    };
    let request_id = tc.request_id().to_owned();
    let trace_id = tc.trace_id().to_owned();
    proof {
        header_names();
        values_of_ensured(
            ctx@.extra,
            REQUEST_ID_HEADER@,
            tc@.request_id,
            TRACEPARENT_HEADER@,
        );
    }
    ensure_extra_header(ctx, REQUEST_ID_HEADER, request_id.as_str(), warnings);
    let ghost with_id = ctx@;
    ensure_traceparent_header(ctx, &tc, trace_id.as_str(), new_span_id, warnings);
    let ghost span_id = choose|span_id: Seq<char>| #[trigger]
        span_drawn(
            new_span_id,
            no_traceparent(with_id.extra),
            span_id,
        ) && ctx@ == (ContextModel {
            extra: ensured(
                with_id.extra,
                TRACEPARENT_HEADER@,
                trace_context::hop_traceparent(tc@, span_id),
            ),
            ..with_id
        });
    warn_competing_request_id(ctx, request_id.as_str(), warnings);
    assert(warnings_model(warnings@) =~= warnings_model(old(warnings)@) + reuse_warnings(
        old(ctx)@.extra,
        tc@,
        span_id,
    ));
    true
}

// -----------------------------------------------------------------------------
// TraceContextFilter
// -----------------------------------------------------------------------------

/// What a filter decides on a request.
#[derive(Clone, Copy, Debug, PartialEq, Eq, Structural)]
pub enum FilterAction {
    /// The request goes on to the next filter.
    Continue,
}

/// The error of a filter.
#[derive(Debug)]
pub enum FilterError {
    /// The configuration has a field that the filter does not know.
    UnknownField(String),
    /// The configuration is not a mapping.
    NotAMapping,
}

/// A filter's configuration, as far as the filter reads it.
#[derive(Debug)]
pub enum ConfigValue {
    /// No configuration.
    Null,
    /// A mapping with these keys.
    Mapping(Vec<String>),
    /// Anything else.
    Other,
}

/// Propagates W3C Trace Context and `x-request-id` correlation.
///
/// `tracestate` is forwarded only when the inbound `traceparent` is valid.
#[derive(Clone, Copy, Debug, PartialEq, Eq, Structural)]
pub struct TraceContextFilter;

/// The context after the filter has handled a request for the first time.
pub open spec fn first_handled(context: ContextModel, fresh: FreshModel) -> ContextModel {
    let incoming = inbound_trace(context.inbound);
    let trace = initial_trace(context, incoming, fresh);
    let injected = ContextModel {
        removed: context.removed.push(TRACEPARENT_HEADER@).push(REQUEST_ID_HEADER@),
        extra: correlated(context.extra, trace, fresh.span_id),
        trace: Some(trace),
        ..context
    };
    match incoming {
        Some(_) => tracestate_forwarded(injected),
        None => ContextModel { removed: injected.removed.push(TRACESTATE_HEADER@), ..injected },
    }
}

/// The context after the filter has handled a request.
pub open spec fn handled(context: ContextModel, fresh: FreshModel) -> ContextModel {
    match context.trace {
        Some(trace) => ContextModel {
            extra: correlated(context.extra, trace, fresh.span_id),
            ..context
        },
        None => first_handled(context, fresh),
    }
}

/// What is warned of when the filter handles a request.
pub open spec fn handling_warnings(context: ContextModel, fresh: FreshModel) -> Seq<WarningModel> {
    match context.trace {
        Some(trace) => reuse_warnings(context.extra, trace, fresh.span_id),
        None => {
            let incoming = inbound_trace(context.inbound);
            let trace = initial_trace(context, incoming, fresh);
            let injected = ContextModel {
                removed: context.removed.push(TRACEPARENT_HEADER@).push(REQUEST_ID_HEADER@),
                extra: correlated(context.extra, trace, fresh.span_id),
                trace: Some(trace),
                ..context
            };
            resolution_warnings(context) + injection_warnings(context.extra, trace, fresh.span_id)
                + match incoming {
                Some(_) => tracestate_warnings(injected),
                None => Seq::empty(),
            }
        },
    }
}

/// Whether handling a request takes a generated request ID.
pub open spec fn needs_request_id(context: ContextModel) -> bool {
    context.trace is None && known_id(context) is None
}

/// Whether handling a request takes a generated trace-id.
pub open spec fn needs_trace_id(context: ContextModel) -> bool {
    context.trace is None && inbound_trace(context.inbound) is None
}

/// Whether handling a request takes a generated parent-id.
pub open spec fn needs_span_id(context: ContextModel) -> bool {
    context.trace is None || no_traceparent(context.extra)
}

/// Whether the identifiers that handling a request takes are what the
/// generators gave.
pub open spec fn drawn<G: FnOnce() -> String, T: FnOnce() -> TraceId, P: FnOnce() -> SpanId>(
    context: ContextModel,
    new_request_id: G,
    new_trace_id: T,
    new_span_id: P,
    fresh: FreshModel,
) -> bool {
    &&& id_drawn(new_request_id, needs_request_id(context), fresh.request_id)
    &&& trace_drawn(new_trace_id, needs_trace_id(context), fresh.trace_id)
    &&& span_drawn(new_span_id, needs_span_id(context), fresh.span_id)
}

impl TraceContextFilter {
    /// Create a trace context filter from its configuration, which has no
    /// fields.
    ///
    /// # Errors
    ///
    /// [`FilterError::UnknownField`] with the first key of a mapping that has
    /// any, and [`FilterError::NotAMapping`] for anything but a mapping or
    /// nothing.
    pub fn from_config(config: &ConfigValue) -> (res: Result<TraceContextFilter, FilterError>)
        ensures
            match config {
                ConfigValue::Null => res == Ok::<TraceContextFilter, FilterError>(
                    TraceContextFilter,
                ),
                ConfigValue::Mapping(keys) => if keys@.len() == 0 {
                    res == Ok::<TraceContextFilter, FilterError>(TraceContextFilter)
                } else {
                    res matches Err(FilterError::UnknownField(key)) && key@ == keys@[0]@
                },
                ConfigValue::Other => res matches Err(FilterError::NotAMapping),
            },
    {
        match config {
            ConfigValue::Null => Ok(TraceContextFilter),
            ConfigValue::Mapping(keys) => {
                if keys.len() == 0 {
                    Ok(TraceContextFilter)
                } else {
                    Err(FilterError::UnknownField(keys[0].clone()))
                }
            },
            ConfigValue::Other => Err(FilterError::NotAMapping),
        }
    }

    /// The name of the filter.
    pub fn name(&self) -> (res: &'static str)
        ensures
            res@ == "trace_context"@,
    {
        "trace_context"
    }

    /// Handle a request: initialize the trace context, or reuse it, and have
    /// the correlation headers set on the forwarded hop. Identifiers are
    /// generated only where they are needed.
    pub fn on_request<
        G: FnOnce() -> String,
        T: FnOnce() -> TraceId,
        P: FnOnce() -> SpanId,
    >(
        &self,
        ctx: &mut HttpFilterContext<'_>,
        new_request_id: G,
        new_trace_id: T,
        new_span_id: P,
        warnings: &mut Vec<Warning>,
    ) -> (res: Result<FilterAction, FilterError>)
        requires
            needs_request_id(old(ctx)@) ==> call_requires(new_request_id, ()),
            needs_trace_id(old(ctx)@) ==> call_requires(new_trace_id, ()),
            needs_span_id(old(ctx)@) ==> call_requires(new_span_id, ()),
        ensures
            res == Ok::<FilterAction, FilterError>(FilterAction::Continue),
            final(ctx).request == old(ctx).request,
            exists|fresh: FreshModel| #[trigger]
                drawn(old(ctx)@, new_request_id, new_trace_id, new_span_id, fresh) && final(ctx)@
                    == handled(old(ctx)@, fresh) && warnings_model(final(warnings)@)
                    == warnings_model(old(warnings)@) + handling_warnings(old(ctx)@, fresh),
    {
        proof {
            header_names();
            some_ids();
        }
        let ghost some_trace = Seq::new(32, |i: int| 'a');
        if ctx.trace_context.is_some() {
            let _reused = reuse_existing_trace_context(ctx, new_span_id, warnings);
            proof {
                let trace = old(ctx)@.trace.unwrap();
                let span_id = choose|span_id: Seq<char>| #[trigger]
                    span_drawn(
                        new_span_id,
                        no_traceparent(old(ctx)@.extra),
                        span_id,
                    ) && ctx@ == (ContextModel {
                        extra: correlated(old(ctx)@.extra, trace, span_id),
                        ..old(ctx)@
                    }) && warnings_model(warnings@) == warnings_model(old(warnings)@)
                        + reuse_warnings(old(ctx)@.extra, trace, span_id);
                let fresh = FreshModel { request_id: Seq::empty(), trace_id: some_trace, span_id };
                assert(drawn(old(ctx)@, new_request_id, new_trace_id, new_span_id, fresh));
            }
            return Ok(FilterAction::Continue);
        }
        let incoming = match get_text(&ctx.request.headers, TRACEPARENT_HEADER) {
            Some(value) => parse_traceparent(value.as_str()),
            None => None,
        };
        let tc = initialize_trace_context(
            ctx,
            incoming.as_ref(),
            new_request_id,
            new_trace_id,
            warnings,
        );
        let span_id = new_span_id();
        inject_correlation_headers(ctx, &tc, &span_id, warnings);
        let ghost trace = tc@;
        ctx.trace_context = Some(tc);
        if incoming.is_some() {
            forward_tracestate(ctx, warnings);
        } else {
            strip_tracestate(ctx);
        }
        proof {
            let fresh = FreshModel {
                request_id: trace.request_id,
                trace_id: if incoming is None {
                    trace.trace_id
                } else {
                    some_trace
                },
                span_id: span_id@,
            };
            assert(trace == initial_trace(old(ctx)@, inbound_trace(old(ctx)@.inbound), fresh));
            assert(drawn(old(ctx)@, new_request_id, new_trace_id, new_span_id, fresh));
            assert(warnings_model(warnings@) =~= warnings_model(old(warnings)@)
                + handling_warnings(old(ctx)@, fresh));
        }
        Ok(FilterAction::Continue)
    }
}

// -----------------------------------------------------------------------------
// Laws
// -----------------------------------------------------------------------------

/// Whether the identifiers are valid, as generated ones are.
pub open spec fn is_fresh(fresh: FreshModel) -> bool {
    trace_context::is_trace_id(fresh.trace_id) && trace_context::is_span_id(fresh.span_id)
}

proof fn values_named_push(
    extra: Seq<(Seq<char>, Seq<char>)>,
    entry: (Seq<char>, Seq<char>),
    name: Seq<char>,
)
    ensures
        values_named(extra.push(entry), name) == if text::same_ignoring_case(entry.0, name) {
            values_named(extra, name).push(entry.1)
        } else {
            values_named(extra, name)
        },
{
    assert(extra.push(entry).drop_last() =~= extra);
}

/// What ensuring a header leaves pending under a name: under its own, the
/// value given where none was pending; under another, what was pending.
proof fn values_of_ensured(
    extra: Seq<(Seq<char>, Seq<char>)>,
    name: Seq<char>,
    value: Seq<char>,
    other: Seq<char>,
)
    ensures
        values_named(ensured(extra, name, value), name) == if values_named(extra, name).len() == 0 {
            seq![value]
        } else {
            values_named(extra, name)
        },
        !text::same_ignoring_case(name, other) ==> values_named(
            ensured(extra, name, value),
            other,
        ) == values_named(extra, other),
{
    values_named_push(extra, (name, value), name);
    values_named_push(extra, (name, value), other);
    if values_named(extra, name).len() == 0 {
        assert(text::same_ignoring_case(name, name));
        assert(values_named(extra, name).push(value) =~= seq![value]);
    }
}

/// What the correlation headers of a hop leave pending under each of the three
/// names.
proof fn values_of_correlated(
    extra: Seq<(Seq<char>, Seq<char>)>,
    trace: TraceModel,
    span_id: Seq<char>,
)
    ensures
        values_named(correlated(extra, trace, span_id), REQUEST_ID_HEADER@) == if values_named(
            extra,
            REQUEST_ID_HEADER@,
        ).len() == 0 {
            seq![trace.request_id]
        } else {
            values_named(extra, REQUEST_ID_HEADER@)
        },
        values_named(correlated(extra, trace, span_id), TRACEPARENT_HEADER@) == if values_named(
            extra,
            TRACEPARENT_HEADER@,
        ).len() == 0 {
            seq![trace_context::hop_traceparent(trace, span_id)]
        } else {
            values_named(extra, TRACEPARENT_HEADER@)
        },
        values_named(correlated(extra, trace, span_id), TRACESTATE_HEADER@) == values_named(
            extra,
            TRACESTATE_HEADER@,
        ),
{
    header_names();
    let with_id = ensured(extra, REQUEST_ID_HEADER@, trace.request_id);
    let traceparent = trace_context::hop_traceparent(trace, span_id);
    values_of_ensured(extra, REQUEST_ID_HEADER@, trace.request_id, TRACEPARENT_HEADER@);
    values_of_ensured(extra, REQUEST_ID_HEADER@, trace.request_id, TRACESTATE_HEADER@);
    values_of_ensured(with_id, TRACEPARENT_HEADER@, traceparent, REQUEST_ID_HEADER@);
    values_of_ensured(with_id, TRACEPARENT_HEADER@, traceparent, TRACESTATE_HEADER@);
}

/// The correlation headers pending after a request was handled, under each of
/// the three names.
proof fn values_of_handled(context: ContextModel, fresh: FreshModel)
    ensures
        handled(context, fresh).trace is Some,
        ({
            let trace = handled(context, fresh).trace.unwrap();
            let extra = handled(context, fresh).extra;
            let hop = correlated(context.extra, trace, fresh.span_id);
            &&& values_named(extra, REQUEST_ID_HEADER@) == values_named(hop, REQUEST_ID_HEADER@)
            &&& values_named(extra, TRACEPARENT_HEADER@) == values_named(hop, TRACEPARENT_HEADER@)
        }),
{
    header_names();
    let trace = handled(context, fresh).trace.unwrap();
    let hop = correlated(context.extra, trace, fresh.span_id);
    values_of_correlated(context.extra, trace, fresh.span_id);
    let joined = comma_joined(
        readable(http_headers::values_of(context.inbound, TRACESTATE_HEADER@)),
    );
    values_of_ensured(hop, TRACESTATE_HEADER@, joined, REQUEST_ID_HEADER@);
    values_of_ensured(hop, TRACESTATE_HEADER@, joined, TRACEPARENT_HEADER@);
}

/// Handling a request again, with whatever fresh identifiers, changes nothing.
pub proof fn handling_is_idempotent(context: ContextModel, first: FreshModel, second: FreshModel)
    ensures
        handled(handled(context, first), second) == handled(context, first),
{
    header_names();
    let once = handled(context, first);
    values_of_handled(context, first);
    let trace = once.trace.unwrap();
    values_of_correlated(context.extra, trace, first.span_id);
    assert(values_named(once.extra, REQUEST_ID_HEADER@).len() > 0);
    assert(values_named(once.extra, TRACEPARENT_HEADER@).len() > 0);
    assert(handled(once, second).extra == once.extra);
}

/// A correlation header that is pending is neither replaced nor duplicated,
/// and one that is not is added once: with the request ID of the trace
/// context, or as a `traceparent` of its trace.
pub proof fn correlation_headers_are_not_duplicated(context: ContextModel, fresh: FreshModel)
    ensures
        handled(context, fresh).trace is Some,
        ({
            let trace = handled(context, fresh).trace.unwrap();
            let extra = handled(context, fresh).extra;
            &&& values_named(extra, REQUEST_ID_HEADER@) == if values_named(
                context.extra,
                REQUEST_ID_HEADER@,
            ).len() == 0 {
                seq![trace.request_id]
            } else {
                values_named(context.extra, REQUEST_ID_HEADER@)
            }
            &&& values_named(extra, TRACEPARENT_HEADER@) == if values_named(
                context.extra,
                TRACEPARENT_HEADER@,
            ).len() == 0 {
                seq![trace_context::hop_traceparent(trace, fresh.span_id)]
            } else {
                values_named(context.extra, TRACEPARENT_HEADER@)
            }
        }),
{
    values_of_handled(context, fresh);
    values_of_correlated(
        context.extra,
        handled(context, fresh).trace.unwrap(),
        fresh.span_id,
    );
}

/// When a request is first handled, the request ID of its trace context is the
/// first `x-request-id` of the forwarded hop: a pending one over the inbound
/// one, and that over a generated one.
pub proof fn request_id_precedence(context: ContextModel, fresh: FreshModel)
    requires
        context.trace is None,
    ensures
        ({
            let trace = handled(context, fresh).trace.unwrap();
            &&& values_named(handled(context, fresh).extra, REQUEST_ID_HEADER@)[0]
                == trace.request_id
            &&& trace.request_id == match pending_id(context.extra) {
                Some(pending) => pending,
                None => match http_headers::first_text(context.inbound, REQUEST_ID_HEADER@) {
                    Some(inbound) => inbound,
                    None => fresh.request_id,
                },
            }
        }),
{
    correlation_headers_are_not_duplicated(context, fresh);
}

/// A request with a valid inbound `traceparent` joins its trace, with all bits
/// of the flags but the sampled bit cleared; any other starts a new sampled
/// trace. Where no `traceparent` is pending, the one of the forwarded hop is
/// valid, says so, and has the fresh parent-id.
pub proof fn trace_is_joined_or_started(context: ContextModel, fresh: FreshModel)
    requires
        context.trace is None,
        is_fresh(fresh),
    ensures
        ({
            let trace = handled(context, fresh).trace.unwrap();
            let expected = match inbound_trace(context.inbound) {
                Some(inbound) => inbound,
                None => InboundModel {
                    trace_id: fresh.trace_id,
                    flags: trace_context::flags_text(true),
                },
            };
            let forwarded = values_named(handled(context, fresh).extra, TRACEPARENT_HEADER@);
            &&& trace_context::is_trace(trace)
            &&& trace.trace_id == expected.trace_id
            &&& trace.flags == expected.flags
            &&& values_named(context.extra, TRACEPARENT_HEADER@).len() == 0 ==> {
                &&& forwarded.len() == 1
                &&& trace_context::parsed_traceparent(forwarded[0]) == Some(expected)
                &&& forwarded[0].subrange(36, 52) == fresh.span_id
            }
        }),
{
    correlation_headers_are_not_duplicated(context, fresh);
    let trace = handled(context, fresh).trace.unwrap();
    trace_context::traceparent_round_trip(trace, fresh.span_id);
}

/// When a request is first handled, `tracestate` is forwarded exactly where
/// the inbound `traceparent` is valid and there is a readable inbound
/// `tracestate`, as one header of all its values; and without a valid
/// `traceparent` the inbound `tracestate` is removed.
pub proof fn tracestate_needs_a_valid_traceparent(context: ContextModel, fresh: FreshModel)
    requires
        context.trace is None,
        values_named(context.extra, TRACESTATE_HEADER@).len() == 0,
    ensures
        ({
            let values = readable(http_headers::values_of(context.inbound, TRACESTATE_HEADER@));
            let after = handled(context, fresh);
            &&& values_named(after.extra, TRACESTATE_HEADER@) == if inbound_trace(
                context.inbound,
            ) is Some && values.len() > 0 {
                seq![comma_joined(values)]
            } else {
                Seq::empty()
            }
            &&& inbound_trace(context.inbound) is None ==> after.removed.last()
                == TRACESTATE_HEADER@
        }),
{
    header_names();
    let trace = handled(context, fresh).trace.unwrap();
    values_of_correlated(context.extra, trace, fresh.span_id);
    let values = readable(http_headers::values_of(context.inbound, TRACESTATE_HEADER@));
    values_of_ensured(
        correlated(context.extra, trace, fresh.span_id),
        TRACESTATE_HEADER@,
        comma_joined(values),
        TRACESTATE_HEADER@,
    );
    assert(values_named(handled(context, fresh).extra, TRACESTATE_HEADER@) =~= if inbound_trace(
        context.inbound,
    ) is Some && values.len() > 0 {
        seq![comma_joined(values)]
    } else {
        Seq::empty()
    });
}

/// Inbound copies of the correlation headers are removed when a request is
/// first handled; headers that are pending, and headers to remove, stay.
pub proof fn untrusted_copies_are_removed(context: ContextModel, fresh: FreshModel)
    ensures
        context.trace is None ==> handled(context, fresh).removed.contains(TRACEPARENT_HEADER@)
            && handled(context, fresh).removed.contains(REQUEST_ID_HEADER@),
        context.extra.is_prefix_of(handled(context, fresh).extra),
        context.removed.is_prefix_of(handled(context, fresh).removed),
        context.trace is Some ==> handled(context, fresh).trace == context.trace,
        handled(context, fresh).inbound == context.inbound,
{
    let after = handled(context, fresh);
    let n = context.removed.len() as int;
    if context.trace is None {
        assert(after.removed[n] == TRACEPARENT_HEADER@);
        assert(after.removed[n + 1] == REQUEST_ID_HEADER@);
    }
    assert(context.removed =~= after.removed.subrange(0, n));
    assert(context.extra =~= after.extra.subrange(0, context.extra.len() as int));
}

/// The three headers are `x-request-id`, `traceparent` and `tracestate`.
pub proof fn correlation_headers_have_their_names()
    ensures
        REQUEST_ID_HEADER@ == "x-request-id"@,
        TRACEPARENT_HEADER@ == "traceparent"@,
        TRACESTATE_HEADER@ == "tracestate"@,
{
}

/// Lists of pending headers and of names stand for their texts, in order.
pub proof fn lists_stand_for_their_texts(
    extra: Seq<(Cow<'static, str>, String)>,
    names: Seq<FieldName>,
)
    ensures
        extra_model(extra).len() == extra.len(),
        forall|i: int|
            0 <= i < extra.len() ==> #[trigger] extra_model(extra)[i] == (
                extra[i].0@,
                extra[i].1@,
            ),
        names_model(names).len() == names.len(),
        forall|i: int| 0 <= i < names.len() ==> #[trigger] names_model(names)[i] == names[i]@,
{
}

/// The values pending under a name are those of the pending headers with that
/// name, in any case, all of them and in order.
pub proof fn pending_values_are_those_under_the_name(
    extra: Seq<(Seq<char>, Seq<char>)>,
    name: Seq<char>,
)
    ensures
        values_named(extra, name) == extra.filter(
            |entry: (Seq<char>, Seq<char>)| text::same_ignoring_case(entry.0, name),
        ).map_values(|entry: (Seq<char>, Seq<char>)| entry.1),
    decreases extra.len(),
{
    reveal(Seq::filter);
    let pred = |entry: (Seq<char>, Seq<char>)| text::same_ignoring_case(entry.0, name);
    let value = |entry: (Seq<char>, Seq<char>)| entry.1;
    if extra.len() > 0 {
        pending_values_are_those_under_the_name(extra.drop_last(), name);
        assert(extra.filter(pred).map_values(value) =~= values_named(extra, name));
    } else {
        assert(extra.filter(pred).map_values(value) =~= Seq::empty());
    }
}

/// A value is warned of exactly where it is not the expected one, or not a
/// `traceparent` of the expected trace, and every such value is, in order.
pub proof fn each_competing_value_is_warned_of(
    header: Seq<char>,
    values: Seq<Seq<char>>,
    expected: Seq<char>,
)
    ensures
        competing_header_warnings(header, values, expected) == values.filter(
            |value: Seq<char>| value != expected,
        ).map_values(
            |value: Seq<char>|
                (WarningModel::CompetingHeader { header, existing: value, expected }),
        ),
        competing_id_warnings(values, expected) == values.filter(
            |value: Seq<char>| value != expected,
        ).map_values(
            |value: Seq<char>| (WarningModel::CompetingRequestId { existing: value, expected }),
        ),
        competing_traceparent_warnings(values, expected) == values.filter(
            |value: Seq<char>| !is_of_trace(value, expected),
        ).map_values(
            |value: Seq<char>|
                (WarningModel::CompetingTraceparent {
                    existing: value,
                    expected_trace_id: expected,
                }),
        ),
    decreases values.len(),
{
    reveal(Seq::filter);
    let differs = |value: Seq<char>| value != expected;
    let foreign = |value: Seq<char>| !is_of_trace(value, expected);
    let of_header = |value: Seq<char>|
        (WarningModel::CompetingHeader { header, existing: value, expected });
    let of_id = |value: Seq<char>| (WarningModel::CompetingRequestId { existing: value, expected });
    let of_trace = |value: Seq<char>|
        (WarningModel::CompetingTraceparent { existing: value, expected_trace_id: expected });
    if values.len() > 0 {
        each_competing_value_is_warned_of(header, values.drop_last(), expected);
    }
    assert(competing_header_warnings(header, values, expected) =~= values.filter(
        differs,
    ).map_values(of_header));
    assert(competing_id_warnings(values, expected) =~= values.filter(differs).map_values(of_id));
    assert(competing_traceparent_warnings(values, expected) =~= values.filter(foreign).map_values(
        of_trace,
    ));
}

/// A value is a `traceparent` of a trace exactly where it is a valid one with
/// that trace-id in it.
pub proof fn traceparents_name_their_trace(value: Seq<char>, trace_id: Seq<char>)
    ensures
        is_of_trace(value, trace_id) <==> trace_context::parsed_traceparent(value) is Some
            && value.subrange(3, 35) == trace_id,
{
    if trace_context::parsed_traceparent(value) is Some {
        trace_context::only_traceparents_are_read(value);
    }
}

/// The first pending `x-request-id` is used, whatever is pending before and
/// behind it under other names and the same; only where values differ is there a
/// warning, and it names the one that is used.
pub proof fn first_pending_id_is_used(
    before: Seq<(Seq<char>, Seq<char>)>,
    entry: (Seq<char>, Seq<char>),
    behind: Seq<(Seq<char>, Seq<char>)>,
)
    requires
        forall|i: int|
            0 <= i < before.len() ==> !text::same_ignoring_case(
                (#[trigger] before[i]).0,
                "x-request-id"@,
            ),
    ensures
        pending_id(before) is None,
        pending_id_warnings(before) == Seq::<WarningModel>::empty(),
        text::same_ignoring_case(entry.0, "x-request-id"@) ==> {
            let extra = before.push(entry) + behind;
            &&& pending_id(extra) == Some(entry.1)
            &&& pending_id_warnings(extra) == if exists|i: int|
                0 <= i < behind.len() && text::same_ignoring_case(
                    (#[trigger] behind[i]).0,
                    "x-request-id"@,
                ) && behind[i].1 != entry.1 {
                seq![WarningModel::DistinctPendingIds { first: entry.1 }]
            } else {
                Seq::empty()
            }
        },
{
    let name = "x-request-id"@;
    none_are_named(before, name);
    if text::same_ignoring_case(entry.0, name) {
        let extra = before.push(entry) + behind;
        values_named_push(before, entry, name);
        values_named_add(before.push(entry), behind, name);
        let values = values_named(extra, name);
        let tail = values_named(behind, name);
        assert(values =~= seq![entry.1] + tail);
        values_come_from_entries(behind, name);
        if exists|i: int|
            0 <= i < behind.len() && text::same_ignoring_case((#[trigger] behind[i]).0, name)
                && behind[i].1 != entry.1 {
            let i = choose|i: int|
                0 <= i < behind.len() && text::same_ignoring_case((#[trigger] behind[i]).0, name)
                    && behind[i].1 != entry.1;
            assert(tail.contains(behind[i].1));
            let k = tail.index_of(behind[i].1);
            assert(values[k + 1] != values[0]);
        } else if exists|i: int| 0 < i < values.len() && #[trigger] values[i] != values[0] {
            let i = choose|i: int| 0 < i < values.len() && #[trigger] values[i] != values[0];
            assert(tail[i - 1] == values[i]);
            assert(tail.contains(tail[i - 1]));
        }
    }
}

proof fn none_are_named(extra: Seq<(Seq<char>, Seq<char>)>, name: Seq<char>)
    requires
        forall|i: int|
            0 <= i < extra.len() ==> !text::same_ignoring_case((#[trigger] extra[i]).0, name),
    ensures
        values_named(extra, name) == Seq::<Seq<char>>::empty(),
    decreases extra.len(),
{
    if extra.len() > 0 {
        assert(!text::same_ignoring_case(extra[extra.len() - 1].0, name));
        assert forall|i: int| 0 <= i < extra.drop_last().len() implies !text::same_ignoring_case(
            (#[trigger] extra.drop_last()[i]).0,
            name,
        ) by {
            assert(extra[i] == extra.drop_last()[i]);
        }
        none_are_named(extra.drop_last(), name);
    }
}

proof fn values_named_add(
    a: Seq<(Seq<char>, Seq<char>)>,
    b: Seq<(Seq<char>, Seq<char>)>,
    name: Seq<char>,
)
    ensures
        values_named(a + b, name) == values_named(a, name) + values_named(b, name),
    decreases b.len(),
{
    if b.len() == 0 {
        assert(a + b =~= a);
        assert(values_named(a, name) + values_named(b, name) =~= values_named(a, name));
    } else {
        assert((a + b).drop_last() =~= a + b.drop_last());
        values_named_add(a, b.drop_last(), name);
        assert(values_named(a + b, name) =~= values_named(a, name) + values_named(b, name));
    }
}

proof fn values_come_from_entries(extra: Seq<(Seq<char>, Seq<char>)>, name: Seq<char>)
    ensures
        forall|value: Seq<char>|
            values_named(extra, name).contains(value) <==> exists|i: int|
                0 <= i < extra.len() && text::same_ignoring_case((#[trigger] extra[i]).0, name)
                    && extra[i].1 == value,
    decreases extra.len(),
{
    if extra.len() > 0 {
        let head = extra.drop_last();
        values_come_from_entries(head, name);
        let values = values_named(extra, name);
        let before = values_named(head, name);
        assert forall|value: Seq<char>|
            values.contains(value) <==> exists|i: int|
                0 <= i < extra.len() && text::same_ignoring_case((#[trigger] extra[i]).0, name)
                    && extra[i].1 == value by {
            if values.contains(value) {
                let k = values.index_of(value);
                if k < before.len() {
                    assert(before[k] == value);
                    assert(before.contains(value));
                    let i = choose|i: int|
                        0 <= i < head.len() && text::same_ignoring_case(
                            (#[trigger] head[i]).0,
                            name,
                        ) && head[i].1 == value;
                    assert(extra[i] == head[i]);
                } else {
                    assert(extra[extra.len() - 1].1 == value);
                }
            }
            if exists|i: int|
                0 <= i < extra.len() && text::same_ignoring_case((#[trigger] extra[i]).0, name)
                    && extra[i].1 == value {
                let i = choose|i: int|
                    0 <= i < extra.len() && text::same_ignoring_case((#[trigger] extra[i]).0, name)
                        && extra[i].1 == value;
                if i < head.len() {
                    assert(head[i] == extra[i]);
                    assert(before.contains(value));
                    let k = before.index_of(value);
                    assert(values[k] == value);
                } else {
                    assert(values[before.len() as int] == value);
                }
            }
        }
    }
}

/// The request ID is the pending one, else the inbound one, else a generated
/// one, which is needed only then. A pending one that the inbound one differs
/// from is warned of.
pub proof fn request_ids_are_resolved_in_order(context: ContextModel, generated: Seq<char>)
    ensures
        pending_id(context.extra) is Some ==> {
            &&& known_id(context) == pending_id(context.extra)
            &&& resolved_id(context, generated) == pending_id(context.extra).unwrap()
        },
        pending_id(context.extra) is None ==> {
            let inbound = http_headers::first_text(context.inbound, "x-request-id"@);
            &&& known_id(context) == inbound
            &&& inbound is Some ==> resolved_id(context, generated) == inbound.unwrap()
            &&& inbound is None ==> resolved_id(context, generated) == generated
            &&& resolution_warnings(context) == pending_id_warnings(context.extra)
        },
        pending_id(context.extra) matches Some(pending) ==> {
            let inbound = http_headers::first_text(context.inbound, "x-request-id"@);
            &&& inbound is None || inbound == Some(pending) ==> resolution_warnings(context)
                == pending_id_warnings(context.extra)
            &&& inbound is Some && inbound != Some(pending) ==> resolution_warnings(context)
                == pending_id_warnings(context.extra).push(
                WarningModel::PendingOverInbound { pending, inbound: inbound.unwrap() },
            )
        },
{
}

/// A header is made pending behind the others exactly where none with its name,
/// in any case, is pending.
pub proof fn only_missing_headers_are_ensured(
    extra: Seq<(Seq<char>, Seq<char>)>,
    name: Seq<char>,
    value: Seq<char>,
)
    ensures
        ensured(extra, name, value) == if exists|i: int|
            0 <= i < extra.len() && text::same_ignoring_case((#[trigger] extra[i]).0, name) {
            extra
        } else {
            extra.push((name, value))
        },
        no_traceparent(extra) <==> forall|i: int|
            0 <= i < extra.len() ==> !text::same_ignoring_case(
                (#[trigger] extra[i]).0,
                "traceparent"@,
            ),
{
    values_come_from_entries(extra, name);
    values_come_from_entries(extra, "traceparent"@);
    if exists|i: int|
        0 <= i < extra.len() && text::same_ignoring_case((#[trigger] extra[i]).0, name) {
        let i = choose|i: int|
            0 <= i < extra.len() && text::same_ignoring_case((#[trigger] extra[i]).0, name);
        assert(values_named(extra, name).contains(extra[i].1));
    } else if values_named(extra, name).len() > 0 {
        assert(values_named(extra, name).contains(values_named(extra, name)[0]));
    }
    if !no_traceparent(extra) {
        let values = values_named(extra, "traceparent"@);
        assert(values.contains(values[0]));
    } else {
        assert forall|i: int| 0 <= i < extra.len() implies !text::same_ignoring_case(
            (#[trigger] extra[i]).0,
            "traceparent"@,
        ) by {
            if text::same_ignoring_case(extra[i].0, "traceparent"@) {
                assert(values_named(extra, "traceparent"@).contains(extra[i].1));
            }
        }
    }
}

/// Every readable value is kept, in order, and no other.
pub proof fn readable_values_are_kept(values: Seq<http_headers::ValueModel>)
    ensures
        readable(values) == values.filter(
            |value: http_headers::ValueModel| http_headers::visible_text(value.0) is Some,
        ).map_values(
            |value: http_headers::ValueModel| http_headers::visible_text(value.0).unwrap(),
        ),
    decreases values.len(),
{
    reveal(Seq::filter);
    let pred = |value: http_headers::ValueModel| http_headers::visible_text(value.0) is Some;
    let text = |value: http_headers::ValueModel| http_headers::visible_text(value.0).unwrap();
    if values.len() > 0 {
        readable_values_are_kept(values.drop_last());
    }
    assert(readable(values) =~= values.filter(pred).map_values(text));
}

/// Values are joined by a comma and a space between each two, and by nothing
/// else.
pub proof fn values_are_joined_by_commas(value: Seq<char>, a: Seq<Seq<char>>, b: Seq<Seq<char>>)
    ensures
        comma_joined(Seq::empty()) == Seq::<char>::empty(),
        comma_joined(seq![value]) == value,
        a.len() > 0 && b.len() > 0 ==> comma_joined(a + b) == comma_joined(a) + seq![',', ' ']
            + comma_joined(b),
    decreases b.len(),
{
    reveal_strlit(", ");
    assert(", "@ =~= seq![',', ' ']);
    if a.len() > 0 && b.len() > 0 {
        let all = a + b;
        assert(all.drop_last() =~= a + b.drop_last());
        assert(all.last() == b.last());
        if b.len() == 1 {
            assert(all.drop_last() =~= a);
            assert(comma_joined(b) == b[0]);
        } else {
            values_are_joined_by_commas(value, a, b.drop_last());
            assert(comma_joined(all) =~= comma_joined(a) + seq![',', ' '] + comma_joined(b));
        }
    }
}

/// The inbound trace is what the first inbound `traceparent` says.
pub proof fn inbound_traces_are_read(fields: http_headers::Fields)
    ensures
        !fields.dom().contains("traceparent"@) ==> inbound_trace(fields) is None,
        fields.dom().contains("traceparent"@) ==> match http_headers::visible_text(
            fields["traceparent"@][0].0,
        ) {
            Some(value) => inbound_trace(fields) == trace_context::parsed_traceparent(value),
            None => inbound_trace(fields) is None,
        },
{
}

/// A request with a valid inbound `traceparent` joins its trace, whatever the
/// identifiers are: its trace-id and the sampled bit of its flags are those of
/// the trace context and, where none was pending, of the forwarded hop; and the
/// inbound `tracestate` goes with it.
pub proof fn every_inbound_trace_is_joined(
    context: ContextModel,
    fresh: FreshModel,
    version: u8,
    trace: Seq<u8>,
    span: Seq<u8>,
    flags: u8,
    more: Seq<char>,
)
    requires
        context.trace is None,
        version != 255,
        trace.len() == 16 && exists|k: int| 0 <= k < trace.len() && #[trigger] trace[k] != 0,
        span.len() == 8 && exists|k: int| 0 <= k < span.len() && #[trigger] span[k] != 0,
        more.len() == 0 || version != 0 && more[0] == '-',
        context.inbound.dom().contains("traceparent"@),
        http_headers::visible_text(context.inbound["traceparent"@][0].0) == Some(
            trace_context::hex_text(seq![version]) + seq!['-'] + trace_context::hex_text(trace)
                + seq!['-'] + trace_context::hex_text(span) + seq!['-'] + trace_context::hex_text(
                seq![flags],
            ) + more,
        ),
        no_traceparent(context.extra),
    ensures
        ({
            let after = handled(context, fresh);
            let values = readable(http_headers::values_of(context.inbound, "tracestate"@));
            let sampled = if flags % 2 == 1 {
                seq!['0', '1']
            } else {
                seq!['0', '0']
            };
            &&& !needs_trace_id(context)
            &&& after.trace matches Some(joined) && joined.trace_id == trace_context::hex_text(
                trace,
            ) && joined.flags == sampled
            &&& values_named(after.extra, "traceparent"@) == seq![
                "00-"@ + trace_context::hex_text(trace) + "-"@ + fresh.span_id + "-"@ + sampled,
            ]
            &&& values.len() > 0 && values_named(context.extra, "tracestate"@).len() == 0
                ==> values_named(after.extra, "tracestate"@) == seq![comma_joined(values)]
        }),
{
    trace_context::every_traceparent_is_read(version, trace, span, flags, more);
    correlation_headers_are_not_duplicated(context, fresh);
    trace_context::hops_are_written_in_order(
        handled(context, fresh).trace.unwrap(),
        fresh.span_id,
    );
    if values_named(context.extra, "tracestate"@).len() == 0 {
        tracestate_needs_a_valid_traceparent(context, fresh);
    }
}

/// What handling a request removes: on first sight `traceparent` and
/// `x-request-id`, and `tracestate` unless it is left as it is, because the
/// trace is joined and no value of it can be read; later nothing.
pub proof fn removals_are_these(context: ContextModel, fresh: FreshModel)
    ensures
        context.trace is Some ==> handled(context, fresh).removed == context.removed,
        context.trace is None ==> handled(context, fresh).removed == context.removed + if
            inbound_trace(context.inbound) is Some && readable(
            http_headers::values_of(context.inbound, "tracestate"@),
        ).len() == 0 {
            seq!["traceparent"@, "x-request-id"@]
        } else {
            seq!["traceparent"@, "x-request-id"@, "tracestate"@]
        },
{
    let after = handled(context, fresh);
    if context.trace is None {
        if inbound_trace(context.inbound) is Some && readable(
            http_headers::values_of(context.inbound, "tracestate"@),
        ).len() == 0 {
            assert(after.removed =~= context.removed + seq!["traceparent"@, "x-request-id"@]);
        } else {
            assert(after.removed =~= context.removed + seq![
                "traceparent"@,
                "x-request-id"@,
                "tracestate"@,
            ]);
        }
    }
}

/// Handling a request makes nothing pending under any other name, and nothing
/// under `tracestate` once there is a trace context.
pub proof fn nothing_else_is_made_pending(
    context: ContextModel,
    fresh: FreshModel,
    other: Seq<char>,
)
    requires
        !text::same_ignoring_case("x-request-id"@, other),
        !text::same_ignoring_case("traceparent"@, other),
        !text::same_ignoring_case("tracestate"@, other) || context.trace is Some,
    ensures
        values_named(handled(context, fresh).extra, other) == values_named(context.extra, other),
{
    let trace = handled(context, fresh).trace.unwrap();
    let with_id = ensured(context.extra, REQUEST_ID_HEADER@, trace.request_id);
    let hop = correlated(context.extra, trace, fresh.span_id);
    values_of_ensured(context.extra, REQUEST_ID_HEADER@, trace.request_id, other);
    values_of_ensured(
        with_id,
        TRACEPARENT_HEADER@,
        trace_context::hop_traceparent(trace, fresh.span_id),
        other,
    );
    values_of_ensured(
        hop,
        TRACESTATE_HEADER@,
        comma_joined(readable(http_headers::values_of(context.inbound, TRACESTATE_HEADER@))),
        other,
    );
}

/// What is warned of: on first sight what the resolution of the request ID is
/// warned of, then each pending value that is not that of the trace context;
/// later each pending request ID that is not, and each pending `traceparent` of
/// another trace. A pending `tracestate` counts only where one is forwarded.
pub proof fn conflicts_are_warned_of(context: ContextModel, fresh: FreshModel)
    ensures
        ({
            let trace = handled(context, fresh).trace.unwrap();
            let ids = values_named(context.extra, "x-request-id"@);
            let traceparents = values_named(context.extra, "traceparent"@);
            let states = values_named(context.extra, "tracestate"@);
            let inbound = readable(http_headers::values_of(context.inbound, "tracestate"@));
            let of_ids = competing_header_warnings("x-request-id"@, ids, trace.request_id);
            &&& context.trace is Some ==> handling_warnings(context, fresh) == of_ids
                + competing_traceparent_warnings(traceparents, trace.trace_id)
                + competing_id_warnings(ids, trace.request_id)
            &&& context.trace is None ==> handling_warnings(context, fresh) == resolution_warnings(
                context,
            ) + of_ids + competing_header_warnings(
                "traceparent"@,
                traceparents,
                trace_context::hop_traceparent(trace, fresh.span_id),
            ) + competing_id_warnings(ids, trace.request_id) + if inbound_trace(context.inbound)
                is Some && inbound.len() > 0 {
                competing_header_warnings("tracestate"@, states, comma_joined(inbound))
            } else {
                Seq::empty()
            }
        }),
{
    header_names();
    let trace = handled(context, fresh).trace.unwrap();
    let ids = values_named(context.extra, REQUEST_ID_HEADER@);
    values_of_correlated(context.extra, trace, fresh.span_id);
    values_of_ensured(
        context.extra,
        REQUEST_ID_HEADER@,
        trace.request_id,
        TRACEPARENT_HEADER@,
    );
    if ids.len() == 0 {
        assert(seq![trace.request_id].drop_last() =~= Seq::empty());
        assert(competing_id_warnings(Seq::empty(), trace.request_id) =~= Seq::empty());
        assert(competing_id_warnings(seq![trace.request_id], trace.request_id) =~= Seq::empty());
        assert(competing_id_warnings(ids, trace.request_id) =~= Seq::empty());
    }
    let traceparents = values_named(context.extra, TRACEPARENT_HEADER@);
    let of_ids = competing_header_warnings(REQUEST_ID_HEADER@, ids, trace.request_id);
    if context.trace is Some {
        assert(handling_warnings(context, fresh) =~= of_ids + competing_traceparent_warnings(
            traceparents,
            trace.trace_id,
        ) + competing_id_warnings(ids, trace.request_id));
    } else {
        let inbound = readable(http_headers::values_of(context.inbound, TRACESTATE_HEADER@));
        let last = if inbound_trace(context.inbound) is Some && inbound.len() > 0 {
            competing_header_warnings(
                TRACESTATE_HEADER@,
                values_named(context.extra, TRACESTATE_HEADER@),
                comma_joined(inbound),
            )
        } else {
            Seq::empty()
        };
        assert(handling_warnings(context, fresh) =~= resolution_warnings(context) + of_ids
            + competing_header_warnings(
            TRACEPARENT_HEADER@,
            traceparents,
            trace_context::hop_traceparent(trace, fresh.span_id),
        ) + competing_id_warnings(ids, trace.request_id) + last);
    }
}

/// Identifiers are needed only where nothing stands for them: a request ID where
/// none is pending or inbound, a trace-id where no trace is joined, both on first
/// sight alone; and later a parent-id only where no `traceparent` is pending.
pub proof fn identifiers_are_needed_only_then(context: ContextModel)
    ensures
        needs_request_id(context) <==> context.trace is None && (forall|i: int|
            0 <= i < context.extra.len() ==> !text::same_ignoring_case(
                (#[trigger] context.extra[i]).0,
                "x-request-id"@,
            )) && http_headers::first_text(context.inbound, "x-request-id"@) is None,
        needs_trace_id(context) <==> context.trace is None && inbound_trace(context.inbound)
            is None,
        needs_span_id(context) <==> context.trace is None || forall|i: int|
            0 <= i < context.extra.len() ==> !text::same_ignoring_case(
                (#[trigger] context.extra[i]).0,
                "traceparent"@,
            ),
{
    let name = "x-request-id"@;
    only_missing_headers_are_ensured(context.extra, name, Seq::empty());
    values_come_from_entries(context.extra, name);
    let values = values_named(context.extra, name);
    if values.len() > 0 {
        assert(values.contains(values[0]));
    } else {
        assert forall|i: int| 0 <= i < context.extra.len() implies !text::same_ignoring_case(
            (#[trigger] context.extra[i]).0,
            name,
        ) by {
            if text::same_ignoring_case(context.extra[i].0, name) {
                assert(values.contains(context.extra[i].1));
            }
        }
    }
}

/// Where an identifier is needed, the one that is used is what its generator
/// gave.
pub proof fn generated_identifiers_are_used<
    G: FnOnce() -> String,
    T: FnOnce() -> TraceId,
    P: FnOnce() -> SpanId,
>(
    context: ContextModel,
    new_request_id: G,
    new_trace_id: T,
    new_span_id: P,
    fresh: FreshModel,
)
    requires
        drawn(context, new_request_id, new_trace_id, new_span_id, fresh),
    ensures
        needs_request_id(context) ==> exists|id: String| #[trigger]
            call_ensures(new_request_id, (), id) && id@ == fresh.request_id,
        needs_trace_id(context) ==> exists|id: TraceId| #[trigger]
            call_ensures(new_trace_id, (), id) && id@ == fresh.trace_id,
        needs_span_id(context) ==> exists|id: SpanId| #[trigger]
            call_ensures(new_span_id, (), id) && id@ == fresh.span_id,
        is_fresh(fresh),
{
}

/// A pending `tracestate` is neither replaced nor duplicated.
pub proof fn pending_tracestate_stays(context: ContextModel, fresh: FreshModel)
    requires
        values_named(context.extra, "tracestate"@).len() > 0,
    ensures
        values_named(handled(context, fresh).extra, "tracestate"@) == values_named(
            context.extra,
            "tracestate"@,
        ),
{
    header_names();
    let trace = handled(context, fresh).trace.unwrap();
    values_of_correlated(context.extra, trace, fresh.span_id);
    values_of_ensured(
        correlated(context.extra, trace, fresh.span_id),
        TRACESTATE_HEADER@,
        comma_joined(readable(http_headers::values_of(context.inbound, TRACESTATE_HEADER@))),
        TRACESTATE_HEADER@,
    );
}

/// A warning stands for its kind and the texts that it names, and a list of
/// warnings for each of them, in order.
pub proof fn warnings_stand_for_their_texts(
    warnings: Seq<Warning>,
    a: String,
    b: String,
    c: String,
)
    ensures
        (Warning::DistinctPendingIds { first: a })@ == (WarningModel::DistinctPendingIds {
            first: a@,
        }),
        (Warning::PendingOverInbound { pending: a, inbound: b })@ == (
        WarningModel::PendingOverInbound { pending: a@, inbound: b@ }),
        (Warning::CompetingHeader { header: a, existing: b, expected: c })@ == (
        WarningModel::CompetingHeader { header: a@, existing: b@, expected: c@ }),
        (Warning::CompetingTraceparent { existing: a, expected_trace_id: b })@ == (
        WarningModel::CompetingTraceparent { existing: a@, expected_trace_id: b@ }),
        (Warning::CompetingRequestId { existing: a, expected: b })@ == (
        WarningModel::CompetingRequestId { existing: a@, expected: b@ }),
        warnings_model(warnings).len() == warnings.len(),
        forall|i: int|
            0 <= i < warnings.len() ==> #[trigger] warnings_model(warnings)[i] == warnings[i]@,
{
}

/// A context stands for its inbound headers, all its pending headers and
/// removals, and its trace context.
pub proof fn contexts_stand_for_their_content(ctx: HttpFilterContext<'_>)
    ensures
        ctx@.inbound == http_headers::header_fields(ctx.request.headers),
        ctx@.extra == extra_model(ctx.extra_request_headers@),
        ctx@.removed == names_model(ctx.request_headers_to_remove@),
        ctx@.trace is Some <==> ctx.trace_context is Some,
        ctx.trace_context matches Some(trace) ==> ctx@.trace == Some(trace@),
{
}

} // verus!
