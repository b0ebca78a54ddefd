//! W3C Trace Context values: the `traceparent` header and the request-scoped
//! trace context.

use vstd::prelude::*;
use vstd::string::*;

use crate::text;

verus! {

/// The request correlation header.
pub const REQUEST_ID_HEADER: &'static str = "x-request-id";

/// The W3C `traceparent` header.
pub const TRACEPARENT_HEADER: &'static str = "traceparent";

// -----------------------------------------------------------------------------
// Identifiers
// -----------------------------------------------------------------------------

/// Whether `c` is a lower-case hexadecimal digit.
pub open spec fn is_hex(c: char) -> bool {
    '0' <= c <= '9' || 'a' <= c <= 'f'
}

/// Whether `id` is made of `len` lower-case hexadecimal digits, not all zero.
pub open spec fn is_hex_id(id: Seq<char>, len: nat) -> bool {
    &&& id.len() == len
    &&& forall|i: int| 0 <= i < id.len() ==> is_hex(#[trigger] id[i])
    &&& exists|i: int| 0 <= i < id.len() && #[trigger] id[i] != '0'
}

/// Whether `id` is a trace-id: 16 bytes in hexadecimal, not all zero.
pub open spec fn is_trace_id(id: Seq<char>) -> bool {
    is_hex_id(id, 32)
}

/// Whether `id` is a parent-id: 8 bytes in hexadecimal, not all zero.
pub open spec fn is_span_id(id: Seq<char>) -> bool {
    is_hex_id(id, 16)
}

/// The trace-flags with all bits but the sampled bit cleared.
pub open spec fn flags_text(sampled: bool) -> Seq<char> {
    if sampled {
        seq!['0', '1']
    } else {
        seq!['0', '0']
    }
}

/// Whether the hexadecimal digit `c` is odd.
pub open spec fn is_odd_hex(c: char) -> bool {
    if '0' <= c <= '9' {
        (c as u32) % 2 == 1
    } else {
        (c as u32) % 2 == 0
    }
}

// -----------------------------------------------------------------------------
// traceparent
// -----------------------------------------------------------------------------

/// A version 00 `traceparent`.
pub open spec fn traceparent_text(
    trace_id: Seq<char>,
    span_id: Seq<char>,
    flags: Seq<char>,
) -> Seq<char> {
    seq!['0', '0', '-'] + trace_id + seq!['-'] + span_id + seq!['-'] + flags
}

/// What a valid `traceparent` says: the trace-id and the masked trace-flags.
pub struct InboundModel {
    /// The trace-id.
    pub trace_id: Seq<char>,
    /// The trace-flags, all bits but the sampled bit cleared.
    pub flags: Seq<char>,
}

/// Whether `value` is a `traceparent`: version, trace-id, parent-id and
/// trace-flags, in hexadecimal and joined by dashes. Version `ff` is invalid;
/// a version above `00` may have more behind another dash.
pub open spec fn is_traceparent(value: Seq<char>) -> bool {
    &&& value.len() >= 55
    &&& is_hex(value[0]) && is_hex(value[1]) && !(value[0] == 'f' && value[1] == 'f')
    &&& value[2] == '-'
    &&& is_trace_id(value.subrange(3, 35))
    &&& value[35] == '-'
    &&& is_span_id(value.subrange(36, 52))
    &&& value[52] == '-'
    &&& is_hex(value[53]) && is_hex(value[54])
    &&& value.len() == 55 || (!(value[0] == '0' && value[1] == '0') && value[55] == '-')
}

/// What `value` says as a `traceparent`, where it is one.
pub open spec fn parsed_traceparent(value: Seq<char>) -> Option<InboundModel> {
    if is_traceparent(value) {
        Some(
            InboundModel {
                trace_id: value.subrange(3, 35),
                flags: flags_text(is_odd_hex(value[54])),
            },
        )
    } else {
        None
    }
}

/// What a valid inbound `traceparent` says.
#[derive(Debug)]
pub struct InboundTrace {
    /// The trace-id.
    pub trace_id: String,
    /// The trace-flags, all bits but the sampled bit cleared.
    pub flags: String,
}

impl View for InboundTrace {
    type V = InboundModel;

    open spec fn view(&self) -> InboundModel {
        InboundModel { trace_id: self.trace_id@, flags: self.flags@ }
    }
}

impl InboundTrace {
    /// Whether the trace-id is valid and the flags are masked.
    pub open spec fn well_formed(self) -> bool {
        &&& is_trace_id(self.trace_id@)
        &&& self.flags@ == flags_text(true) || self.flags@ == flags_text(false)
    }
}

/// Whether `c` is a lower-case hexadecimal digit.
fn is_hex_digit(c: char) -> (res: bool)
    ensures
        res == is_hex(c),
{
    ('0' <= c && c <= '9') || ('a' <= c && c <= 'f')
}

/// Whether `chars[start..end]` are lower-case hexadecimal digits, not all zero.
fn is_id_range(chars: &Vec<char>, start: usize, end: usize) -> (res: bool)
    requires
        start <= end <= chars@.len(),
    ensures
        res == is_hex_id(chars@.subrange(start as int, end as int), (end - start) as nat),
{
    let ghost id = chars@.subrange(start as int, end as int);
    let mut i: usize = start;
    let mut nonzero: bool = false;
    while i < end
        invariant
            start <= i <= end <= chars@.len(),
            id == chars@.subrange(start as int, end as int),
            forall|k: int| 0 <= k < i - start ==> is_hex(#[trigger] id[k]),
            nonzero <==> exists|k: int| 0 <= k < i - start && #[trigger] id[k] != '0',
        decreases end - i,
    {
        assert(id[i - start] == chars@[i as int]);
        if !is_hex_digit(chars[i]) {
            return false;
        }
        if chars[i] != '0' {
            nonzero = true;
        }
        i = i + 1;
    }
    nonzero
}

/// The flags as text.
fn flags_str(sampled: bool) -> (res: &'static str)
    ensures
        res@ == flags_text(sampled),
{
    proof {
        reveal_strlit("01");
        reveal_strlit("00");
    }
    let res = if sampled {
        "01"
    } else {
        "00"
    };
    assert(res@ =~= flags_text(sampled));
    res
}

/// Parse a `traceparent` header value.
pub fn parse_traceparent(value: &str) -> (res: Option<InboundTrace>)
    ensures
        match parsed_traceparent(value@) {
            Some(model) => res matches Some(trace) && trace@ == model && trace.well_formed(),
            None => res is None,
        },
{
    let chars = text::to_chars(value);
    if chars.len() < 55 {
        return None;
    }
    let version_ok = is_hex_digit(chars[0]) && is_hex_digit(chars[1]) && !(chars[0] == 'f'
        && chars[1] == 'f');
    let dashes_ok = chars[2] == '-' && chars[35] == '-' && chars[52] == '-';
    let flags_ok = is_hex_digit(chars[53]) && is_hex_digit(chars[54]);
    let end_ok = chars.len() == 55 || (!(chars[0] == '0' && chars[1] == '0') && chars[55] == '-');
    if !(version_ok && dashes_ok && flags_ok && end_ok) {
        return None;
    }
    if !(is_id_range(&chars, 3, 35) && is_id_range(&chars, 36, 52)) {
        return None;
    }
    let last = chars[54];
    let sampled: bool = if '0' <= last && last <= '9' {
        last as u32 % 2 == 1
    } else {
        last as u32 % 2 == 0
    };
    Some(
        InboundTrace {
            trace_id: value.substring_char(3, 35).to_owned(),
            flags: flags_str(sampled).to_owned(),
        },
    )
}

// -----------------------------------------------------------------------------
// Fresh identifiers
// -----------------------------------------------------------------------------

/// The identifiers that one handling of a request may need.
pub struct FreshModel {
    /// A request ID.
    pub request_id: Seq<char>,
    /// A trace-id.
    pub trace_id: Seq<char>,
    /// A parent-id for one hop.
    pub span_id: Seq<char>,
}

/// A valid trace-id.
#[derive(Debug)]
pub struct TraceId {
    text: String,
}

impl View for TraceId {
    type V = Seq<char>;

    closed spec fn view(&self) -> Seq<char> {
        self.text@
    }
}

impl TraceId {
    #[verifier::type_invariant]
    spec fn well_formed(self) -> bool {
        is_trace_id(self.text@)
    }

    /// The trace-id with this text, where it is one.
    pub fn new(text: String) -> (res: Option<TraceId>)
        ensures
            if is_trace_id(text@) {
                res matches Some(id) && id@ == text@
            } else {
                res is None
            },
    {
        let chars = text::to_chars(text.as_str());
        assert(chars@.subrange(0, chars@.len() as int) =~= text@);
        if chars.len() == 32 && is_id_range(&chars, 0, 32) {
            Some(TraceId { text })
        } else {
            None
        }
    }

    /// The text of the trace-id.
    pub fn as_str(&self) -> (res: &str)
        ensures
            res@ == self@,
            is_trace_id(self@),
    {
        proof {
            use_type_invariant(self);
        }
        self.text.as_str()
    }
}

/// A valid parent-id.
#[derive(Debug)]
pub struct SpanId {
    text: String,
}

impl View for SpanId {
    type V = Seq<char>;

    closed spec fn view(&self) -> Seq<char> {
        self.text@
    }
}

impl SpanId {
    #[verifier::type_invariant]
    spec fn well_formed(self) -> bool {
        is_span_id(self.text@)
    }

    /// The parent-id with this text, where it is one.
    pub fn new(text: String) -> (res: Option<SpanId>)
        ensures
            if is_span_id(text@) {
                res matches Some(id) && id@ == text@
            } else {
                res is None
            },
    {
        let chars = text::to_chars(text.as_str());
        assert(chars@.subrange(0, chars@.len() as int) =~= text@);
        if chars.len() == 16 && is_id_range(&chars, 0, 16) {
            Some(SpanId { text })
        } else {
            None
        }
    }

    /// The text of the parent-id.
    pub fn as_str(&self) -> (res: &str)
        ensures
            res@ == self@,
            is_span_id(self@),
    {
        proof {
            use_type_invariant(self);
        }
        self.text.as_str()
    }
}

// -----------------------------------------------------------------------------
// TraceContext
// -----------------------------------------------------------------------------

/// The request-scoped correlation data.
pub struct TraceModel {
    /// The request ID.
    pub request_id: Seq<char>,
    /// The trace-id.
    pub trace_id: Seq<char>,
    /// The trace-flags.
    pub flags: Seq<char>,
}

/// The `traceparent` of a hop of the trace with the parent-id `span_id`.
pub open spec fn hop_traceparent(trace: TraceModel, span_id: Seq<char>) -> Seq<char> {
    traceparent_text(trace.trace_id, span_id, trace.flags)
}

/// Whether the trace-id is valid and the flags are masked.
pub open spec fn is_trace(trace: TraceModel) -> bool {
    &&& is_trace_id(trace.trace_id)
    &&& trace.flags == flags_text(true) || trace.flags == flags_text(false)
}

/// The trace context of a request.
#[derive(Debug)]
pub struct TraceContext {
    request_id: String,
    trace_id: String,
    flags: String,
}

impl View for TraceContext {
    type V = TraceModel;

    closed spec fn view(&self) -> TraceModel {
        TraceModel {
            request_id: self.request_id@,
            trace_id: self.trace_id@,
            flags: self.flags@,
        }
    }
}

impl TraceContext {
    #[verifier::type_invariant]
    spec fn well_formed(self) -> bool {
        is_trace(self@)
    }

    /// The context that joins an inbound trace.
    pub fn from_inbound(request_id: String, trace: &InboundTrace) -> (res: TraceContext)
        requires
            trace.well_formed(),
        ensures
            res@ == (TraceModel {
                request_id: request_id@,
                trace_id: trace@.trace_id,
                flags: trace@.flags,
            }),
            is_trace(res@),
    {
        TraceContext { request_id, trace_id: trace.trace_id.clone(), flags: trace.flags.clone() }
    }

    /// The context of a new trace, which is sampled.
    pub fn new_sampled(request_id: String, trace_id: &TraceId) -> (res: TraceContext)
        ensures
            res@ == (TraceModel {
                request_id: request_id@,
                trace_id: trace_id@,
                flags: flags_text(true),
            }),
            is_trace(res@),
    {
        TraceContext {
            request_id,
            trace_id: trace_id.as_str().to_owned(),
            flags: flags_str(true).to_owned(),
        }
    }

    /// The request ID.
    pub fn request_id(&self) -> (res: &str)
        ensures
            res@ == self@.request_id,
    {
        self.request_id.as_str()
    }

    /// The trace-id.
    pub fn trace_id(&self) -> (res: &str)
        ensures
            res@ == self@.trace_id,
            is_trace_id(res@),
    {
        proof {
            use_type_invariant(self);
        }
        self.trace_id.as_str()
    }

    /// The trace-flags.
    pub fn flags(&self) -> (res: &str)
        ensures
            res@ == self@.flags,
    {
        self.flags.as_str()
    }

    /// The correlation headers of one outbound hop: `x-request-id`, and a
    /// `traceparent` with the parent-id `span_id`.
    pub fn headers_for_hop(&self, span_id: &SpanId) -> (res: (
        (&'static str, String),
        (&'static str, String),
    ))
        ensures
            res.0.0@ == REQUEST_ID_HEADER@,
            res.0.1@ == self@.request_id,
            res.1.0@ == TRACEPARENT_HEADER@,
            res.1.1@ == hop_traceparent(self@, span_id@),
            is_span_id(span_id@),
    {
        proof {
            reveal_strlit("00-");
            reveal_strlit("-");
        }
        let mut traceparent = "00-".to_owned();
        traceparent.append(self.trace_id.as_str());
        traceparent.append("-");
        traceparent.append(span_id.as_str());
        traceparent.append("-");
        traceparent.append(self.flags.as_str());
        assert("00-"@ =~= seq!['0', '0', '-']);
        assert("-"@ =~= seq!['-']);
        (
            (REQUEST_ID_HEADER, self.request_id.clone()),
            (TRACEPARENT_HEADER, traceparent),
        )
    }
}

impl Clone for TraceContext {
    fn clone(&self) -> (res: TraceContext)
        ensures
            res@ == self@,
            is_trace(res@),
    {
        proof {
            use_type_invariant(self);
        }
        TraceContext {
            request_id: self.request_id.clone(),
            trace_id: self.trace_id.clone(),
            flags: self.flags.clone(),
        }
    }
}

// -----------------------------------------------------------------------------
// Laws
// -----------------------------------------------------------------------------

/// A generated `traceparent` is valid, and says what it was made from.
pub proof fn traceparent_round_trip(trace: TraceModel, span_id: Seq<char>)
    requires
        is_trace(trace),
        is_span_id(span_id),
    ensures
        parsed_traceparent(hop_traceparent(trace, span_id)) == Some(
            InboundModel { trace_id: trace.trace_id, flags: trace.flags },
        ),
        hop_traceparent(trace, span_id).subrange(36, 52) == span_id,
{
    let value = hop_traceparent(trace, span_id);
    assert(value.len() == 55);
    assert(value.subrange(3, 35) =~= trace.trace_id);
    assert(value.subrange(36, 52) =~= span_id);
    assert(value[53] == trace.flags[0] && value[54] == trace.flags[1]);
}

/// Hops with different parent-ids have different `traceparent` headers of the
/// same trace.
pub proof fn hops_differ_in_span_only(trace: TraceModel, first: Seq<char>, second: Seq<char>)
    requires
        is_trace(trace),
        is_span_id(first),
        is_span_id(second),
        first != second,
    ensures
        hop_traceparent(trace, first) != hop_traceparent(trace, second),
        parsed_traceparent(hop_traceparent(trace, first)) == parsed_traceparent(
            hop_traceparent(trace, second),
        ),
{
    traceparent_round_trip(trace, first);
    traceparent_round_trip(trace, second);
}

/// There are sixteen hexadecimal digits, and every second one of them is odd.
pub proof fn hex_digits_are_sixteen(c: char)
    ensures
        is_hex(c) <==> "0123456789abcdef"@.contains(c),
        is_hex(c) ==> (is_odd_hex(c) <==> "13579bdf"@.contains(c)),
{
    reveal_strlit("0123456789abcdef");
    reveal_strlit("13579bdf");
    let digits = "0123456789abcdef"@;
    let odd = "13579bdf"@;
    assert(digits[0] == '0' && digits[1] == '1' && digits[2] == '2' && digits[3] == '3');
    assert(digits[4] == '4' && digits[5] == '5' && digits[6] == '6' && digits[7] == '7');
    assert(digits[8] == '8' && digits[9] == '9' && digits[10] == 'a' && digits[11] == 'b');
    assert(digits[12] == 'c' && digits[13] == 'd' && digits[14] == 'e' && digits[15] == 'f');
    assert(odd[0] == '1' && odd[1] == '3' && odd[2] == '5' && odd[3] == '7');
    assert(odd[4] == '9' && odd[5] == 'b' && odd[6] == 'd' && odd[7] == 'f');
}

/// A trace-id is any 32 of the sixteen digits, and a parent-id any 16 of them,
/// but for zeros alone.
pub proof fn identifiers_are_digits(id: Seq<char>)
    ensures
        is_trace_id(id) <==> {
            &&& id.len() == 32
            &&& forall|i: int|
                0 <= i < id.len() ==> "0123456789abcdef"@.contains(#[trigger] id[i])
            &&& id != Seq::new(32, |i: int| '0')
        },
        is_span_id(id) <==> {
            &&& id.len() == 16
            &&& forall|i: int|
                0 <= i < id.len() ==> "0123456789abcdef"@.contains(#[trigger] id[i])
            &&& id != Seq::new(16, |i: int| '0')
        },
{
    assert forall|c: char| #[trigger] is_hex(c) == "0123456789abcdef"@.contains(c) by {
        hex_digits_are_sixteen(c);
    }
    if forall|i: int| 0 <= i < id.len() ==> "0123456789abcdef"@.contains(#[trigger] id[i]) {
        assert forall|i: int| 0 <= i < id.len() implies is_hex(#[trigger] id[i]) by {}
    }
    if forall|i: int| 0 <= i < id.len() ==> #[trigger] id[i] == '0' {
        assert(id =~= Seq::new(id.len(), |i: int| '0'));
    }
    if exists|i: int| 0 <= i < id.len() && #[trigger] id[i] != '0' {
        let i = choose|i: int| 0 <= i < id.len() && #[trigger] id[i] != '0';
        assert(Seq::new(id.len(), |i: int| '0')[i] == '0');
    }
}

/// Bytes in hexadecimal: two digits for each, the upper half first.
pub open spec fn hex_text(bytes: Seq<u8>) -> Seq<char> {
    Seq::new(
        2 * bytes.len(),
        |i: int|
            "0123456789abcdef"@[if i % 2 == 0 {
                bytes[i / 2] as int / 16
            } else {
                bytes[i / 2] as int % 16
            }],
    )
}

proof fn hex_text_is_hex(bytes: Seq<u8>)
    ensures
        hex_text(bytes).len() == 2 * bytes.len(),
        forall|i: int| 0 <= i < hex_text(bytes).len() ==> is_hex(#[trigger] hex_text(bytes)[i]),
        (exists|k: int| 0 <= k < bytes.len() && #[trigger] bytes[k] != 0) <==> exists|i: int|
            0 <= i < hex_text(bytes).len() && #[trigger] hex_text(bytes)[i] != '0',
{
    reveal_strlit("0123456789abcdef");
    let digits = "0123456789abcdef"@;
    assert(digits[0] == '0' && digits[1] == '1' && digits[2] == '2' && digits[3] == '3');
    assert(digits[4] == '4' && digits[5] == '5' && digits[6] == '6' && digits[7] == '7');
    assert(digits[8] == '8' && digits[9] == '9' && digits[10] == 'a' && digits[11] == 'b');
    assert(digits[12] == 'c' && digits[13] == 'd' && digits[14] == 'e' && digits[15] == 'f');
    let text = hex_text(bytes);
    assert forall|d: int| 0 <= d < 16 implies is_hex(#[trigger] digits[d]) && (digits[d] == '0'
        <==> d == 0) by {}
    if exists|k: int| 0 <= k < bytes.len() && #[trigger] bytes[k] != 0 {
        let k = choose|k: int| 0 <= k < bytes.len() && #[trigger] bytes[k] != 0;
        assert(text[2 * k] == digits[bytes[k] as int / 16]);
        assert(text[2 * k + 1] == digits[bytes[k] as int % 16]);
    }
    if exists|i: int| 0 <= i < text.len() && #[trigger] text[i] != '0' {
        let i = choose|i: int| 0 <= i < text.len() && #[trigger] text[i] != '0';
        assert(bytes[i / 2] != 0);
    }
}

/// Sixteen bytes are a trace-id in hexadecimal, and eight a parent-id, unless
/// all of them are zero; other numbers of bytes are neither.
pub proof fn bytes_are_identifiers(bytes: Seq<u8>)
    ensures
        is_trace_id(hex_text(bytes)) <==> bytes.len() == 16 && exists|k: int|
            0 <= k < bytes.len() && #[trigger] bytes[k] != 0,
        is_span_id(hex_text(bytes)) <==> bytes.len() == 8 && exists|k: int|
            0 <= k < bytes.len() && #[trigger] bytes[k] != 0,
{
    hex_text_is_hex(bytes);
}

/// Every trace is joined: a `traceparent` of any version but the invalid one,
/// any trace-id, any parent-id and any flags, with more behind a dash only above
/// version 0, says its trace-id and whether the lowest bit of its flags is set.
pub proof fn every_traceparent_is_read(
    version: u8,
    trace: Seq<u8>,
    span: Seq<u8>,
    flags: u8,
    more: Seq<char>,
)
    requires
        version != 255,
        trace.len() == 16 && exists|k: int| 0 <= k < trace.len() && #[trigger] trace[k] != 0,
        span.len() == 8 && exists|k: int| 0 <= k < span.len() && #[trigger] span[k] != 0,
        more.len() == 0 || version != 0 && more[0] == '-',
    ensures
        parsed_traceparent(
            hex_text(seq![version]) + seq!['-'] + hex_text(trace) + seq!['-'] + hex_text(span)
                + seq!['-'] + hex_text(seq![flags]) + more,
        ) == Some(
            InboundModel {
                trace_id: hex_text(trace),
                flags: if flags % 2 == 1 {
                    seq!['0', '1']
                } else {
                    seq!['0', '0']
                },
            },
        ),
{
    let head = hex_text(seq![version]);
    let tail = hex_text(seq![flags]);
    let value = head + seq!['-'] + hex_text(trace) + seq!['-'] + hex_text(span) + seq!['-'] + tail
        + more;
    hex_text_is_hex(seq![version]);
    hex_text_is_hex(seq![flags]);
    bytes_are_identifiers(trace);
    bytes_are_identifiers(span);
    reveal_strlit("0123456789abcdef");
    let digits = "0123456789abcdef"@;
    assert(digits[0] == '0' && digits[1] == '1' && digits[2] == '2' && digits[3] == '3');
    assert(digits[4] == '4' && digits[5] == '5' && digits[6] == '6' && digits[7] == '7');
    assert(digits[8] == '8' && digits[9] == '9' && digits[10] == 'a' && digits[11] == 'b');
    assert(digits[12] == 'c' && digits[13] == 'd' && digits[14] == 'e' && digits[15] == 'f');
    assert(head[0] == digits[version as int / 16] && head[1] == digits[version as int % 16]);
    assert(tail[1] == digits[flags as int % 16]);
    assert(value[0] == head[0] && value[1] == head[1]);
    assert(value[53] == tail[0] && value[54] == tail[1]);
    assert(value.subrange(3, 35) =~= hex_text(trace));
    assert(value.subrange(36, 52) =~= hex_text(span));
    assert(value[2] == '-' && value[35] == '-' && value[52] == '-');
    if more.len() > 0 {
        assert(value[55] == more[0]);
    }
    assert(is_odd_hex(tail[1]) == (flags % 2 == 1));
}

/// Nothing else is read: what is read has two digits of a version other than
/// `ff`, 32 of a trace-id, 16 of a parent-id and two of flags, with dashes
/// between them, and nothing behind them in version `00`.
pub proof fn only_traceparents_are_read(value: Seq<char>)
    requires
        parsed_traceparent(value) is Some,
    ensures
        value.len() >= 55,
        value[2] == '-' && value[35] == '-' && value[52] == '-',
        forall|i: int|
            0 <= i < 55 && i != 2 && i != 35 && i != 52 ==> "0123456789abcdef"@.contains(
                #[trigger] value[i],
            ),
        value.take(2) != seq!['f', 'f'],
        value.subrange(3, 35) != Seq::new(32, |i: int| '0'),
        value.subrange(36, 52) != Seq::new(16, |i: int| '0'),
        value.len() > 55 ==> value.take(2) != seq!['0', '0'] && value[55] == '-',
        parsed_traceparent(value).unwrap().trace_id == value.subrange(3, 35),
        parsed_traceparent(value).unwrap().flags == if "13579bdf"@.contains(value[54]) {
            seq!['0', '1']
        } else {
            seq!['0', '0']
        },
{
    identifiers_are_digits(value.subrange(3, 35));
    identifiers_are_digits(value.subrange(36, 52));
    hex_digits_are_sixteen(value[54]);
    assert forall|i: int| 0 <= i < 55 && i != 2 && i != 35 && i != 52 implies "0123456789abcdef"@.contains(
        #[trigger] value[i],
    ) by {
        hex_digits_are_sixteen(value[i]);
        if 3 <= i < 35 {
            assert(value.subrange(3, 35)[i - 3] == value[i]);
        }
        if 36 <= i < 52 {
            assert(value.subrange(36, 52)[i - 36] == value[i]);
        }
    }
    assert(value.take(2)[0] == value[0] && value.take(2)[1] == value[1]);
    assert(seq!['f', 'f'][0] == 'f' && seq!['f', 'f'][1] == 'f');
    if value.take(2) == seq!['0', '0'] {
        assert(value[0] == '0' && value[1] == '0');
    }
}

/// The `traceparent` of a hop is `00`, the trace-id, the parent-id and the
/// flags, with dashes between them.
pub proof fn hops_are_written_in_order(trace: TraceModel, span_id: Seq<char>)
    ensures
        hop_traceparent(trace, span_id) == "00-"@ + trace.trace_id + "-"@ + span_id + "-"@
            + trace.flags,
        flags_text(true) == "01"@,
        flags_text(false) == "00"@,
{
    reveal_strlit("00-");
    reveal_strlit("-");
    reveal_strlit("01");
    reveal_strlit("00");
    assert("00-"@ =~= seq!['0', '0', '-']);
    assert("-"@ =~= seq!['-']);
    assert(flags_text(true) =~= "01"@);
    assert(flags_text(false) =~= "00"@);
}

/// What a `traceparent` was read to say stands for its texts.
pub proof fn inbound_traces_stand_for_their_texts(trace: InboundTrace)
    ensures
        trace@.trace_id == trace.trace_id@,
        trace@.flags == trace.flags@,
        trace.well_formed() <==> is_trace_id(trace.trace_id@) && (trace.flags@ == seq!['0', '0']
            || trace.flags@ == seq!['0', '1']),
{
}

} // verus!
