//! What the forwarded hop carries.
//!
//! Relates what the trace context filter leaves pending to the headers that
//! are forwarded once the pending mutations are applied.

use std::borrow::Cow;

use vstd::prelude::*;
use vstd::utf8;

use crate::header_mutations;
use crate::http_headers;
use crate::http_headers::{FieldName, FieldValue};
use crate::text;
use crate::trace_context;
use crate::trace_context::{FreshModel, REQUEST_ID_HEADER, TRACEPARENT_HEADER};
use crate::trace_context_filter;
use crate::trace_context_filter::{ContextModel, TRACESTATE_HEADER};

verus! {

/// A text whose UTF-8 bytes are all ASCII is made of ASCII characters.
proof fn ascii_bytes_are_ascii_text(chars: Seq<char>)
    requires
        forall|i: int|
            0 <= i < utf8::encode_utf8(chars).len() ==> #[trigger] utf8::encode_utf8(chars)[i]
                < 128,
    ensures
        utf8::is_ascii_chars(chars),
    decreases chars.len(),
{
    if chars.len() > 0 {
        let rest = chars.drop_first();
        let first = chars[0] as u32;
        utf8::char_u32_cast(chars[0], first);
        let head = utf8::encode_scalar(first);
        let bytes = utf8::encode_utf8(chars);
        assert(bytes == head + utf8::encode_utf8(rest));
        assert(bytes[0] == head[0]);
        assert(utf8::has_width_1_encoding(first)) by {
            if !utf8::has_width_1_encoding(first) {
                assert(utf8::leading_byte_width_2(first) >= 128) by (bit_vector);
                assert(utf8::leading_byte_width_3(first) >= 128) by (bit_vector);
                assert(utf8::leading_byte_width_4(first) >= 128) by (bit_vector);
            }
        }
        assert forall|i: int| 0 <= i < utf8::encode_utf8(rest).len() implies
            #[trigger] utf8::encode_utf8(rest)[i] < 128 by {
            assert(bytes[head.len() + i] == utf8::encode_utf8(rest)[i]);
        }
        ascii_bytes_are_ascii_text(rest);
        assert forall|i: int| 0 <= i < chars.len() implies '\0' <= #[trigger] chars[i]
            <= '\u{7f}' by {
            if i > 0 {
                assert(chars[i] == rest[i - 1]);
            } else {
                assert(first as char == chars[0]);
                assert(first <= 0x7f);
            }
        }
    }
}

/// A pending header is promoted to a header named `name` exactly where its
/// name is `name`, but for the case of letters.
proof fn promoted_under_its_name(written: Seq<char>, name: Seq<char>)
    requires
        http_headers::is_plain_name(name),
    ensures
        (http_headers::parsed_name(utf8::encode_utf8(written)) == Some(name))
            == text::same_ignoring_case(written, name),
{
    let bytes = utf8::encode_utf8(written);
    if http_headers::parsed_name(bytes) == Some(name) {
        assert forall|i: int| 0 <= i < bytes.len() implies #[trigger] bytes[i] < 128 by {
            assert(http_headers::is_token_byte(bytes[i]));
        }
        ascii_bytes_are_ascii_text(written);
        utf8::is_ascii_chars_encode_utf8(written);
        assert forall|i: int| 0 <= i < written.len() implies text::ascii_lower(
            #[trigger] written[i],
        ) == text::ascii_lower(name[i]) by {
            assert(name[i] == http_headers::lower_byte(bytes[i]));
            assert(bytes[i] == written[i] as u8);
        }
    }
    if text::same_ignoring_case(written, name) {
        assert forall|i: int| 0 <= i < written.len() implies '\0' <= #[trigger] written[i]
            <= '\u{7f}' by {
            assert(text::ascii_lower(written[i]) == text::ascii_lower(name[i]));
        }
        utf8::is_ascii_chars_encode_utf8(written);
        assert forall|i: int| 0 <= i < bytes.len() implies http_headers::is_token_byte(
            #[trigger] bytes[i],
        ) && http_headers::lower_byte(bytes[i]) == name[i] by {
            assert(bytes[i] == written[i] as u8);
            assert(text::ascii_lower(written[i]) == text::ascii_lower(name[i]));
        }
        assert(Seq::new(bytes.len(), |i: int| http_headers::lower_byte(bytes[i])) =~= name);
    }
}

/// What is forwarded under a name of pending headers: the last of them, where
/// it is a header value, and nothing where there is none.
proof fn last_pending_is_promoted(extra: Seq<(Cow<'static, str>, String)>, name: Seq<char>)
    requires
        http_headers::is_plain_name(name),
    ensures
        ({
            let values = trace_context_filter::values_named(
                trace_context_filter::extra_model(extra),
                name,
            );
            &&& values.len() == 0 ==> header_mutations::last_promoted(extra, name) is None
            &&& values.len() > 0 && http_headers::is_header_value(
                utf8::encode_utf8(values.last()),
            ) ==> header_mutations::last_promoted(extra, name) == Some(
                (utf8::encode_utf8(values.last()), false),
            )
        }),
    decreases extra.len(),
{
    if extra.len() > 0 {
        let model = trace_context_filter::extra_model(extra);
        assert(model.drop_last() =~= trace_context_filter::extra_model(extra.drop_last()));
        assert(model.last() == (extra.last().0@, extra.last().1@));
        promoted_under_its_name(extra.last().0@, name);
        last_pending_is_promoted(extra.drop_last(), name);
    }
}

/// Whether a text is made of visible ASCII characters, spaces and tabs.
spec fn is_visible(chars: Seq<char>) -> bool {
    forall|i: int|
        0 <= i < chars.len() ==> (' ' <= #[trigger] chars[i] <= '~' || chars[i] == '\t')
}

proof fn visible_text_is_header_value(chars: Seq<char>)
    requires
        is_visible(chars),
    ensures
        http_headers::is_header_value(utf8::encode_utf8(chars)),
{
    assert(utf8::is_ascii_chars(chars));
    utf8::is_ascii_chars_encode_utf8(chars);
    let bytes = utf8::encode_utf8(chars);
    assert forall|i: int| 0 <= i < bytes.len() implies http_headers::is_value_byte(
        #[trigger] bytes[i],
    ) by {
        assert(bytes[i] == chars[i] as u8);
    }
}

proof fn joined_values_are_visible(values: Seq<http_headers::ValueModel>)
    ensures
        is_visible(
            trace_context_filter::comma_joined(trace_context_filter::readable(values)),
        ),
        forall|i: int|
            0 <= i < trace_context_filter::readable(values).len() ==> is_visible(
                #[trigger] trace_context_filter::readable(values)[i],
            ),
    decreases values.len(),
{
    if values.len() > 0 {
        let head = trace_context_filter::readable(values.drop_last());
        let all = trace_context_filter::readable(values);
        joined_values_are_visible(values.drop_last());
        if let Some(last) = http_headers::visible_text(values.last().0) {
            assert forall|i: int| 0 <= i < last.len() implies (' ' <= #[trigger] last[i] <= '~'
                || last[i] == '\t') by {
                assert(http_headers::is_visible_byte(values.last().0[i]));
            }
            assert(all.drop_last() =~= head);
            assert(all[head.len() as int] == last);
            reveal_strlit(", ");
        }
    }
}

proof fn plain_names()
    ensures
        http_headers::is_plain_name(REQUEST_ID_HEADER@),
        http_headers::is_plain_name(TRACEPARENT_HEADER@),
        http_headers::is_plain_name(TRACESTATE_HEADER@),
{
    reveal_strlit("x-request-id");
    reveal_strlit("traceparent");
    reveal_strlit("tracestate");
}

/// The value of a forwarded header with this text.
pub open spec fn forwarded_text(text: Seq<char>) -> Seq<http_headers::ValueModel> {
    seq![(utf8::encode_utf8(text), false)]
}

/// Where no correlation header was pending, the forwarded hop has exactly one
/// `x-request-id`, that of the trace context, and exactly one `traceparent`,
/// that of the trace with the fresh parent-id, whatever the client sent.
pub proof fn forwarded_hop_is_correlated(
    context: ContextModel,
    fresh: FreshModel,
    to_remove: Seq<FieldName>,
    to_set: Seq<(FieldName, FieldValue)>,
    extra: Seq<(Cow<'static, str>, String)>,
)
    requires
        context.trace is None,
        trace_context_filter::is_fresh(fresh),
        trace_context_filter::extra_model(extra) == trace_context_filter::handled(
            context,
            fresh,
        ).extra,
        trace_context_filter::values_named(context.extra, REQUEST_ID_HEADER@).len() == 0,
        trace_context_filter::values_named(context.extra, TRACEPARENT_HEADER@).len() == 0,
        http_headers::is_header_value(
            utf8::encode_utf8(
                trace_context_filter::handled(context, fresh).trace.unwrap().request_id,
            ),
        ),
    ensures
        ({
            let trace = trace_context_filter::handled(context, fresh).trace.unwrap();
            let forwarded = header_mutations::after_pending(
                context.inbound,
                to_remove,
                to_set,
                extra,
            );
            &&& http_headers::values_of(forwarded, REQUEST_ID_HEADER@) == forwarded_text(
                trace.request_id,
            )
            &&& http_headers::values_of(forwarded, TRACEPARENT_HEADER@) == forwarded_text(
                trace_context::hop_traceparent(trace, fresh.span_id),
            )
        }),
{
    plain_names();
    trace_context_filter::correlation_headers_are_not_duplicated(context, fresh);
    trace_context_filter::trace_is_joined_or_started(context, fresh);
    let trace = trace_context_filter::handled(context, fresh).trace.unwrap();
    let traceparent = trace_context::hop_traceparent(trace, fresh.span_id);
    assert(is_visible(traceparent));
    visible_text_is_header_value(traceparent);
    last_pending_is_promoted(extra, REQUEST_ID_HEADER@);
    last_pending_is_promoted(extra, TRACEPARENT_HEADER@);
    header_mutations::pending_decides_each_header(
        context.inbound,
        to_remove,
        to_set,
        extra,
        REQUEST_ID_HEADER@,
    );
    header_mutations::pending_decides_each_header(
        context.inbound,
        to_remove,
        to_set,
        extra,
        TRACEPARENT_HEADER@,
    );
}

/// Where no `tracestate` was pending and none is set, the forwarded hop has
/// none without a valid inbound `traceparent`, whatever the client sent; with
/// one, it has all the readable inbound values as one header.
pub proof fn forwarded_tracestate_needs_a_valid_traceparent(
    context: ContextModel,
    fresh: FreshModel,
    to_remove: Seq<FieldName>,
    to_set: Seq<(FieldName, FieldValue)>,
    extra: Seq<(Cow<'static, str>, String)>,
)
    requires
        context.trace is None,
        trace_context_filter::extra_model(extra) == trace_context_filter::handled(
            context,
            fresh,
        ).extra,
        trace_context_filter::names_model(to_remove) == trace_context_filter::handled(
            context,
            fresh,
        ).removed,
        trace_context_filter::values_named(context.extra, TRACESTATE_HEADER@).len() == 0,
        header_mutations::last_set(to_set, TRACESTATE_HEADER@) is None,
    ensures
        ({
            let values = trace_context_filter::readable(
                http_headers::values_of(context.inbound, TRACESTATE_HEADER@),
            );
            let forwarded = http_headers::values_of(
                header_mutations::after_pending(context.inbound, to_remove, to_set, extra),
                TRACESTATE_HEADER@,
            );
            &&& trace_context_filter::inbound_trace(context.inbound) is None ==> forwarded
                == Seq::<http_headers::ValueModel>::empty()
            &&& trace_context_filter::inbound_trace(context.inbound) is Some && values.len() > 0
                ==> forwarded == forwarded_text(trace_context_filter::comma_joined(values))
        }),
{
    plain_names();
    trace_context_filter::tracestate_needs_a_valid_traceparent(context, fresh);
    let inbound = http_headers::values_of(context.inbound, TRACESTATE_HEADER@);
    joined_values_are_visible(inbound);
    visible_text_is_header_value(
        trace_context_filter::comma_joined(trace_context_filter::readable(inbound)),
    );
    last_pending_is_promoted(extra, TRACESTATE_HEADER@);
    header_mutations::pending_decides_each_header(
        context.inbound,
        to_remove,
        to_set,
        extra,
        TRACESTATE_HEADER@,
    );
    if trace_context_filter::inbound_trace(context.inbound) is None {
        let names = trace_context_filter::names_model(to_remove);
        assert(names.last() == TRACESTATE_HEADER@);
        assert(to_remove[to_remove.len() - 1]@ == TRACESTATE_HEADER@);
    }
}

/// A pending header is promoted exactly where its name has 1 to 65535 characters,
/// all of a token, and its value no control characters but tabs; and it is
/// promoted under its name in lower case, with the bytes of its value.
pub proof fn headers_are_promoted_as_written(name: Seq<char>, value: Seq<char>)
    ensures
        header_mutations::promoted(name, value) is Some <==> {
            &&& 1 <= name.len() <= 65_535
            &&& forall|i: int|
                0 <= i < name.len()
                    ==> "!#$%&'*+-.^_`|~0123456789abcdefghijklmnopqrstuvwxyz"@.contains(
                    #[trigger] name[i],
                ) || "ABCDEFGHIJKLMNOPQRSTUVWXYZ"@.contains(name[i])
            &&& forall|i: int|
                0 <= i < value.len() ==> #[trigger] value[i] == '\t' || ' ' <= value[i]
                    && value[i] != '\u{7f}'
        },
        header_mutations::promoted(name, value) matches Some(header) ==> {
            &&& header.0.len() == name.len()
            &&& forall|i: int|
                0 <= i < name.len() ==> #[trigger] header.0[i] == text::ascii_lower(name[i])
            &&& header.1 == (utf8::encode_utf8(value), false)
        },
{
    let token = "!#$%&'*+-.^_`|~0123456789abcdefghijklmnopqrstuvwxyz"@;
    let upper = "ABCDEFGHIJKLMNOPQRSTUVWXYZ"@;
    let bytes = utf8::encode_utf8(name);
    http_headers::values_hold_no_control_characters(value);
    http_headers::names_are_read_in_lower_case(bytes);
    assert forall|b: u8| #[trigger] http_headers::is_token_byte(b) == (token.contains(b as char)
        || upper.contains(b as char)) by {
        http_headers::names_are_tokens('a', b);
    }
    if http_headers::parsed_name(bytes) is Some {
        assert forall|i: int| 0 <= i < bytes.len() implies #[trigger] bytes[i] < 128 by {
            assert(http_headers::is_token_byte(bytes[i]));
        }
        ascii_bytes_are_ascii_text(name);
        utf8::is_ascii_chars_encode_utf8(name);
        assert forall|i: int| 0 <= i < name.len() implies token.contains(#[trigger] name[i])
            || upper.contains(name[i]) by {
            assert(bytes[i] == name[i] as u8);
            assert(bytes[i] as char == name[i]);
        }
        assert forall|i: int| 0 <= i < name.len() implies
            #[trigger] http_headers::parsed_name(bytes).unwrap()[i] == text::ascii_lower(name[i]) by {
            assert(bytes[i] == name[i] as u8);
            assert(bytes[i] as char == name[i]);
        }
    }
    if forall|i: int|
        0 <= i < name.len() ==> token.contains(#[trigger] name[i]) || upper.contains(name[i]) {
        assert forall|i: int| 0 <= i < name.len() implies '\0' <= #[trigger] name[i]
            <= '\u{7f}' by {
            token_characters_are_ascii(name[i]);
        }
        utf8::is_ascii_chars_encode_utf8(name);
        assert forall|i: int| 0 <= i < bytes.len() implies token.contains(
            (#[trigger] bytes[i]) as char,
        ) || upper.contains(bytes[i] as char) by {
            assert(bytes[i] == name[i] as u8);
            assert(bytes[i] as char == name[i]);
        }
    }
}

proof fn token_characters_are_ascii(c: char)
    requires
        "!#$%&'*+-.^_`|~0123456789abcdefghijklmnopqrstuvwxyz"@.contains(c)
            || "ABCDEFGHIJKLMNOPQRSTUVWXYZ"@.contains(c),
    ensures
        '\0' <= c <= '\u{7f}',
{
    reveal_strlit("!#$%&'*+-.^_`|~0123456789abcdefghijklmnopqrstuvwxyz");
    reveal_strlit("ABCDEFGHIJKLMNOPQRSTUVWXYZ");
}

} // verus!
