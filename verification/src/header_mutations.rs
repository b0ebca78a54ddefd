//! Header mutation application for pre-read and request-phase filters.
//!
//! Applies ordered header transformations (remove, set, add) both to the
//! session's request header and to the [`Request`] that filters see, and keeps
//! the two consistent.

use std::borrow::Cow;

use vstd::prelude::*;
use vstd::utf8;

use crate::http_headers;
use crate::http_headers::{
    FieldName, FieldValue, Fields, ValueModel, map_append, map_insert, map_remove,
};
use crate::request::Request;
use crate::session_header;
use crate::session_header::{session_append, session_insert, session_remove};

verus! {

// -----------------------------------------------------------------------------
// Pre-read mutations
// -----------------------------------------------------------------------------

/// One entry of the ordered header mutation log of the pre-read phase.
#[derive(Debug)]
pub enum TrustedHeaderMutation {
    /// Remove every value under a name.
    Remove(FieldName),
    /// Replace the values under a name.
    Put(FieldName, FieldValue),
    /// Add a value after those under a name, where it is a header value.
    Add(FieldName, String),
}

/// The name that a mutation is about.
pub open spec fn mutation_name(mutation: TrustedHeaderMutation) -> Seq<char> {
    match mutation {
        TrustedHeaderMutation::Remove(name) => name@,
        TrustedHeaderMutation::Put(name, _) => name@,
        TrustedHeaderMutation::Add(name, _) => name@,
    }
}

/// The headers after one mutation.
pub open spec fn mutated(fields: Fields, mutation: TrustedHeaderMutation) -> Fields {
    match mutation {
        TrustedHeaderMutation::Remove(name) => http_headers::without(fields, name@),
        TrustedHeaderMutation::Put(name, value) => http_headers::with_only(fields, name@, value@),
        TrustedHeaderMutation::Add(name, text) => if http_headers::is_header_value(
            utf8::encode_utf8(text@),
        ) {
            http_headers::with_also(fields, name@, (utf8::encode_utf8(text@), false))
        } else {
            fields
        },
    }
}

/// The headers after a log of mutations, replayed in order.
pub open spec fn replayed(fields: Fields, log: Seq<TrustedHeaderMutation>) -> Fields
    decreases log.len(),
{
    if log.len() == 0 {
        fields
    } else {
        mutated(replayed(fields, log.drop_last()), log.last())
    }
}

/// The headers of a session after one mutation: the session takes no header
/// under some names.
pub open spec fn session_mutated(fields: Fields, mutation: TrustedHeaderMutation) -> Fields {
    if mutation is Remove || session_header::is_session_name(mutation_name(mutation)) {
        mutated(fields, mutation)
    } else {
        fields
    }
}

/// The headers of a session after a log of mutations, replayed in order.
pub open spec fn session_replayed(fields: Fields, log: Seq<TrustedHeaderMutation>) -> Fields
    decreases log.len(),
{
    if log.len() == 0 {
        fields
    } else {
        session_mutated(session_replayed(fields, log.drop_last()), log.last())
    }
}

/// Whether a session takes every header that a log sets or adds.
pub open spec fn session_takes_all(log: Seq<TrustedHeaderMutation>) -> bool {
    forall|i: int|
        0 <= i < log.len() ==> (#[trigger] log[i] is Remove || session_header::is_session_name(
            mutation_name(log[i]),
        ))
}

/// Whether a mutation sets or adds a header.
pub open spec fn sets_header(mutation: TrustedHeaderMutation) -> bool {
    match mutation {
        TrustedHeaderMutation::Remove(_) => false,
        TrustedHeaderMutation::Put(_, _) => true,
        TrustedHeaderMutation::Add(_, text) => http_headers::is_header_value(
            utf8::encode_utf8(text@),
        ),
    }
}

/// Whether each header that a log sets or adds finds room when its turn comes.
pub open spec fn log_fits(fields: Fields, log: Seq<TrustedHeaderMutation>) -> bool {
    forall|i: int|
        0 <= i < log.len() && sets_header(log[i]) ==> http_headers::has_room(
            replayed(fields, #[trigger] log.take(i)),
        )
}

/// Whether each header that a log sets or adds in a session finds room when its
/// turn comes.
pub open spec fn session_log_fits(fields: Fields, log: Seq<TrustedHeaderMutation>) -> bool {
    forall|i: int|
        0 <= i < log.len() && sets_header(log[i]) && session_header::is_session_name(
            mutation_name(log[i]),
        ) ==> http_headers::has_room(session_replayed(fields, #[trigger] log.take(i)))
}

/// The places of the entries of a log that add what is not a header value, and
/// are skipped.
pub open spec fn skipped_adds(log: Seq<TrustedHeaderMutation>) -> Seq<usize>
    decreases log.len(),
{
    if log.len() == 0 {
        Seq::empty()
    } else {
        let head = skipped_adds(log.drop_last());
        if log.last() is Add && !sets_header(log.last()) {
            head.push((log.len() - 1) as usize)
        } else {
            head
        }
    }
}

/// Apply pre-read mutations to the headers of the [`Request`]. What comes back
/// are the places of the skipped entries.
pub fn apply_pre_read_mutations_to_request(
    request: &mut Request,
    mutations: &[TrustedHeaderMutation],
) -> (res: Vec<usize>)
    requires
        log_fits(http_headers::header_fields(old(request).headers), mutations@),
    ensures
        http_headers::header_fields(final(request).headers) == replayed(
            http_headers::header_fields(old(request).headers),
            mutations@,
        ),
        final(request).method == old(request).method,
        final(request).path == old(request).path,
        res@ == skipped_adds(mutations@),
{
    let ghost before = http_headers::header_fields(request.headers);
    let mut skipped: Vec<usize> = Vec::new();
    let mut i: usize = 0;
    assert(mutations@.take(0) =~= Seq::empty());
    while i < mutations.len()
        invariant
            i <= mutations@.len(),
            request.method == old(request).method,
            request.path == old(request).path,
            http_headers::header_fields(request.headers) == replayed(
                before,
                mutations@.take(i as int),
            ),
            log_fits(before, mutations@),
            skipped@ == skipped_adds(mutations@.take(i as int)),
        decreases mutations@.len() - i,
    {
        proof {
            assert(mutations@.take(i + 1).drop_last() =~= mutations@.take(i as int));
            assert(mutations@.take(i + 1).last() == mutations@[i as int]);
        }
        match &mutations[i] {
            TrustedHeaderMutation::Remove(name) => {
                map_remove(&mut request.headers, name);
            },
            TrustedHeaderMutation::Put(name, value) => {
                map_insert(&mut request.headers, name, value);
            },
            TrustedHeaderMutation::Add(name, text) => {
                match FieldValue::from_str(text.as_str()) {
                    Ok(value) => {
                        map_append(&mut request.headers, name, &value);
                    },
                    Err(_) => {
                        skipped.push(i);
                    },
                }
            },
        }
        i = i + 1;
    }
    assert(mutations@.take(mutations@.len() as int) =~= mutations@);
    skipped
}

/// Apply pre-read mutations to the request header of the session. What comes
/// back are the places of the skipped entries.
pub fn apply_pre_read_mutations_to_session(
    session: &mut pingora_http::RequestHeader,
    mutations: &[TrustedHeaderMutation],
) -> (res: Vec<usize>)
    requires
        session_header::is_in_step(*old(session)),
        session_log_fits(session_header::session_fields(*old(session)), mutations@),
    ensures
        session_header::is_in_step(*final(session)),
        session_header::session_fields(*final(session)) == session_replayed(
            session_header::session_fields(*old(session)),
            mutations@,
        ),
        session_header::session_method(*final(session)) == session_header::session_method(
            *old(session),
        ),
        session_header::session_path(*final(session)) == session_header::session_path(
            *old(session),
        ),
        res@ == skipped_adds(mutations@),
{
    let ghost before = session_header::session_fields(*session);
    let mut skipped: Vec<usize> = Vec::new();
    let mut i: usize = 0;
    assert(mutations@.take(0) =~= Seq::empty());
    while i < mutations.len()
        invariant
            i <= mutations@.len(),
            session_header::is_in_step(*session),
            session_header::session_method(*session) == session_header::session_method(
                *old(session),
            ),
            session_header::session_path(*session) == session_header::session_path(*old(session)),
            session_header::session_fields(*session) == session_replayed(
                before,
                mutations@.take(i as int),
            ),
            session_log_fits(before, mutations@),
            skipped@ == skipped_adds(mutations@.take(i as int)),
        decreases mutations@.len() - i,
    {
        proof {
            assert(mutations@.take(i + 1).drop_last() =~= mutations@.take(i as int));
            assert(mutations@.take(i + 1).last() == mutations@[i as int]);
        }
        match &mutations[i] {
            TrustedHeaderMutation::Remove(name) => {
                session_remove(session, name);
            },
            TrustedHeaderMutation::Put(name, value) => {
                session_insert(session, name, value);
            },
            TrustedHeaderMutation::Add(name, text) => {
                match FieldValue::from_str(text.as_str()) {
                    Ok(value) => {
                        session_append(session, name, &value);
                    },
                    Err(_) => {
                        skipped.push(i);
                    },
                }
            },
        }
        i = i + 1;
    }
    assert(mutations@.take(mutations@.len() as int) =~= mutations@);
    skipped
}

/// Apply pre-read mutations to both the session and the [`Request`].
///
/// Replays the ordered mutation log against both, so that the protocol layer
/// and the filter layer see consistent headers. What comes back are the places
/// of the entries that both skip.
pub fn apply_pre_read_mutations(
    session: &mut pingora_http::RequestHeader,
    request: &mut Request,
    mutations: &[TrustedHeaderMutation],
) -> (res: Vec<usize>)
    requires
        session_header::is_in_step(*old(session)),
        session_log_fits(session_header::session_fields(*old(session)), mutations@),
        log_fits(http_headers::header_fields(old(request).headers), mutations@),
    ensures
        session_header::is_in_step(*final(session)),
        session_header::session_fields(*final(session)) == session_replayed(
            session_header::session_fields(*old(session)),
            mutations@,
        ),
        session_header::session_method(*final(session)) == session_header::session_method(
            *old(session),
        ),
        session_header::session_path(*final(session)) == session_header::session_path(
            *old(session),
        ),
        http_headers::header_fields(final(request).headers) == replayed(
            http_headers::header_fields(old(request).headers),
            mutations@,
        ),
        final(request).method == old(request).method,
        final(request).path == old(request).path,
        session_takes_all(mutations@) && session_header::session_fields(*old(session))
            == http_headers::header_fields(old(request).headers)
            ==> session_header::session_fields(*final(session)) == http_headers::header_fields(
            final(request).headers,
        ),
        res@ == skipped_adds(mutations@),
{
    proof {
        session_sees_what_the_request_does(
            session_header::session_fields(*session),
            mutations@,
        );
    }
    let _skipped = apply_pre_read_mutations_to_session(session, mutations);
    apply_pre_read_mutations_to_request(request, mutations)
}

// -----------------------------------------------------------------------------
// Pending mutations
// -----------------------------------------------------------------------------

/// The headers without those of `names`.
pub open spec fn all_removed(fields: Fields, names: Seq<FieldName>) -> Fields
    decreases names.len(),
{
    if names.len() == 0 {
        fields
    } else {
        http_headers::without(all_removed(fields, names.drop_last()), names.last()@)
    }
}

/// The headers with each pair of `pairs` set in turn.
pub open spec fn all_set(fields: Fields, pairs: Seq<(FieldName, FieldValue)>) -> Fields
    decreases pairs.len(),
{
    if pairs.len() == 0 {
        fields
    } else {
        http_headers::with_only(
            all_set(fields, pairs.drop_last()),
            pairs.last().0@,
            pairs.last().1@,
        )
    }
}

/// The header that a promoted name and value stand for, where both are valid.
pub open spec fn promoted(name: Seq<char>, value: Seq<char>) -> Option<(Seq<char>, ValueModel)> {
    match http_headers::parsed_name(utf8::encode_utf8(name)) {
        Some(parsed) => if http_headers::is_header_value(utf8::encode_utf8(value)) {
            Some((parsed, (utf8::encode_utf8(value), false)))
        } else {
            None
        },
        None => None,
    }
}

/// The headers with each valid promoted header of `extra` set in turn.
pub open spec fn all_promoted(fields: Fields, extra: Seq<(Cow<'static, str>, String)>) -> Fields
    decreases extra.len(),
{
    if extra.len() == 0 {
        fields
    } else {
        let head = all_promoted(fields, extra.drop_last());
        match promoted(extra.last().0@, extra.last().1@) {
            Some((name, value)) => http_headers::with_only(head, name, value),
            None => head,
        }
    }
}

/// The headers after pending mutations: removals, then sets, then promoted
/// headers.
pub open spec fn after_pending(
    fields: Fields,
    to_remove: Seq<FieldName>,
    to_set: Seq<(FieldName, FieldValue)>,
    extra: Seq<(Cow<'static, str>, String)>,
) -> Fields {
    all_promoted(all_set(all_removed(fields, to_remove), to_set), extra)
}

/// Whether each header that is set or promoted finds room when its turn comes.
pub open spec fn pending_fits(
    fields: Fields,
    to_remove: Seq<FieldName>,
    to_set: Seq<(FieldName, FieldValue)>,
    extra: Seq<(Cow<'static, str>, String)>,
) -> bool {
    let cleared = all_removed(fields, to_remove);
    &&& forall|i: int|
        0 <= i < to_set.len() ==> http_headers::has_room(
            all_set(cleared, #[trigger] to_set.take(i)),
        )
    &&& forall|i: int|
        0 <= i < extra.len() && promoted(extra[i].0@, extra[i].1@) is Some
            ==> http_headers::has_room(
            all_promoted(all_set(cleared, to_set), #[trigger] extra.take(i)),
        )
}

/// A promoted header that is skipped, and why.
#[derive(Clone, Copy, Debug, PartialEq, Eq, Structural)]
pub struct SkippedHeader {
    /// Its place among the promoted headers.
    pub index: usize,
    /// Whether its name is not a header name.
    pub invalid_name: bool,
    /// Whether its value is not a header value.
    pub invalid_value: bool,
}

/// The promoted headers of `extra` that are skipped.
pub open spec fn skipped_headers(extra: Seq<(Cow<'static, str>, String)>) -> Seq<SkippedHeader>
    decreases extra.len(),
{
    if extra.len() == 0 {
        Seq::empty()
    } else {
        let head = skipped_headers(extra.drop_last());
        let (name, value) = extra.last();
        if promoted(name@, value@) is None {
            head.push(
                SkippedHeader {
                    index: (extra.len() - 1) as usize,
                    invalid_name: http_headers::parsed_name(utf8::encode_utf8(name@)) is None,
                    invalid_value: !http_headers::is_header_value(utf8::encode_utf8(value@)),
                },
            )
        } else {
            head
        }
    }
}

/// The text of a borrowed or owned string.
pub fn cow_text<'a>(text: &'a Cow<'static, str>) -> (res: &'a str)
    ensures
        res@ == text@,
{
    match text {
        Cow::Borrowed(borrowed) => borrowed,
        Cow::Owned(owned) => owned.as_str(),
    }
}

/// Apply the request pipeline's pending header mutations to a header map.
///
/// Applied in remove, set, add order: a remove clears any prior value, a set
/// establishes a new one, and adds follow. `extra` replaces rather than
/// appends, so that a header which is re-emitted is not duplicated; an entry
/// that is not a valid header is skipped. What comes back are the skipped
/// entries.
pub fn apply_pending_header_mutations(
    headers: &mut http::HeaderMap,
    to_remove: &[FieldName],
    to_set: &[(FieldName, FieldValue)],
    extra: &[(Cow<'static, str>, String)],
) -> (res: Vec<SkippedHeader>)
    requires
        pending_fits(http_headers::header_fields(*old(headers)), to_remove@, to_set@, extra@),
    ensures
        http_headers::header_fields(*final(headers)) == after_pending(
            http_headers::header_fields(*old(headers)),
            to_remove@,
            to_set@,
            extra@,
        ),
        res@ == skipped_headers(extra@),
{
    let ghost before = http_headers::header_fields(*headers);
    let mut i: usize = 0;
    assert(to_remove@.take(0) =~= Seq::empty());
    while i < to_remove.len()
        invariant
            i <= to_remove@.len(),
            http_headers::header_fields(*headers) == all_removed(before, to_remove@.take(i as int)),
        decreases to_remove@.len() - i,
    {
        assert(to_remove@.take(i + 1).drop_last() =~= to_remove@.take(i as int));
        map_remove(headers, &to_remove[i]);
        i = i + 1;
    }
    assert(to_remove@.take(to_remove@.len() as int) =~= to_remove@);
    let ghost cleared = http_headers::header_fields(*headers);
    i = 0;
    assert(to_set@.take(0) =~= Seq::empty());
    while i < to_set.len()
        invariant
            i <= to_set@.len(),
            cleared == all_removed(before, to_remove@),
            http_headers::header_fields(*headers) == all_set(cleared, to_set@.take(i as int)),
            pending_fits(before, to_remove@, to_set@, extra@),
        decreases to_set@.len() - i,
    {
        let (name, value) = &to_set[i];
        assert(to_set@.take(i + 1).drop_last() =~= to_set@.take(i as int));
        map_insert(headers, name, value);
        i = i + 1;
    }
    assert(to_set@.take(to_set@.len() as int) =~= to_set@);
    let ghost set = http_headers::header_fields(*headers);
    let mut skipped: Vec<SkippedHeader> = Vec::new();
    i = 0;
    assert(extra@.take(0) =~= Seq::empty());
    while i < extra.len()
        invariant
            i <= extra@.len(),
            set == all_set(all_removed(before, to_remove@), to_set@),
            http_headers::header_fields(*headers) == all_promoted(set, extra@.take(i as int)),
            pending_fits(before, to_remove@, to_set@, extra@),
            skipped@ == skipped_headers(extra@.take(i as int)),
        decreases extra@.len() - i,
    {
        let (name, value) = &extra[i];
        proof {
            assert(extra@.take(i + 1).drop_last() =~= extra@.take(i as int));
            assert(extra@.take(i + 1).last() == extra@[i as int]);
        }
        match (
            FieldName::from_bytes(cow_text(name).as_bytes()),
            FieldValue::from_str(value.as_str()),
        ) {
            (Ok(header_name), Ok(header_value)) => {
                map_insert(headers, &header_name, &header_value);
            },
            (name_result, value_result) => {
                skipped.push(
                    SkippedHeader {
                        index: i,
                        invalid_name: name_result.is_err(),
                        invalid_value: value_result.is_err(),
                    },
                );
            },
        }
        i = i + 1;
    }
    assert(extra@.take(extra@.len() as int) =~= extra@);
    skipped
}

// -----------------------------------------------------------------------------
// Laws
// -----------------------------------------------------------------------------

/// Where a session takes every header of a log, replaying the log leaves in it
/// what it leaves in a request that had the same headers.
pub proof fn session_sees_what_the_request_does(
    fields: Fields,
    log: Seq<TrustedHeaderMutation>,
)
    ensures
        session_takes_all(log) ==> session_replayed(fields, log) == replayed(fields, log),
    decreases log.len(),
{
    if log.len() > 0 {
        if session_takes_all(log) {
            assert forall|i: int| 0 <= i < log.drop_last().len() implies (
            #[trigger] log.drop_last()[i] is Remove || session_header::is_session_name(
                mutation_name(log.drop_last()[i]),
            )) by {
                assert(log[i] == log.drop_last()[i]);
            }
            assert(log[log.len() - 1] == log.last());
        }
        session_sees_what_the_request_does(fields, log.drop_last());
    }
}

/// Replaying a log in two parts gives what replaying it at once gives.
pub proof fn replay_in_parts(
    fields: Fields,
    first: Seq<TrustedHeaderMutation>,
    second: Seq<TrustedHeaderMutation>,
)
    ensures
        replayed(fields, first + second) == replayed(replayed(fields, first), second),
    decreases second.len(),
{
    if second.len() == 0 {
        assert(first + second =~= first);
    } else {
        assert((first + second).drop_last() =~= first + second.drop_last());
        replay_in_parts(fields, first, second.drop_last());
    }
}

/// A header that no mutation of the log is about stays as it is.
pub proof fn replay_leaves_other_headers(
    fields: Fields,
    log: Seq<TrustedHeaderMutation>,
    name: Seq<char>,
)
    requires
        forall|i: int| 0 <= i < log.len() ==> mutation_name(#[trigger] log[i]) != name,
    ensures
        replayed(fields, log).dom().contains(name) == fields.dom().contains(name),
        fields.dom().contains(name) ==> replayed(fields, log)[name] == fields[name],
    decreases log.len(),
{
    if log.len() > 0 {
        assert(mutation_name(log[log.len() - 1]) != name);
        assert forall|i: int| 0 <= i < log.drop_last().len() implies mutation_name(
            #[trigger] log.drop_last()[i],
        ) != name by {
            assert(mutation_name(log[i]) != name);
        }
        replay_leaves_other_headers(fields, log.drop_last(), name);
    }
}

/// The last mutation of a log decides: a removal leaves the header absent, a
/// set leaves exactly one value, and an add comes after the values so far, or
/// is skipped where it is not a header value.
pub proof fn last_mutation_decides(
    fields: Fields,
    log: Seq<TrustedHeaderMutation>,
    mutation: TrustedHeaderMutation,
)
    ensures
        match mutation {
            TrustedHeaderMutation::Remove(name) => !replayed(
                fields,
                log.push(mutation),
            ).dom().contains(name@),
            TrustedHeaderMutation::Put(name, value) => http_headers::values_of(
                replayed(fields, log.push(mutation)),
                name@,
            ) == seq![value@],
            TrustedHeaderMutation::Add(name, text) => http_headers::values_of(
                replayed(fields, log.push(mutation)),
                name@,
            ) == if http_headers::is_header_value(utf8::encode_utf8(text@)) {
                http_headers::values_of(replayed(fields, log), name@).push(
                    (utf8::encode_utf8(text@), false),
                )
            } else {
                http_headers::values_of(replayed(fields, log), name@)
            },
        },
{
    assert(log.push(mutation).drop_last() =~= log);
}

/// The place of the last entry of a log that removes or sets a header, and -1
/// where there is none.
pub open spec fn last_reset(log: Seq<TrustedHeaderMutation>, name: Seq<char>) -> int
    decreases log.len(),
{
    if log.len() == 0 {
        -1
    } else if !(log.last() is Add) && mutation_name(log.last()) == name {
        log.len() - 1
    } else {
        last_reset(log.drop_last(), name)
    }
}

/// The valid values that the entries of a log add to a header, in order.
pub open spec fn added_values(log: Seq<TrustedHeaderMutation>, name: Seq<char>) -> Seq<ValueModel>
    decreases log.len(),
{
    if log.len() == 0 {
        Seq::empty()
    } else {
        let head = added_values(log.drop_last(), name);
        match log.last() {
            TrustedHeaderMutation::Add(added, text) if added@ == name && sets_header(
                log.last(),
            ) => head.push((utf8::encode_utf8(text@), false)),
            _ => head,
        }
    }
}

/// What a replay leaves under each name: nothing, the value set, or what was
/// there, by the last entry that removes or sets the header; and behind that
/// what later entries add.
pub proof fn replay_decides_each_header(
    fields: Fields,
    log: Seq<TrustedHeaderMutation>,
    name: Seq<char>,
)
    ensures
        -1 <= last_reset(log, name) < log.len(),
        http_headers::values_of(replayed(fields, log), name) == ({
            let reset = last_reset(log, name);
            let base = if reset < 0 {
                http_headers::values_of(fields, name)
            } else {
                match log[reset] {
                    TrustedHeaderMutation::Put(_, value) => seq![value@],
                    _ => Seq::empty(),
                }
            };
            base + added_values(log.skip(reset + 1), name)
        }),
    decreases log.len(),
{
    if log.len() > 0 {
        let head = log.drop_last();
        replay_decides_each_header(fields, head, name);
        let reset = last_reset(log, name);
        if reset == log.len() - 1 {
            assert(log.skip(reset + 1) =~= Seq::empty());
        } else {
            assert(log.skip(reset + 1).drop_last() =~= head.skip(reset + 1));
            assert(log.skip(reset + 1).last() == log.last());
            if reset >= 0 {
                assert(head[reset] == log[reset]);
            }
        }
    } else {
        assert(log.skip(0) =~= Seq::empty());
    }
}

/// The last value that `pairs` sets `name` to, if any.
pub open spec fn last_set(pairs: Seq<(FieldName, FieldValue)>, name: Seq<char>) -> Option<
    ValueModel,
>
    decreases pairs.len(),
{
    if pairs.len() == 0 {
        None
    } else if pairs.last().0@ == name {
        Some(pairs.last().1@)
    } else {
        last_set(pairs.drop_last(), name)
    }
}

/// The last value of a valid promoted header of `extra` under `name`, if any.
pub open spec fn last_promoted(
    extra: Seq<(Cow<'static, str>, String)>,
    name: Seq<char>,
) -> Option<ValueModel>
    decreases extra.len(),
{
    if extra.len() == 0 {
        None
    } else {
        match promoted(extra.last().0@, extra.last().1@) {
            Some((parsed, value)) if parsed == name => Some(value),
            _ => last_promoted(extra.drop_last(), name),
        }
    }
}

/// Whether `names` holds `name`.
pub open spec fn names_contain(names: Seq<FieldName>, name: Seq<char>) -> bool {
    exists|i: int| 0 <= i < names.len() && (#[trigger] names[i])@ == name
}

/// What pending mutations leave under each name: the last promoted value; else
/// the last value set; else nothing, where the name is removed; else what was
/// there. A promoted or set header has exactly one value, however many it had.
pub proof fn pending_decides_each_header(
    fields: Fields,
    to_remove: Seq<FieldName>,
    to_set: Seq<(FieldName, FieldValue)>,
    extra: Seq<(Cow<'static, str>, String)>,
    name: Seq<char>,
)
    ensures
        http_headers::values_of(
            after_pending(fields, to_remove, to_set, extra),
            name,
        ) == match last_promoted(extra, name) {
            Some(value) => seq![value],
            None => match last_set(to_set, name) {
                Some(value) => seq![value],
                None => if names_contain(to_remove, name) {
                    Seq::empty()
                } else {
                    http_headers::values_of(fields, name)
                },
            },
        },
        after_pending(fields, to_remove, to_set, extra).dom().contains(name) == (last_promoted(
            extra,
            name,
        ) is Some || last_set(to_set, name) is Some || !names_contain(to_remove, name)
            && fields.dom().contains(name)),
{
    removal_of_each(fields, to_remove, name);
    let cleared = all_removed(fields, to_remove);
    set_of_each(cleared, to_set, name);
    promotion_of_each(all_set(cleared, to_set), extra, name);
}

proof fn removal_of_each(fields: Fields, names: Seq<FieldName>, name: Seq<char>)
    ensures
        all_removed(fields, names).dom().contains(name) == (!names_contain(names, name)
            && fields.dom().contains(name)),
        all_removed(fields, names).dom().contains(name) ==> all_removed(fields, names)[name]
            == fields[name],
    decreases names.len(),
{
    if names.len() > 0 {
        let head = names.drop_last();
        removal_of_each(fields, head, name);
        if names_contain(names, name) {
            let i = choose|i: int| 0 <= i < names.len() && (#[trigger] names[i])@ == name;
            if i < head.len() {
                assert(head[i]@ == name);
            }
        }
        if names_contain(head, name) {
            let i = choose|i: int| 0 <= i < head.len() && (#[trigger] head[i])@ == name;
            assert(names[i]@ == name);
        }
        if names.last()@ == name {
            assert(names[names.len() - 1]@ == name);
        }
    }
}

proof fn set_of_each(fields: Fields, pairs: Seq<(FieldName, FieldValue)>, name: Seq<char>)
    ensures
        match last_set(pairs, name) {
            Some(value) => {
                &&& all_set(fields, pairs).dom().contains(name)
                &&& all_set(fields, pairs)[name] == seq![value]
            },
            None => {
                &&& all_set(fields, pairs).dom().contains(name) == fields.dom().contains(name)
                &&& fields.dom().contains(name) ==> all_set(fields, pairs)[name] == fields[name]
            },
        },
    decreases pairs.len(),
{
    if pairs.len() > 0 {
        set_of_each(fields, pairs.drop_last(), name);
    }
}

proof fn promotion_of_each(
    fields: Fields,
    extra: Seq<(Cow<'static, str>, String)>,
    name: Seq<char>,
)
    ensures
        match last_promoted(extra, name) {
            Some(value) => {
                &&& all_promoted(fields, extra).dom().contains(name)
                &&& all_promoted(fields, extra)[name] == seq![value]
            },
            None => {
                &&& all_promoted(fields, extra).dom().contains(name) == fields.dom().contains(name)
                &&& fields.dom().contains(name) ==> all_promoted(fields, extra)[name]
                    == fields[name]
            },
        },
    decreases extra.len(),
{
    if extra.len() > 0 {
        promotion_of_each(fields, extra.drop_last(), name);
    }
}

/// Applying the same pending mutations again changes nothing.
pub proof fn pending_is_idempotent(
    fields: Fields,
    to_remove: Seq<FieldName>,
    to_set: Seq<(FieldName, FieldValue)>,
    extra: Seq<(Cow<'static, str>, String)>,
)
    ensures
        after_pending(
            after_pending(fields, to_remove, to_set, extra),
            to_remove,
            to_set,
            extra,
        ) == after_pending(fields, to_remove, to_set, extra),
{
    let once = after_pending(fields, to_remove, to_set, extra);
    let twice = after_pending(once, to_remove, to_set, extra);
    assert forall|name: Seq<char>|
        twice.dom().contains(name) == once.dom().contains(name) && (once.dom().contains(name)
            ==> #[trigger] twice[name] == once[name]) by {
        pending_decides_each_header(fields, to_remove, to_set, extra, name);
        pending_decides_each_header(once, to_remove, to_set, extra, name);
        assert(http_headers::values_of(twice, name) == http_headers::values_of(once, name));
    }
    assert forall|name: Seq<char>| #[trigger]
        twice.dom().contains(name) == once.dom().contains(name) by {
        pending_decides_each_header(fields, to_remove, to_set, extra, name);
        pending_decides_each_header(once, to_remove, to_set, extra, name);
    }
    assert(twice =~= once);
}

/// What one mutation does, whatever was there: a removal leaves nothing under
/// its name, a set the one value, an add its text behind the values so far, where
/// the text has no control characters but tabs; and each leaves every other name
/// as it was.
pub proof fn mutations_do_as_they_say(
    fields: Fields,
    mutation: TrustedHeaderMutation,
    other: Seq<char>,
)
    ensures
        ({
            let after = mutated(fields, mutation);
            match mutation {
                TrustedHeaderMutation::Remove(name) => {
                    &&& !after.dom().contains(name@)
                    &&& other != name@ ==> after.dom().contains(other) == fields.dom().contains(
                        other,
                    ) && after[other] == fields[other]
                },
                TrustedHeaderMutation::Put(name, value) => {
                    &&& after.dom().contains(name@) && after[name@] == seq![value@]
                    &&& other != name@ ==> after.dom().contains(other) == fields.dom().contains(
                        other,
                    ) && after[other] == fields[other]
                },
                TrustedHeaderMutation::Add(name, text) => {
                    let valid = forall|i: int|
                        0 <= i < text@.len() ==> #[trigger] text@[i] == '\t' || ' ' <= text@[i]
                            && text@[i] != '\u{7f}';
                    &&& valid ==> after.dom().contains(name@) && after[name@] == if
                        fields.dom().contains(name@) {
                        fields[name@].push((utf8::encode_utf8(text@), false))
                    } else {
                        seq![(utf8::encode_utf8(text@), false)]
                    }
                    &&& !valid ==> after == fields
                    &&& other != name@ ==> after.dom().contains(other) == fields.dom().contains(
                        other,
                    ) && after[other] == fields[other]
                },
            }
        }),
{
    match mutation {
        TrustedHeaderMutation::Remove(name) => {
            http_headers::changes_stay_under_their_name(
                fields,
                name@,
                (Seq::empty(), false),
                other,
            );
        },
        TrustedHeaderMutation::Put(name, value) => {
            http_headers::changes_stay_under_their_name(fields, name@, value@, other);
        },
        TrustedHeaderMutation::Add(name, text) => {
            http_headers::values_hold_no_control_characters(text@);
            http_headers::changes_stay_under_their_name(
                fields,
                name@,
                (utf8::encode_utf8(text@), false),
                other,
            );
        },
    }
}

/// A session replays a log as a request does, but for the entries that set or add
/// a header under a name with a double quote, which it leaves out; where there is
/// none, it takes all.
pub proof fn sessions_leave_out_quoted_names(fields: Fields, log: Seq<TrustedHeaderMutation>)
    ensures
        session_replayed(fields, log) == replayed(
            fields,
            log.filter(
                |mutation: TrustedHeaderMutation|
                    mutation is Remove || !mutation_name(mutation).contains('"'),
            ),
        ),
        session_takes_all(log) <==> forall|i: int|
            0 <= i < log.len() ==> #[trigger] log[i] is Remove || !mutation_name(log[i]).contains(
                '"',
            ),
    decreases log.len(),
{
    reveal(Seq::filter);
    let pred = |mutation: TrustedHeaderMutation|
        mutation is Remove || !mutation_name(mutation).contains('"');
    if log.len() > 0 {
        sessions_leave_out_quoted_names(fields, log.drop_last());
        let kept = log.drop_last().filter(pred);
        if pred(log.last()) {
            assert(log.filter(pred) == kept.push(log.last()));
            assert(kept.push(log.last()).drop_last() =~= kept);
        }
    }
}

/// The entries that are skipped are those that add a text with control
/// characters other than tabs, all of them and in order.
pub proof fn skipped_entries_are_the_invalid_adds(log: Seq<TrustedHeaderMutation>)
    requires
        log.len() <= usize::MAX,
    ensures
        forall|i: int|
            0 <= i < log.len() ==> (skipped_adds(log).contains(i as usize) <==> (
            #[trigger] log[i] matches TrustedHeaderMutation::Add(_, text) && exists|k: int|
                0 <= k < text@.len() && #[trigger] text@[k] != '\t' && (text@[k] < ' ' || text@[k]
                    == '\u{7f}'))),
        forall|k: int|
            0 <= k < skipped_adds(log).len() ==> (#[trigger] skipped_adds(log)[k]) < log.len(),
        forall|j: int, k: int|
            0 <= j < k < skipped_adds(log).len() ==> (#[trigger] skipped_adds(log)[j]) < (
            #[trigger] skipped_adds(log)[k]),
    decreases log.len(),
{
    if log.len() > 0 {
        let head = log.drop_last();
        let before = skipped_adds(head);
        let after = skipped_adds(log);
        let n = log.len() - 1;
        skipped_entries_are_the_invalid_adds(head);
        if let TrustedHeaderMutation::Add(_, text) = log.last() {
            http_headers::values_hold_no_control_characters(text@);
        }
        assert forall|i: int| 0 <= i < log.len() implies (after.contains(i as usize) <==> (
        #[trigger] log[i] matches TrustedHeaderMutation::Add(_, text) && exists|k: int|
            0 <= k < text@.len() && #[trigger] text@[k] != '\t' && (text@[k] < ' ' || text@[k]
                == '\u{7f}'))) by {
            if i < n {
                assert(head[i] == log[i]);
                if before.contains(i as usize) {
                    let k = before.index_of(i as usize);
                    assert(after[k] == i as usize);
                }
                if after.contains(i as usize) {
                    let k = after.index_of(i as usize);
                    assert(k < before.len());
                    assert(before[k] == i as usize);
                }
            } else {
                assert(log[i] == log.last());
                if after.contains(i as usize) {
                    let k = after.index_of(i as usize);
                    assert(k < before.len() ==> before[k] < n);
                }
                if after.len() > before.len() {
                    assert(after[before.len() as int] == i as usize);
                }
            }
        }
        assert forall|j: int, k: int| 0 <= j < k < after.len() implies (#[trigger] after[j]) < (
        #[trigger] after[k]) by {
            assert(before[j] == after[j]);
            if k < before.len() {
                assert(before[k] == after[k]);
            }
        }
    }
}

/// The promoted headers that are skipped are those whose name is not a header
/// name or whose value is not a header value, all of them and in order, each with
/// what is wrong with it.
pub proof fn skipped_headers_are_the_invalid_ones(extra: Seq<(Cow<'static, str>, String)>)
    requires
        extra.len() <= usize::MAX,
    ensures
        forall|k: int|
            0 <= k < skipped_headers(extra).len() ==> {
                let skipped = #[trigger] skipped_headers(extra)[k];
                &&& skipped.index < extra.len()
                &&& skipped.invalid_name || skipped.invalid_value
                &&& skipped.invalid_name <==> http_headers::parsed_name(
                    utf8::encode_utf8(extra[skipped.index as int].0@),
                ) is None
                &&& skipped.invalid_value <==> !http_headers::is_header_value(
                    utf8::encode_utf8(extra[skipped.index as int].1@),
                )
            },
        forall|i: int|
            0 <= i < extra.len() && promoted((#[trigger] extra[i]).0@, extra[i].1@) is None
                ==> exists|k: int|
                0 <= k < skipped_headers(extra).len() && (
                #[trigger] skipped_headers(extra)[k]).index == i,
        forall|j: int, k: int|
            0 <= j < k < skipped_headers(extra).len() ==> (
            #[trigger] skipped_headers(extra)[j]).index < (
            #[trigger] skipped_headers(extra)[k]).index,
    decreases extra.len(),
{
    if extra.len() > 0 {
        let head = extra.drop_last();
        let before = skipped_headers(head);
        let after = skipped_headers(extra);
        skipped_headers_are_the_invalid_ones(head);
        assert forall|k: int| 0 <= k < after.len() implies {
            let skipped = #[trigger] after[k];
            &&& skipped.index < extra.len()
            &&& skipped.invalid_name || skipped.invalid_value
            &&& skipped.invalid_name <==> http_headers::parsed_name(
                utf8::encode_utf8(extra[skipped.index as int].0@),
            ) is None
            &&& skipped.invalid_value <==> !http_headers::is_header_value(
                utf8::encode_utf8(extra[skipped.index as int].1@),
            )
        } by {
            if k < before.len() {
                assert(before[k] == after[k]);
                assert(head[before[k].index as int] == extra[before[k].index as int]);
            } else {
                assert(extra[after[k].index as int] == extra.last());
            }
        }
        assert forall|i: int|
            0 <= i < extra.len() && promoted((#[trigger] extra[i]).0@, extra[i].1@) is None implies
            exists|k: int| 0 <= k < after.len() && (#[trigger] after[k]).index == i by {
            if i < head.len() {
                assert(head[i] == extra[i]);
                let k = choose|k: int|
                    0 <= k < before.len() && (#[trigger] before[k]).index == i;
                assert(after[k] == before[k]);
            } else {
                assert(extra[i] == extra.last());
                assert(after[before.len() as int].index == i);
            }
        }
        assert forall|j: int, k: int| 0 <= j < k < after.len() implies (
        #[trigger] after[j]).index < (#[trigger] after[k]).index by {
            assert(before[j] == after[j]);
            if k < before.len() {
                assert(before[k] == after[k]);
            }
        }
    }
}

} // verus!
