//! Whether header mutations find room.
//!
//! A header map that holds very many names can refuse one more. The functions
//! below decide, before any mutation is applied, whether every header that is
//! set or added finds room when its turn comes.

use std::borrow::Cow;

use vstd::prelude::*;

use crate::header_mutations;
use crate::header_mutations::{TrustedHeaderMutation, cow_text};
use crate::http_headers;
use crate::http_headers::{FieldName, FieldValue, Fields, MAX_FIELD_NAMES, map_keys};
use crate::session_header;
use crate::session_header::{has_case, session_headers};
use crate::text;
use crate::text::{find_char, same_text};

verus! {

/// Whether `names` lists a set of texts, each once.
spec fn lists(names: Seq<String>, set: Set<Seq<char>>) -> bool {
    &&& http_headers::texts(names).no_duplicates()
    &&& http_headers::texts(names).to_set() == set
}

proof fn listed_len(names: Seq<String>, set: Set<Seq<char>>)
    requires
        lists(names, set),
    ensures
        set.finite(),
        set.len() == names.len(),
{
    http_headers::texts(names).unique_seq_to_set();
    vstd::seq_lib::seq_to_set_is_finite(http_headers::texts(names));
}

fn position(names: &Vec<String>, name: &str) -> (res: usize)
    ensures
        res <= names@.len(),
        res < names@.len() ==> names@[res as int]@ == name@,
        res == names@.len() ==> !http_headers::texts(names@).contains(name@),
{
    let ghost all = http_headers::texts(names@);
    let mut i: usize = 0;
    while i < names.len()
        invariant
            i <= names@.len(),
            all == http_headers::texts(names@),
            forall|j: int| 0 <= j < i ==> all[j] != name@,
        decreases names@.len() - i,
    {
        if same_text(names[i].as_str(), name) {
            return i;
        }
        i += 1;
    }
    i
}

fn note_name(names: &mut Vec<String>, name: &str, Ghost(set): Ghost<Set<Seq<char>>>)
    requires
        lists(old(names)@, set),
    ensures
        lists(final(names)@, set.insert(name@)),
{
    let at: usize = position(names, name);
    let ghost before = http_headers::texts(names@);
    if at == names.len() {
        names.push(name.to_owned());
        proof {
            let after = http_headers::texts(names@);
            assert(after =~= before.push(name@));
            assert forall|i: int, j: int|
                0 <= i < after.len() && 0 <= j < after.len() && i != j implies after[i]
                != after[j] by {
                if i == before.len() {
                    assert(before.contains(before[j]));
                }
                if j == before.len() {
                    assert(before.contains(before[i]));
                }
            }
            assert forall|text: Seq<char>|
                after.contains(text) == (before.contains(text) || text == name@) by {
                if before.contains(text) {
                    let k = before.index_of(text);
                    assert(after[k] == text);
                }
                assert(after[before.len() as int] == name@);
            }
            assert(after.to_set() =~= set.insert(name@));
        }
    } else {
        assert(before.contains(before[at as int]));
        assert(set.insert(name@) =~= set);
    }
}

fn drop_name(names: &mut Vec<String>, name: &str, Ghost(set): Ghost<Set<Seq<char>>>)
    requires
        lists(old(names)@, set),
    ensures
        lists(final(names)@, set.remove(name@)),
{
    let at: usize = position(names, name);
    let ghost before = http_headers::texts(names@);
    if at < names.len() {
        let _name = names.remove(at);
        proof {
            let after = http_headers::texts(names@);
            assert(after =~= before.remove(at as int));
            assert forall|i: int, j: int|
                0 <= i < after.len() && 0 <= j < after.len() && i != j implies after[i]
                != after[j] by {
                let p = if i < at { i } else { i + 1 };
                let q = if j < at { j } else { j + 1 };
                assert(before[p] == after[i] && before[q] == after[j]);
            }
            assert forall|text: Seq<char>|
                after.contains(text) == (before.contains(text) && text != name@) by {
                if after.contains(text) {
                    let i = after.index_of(text);
                    let p = if i < at { i } else { i + 1 };
                    assert(before[p] == text);
                    assert(before[at as int] == name@);
                }
                if before.contains(text) && text != name@ {
                    let p = before.index_of(text);
                    let i = if p < at { p } else { p - 1 };
                    assert(before[at as int] == name@);
                    assert(after[i] == text);
                }
            }
            assert(after.to_set() =~= set.remove(name@));
        }
    } else {
        assert(set.remove(name@) =~= set);
    }
}

/// Whether a session takes a header under the name.
fn session_name(name: &FieldName) -> (res: bool)
    ensures
        res == session_header::is_session_name(name@),
{
    let text = name.as_str();
    let at: usize = find_char(text, '"');
    proof {
        text::first_index_bounds(name@, '"');
        if at < name@.len() {
            assert(name@.contains(name@[at as int]));
        }
    }
    at == text::to_chars(text).len()
}

/// Whether a log finds room in a map, or in a session, with these names.
fn log_has_room(
    names: Vec<String>,
    mutations: &[TrustedHeaderMutation],
    session: bool,
    Ghost(fields): Ghost<Fields>,
) -> (res: bool)
    requires
        lists(names@, fields.dom()),
    ensures
        res == if session {
            header_mutations::session_log_fits(fields, mutations@)
        } else {
            header_mutations::log_fits(fields, mutations@)
        },
{
    let mut current = names;
    let mut i: usize = 0;
    assert(mutations@.take(0) =~= Seq::empty());
    while i < mutations.len()
        invariant
            i <= mutations@.len(),
            lists(
                current@,
                if session {
                    header_mutations::session_replayed(fields, mutations@.take(i as int)).dom()
                } else {
                    header_mutations::replayed(fields, mutations@.take(i as int)).dom()
                },
            ),
            forall|j: int|
                0 <= j < i && header_mutations::sets_header(mutations@[j]) && (session
                    ==> session_header::is_session_name(
                    header_mutations::mutation_name(mutations@[j]),
                )) ==> http_headers::has_room(
                    if session {
                        header_mutations::session_replayed(fields, #[trigger] mutations@.take(j))
                    } else {
                        header_mutations::replayed(fields, mutations@.take(j))
                    },
                ),
        decreases mutations@.len() - i,
    {
        let ghost state = if session {
            header_mutations::session_replayed(fields, mutations@.take(i as int))
        } else {
            header_mutations::replayed(fields, mutations@.take(i as int))
        };
        let ghost next = if session {
            header_mutations::session_mutated(state, mutations@[i as int])
        } else {
            header_mutations::mutated(state, mutations@[i as int])
        };
        proof {
            assert(mutations@.take(i + 1).drop_last() =~= mutations@.take(i as int));
            assert(mutations@.take(i + 1).last() == mutations@[i as int]);
            listed_len(current@, state.dom());
        }
        let (name, sets) = match &mutations[i] {
            TrustedHeaderMutation::Remove(name) => (name, false),
            TrustedHeaderMutation::Put(name, _) => (name, true),
            TrustedHeaderMutation::Add(name, value) => (
                name,
                FieldValue::from_str(value.as_str()).is_ok(),
            ),
        };
        if matches!(mutations[i], TrustedHeaderMutation::Remove(_)) {
            drop_name(&mut current, name.as_str(), Ghost(state.dom()));
            assert(next.dom() =~= state.dom().remove(name@));
        } else if sets && (!session || session_name(name)) {
            if current.len() > MAX_FIELD_NAMES {
                assert(!http_headers::has_room(state));
                return false;
            }
            note_name(&mut current, name.as_str(), Ghost(state.dom()));
            assert(next.dom() =~= state.dom().insert(name@));
        } else {
            assert(next.dom() =~= state.dom());
        }
        i += 1;
    }
    true
}

/// Whether a log of mutations finds room in a request's headers.
pub fn has_request_room(headers: &http::HeaderMap, mutations: &[TrustedHeaderMutation]) -> (res:
    bool)
    ensures
        res == header_mutations::log_fits(http_headers::header_fields(*headers), mutations@),
{
    let ghost fields = http_headers::header_fields(*headers);
    log_has_room(map_keys(headers), mutations, false, Ghost(fields))
}

/// Whether a log of mutations finds room in a session's request header.
pub fn has_session_room(
    session: &pingora_http::RequestHeader,
    mutations: &[TrustedHeaderMutation],
) -> (res: bool)
    ensures
        res == header_mutations::session_log_fits(
            session_header::session_fields(*session),
            mutations@,
        ),
{
    let ghost fields = session_header::session_fields(*session);
    log_has_room(map_keys(session_headers(session)), mutations, true, Ghost(fields))
}

/// Whether a session's request header keeps no letter cases, so that the names of
/// its headers are all that takes room. One that keeps them does not tell whose.
pub fn keeps_no_case(session: &pingora_http::RequestHeader) -> (res: bool)
    ensures
        res == !session_header::keeps_case(*session),
        res ==> session_header::is_in_step(*session),
{
    !has_case(session)
}

/// Whether pending mutations find room in a header map.
pub fn has_pending_room(
    headers: &http::HeaderMap,
    to_remove: &[FieldName],
    to_set: &[(FieldName, FieldValue)],
    extra: &[(Cow<'static, str>, String)],
) -> (res: bool)
    ensures
        res == header_mutations::pending_fits(
            http_headers::header_fields(*headers),
            to_remove@,
            to_set@,
            extra@,
        ),
{
    let ghost fields = http_headers::header_fields(*headers);
    let mut current = map_keys(headers);
    let mut i: usize = 0;
    assert(to_remove@.take(0) =~= Seq::empty());
    while i < to_remove.len()
        invariant
            i <= to_remove@.len(),
            lists(
                current@,
                header_mutations::all_removed(fields, to_remove@.take(i as int)).dom(),
            ),
        decreases to_remove@.len() - i,
    {
        let ghost state = header_mutations::all_removed(fields, to_remove@.take(i as int));
        assert(to_remove@.take(i + 1).drop_last() =~= to_remove@.take(i as int));
        drop_name(&mut current, to_remove[i].as_str(), Ghost(state.dom()));
        assert(http_headers::without(state, to_remove@[i as int]@).dom() =~= state.dom().remove(
            to_remove@[i as int]@,
        ));
        i += 1;
    }
    assert(to_remove@.take(to_remove@.len() as int) =~= to_remove@);
    let ghost cleared = header_mutations::all_removed(fields, to_remove@);
    i = 0;
    assert(to_set@.take(0) =~= Seq::empty());
    while i < to_set.len()
        invariant
            i <= to_set@.len(),
            fields == http_headers::header_fields(*headers),
            cleared == header_mutations::all_removed(fields, to_remove@),
            lists(current@, header_mutations::all_set(cleared, to_set@.take(i as int)).dom()),
            forall|j: int|
                0 <= j < i ==> http_headers::has_room(
                    header_mutations::all_set(cleared, #[trigger] to_set@.take(j)),
                ),
        decreases to_set@.len() - i,
    {
        let ghost state = header_mutations::all_set(cleared, to_set@.take(i as int));
        let (name, value) = &to_set[i];
        proof {
            assert(to_set@.take(i + 1).drop_last() =~= to_set@.take(i as int));
            listed_len(current@, state.dom());
        }
        if current.len() > MAX_FIELD_NAMES {
            assert(!http_headers::has_room(state));
            return false;
        }
        note_name(&mut current, name.as_str(), Ghost(state.dom()));
        assert(http_headers::with_only(state, name@, value@).dom() =~= state.dom().insert(name@));
        i += 1;
    }
    assert(to_set@.take(to_set@.len() as int) =~= to_set@);
    let ghost set = header_mutations::all_set(cleared, to_set@);
    i = 0;
    assert(extra@.take(0) =~= Seq::empty());
    while i < extra.len()
        invariant
            i <= extra@.len(),
            fields == http_headers::header_fields(*headers),
            cleared == header_mutations::all_removed(fields, to_remove@),
            set == header_mutations::all_set(cleared, to_set@),
            lists(current@, header_mutations::all_promoted(set, extra@.take(i as int)).dom()),
            forall|j: int|
                0 <= j < i && header_mutations::promoted(extra@[j].0@, extra@[j].1@) is Some
                    ==> http_headers::has_room(
                    header_mutations::all_promoted(set, #[trigger] extra@.take(j)),
                ),
        decreases extra@.len() - i,
    {
        let ghost state = header_mutations::all_promoted(set, extra@.take(i as int));
        let (name, value) = &extra[i];
        proof {
            assert(extra@.take(i + 1).drop_last() =~= extra@.take(i as int));
            assert(extra@.take(i + 1).last() == extra@[i as int]);
            listed_len(current@, state.dom());
        }
        if let (Ok(header_name), Ok(header_value)) = (
            FieldName::from_bytes(cow_text(name).as_bytes()),
            FieldValue::from_str(value.as_str()),
        ) {
            if current.len() > MAX_FIELD_NAMES {
                assert(!http_headers::has_room(state));
                return false;
            }
            note_name(&mut current, header_name.as_str(), Ghost(state.dom()));
            assert(http_headers::with_only(state, header_name@, header_value@).dom()
                =~= state.dom().insert(header_name@));
        }
        i += 1;
    }
    true
}

// -----------------------------------------------------------------------------
// Laws
// -----------------------------------------------------------------------------

/// The names that a log sets or adds.
pub open spec fn names_set(log: Seq<TrustedHeaderMutation>) -> Set<Seq<char>> {
    Set::new(
        |name: Seq<char>|
            exists|i: int|
                0 <= i < log.len() && header_mutations::sets_header(#[trigger] log[i])
                    && header_mutations::mutation_name(log[i]) == name,
    )
}

proof fn replay_adds_set_names(fields: Fields, log: Seq<TrustedHeaderMutation>, n: int)
    requires
        0 <= n <= log.len(),
    ensures
        header_mutations::replayed(fields, log.take(n)).dom().subset_of(
            fields.dom().union(names_set(log)),
        ),
        header_mutations::session_replayed(fields, log.take(n)).dom().subset_of(
            fields.dom().union(names_set(log)),
        ),
    decreases n,
{
    if n > 0 {
        replay_adds_set_names(fields, log, n - 1);
        assert(log.take(n).drop_last() =~= log.take(n - 1));
        assert(log.take(n).last() == log[n - 1]);
        if header_mutations::sets_header(log[n - 1]) {
            assert(names_set(log).contains(header_mutations::mutation_name(log[n - 1])));
        }
    }
}

/// A log finds room wherever the names that are there and those that it sets
/// or adds, each counted once, are not too many; removals, repeated names and
/// names that are there take none.
pub proof fn only_new_names_take_room(fields: Fields, log: Seq<TrustedHeaderMutation>)
    requires
        fields.dom().union(names_set(log)).finite(),
        fields.dom().union(names_set(log)).len() <= MAX_FIELD_NAMES,
    ensures
        header_mutations::log_fits(fields, log),
        header_mutations::session_log_fits(fields, log),
{
    let all = fields.dom().union(names_set(log));
    assert forall|i: int| 0 <= i < log.len() implies http_headers::has_room(
        header_mutations::replayed(fields, #[trigger] log.take(i)),
    ) && http_headers::has_room(header_mutations::session_replayed(fields, log.take(i))) by {
        replay_adds_set_names(fields, log, i);
        vstd::set_lib::lemma_len_subset(
            header_mutations::replayed(fields, log.take(i)).dom(),
            all,
        );
        vstd::set_lib::lemma_len_subset(
            header_mutations::session_replayed(fields, log.take(i)).dom(),
            all,
        );
    }
}

/// The names that pending mutations set or promote.
pub open spec fn pending_names(
    to_set: Seq<(FieldName, FieldValue)>,
    extra: Seq<(Cow<'static, str>, String)>,
) -> Set<Seq<char>> {
    Set::new(
        |name: Seq<char>|
            {
                ||| exists|i: int| 0 <= i < to_set.len() && (#[trigger] to_set[i]).0@ == name
                ||| exists|i: int|
                    0 <= i < extra.len() && (header_mutations::promoted(
                        (#[trigger] extra[i]).0@,
                        extra[i].1@,
                    ) matches Some(header) && header.0 == name)
            },
    )
}

proof fn removal_adds_no_names(fields: Fields, names: Seq<FieldName>)
    ensures
        header_mutations::all_removed(fields, names).dom().subset_of(fields.dom()),
    decreases names.len(),
{
    if names.len() > 0 {
        removal_adds_no_names(fields, names.drop_last());
    }
}

proof fn sets_add_their_names(
    fields: Fields,
    to_set: Seq<(FieldName, FieldValue)>,
    extra: Seq<(Cow<'static, str>, String)>,
    n: int,
)
    requires
        0 <= n <= to_set.len(),
    ensures
        header_mutations::all_set(fields, to_set.take(n)).dom().subset_of(
            fields.dom().union(pending_names(to_set, extra)),
        ),
    decreases n,
{
    if n > 0 {
        sets_add_their_names(fields, to_set, extra, n - 1);
        assert(to_set.take(n).drop_last() =~= to_set.take(n - 1));
        assert(to_set.take(n).last() == to_set[n - 1]);
        assert(pending_names(to_set, extra).contains(to_set[n - 1].0@));
    }
}

proof fn promotions_add_their_names(
    fields: Fields,
    to_set: Seq<(FieldName, FieldValue)>,
    extra: Seq<(Cow<'static, str>, String)>,
    n: int,
)
    requires
        0 <= n <= extra.len(),
    ensures
        header_mutations::all_promoted(fields, extra.take(n)).dom().subset_of(
            fields.dom().union(pending_names(to_set, extra)),
        ),
    decreases n,
{
    if n > 0 {
        promotions_add_their_names(fields, to_set, extra, n - 1);
        assert(extra.take(n).drop_last() =~= extra.take(n - 1));
        assert(extra.take(n).last() == extra[n - 1]);
        if let Some(header) = header_mutations::promoted(extra[n - 1].0@, extra[n - 1].1@) {
            assert(pending_names(to_set, extra).contains(header.0));
        }
    }
}

/// Pending mutations find room wherever the names that are there and those
/// that they set or promote, each counted once, are not too many.
pub proof fn only_new_pending_names_take_room(
    fields: Fields,
    to_remove: Seq<FieldName>,
    to_set: Seq<(FieldName, FieldValue)>,
    extra: Seq<(Cow<'static, str>, String)>,
)
    requires
        fields.dom().union(pending_names(to_set, extra)).finite(),
        fields.dom().union(pending_names(to_set, extra)).len() <= MAX_FIELD_NAMES,
    ensures
        header_mutations::pending_fits(fields, to_remove, to_set, extra),
{
    let all = fields.dom().union(pending_names(to_set, extra));
    let cleared = header_mutations::all_removed(fields, to_remove);
    removal_adds_no_names(fields, to_remove);
    assert forall|i: int| 0 <= i < to_set.len() implies http_headers::has_room(
        header_mutations::all_set(cleared, #[trigger] to_set.take(i)),
    ) by {
        sets_add_their_names(cleared, to_set, extra, i);
        vstd::set_lib::lemma_len_subset(
            header_mutations::all_set(cleared, to_set.take(i)).dom(),
            all,
        );
    }
    let set = header_mutations::all_set(cleared, to_set);
    assert(to_set.take(to_set.len() as int) =~= to_set);
    sets_add_their_names(cleared, to_set, extra, to_set.len() as int);
    assert forall|i: int| 0 <= i < extra.len() implies http_headers::has_room(
        header_mutations::all_promoted(set, #[trigger] extra.take(i)),
    ) by {
        promotions_add_their_names(set, to_set, extra, i);
        vstd::set_lib::lemma_len_subset(
            header_mutations::all_promoted(set, extra.take(i)).dom(),
            all,
        );
    }
}

/// A log with one more entry finds room exactly where the log does and, if the
/// entry sets or adds a header, no more than 6553 names are there by then. A
/// session asks no room for a name with a double quote.
pub proof fn room_is_counted_by_turns(
    fields: Fields,
    log: Seq<TrustedHeaderMutation>,
    last: TrustedHeaderMutation,
)
    ensures
        header_mutations::log_fits(fields, Seq::empty()),
        header_mutations::session_log_fits(fields, Seq::empty()),
        ({
            let names = header_mutations::replayed(fields, log).dom();
            header_mutations::log_fits(fields, log.push(last)) <==> header_mutations::log_fits(
                fields,
                log,
            ) && (header_mutations::sets_header(last) ==> names.finite() && names.len() <= 6_553)
        }),
        ({
            let names = header_mutations::session_replayed(fields, log).dom();
            header_mutations::session_log_fits(fields, log.push(last))
                <==> header_mutations::session_log_fits(fields, log) && (
            header_mutations::sets_header(last) && !header_mutations::mutation_name(last).contains(
                '"',
            ) ==> names.finite() && names.len() <= 6_553)
        }),
{
    let all = log.push(last);
    let n = log.len() as int;
    assert(all.take(n) =~= log);
    assert forall|i: int| 0 <= i <= n implies #[trigger] log.take(i) == all.take(i) by {
        assert(log.take(i) =~= all.take(i));
    }
    assert forall|i: int| 0 <= i < n implies #[trigger] log[i] == all[i] by {}
    assert(all[n] == last);
    if header_mutations::log_fits(fields, all) {
        assert forall|i: int|
            0 <= i < log.len() && header_mutations::sets_header(log[i]) implies
            http_headers::has_room(header_mutations::replayed(fields, #[trigger] log.take(i))) by {
            assert(all[i] == log[i]);
            assert(all.take(i) == log.take(i));
        }
        assert(http_headers::has_room(header_mutations::replayed(fields, all.take(n)))
            || !header_mutations::sets_header(last));
    }
    if header_mutations::log_fits(fields, log) {
        assert forall|i: int|
            0 <= i < n && header_mutations::sets_header(all[i]) implies http_headers::has_room(
            header_mutations::replayed(fields, #[trigger] all.take(i)),
        ) by {
            assert(all[i] == log[i]);
            assert(all.take(i) == log.take(i));
        }
    }
    if header_mutations::session_log_fits(fields, all) {
        assert forall|i: int|
            0 <= i < log.len() && header_mutations::sets_header(log[i])
                && session_header::is_session_name(
                header_mutations::mutation_name(log[i]),
            ) implies http_headers::has_room(
            header_mutations::session_replayed(fields, #[trigger] log.take(i)),
        ) by {
            assert(all[i] == log[i]);
            assert(all.take(i) == log.take(i));
        }
        assert(http_headers::has_room(header_mutations::session_replayed(fields, all.take(n)))
            || !header_mutations::sets_header(last) || !session_header::is_session_name(
            header_mutations::mutation_name(last),
        ));
    }
    if header_mutations::session_log_fits(fields, log) {
        assert forall|i: int|
            0 <= i < n && header_mutations::sets_header(all[i]) && session_header::is_session_name(
                header_mutations::mutation_name(all[i]),
            ) implies http_headers::has_room(
            header_mutations::session_replayed(fields, #[trigger] all.take(i)),
        ) by {
            assert(all[i] == log[i]);
            assert(all.take(i) == log.take(i));
        }
    }
}

/// A mutation sets or adds a header exactly where it is a set, or an add of a text
/// without control characters but tabs.
pub proof fn sets_and_valid_adds_set_headers(mutation: TrustedHeaderMutation)
    ensures
        header_mutations::sets_header(mutation) <==> match mutation {
            TrustedHeaderMutation::Remove(_) => false,
            TrustedHeaderMutation::Put(_, _) => true,
            TrustedHeaderMutation::Add(_, text) => forall|i: int|
                0 <= i < text@.len() ==> #[trigger] text@[i] == '\t' || ' ' <= text@[i] && text@[i]
                    != '\u{7f}',
        },
{
    if let TrustedHeaderMutation::Add(_, text) = mutation {
        http_headers::values_hold_no_control_characters(text@);
    }
}

/// Pending mutations with one more promoted header, or one more set where none is
/// promoted, find room exactly where they do without it and no more than 6553
/// names are there by then; a promoted header that is not valid asks for none.
pub proof fn pending_room_is_counted_by_turns(
    fields: Fields,
    to_remove: Seq<FieldName>,
    to_set: Seq<(FieldName, FieldValue)>,
    extra: Seq<(Cow<'static, str>, String)>,
    set: (FieldName, FieldValue),
    last: (Cow<'static, str>, String),
)
    ensures
        header_mutations::pending_fits(fields, to_remove, Seq::empty(), Seq::empty()),
        ({
            let names = header_mutations::after_pending(
                fields,
                to_remove,
                to_set,
                Seq::empty(),
            ).dom();
            header_mutations::pending_fits(fields, to_remove, to_set.push(set), Seq::empty())
                <==> header_mutations::pending_fits(fields, to_remove, to_set, Seq::empty())
                && names.finite() && names.len() <= 6_553
        }),
        ({
            let names = header_mutations::after_pending(fields, to_remove, to_set, extra).dom();
            header_mutations::pending_fits(fields, to_remove, to_set, extra.push(last))
                <==> header_mutations::pending_fits(fields, to_remove, to_set, extra) && (
            header_mutations::promoted(last.0@, last.1@) is Some ==> names.finite() && names.len()
                <= 6_553)
        }),
{
    let cleared = header_mutations::all_removed(fields, to_remove);
    let sets = to_set.push(set);
    let all = extra.push(last);
    let m = to_set.len() as int;
    let n = extra.len() as int;
    let none = Seq::<(Cow<'static, str>, String)>::empty();
    assert(sets.take(m) =~= to_set);
    assert(all.take(n) =~= extra);
    assert(all[n] == last);
    assert forall|i: int| 0 <= i <= m implies #[trigger] to_set.take(i) == sets.take(i) by {
        assert(to_set.take(i) =~= sets.take(i));
    }
    assert forall|i: int| 0 <= i <= n implies #[trigger] extra.take(i) == all.take(i) by {
        assert(extra.take(i) =~= all.take(i));
    }
    let placed = header_mutations::all_set(cleared, to_set);
    assert(header_mutations::all_promoted(placed, none) == placed);
    if header_mutations::pending_fits(fields, to_remove, sets, none) {
        assert forall|i: int| 0 <= i < m implies http_headers::has_room(
            header_mutations::all_set(cleared, #[trigger] to_set.take(i)),
        ) by {
            assert(to_set.take(i) == sets.take(i));
        }
        assert(http_headers::has_room(header_mutations::all_set(cleared, sets.take(m))));
    }
    if header_mutations::pending_fits(fields, to_remove, to_set, none) {
        assert forall|i: int| 0 <= i < m implies http_headers::has_room(
            header_mutations::all_set(cleared, #[trigger] sets.take(i)),
        ) by {
            assert(to_set.take(i) == sets.take(i));
        }
    }
    if header_mutations::pending_fits(fields, to_remove, to_set, all) {
        assert forall|i: int|
            0 <= i < n && header_mutations::promoted(extra[i].0@, extra[i].1@) is Some implies
            http_headers::has_room(
            header_mutations::all_promoted(placed, #[trigger] extra.take(i)),
        ) by {
            assert(all[i] == extra[i]);
            assert(extra.take(i) == all.take(i));
        }
        assert(header_mutations::promoted(all[n].0@, all[n].1@) is Some ==> http_headers::has_room(
            header_mutations::all_promoted(placed, all.take(n)),
        ));
    }
    if header_mutations::pending_fits(fields, to_remove, to_set, extra) {
        assert forall|i: int|
            0 <= i < n && header_mutations::promoted(all[i].0@, all[i].1@) is Some implies
            http_headers::has_room(header_mutations::all_promoted(placed, #[trigger] all.take(i))) by {
            assert(all[i] == extra[i]);
            assert(extra.take(i) == all.take(i));
        }
    }
}

} // verus!
