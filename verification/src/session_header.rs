//! The request header of a proxy session.
//!
//! [`pingora_http::RequestHeader`] keeps the headers of the downstream request
//! together with the letter case that their names arrived in. The functions
//! below are the operations on it that the proxy uses, stated over
//! [`session_fields`].

use vstd::prelude::*;

use crate::http_headers;
use crate::http_headers::{FieldName, FieldValue};

verus! {

#[verifier::external_type_specification]
#[verifier::external_body]
pub struct ExSessionHeader(pingora_http::RequestHeader);

/// The headers that a session's request header holds: each name with its
/// values, in the order in which they were added.
pub uninterp spec fn session_fields(header: pingora_http::RequestHeader) -> Map<
    Seq<char>,
    Seq<(Seq<u8>, bool)>,
>;

/// The method of a session's request.
pub uninterp spec fn session_method(header: pingora_http::RequestHeader) -> Seq<char>;

/// The path of the URI of a session's request.
pub uninterp spec fn session_path(header: pingora_http::RequestHeader) -> Seq<char>;

/// The names of the headers whose letter case a session's request header keeps;
/// none where it keeps no letter case.
pub uninterp spec fn case_names(header: pingora_http::RequestHeader) -> Set<Seq<char>>;

/// Whether a session's request header keeps letter cases.
pub uninterp spec fn keeps_case(header: pingora_http::RequestHeader) -> bool;

/// Whether a session's request header keeps the letter case only of headers that
/// it holds.
pub open spec fn is_in_step(header: pingora_http::RequestHeader) -> bool {
    case_names(header).subset_of(session_fields(header).dom())
}

/// Whether a session's request header takes a header under `name`. It refuses
/// names with a double quote, which [`http::HeaderName`] takes from static text.
pub open spec fn is_session_name(name: Seq<char>) -> bool {
    !name.contains('"')
}

/// Calls `Deref` of [`pingora_http::RequestHeader`] to [`http::request::Parts`],
/// and claims of it that the header map there is the one whose headers the
/// session's request header holds.
#[verifier::external_body]
pub(crate) fn session_headers(header: &pingora_http::RequestHeader) -> (res: &http::HeaderMap)
    ensures
        http_headers::header_fields(*res) == session_fields(*header),
{
    &header.headers
}

/// Calls [`http::Method::as_str`] on the method that the session's request
/// header holds, and claims of it that it gives the method's text.
#[verifier::external_body]
pub(crate) fn method_text(header: &pingora_http::RequestHeader) -> (res: &str)
    ensures
        res@ == session_method(*header),
{
    header.method.as_str()
}

/// Calls [`http::Uri::path`] on the URI that the session's request header
/// holds, and claims of it that it gives the path's text.
#[verifier::external_body]
pub(crate) fn path_text(header: &pingora_http::RequestHeader) -> (res: &str)
    ensures
        res@ == session_path(*header),
{
    header.uri.path()
}

/// Calls [`pingora_http::RequestHeader::has_case`], and claims of it that it says
/// whether the header keeps letter cases, and that it keeps none where not.
#[verifier::external_body]
pub(crate) fn has_case(header: &pingora_http::RequestHeader) -> (res: bool)
    ensures
        res == keeps_case(*header),
        !res ==> case_names(*header) == Set::<Seq<char>>::empty(),
{
    header.has_case()
}

/// Calls [`pingora_http::RequestHeader::remove_header`], and claims of it that
/// it removes every value under the name and leaves the others, the method and
/// the path; and that the letter case of a name goes with its values.
#[verifier::external_body]
pub(crate) fn session_remove(header: &mut pingora_http::RequestHeader, name: &FieldName)
    ensures
        is_in_step(*old(header)) ==> case_names(*final(header)).subset_of(
            session_fields(*final(header)).dom(),
        ),
        session_fields(*final(header)) == http_headers::without(
            session_fields(*old(header)),
            name@,
        ),
        session_method(*final(header)) == session_method(*old(header)),
        session_path(*final(header)) == session_path(*old(header)),
{
    let name = http::HeaderName::from_lowercase(name.as_str().as_bytes()).unwrap();
    let _remove = header.remove_header(&name);
}

/// Calls [`pingora_http::RequestHeader::insert_header`], and claims of it that
/// it replaces the values under the name by the one given and leaves the
/// others, the method and the path; that it fails without a change on a name
/// that it does not take; and that it keeps a letter case of no other name. It
/// panics where the map of values or the map of letter cases inside cannot grow,
/// which a header with room that is in step never comes to.
#[verifier::external_body]
pub(crate) fn session_insert(
    header: &mut pingora_http::RequestHeader,
    name: &FieldName,
    value: &FieldValue,
)
    requires
        is_in_step(*old(header)),
        is_session_name(name@) ==> http_headers::has_room(session_fields(*old(header))),
    ensures
        case_names(*final(header)).subset_of(session_fields(*final(header)).dom()),
        session_fields(*final(header)) == if is_session_name(name@) {
            http_headers::with_only(session_fields(*old(header)), name@, value@)
        } else {
            session_fields(*old(header))
        },
        session_method(*final(header)) == session_method(*old(header)),
        session_path(*final(header)) == session_path(*old(header)),
{
    let name = http::HeaderName::from_lowercase(name.as_str().as_bytes()).unwrap();
    let mut stored = http::HeaderValue::from_bytes(value.as_bytes()).unwrap();
    stored.set_sensitive(value.is_sensitive());
    let _insert = header.insert_header(name, stored);
}

/// Calls [`pingora_http::RequestHeader::append_header`], and claims of it that
/// it adds the value after those under the name and leaves the others, the
/// method and the path; that it fails without a change on a name that it does
/// not take; and that it keeps a letter case of no other name. It fails too where
/// the map of values or the map of letter cases inside cannot grow, which a
/// header with room that is in step never comes to.
#[verifier::external_body]
pub(crate) fn session_append(
    header: &mut pingora_http::RequestHeader,
    name: &FieldName,
    value: &FieldValue,
)
    requires
        is_in_step(*old(header)),
        is_session_name(name@) ==> http_headers::has_room(session_fields(*old(header))),
    ensures
        case_names(*final(header)).subset_of(session_fields(*final(header)).dom()),
        session_fields(*final(header)) == if is_session_name(name@) {
            http_headers::with_also(session_fields(*old(header)), name@, value@)
        } else {
            session_fields(*old(header))
        },
        session_method(*final(header)) == session_method(*old(header)),
        session_path(*final(header)) == session_path(*old(header)),
{
    let name = http::HeaderName::from_lowercase(name.as_str().as_bytes()).unwrap();
    let mut stored = http::HeaderValue::from_bytes(value.as_bytes()).unwrap();
    stored.set_sensitive(value.is_sensitive());
    let _append = header.append_header(name, stored);
}

/// A session takes a header under every name without a double quote, and under
/// no other; and it is in step exactly where each name whose letter case it keeps
/// is that of a header.
pub proof fn double_quotes_are_refused(name: Seq<char>, header: pingora_http::RequestHeader)
    ensures
        is_session_name(name) <==> forall|i: int| 0 <= i < name.len() ==> #[trigger] name[i] != '"',
        is_in_step(header) <==> forall|kept: Seq<char>|
            #[trigger] case_names(header).contains(kept) ==> session_fields(header).dom().contains(
                kept,
            ),
{
    if name.contains('"') {
        let k = name.index_of('"');
        assert(name[k] == '"');
    }
}

} // verus!
