//! Reserved internal headers.
//!
//! Headers whose name begins with `x-praxis-`, or with a prefix that an
//! extension has reserved, carry routing metadata of the proxy itself. They
//! are neither taken from clients nor handed out.

use vstd::prelude::*;

use crate::error_handling::Rejection;
use crate::http_headers;
use crate::http_headers::{FieldName, map_keys};
use crate::session_header;
use crate::session_header::session_headers;
use crate::text::starts_with;

verus! {

/// The prefix of the proxy's own headers.
pub const RESERVED_PREFIX: &'static str = "x-praxis-";

/// Whether a normalized header name is reserved, given the prefixes that
/// extensions have reserved.
pub open spec fn is_reserved(name: Seq<char>, extensions: Seq<Seq<char>>) -> bool {
    ||| RESERVED_PREFIX@.is_prefix_of(name)
    ||| exists|i: int| 0 <= i < extensions.len() && #[trigger] extensions[i].is_prefix_of(name)
}

/// The reserved names among those of a list of headers.
pub open spec fn reserved_names(
    fields: http_headers::Fields,
    extensions: Seq<Seq<char>>,
) -> Set<Seq<char>> {
    fields.dom().filter(|name: Seq<char>| is_reserved(name, extensions))
}

fn is_reserved_text(name: &str, extension_prefixes: &Vec<String>) -> (res: bool)
    ensures
        res == is_reserved(name@, http_headers::texts(extension_prefixes@)),
{
    if starts_with(name, RESERVED_PREFIX) {
        return true;
    }
    let ghost extensions = http_headers::texts(extension_prefixes@);
    let mut i: usize = 0;
    while i < extension_prefixes.len()
        invariant
            i <= extension_prefixes@.len(),
            extensions == http_headers::texts(extension_prefixes@),
            forall|j: int| 0 <= j < i ==> !(#[trigger] extensions[j].is_prefix_of(name@)),
        decreases extension_prefixes@.len() - i,
    {
        if starts_with(name, extension_prefixes[i].as_str()) {
            assert(extensions[i as int].is_prefix_of(name@));
            return true;
        }
        i += 1;
    }
    false
}

/// Whether a header name belongs to the reserved internal metadata.
pub fn is_reserved_internal_header(name: &FieldName, extension_prefixes: &Vec<String>) -> (res:
    bool)
    ensures
        res == is_reserved(name@, http_headers::texts(extension_prefixes@)),
{
    is_reserved_text(name.as_str(), extension_prefixes)
}

/// How many reserved names a client has put into its request.
pub fn reserved_header_count(
    header: &pingora_http::RequestHeader,
    extension_prefixes: &Vec<String>,
) -> (res: usize)
    ensures
        res == reserved_names(
            session_header::session_fields(*header),
            http_headers::texts(extension_prefixes@),
        ).len(),
        res == 0 <==> forall|name: Seq<char>|
            #[trigger] session_header::session_fields(*header).dom().contains(name)
                ==> !is_reserved(name, http_headers::texts(extension_prefixes@)),
{
    let names = map_keys(session_headers(header));
    let ghost extensions = http_headers::texts(extension_prefixes@);
    let ghost all = http_headers::texts(names@);
    let ghost pred = |name: Seq<char>| is_reserved(name, extensions);
    let mut count: usize = 0;
    let mut i: usize = 0;
    proof {
        assert(all.take(0).to_set().filter(pred) =~= Set::empty());
    }
    while i < names.len()
        invariant
            count <= i <= names@.len(),
            extensions == http_headers::texts(extension_prefixes@),
            all == http_headers::texts(names@),
            all.no_duplicates(),
            pred == (|name: Seq<char>| is_reserved(name, extensions)),
            all.take(i as int).to_set().filter(pred).finite(),
            count == all.take(i as int).to_set().filter(pred).len(),
        decreases names@.len() - i,
    {
        let ghost before = all.take(i as int).to_set().filter(pred);
        let ghost after = all.take(i + 1).to_set().filter(pred);
        let ghost name = all[i as int];
        proof {
            assert(all.take(i + 1) =~= all.take(i as int).push(name));
            assert forall|other: Seq<char>|
                all.take(i + 1).contains(other) == (all.take(i as int).contains(other) || other
                    == name) by {
                if all.take(i as int).contains(other) {
                    let k = all.take(i as int).index_of(other);
                    assert(all.take(i + 1)[k] == other);
                }
                assert(all.take(i + 1)[i as int] == name);
            }
            assert(!all.take(i as int).contains(name));
            if pred(name) {
                assert(after =~= before.insert(name));
            } else {
                assert(after =~= before);
            }
        }
        if is_reserved_text(names[i].as_str(), extension_prefixes) {
            count += 1;
        }
        i += 1;
    }
    proof {
        let fields = session_header::session_fields(*header);
        assert(all.take(i as int) =~= all);
        assert(reserved_names(fields, extensions) =~= all.to_set().filter(pred));
        if count == 0 {
            assert forall|name: Seq<char>| #[trigger] fields.dom().contains(name) implies
                !is_reserved(name, extensions) by {
                if is_reserved(name, extensions) {
                    assert(reserved_names(fields, extensions).contains(name));
                }
            }
        } else {
            let name = reserved_names(fields, extensions).choose();
            assert(reserved_names(fields, extensions).contains(name));
            assert(fields.dom().contains(name));
        }
    }
    count
}

/// Turns a request down that carries reserved internal headers, before
/// anything can observe them.
pub fn reject_reserved_internal_headers(
    header: &pingora_http::RequestHeader,
    extension_prefixes: &Vec<String>,
) -> (res: Option<Rejection>)
    ensures
        res == if reserved_names(
            session_header::session_fields(*header),
            http_headers::texts(extension_prefixes@),
        ).len() == 0 {
            None
        } else {
            Some(Rejection { status: 400 })
        },
        res is None <==> forall|name: Seq<char>|
            #[trigger] session_header::session_fields(*header).dom().contains(name)
                ==> !is_reserved(name, http_headers::texts(extension_prefixes@)),
{
    if reserved_header_count(header, extension_prefixes) == 0 {
        return None;
    }
    Some(Rejection::status(400))
}

// -----------------------------------------------------------------------------
// Laws
// -----------------------------------------------------------------------------

/// Whatever follows a reserved prefix, the proxy's own or an extension's, the
/// name is reserved.
pub proof fn reserved_prefixes_reserve_every_name(
    rest: Seq<char>,
    extensions: Seq<Seq<char>>,
    i: int,
)
    ensures
        is_reserved("x-praxis-"@ + rest, extensions),
        0 <= i < extensions.len() ==> is_reserved(extensions[i] + rest, extensions),
{
    let own = "x-praxis-"@ + rest;
    assert(own.subrange(0, "x-praxis-"@.len() as int) =~= "x-praxis-"@);
    if 0 <= i < extensions.len() {
        let name = extensions[i] + rest;
        assert(name.subrange(0, extensions[i].len() as int) =~= extensions[i]);
        assert(extensions[i].is_prefix_of(name));
    }
}

/// A name that begins with no reserved prefix is not reserved.
pub proof fn other_names_are_not_reserved(name: Seq<char>, extensions: Seq<Seq<char>>)
    requires
        is_reserved(name, extensions),
    ensures
        name == "x-praxis-"@ + name.skip("x-praxis-"@.len() as int) && name.len()
            >= "x-praxis-"@.len() || exists|i: int|
            0 <= i < extensions.len() && name.len() >= extensions[i].len()
                && #[trigger] extensions[i] + name.skip(extensions[i].len() as int) == name,
{
    if RESERVED_PREFIX@.is_prefix_of(name) {
        assert(name =~= "x-praxis-"@ + name.skip("x-praxis-"@.len() as int));
    } else {
        let i = choose|i: int|
            0 <= i < extensions.len() && #[trigger] extensions[i].is_prefix_of(name);
        assert(extensions[i] + name.skip(extensions[i].len() as int) =~= name);
    }
}

/// The reserved names of a request are those of its headers that are reserved.
pub proof fn reserved_names_are_those_of_headers(
    fields: http_headers::Fields,
    extensions: Seq<Seq<char>>,
    name: Seq<char>,
)
    ensures
        reserved_names(fields, extensions).contains(name) <==> fields.dom().contains(name)
            && is_reserved(name, extensions),
{
}

} // verus!
