//! Request-phase utilities: the root span, snapshots and route labels.

use vstd::prelude::*;
use vstd::string::*;

use crate::context::{ClientAddr, HttpVersion, RequestCtx};
use crate::http_headers;
use crate::http_headers::get_text;
use crate::request::Request;
use crate::session_header;
use crate::session_header::{method_text, path_text, session_headers};
use crate::spans;
use crate::spans::http_version_label;
use crate::text;
use crate::text::{find_char, parse_u16};

verus! {

// -----------------------------------------------------------------------------
// Snapshots
// -----------------------------------------------------------------------------

/// An address with an IPv4 address that is mapped into IPv6 taken out of it.
pub open spec fn unmapped(addr: ClientAddr) -> ClientAddr {
    match addr {
        ClientAddr::V6(0, 0, 0, 0, 0, 0xffff, high, low) => ClientAddr::V4(
            (high / 256) as u8,
            (high % 256) as u8,
            (low / 256) as u8,
            (low % 256) as u8,
        ),
        _ => addr,
    }
}

/// Takes an IPv4 address that is mapped into IPv6 (`::ffff:a.b.c.d`) out of it.
pub fn normalize_mapped_ipv4(addr: ClientAddr) -> (res: ClientAddr)
    ensures
        res == unmapped(addr),
{
    match addr {
        ClientAddr::V6(a, b, c, d, e, f, high, low) => if a == 0 && b == 0 && c == 0 && d == 0 && e
            == 0 && f == 0xffff {
            ClientAddr::V4(
                (high / 256) as u8,
                (high % 256) as u8,
                (low / 256) as u8,
                (low % 256) as u8,
            )
        } else {
            addr
        },
        ClientAddr::V4(_, _, _, _) => addr,
    }
}

/// The address of a client that is seen at `client`.
pub open spec fn seen_client(client: Option<ClientAddr>) -> Option<ClientAddr> {
    match client {
        Some(addr) => Some(unmapped(addr)),
        None => None,
    }
}

/// Fills in the request snapshot and the client address for a request that
/// ends before the pipeline runs, so that it is logged all the same.
///
/// What is there already stays; `snapshot` is asked only where it is needed.
pub fn snapshot_for_early_exit<S, F: FnOnce() -> Request>(
    ctx: &mut RequestCtx<S>,
    snapshot: F,
    client: Option<ClientAddr>,
)
    requires
        old(ctx).request_snapshot is None ==> call_requires(snapshot, ()),
    ensures
        match old(ctx).request_snapshot {
            Some(request) => final(ctx).request_snapshot == Some(request),
            None => final(ctx).request_snapshot is Some && call_ensures(
                snapshot,
                (),
                final(ctx).request_snapshot.unwrap(),
            ),
        },
        final(ctx).client_addr == match old(ctx).client_addr {
            Some(addr) => Some(addr),
            None => seen_client(client),
        },
        *final(ctx) == (RequestCtx {
            request_snapshot: final(ctx).request_snapshot,
            client_addr: final(ctx).client_addr,
            ..*old(ctx)
        }),
{
    if ctx.request_snapshot.is_none() {
        ctx.request_snapshot = Some(snapshot());
    }
    if ctx.client_addr.is_none() {
        ctx.client_addr = match client {
            Some(addr) => Some(normalize_mapped_ipv4(addr)),
            None => None,
        };
    }
}

// -----------------------------------------------------------------------------
// Route labels
// -----------------------------------------------------------------------------

/// The label of a route: that of the template that matched, else the one that
/// the router gave.
pub fn template_or_route(label: Option<String>, metrics_route: Option<String>) -> (res: Option<
    String,
>)
    ensures
        res == match label {
            Some(label) => Some(label),
            None => metrics_route,
        },
{
    match label {
        Some(label) => Some(label),
        None => metrics_route,
    }
}

/// Collapses the route label to a configured path template where one matches.
///
/// `templates` matches a path to the label of a template, and is `None` where
/// no templates are configured. It is asked once, with the path of the
/// request snapshot, where there is one. Where nothing matches, the label that
/// the router gave stays, so that an unmatched path never widens cardinality.
pub fn templated_route<S, F: FnOnce(&str) -> Option<String>>(
    templates: Option<F>,
    ctx: &RequestCtx<S>,
    metrics_route: Option<String>,
) -> (res: Option<String>)
    requires
        forall|path: &str|
            templates is Some && ctx.request_snapshot is Some && path@
                == ctx.request_snapshot.unwrap().path@ ==> #[trigger] call_requires(
                templates.unwrap(),
                (path,),
            ),
    ensures
        match (templates, ctx.request_snapshot) {
            (Some(match_path), Some(request)) => exists|path: &str, label: Option<String>|
                path@ == request.path@ && #[trigger] call_ensures(match_path, (path,), label)
                    && res == match label {
                    Some(label) => Some(label),
                    None => metrics_route,
                },
            _ => res == metrics_route,
        },
{
    let match_path = match templates {
        Some(match_path) => match_path,
        None => return metrics_route,
    };
    match &ctx.request_snapshot {
        Some(request) => {
            let path = request.path.as_str();
            let label = match_path(path);
            template_or_route(label, metrics_route)
        },
        None => metrics_route,
    }
}

// -----------------------------------------------------------------------------
// The root span
// -----------------------------------------------------------------------------

/// What the root span of a request is created with. The span is named by the
/// method until a route has matched, and is one of a server.
#[derive(Debug)]
pub struct RequestSpan<'a> {
    /// `otel.name` and `http.request.method`.
    pub method: &'a str,
    /// `url.scheme`.
    pub url_scheme: &'static str,
    /// `url.path`.
    pub path: &'a str,
    /// `server.address`.
    pub server_address: Option<String>,
    /// `server.port`.
    pub server_port: Option<u16>,
    /// `client.address`.
    pub client_address: Option<ClientAddr>,
    /// `network.protocol.version`.
    pub protocol_version: &'static str,
    /// `user_agent.original`.
    pub user_agent: Option<String>,
}

/// The path that a span names: `/` for an empty one.
pub open spec fn span_path(path: Seq<char>) -> Seq<char> {
    if path.len() == 0 {
        "/"@
    } else {
        path
    }
}

/// The address in a `Host` value: what stands before the first colon.
pub open spec fn host_address(host: Seq<char>) -> Seq<char> {
    host.take(text::first_index(host, ':'))
}

/// The port in a `Host` value: what stands behind the first colon, where that
/// is the text of a port number.
pub open spec fn host_port(host: Seq<char>) -> Option<u16> {
    let colon = text::first_index(host, ':');
    if colon < host.len() {
        text::parsed_u16(host.skip(colon + 1))
    } else {
        None
    }
}

proof fn lookup_names()
    ensures
        http_headers::is_plain_name("host"@),
        http_headers::is_plain_name("user-agent"@),
{
    reveal_strlit("host");
    reveal_strlit("user-agent");
}

fn split_host(host: &str) -> (res: (String, Option<u16>))
    ensures
        res.0@ == host_address(host@),
        res.1 == host_port(host@),
{
    let colon: usize = find_char(host, ':');
    let address: String = host.substring_char(0, colon).to_owned();
    assert(address@ =~= host_address(host@));
    let end: usize = host.unicode_len();
    let port = if colon < end {
        let rest = host.substring_char(colon + 1, end);
        assert(rest@ =~= host@.skip(colon + 1));
        parse_u16(rest)
    } else {
        None
    };
    (address, port)
}

/// What the root span of a request is created with.
pub fn create_request_span<'a, S>(
    header: &'a pingora_http::RequestHeader,
    ctx: &RequestCtx<S>,
) -> (res: RequestSpan<'a>)
    ensures
        res.method@ == session_header::session_method(*header),
        res.url_scheme@ == if ctx.downstream_tls {
            "https"@
        } else {
            "http"@
        },
        res.path@ == span_path(session_header::session_path(*header)),
        match http_headers::first_text(session_header::session_fields(*header), "host"@) {
            Some(host) => {
                &&& text::text_of(res.server_address) == Some(host_address(host))
                &&& res.server_port == host_port(host)
            },
            None => res.server_address is None && res.server_port is None,
        },
        res.client_address == ctx.client_addr,
        res.protocol_version == spans::version_label(
            match ctx.client_http_version {
                Some(version) => version,
                None => HttpVersion::Http11,
            },
        ),
        text::text_of(res.user_agent) == http_headers::first_text(
            session_header::session_fields(*header),
            "user-agent"@,
        ),
{
    proof {
        lookup_names();
    }
    let method = method_text(header);
    let raw_path = path_text(header);
    let path = if raw_path.is_empty() {
        "/"
    } else {
        raw_path
    };
    let version = match ctx.client_http_version {
        Some(version) => version,
        None => HttpVersion::Http11,
    };
    let protocol_version = http_version_label(version);
    let headers = session_headers(header);
    let (server_address, server_port) = match get_text(headers, "host") {
        Some(host) => {
            let (address, port) = split_host(host.as_str());
            (Some(address), port)
        },
        None => (None, None),
    };
    let url_scheme = if ctx.downstream_tls {
        "https"
    } else {
        "http"
    };
    let user_agent = get_text(headers, "user-agent");
    RequestSpan {
        method,
        url_scheme,
        path,
        server_address,
        server_port,
        client_address: ctx.client_addr,
        protocol_version,
        user_agent,
    }
}

// -----------------------------------------------------------------------------
// Laws
// -----------------------------------------------------------------------------

/// Normalizing an address a second time changes nothing, and an IPv4 address
/// is normalized already.
pub proof fn normalizing_is_idempotent(addr: ClientAddr)
    ensures
        unmapped(unmapped(addr)) == unmapped(addr),
        addr is V4 ==> unmapped(addr) == addr,
{
}

/// A `Host` value without a colon is the address, and has no port; one with a
/// colon is the address, the colon and what the port is read from, and the
/// address has no colon in it.
pub proof fn host_is_split_at_the_first_colon(host: Seq<char>)
    ensures
        !host.contains(':') ==> host_address(host) == host && host_port(host) is None,
        host.contains(':') ==> {
            let rest = host.skip(host_address(host).len() as int + 1);
            &&& host == host_address(host) + seq![':'] + rest
            &&& host_port(host) == text::parsed_u16(rest)
        },
        !host_address(host).contains(':'),
{
    text::first_index_bounds(host, ':');
    let colon = text::first_index(host, ':');
    if host.contains(':') {
        let k = host.index_of(':');
        assert(host[k] == ':');
        assert(host =~= host_address(host) + seq![':'] + host.skip(colon + 1));
    } else {
        assert(colon == host.len()) by {
            if colon < host.len() {
                assert(host.contains(host[colon]));
            }
        }
        assert(host_address(host) =~= host);
    }
}

/// Every IPv4 address that is mapped into IPv6 is taken out of it, octet for
/// octet, and any other address stays as it is.
pub proof fn mapped_addresses_are_taken_out(a: u8, b: u8, c: u8, d: u8, addr: ClientAddr)
    ensures
        unmapped(
            ClientAddr::V6(
                0,
                0,
                0,
                0,
                0,
                0xffff,
                (a as int * 256 + b) as u16,
                (c as int * 256 + d) as u16,
            ),
        ) == ClientAddr::V4(a, b, c, d),
        (forall|high: u16, low: u16| addr != ClientAddr::V6(0, 0, 0, 0, 0, 0xffff, high, low))
            ==> unmapped(addr) == addr,
        seen_client(Some(addr)) == Some(unmapped(addr)),
        seen_client(None) is None,
{
    let high = (a as int * 256 + b) as u16;
    let low = (c as int * 256 + d) as u16;
    assert(high / 256 == a && high % 256 == b);
    assert(low / 256 == c && low % 256 == d);
    if let ClientAddr::V6(s0, s1, s2, s3, s4, s5, s6, s7) = addr {
        if s0 == 0 && s1 == 0 && s2 == 0 && s3 == 0 && s4 == 0 && s5 == 0xffff {
            assert(addr == ClientAddr::V6(0, 0, 0, 0, 0, 0xffff, s6, s7));
        }
    }
}

/// A `Host` value with the number of a port behind its first colon has that
/// port, whichever it is, and one without a colon has none; either way its
/// address is what stands before.
pub proof fn ports_are_read_from_hosts(address: Seq<char>, port: u16)
    requires
        !address.contains(':'),
    ensures
        host_address(address + seq![':'] + text::decimal_text(port as nat)) == address,
        host_port(address + seq![':'] + text::decimal_text(port as nat)) == Some(port),
        host_address(address) == address,
        host_port(address) is None,
{
    let rest = text::decimal_text(port as nat);
    let host = address + seq![':'] + rest;
    host_is_split_at_the_first_colon(address);
    host_is_split_at_the_first_colon(host);
    text::numbers_are_read_back(port);
    let n = address.len() as int;
    assert(host[n] == ':');
    text::first_index_bounds(host, ':');
    let colon = text::first_index(host, ':');
    if colon < n {
        assert(host[colon] == address[colon]);
        assert(address.contains(address[colon]));
    }
    assert(colon == n);
    assert(host.take(n) =~= address);
    assert(host.skip(n + 1) =~= rest);
}

/// A span names the path of the request, and the root where that is empty.
pub proof fn paths_are_named_as_they_are(path: Seq<char>)
    ensures
        path != Seq::<char>::empty() ==> span_path(path) == path,
        span_path(Seq::empty()) == seq!['/'],
{
    reveal_strlit("/");
    assert("/"@ =~= seq!['/']);
    if path.len() == 0 {
        assert(path =~= Seq::empty());
    }
}

} // verus!
