//! HTTP server options.

use vstd::prelude::*;

verus! {

/// Options of the HTTP server.
#[derive(Clone, Copy, Debug, PartialEq, Eq, Structural)]
pub struct ServerOptions {
    /// Whether HTTP/2 without encryption is served.
    pub h2c: bool,
}

/// Limits of an HTTP/2 connection.
#[derive(Clone, Copy, Debug, PartialEq, Eq, Structural)]
pub struct H2Limits {
    /// How many bytes the headers of a request can take, once decoded.
    pub max_header_list_size: u32,
    /// How many streams can be open at a time.
    pub max_concurrent_streams: u32,
}

/// The options of a server that serves HTTP/2 without encryption.
pub fn h2c_server_options() -> (res: ServerOptions)
    ensures
        res == (ServerOptions { h2c: true }),
{
    ServerOptions { h2c: true }
}

/// The limits by which a small compressed request is kept from taking a large
/// amount of memory: 64 KiB of headers and 128 streams.
pub fn h2_server_options() -> (res: H2Limits)
    ensures
        res == (H2Limits { max_header_list_size: 65_536, max_concurrent_streams: 128 }),
{
    H2Limits { max_header_list_size: 65_536, max_concurrent_streams: 128 }
}

} // verus!
