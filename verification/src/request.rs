//! The request as filters see it.

use vstd::prelude::*;

verus! {

/// Headers and metadata of a request.
#[derive(Debug)]
pub struct Request {
    /// The request method.
    pub method: String,
    /// The path of the request URI.
    pub path: String,
    /// The request headers.
    pub headers: http::HeaderMap,
}

} // verus!
