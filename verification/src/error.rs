//! What can go wrong with one request. None of it ends the process: each
//! error becomes a response to the request that met it.

use vstd::prelude::*;

verus! {

/// An error met while one request is proxied.
#[derive(Clone, Copy, Debug, PartialEq, Eq, Structural)]
pub enum ProxyError {
    /// The upstream base URL and the request's path and query do not make a
    /// URI.
    InvalidUpstreamTarget,
    /// A header value is not text that a header can carry.
    InvalidHeaderEncoding,
    /// The body is not valid UTF-8; it is cut as raw bytes.
    NonUtf8Body,
    /// The headers already use every name that a map has room for, so the
    /// proxy's own header cannot be added.
    TooManyHeaders,
}

} // verus!
