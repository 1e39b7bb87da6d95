//! A single-upstream HTTP reverse proxy, as a library of verified steps.
//!
//! A request is forwarded to one fixed upstream, and the response comes back
//! with its body re-segmented into chunks of bounded size. The library holds
//! what is decided on the way: which headers are dropped, what the target
//! is, how the chain of client addresses grows, where the body is cut, and
//! what is answered when something fails. Listening, connecting and moving
//! bytes are left to the program around it, which calls [`proxy_call`] with
//! each event and carries out the action that comes back.

use crate::proxy::{is_step, proxy_step, ProxyAction, ProxyEvent};
use vstd::prelude::*;

pub mod chunks;
pub mod config;
pub mod error;
pub mod headers;
pub mod proxy;
pub mod target;
pub mod text;

verus! {

/// What requests are proxied with: the upstream and the chunk limit.
#[derive(Clone, Debug)]
pub struct Config {
    upstream_url: String,
    max_chunk_size: usize,
}

impl Default for Config {
    /// No upstream and no chunk limit yet.
    fn default() -> (config: Self)
        ensures
            config.upstream() == Seq::<char>::empty(),
            config.chunk_limit() == 0,
    {
        Config { upstream_url: String::new(), max_chunk_size: 0 }
    }
}

impl Config {
    /// The upstream base URL.
    pub closed spec fn upstream(&self) -> Seq<char> {
        self.upstream_url@
    }

    /// The most bytes that one chunk of a response holds.
    pub closed spec fn chunk_limit(&self) -> usize {
        self.max_chunk_size
    }

    /// Whether requests can be proxied with it: its chunk limit is not zero.
    pub open spec fn wf(&self) -> bool {
        self.chunk_limit() > 0
    }

    /// A configuration with nothing set.
    pub fn new() -> (config: Self)
        ensures
            config.upstream() == Seq::<char>::empty(),
            config.chunk_limit() == 0,
    {
        Config::default()
    }

    /// The same configuration with this upstream.
    pub fn with_upstream(self, upstream_url: String) -> (config: Self)
        ensures
            config.upstream() == upstream_url@,
            config.chunk_limit() == self.chunk_limit(),
    {
        Config { upstream_url, max_chunk_size: self.max_chunk_size }
    }

    /// The same configuration with this chunk limit.
    pub fn with_max_chunk_size(self, size: usize) -> (config: Self)
        ensures
            config.upstream() == self.upstream(),
            config.chunk_limit() == size,
    {
        Config { upstream_url: self.upstream_url, max_chunk_size: size }
    }
}

/// Proxies one request of the caller at `client_ip`, a step at a time:
/// called with the request, it says what to send to the upstream; called
/// again with what came of that, it says what to send to the client.
pub fn proxy_call(config: &Config, client_ip: &str, event: ProxyEvent) -> (action: ProxyAction)
    requires
        config.wf(),
    ensures
        is_step(config.upstream(), config.chunk_limit(), client_ip@, event, action),
{
    proxy_step(config.upstream_url.as_str(), config.max_chunk_size, client_ip, event)
}

} // verus!
