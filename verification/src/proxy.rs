//! The steps of one proxied request: sanitising headers, rewriting the
//! target, aggregating the client's identity and re-segmenting the body.

use crate::chunks::{chunk_views, chunks_of, fallback_of, rechunk, ChunkedBody};
use crate::error::ProxyError;
use crate::headers::{
    append_pair, can_be_header_value, empty_headers, first_header, header_name,
    header_name_count, header_pairs, header_value, header_values, insert_pair, is_header_name,
    is_header_text, is_header_value, lemma_values_named_occurs, name_text, name_text_of,
    names_of, pair_views, reads_as_text, value_bytes, value_bytes_of, values_named, values_of,
    MAX_NAMES,
};
use crate::target::{checked_target, compose_target, forward_target, parse_uri, uri_parses};
use crate::text::{ascii_caseless_eq, ascii_lowercase};
use hyper::header::HeaderValue;
use hyper::HeaderMap;
use std::sync::Arc;
use vstd::prelude::*;
use vstd::set_lib::lemma_len_subset;
use vstd::slice::slice_to_vec;
use vstd::string::is_ascii_spec_bytes;
use vstd::utf8::encode_utf8;
use vstd::utf8::valid_utf8;

verus! {

/// Whether a header name is scoped to one connection and so is not to be
/// forwarded. `content-length` counts as one: a body that is re-segmented has
/// no length to declare.
pub open spec fn is_hop_name(name: Seq<char>) -> bool {
    let lower = ascii_lowercase(name);
    ||| lower == "connection"@
    ||| lower == "keep-alive"@
    ||| lower == "proxy-authenticate"@
    ||| lower == "proxy-authorization"@
    ||| lower == "te"@
    ||| lower == "trailers"@
    ||| lower == "transfer-encoding"@
    ||| lower == "upgrade"@
    ||| lower == "content-length"@
}

proof fn lemma_hop_literals()
    ensures
        ascii_lowercase("Connection"@) == "connection"@,
        ascii_lowercase("Keep-Alive"@) == "keep-alive"@,
        ascii_lowercase("Proxy-Authenticate"@) == "proxy-authenticate"@,
        ascii_lowercase("Proxy-Authorization"@) == "proxy-authorization"@,
        ascii_lowercase("Te"@) == "te"@,
        ascii_lowercase("Trailers"@) == "trailers"@,
        ascii_lowercase("Transfer-Encoding"@) == "transfer-encoding"@,
        ascii_lowercase("Upgrade"@) == "upgrade"@,
        ascii_lowercase("Content-Length"@) == "content-length"@,
        is_hop_name("content-length"@),
        forall|name: Seq<char>| #[trigger]
            is_hop_name(name) ==> name.len() > 0 && ascii_lowercase(name)[0] != 'x',
{
    reveal_strlit("Connection");
    reveal_strlit("connection");
    reveal_strlit("Keep-Alive");
    reveal_strlit("keep-alive");
    reveal_strlit("Proxy-Authenticate");
    reveal_strlit("proxy-authenticate");
    reveal_strlit("Proxy-Authorization");
    reveal_strlit("proxy-authorization");
    reveal_strlit("Te");
    reveal_strlit("te");
    reveal_strlit("Trailers");
    reveal_strlit("trailers");
    reveal_strlit("Transfer-Encoding");
    reveal_strlit("transfer-encoding");
    reveal_strlit("Upgrade");
    reveal_strlit("upgrade");
    reveal_strlit("Content-Length");
    reveal_strlit("content-length");
    assert(ascii_lowercase("content-length"@) == "content-length"@);
    assert forall|name: Seq<char>| #[trigger] is_hop_name(name) implies name.len() > 0
        && ascii_lowercase(name)[0] != 'x' by {
        let lower = ascii_lowercase(name);
        assert(lower.len() == name.len());
    }
}

/// Tells whether a header name is one of the connection-scoped names,
/// whatever the case of its letters.
pub fn is_hop_header(name: &str) -> (hop: bool)
    ensures
        hop == is_hop_name(name@),
{
    proof {
        lemma_hop_literals();
    }
    ascii_caseless_eq("Connection", name) || ascii_caseless_eq("Keep-Alive", name)
        || ascii_caseless_eq("Proxy-Authenticate", name) || ascii_caseless_eq(
        "Proxy-Authorization",
        name,
    ) || ascii_caseless_eq("Te", name) || ascii_caseless_eq("Trailers", name)
        || ascii_caseless_eq("Transfer-Encoding", name) || ascii_caseless_eq("Upgrade", name)
        || ascii_caseless_eq("Content-Length", name)
}

/// What is left of a map's contents once every connection-scoped name is
/// taken out with all its values.
pub open spec fn sanitized(held: Map<Seq<char>, Seq<Seq<u8>>>) -> Map<Seq<char>, Seq<Seq<u8>>> {
    held.remove_keys(Set::new(|name: Seq<char>| is_hop_name(name)))
}

/// Returns a copy of the headers without the connection-scoped ones: every
/// other name keeps all its values, in their order.
pub fn remove_hop_headers(headers: &HeaderMap<HeaderValue>) -> (kept: HeaderMap<HeaderValue>)
    ensures
        header_values(kept) == sanitized(header_values(*headers)),
        forall|name: Seq<char>| header_values(kept).dom().contains(name) ==> !is_hop_name(name),
{
    let pairs = header_pairs(headers);
    let mut kept = empty_headers();
    let ghost held = header_values(*headers);
    let ghost all = pair_views(pairs@);
    let mut i: usize = 0;
    while i < pairs.len()
        invariant
            i <= pairs.len(),
            all == pair_views(pairs@),
            held.dom() == names_of(all),
            names_of(all).finite(),
            names_of(all).len() <= MAX_NAMES,
            forall|name: Seq<char>|
                #[trigger] header_values(kept).dom().contains(name) <==> !is_hop_name(name)
                    && values_named(all.take(i as int), name).len() > 0,
            forall|name: Seq<char>|
                header_values(kept).dom().contains(name) ==> #[trigger] header_values(kept)[name]
                    == values_named(all.take(i as int), name),
        decreases pairs.len() - i,
    {
        let (held_name, held_value) = pairs[i];
        let name = name_text(held_name);
        let ghost before = header_values(kept);
        let ghost seen = all.take(i as int);
        let ghost next = all.take(i + 1);
        proof {
            assert(next.drop_last() == seen);
            assert(next.last() == all[i as int]);
            assert(all[i as int] == (name@, value_bytes_of(*held_value)));
        }
        if !is_hop_header(name) {
            proof {
                if !before.dom().contains(name@) {
                    assert(names_of(all).contains(name@)) by {
                        assert(all[i as int].0 == name@);
                    }
                    assert(before.dom().subset_of(names_of(all).remove(name@))) by {
                        assert forall|other: Seq<char>| before.dom().contains(other) implies names_of(
                            all,
                        ).remove(name@).contains(other) by {
                            lemma_values_named_occurs(seen, other);
                            let k = choose|k: int|
                                0 <= k < seen.len() && (#[trigger] seen[k]).0 == other;
                            assert(all[k].0 == other);
                        }
                    }
                    lemma_len_subset(before.dom(), names_of(all).remove(name@));
                }
            }
            append_pair(&mut kept, held_name, held_value);
            proof {
                assert forall|other: Seq<char>| #[trigger]
                    header_values(kept).dom().contains(other) <==> !is_hop_name(other)
                        && values_named(next, other).len() > 0 by {}
                assert forall|other: Seq<char>|
                    header_values(kept).dom().contains(other) implies #[trigger] header_values(
                    kept,
                )[other] == values_named(next, other) by {}
            }
        }
        i += 1;
    }
    proof {
        assert(all.take(pairs.len() as int) == all);
        assert forall|name: Seq<char>|
            header_values(kept).dom().contains(name) <==> #[trigger] sanitized(
                held,
            ).dom().contains(name) by {
            lemma_values_named_occurs(all, name);
        }
        assert(header_values(kept) =~= sanitized(held));
    }
    kept
}

/// The request as it came in: what of it the proxy reads.
#[derive(Debug)]
pub struct InboundRequest {
    /// The path of the request's URI.
    pub path: String,
    /// The query of the request's URI, without the `?`.
    pub query: Option<String>,
    /// The request's headers.
    pub headers: HeaderMap<HeaderValue>,
}

/// The request as it goes to the upstream.
#[derive(Debug)]
pub struct OutboundRequest {
    /// The URI to ask the upstream for.
    pub target: String,
    /// The headers to send.
    pub headers: HeaderMap<HeaderValue>,
}

/// A request's query as plain text.
pub open spec fn query_of(request: InboundRequest) -> Option<Seq<char>> {
    match request.query {
        Some(q) => Some(q@),
        None => None,
    }
}

/// The target that a request is forwarded to.
pub open spec fn target_of(forward_url: Seq<char>, request: InboundRequest) -> Seq<char> {
    forward_target(forward_url, request.path@, query_of(request))
}

/// Rewrites the request's URI onto the upstream: the base URL, then the
/// request's path and query as they are. Fails where the result is no URI.
pub fn forward_uri(forward_url: &str, req: &InboundRequest) -> (target: Result<String, ProxyError>)
    ensures
        match target {
            Ok(text) => text@ == target_of(forward_url@, *req) && uri_parses(text@),
            Err(e) => e == ProxyError::InvalidUpstreamTarget && !uri_parses(
                target_of(forward_url@, *req),
            ),
        },
{
    let query = match &req.query {
        Some(q) => Some(q.as_str()),
        None => None,
    };
    let text = compose_target(forward_url, req.path.as_str(), query);
    let parses = parse_uri(text.as_str()).is_ok();
    checked_target(text, parses)
}

/// The name of the header that records the chain of client addresses.
pub open spec fn forwarded_for_name() -> Seq<char> {
    "x-forwarded-for"@
}

/// A chain of addresses with one more address behind it.
pub open spec fn extended_chain(chain: Seq<u8>, ip: Seq<u8>) -> Seq<u8> {
    chain + seq![44u8, 32u8] + ip
}

/// The value that the forwarded-for header gets: the client's address alone
/// where the request had none, or had one that does not read as text; else
/// the chain that it had, a comma, a space and the address.
pub open spec fn forwarded_for(existing: Option<Seq<u8>>, ip: Seq<u8>) -> Seq<u8> {
    match existing {
        Some(chain) => if is_header_text(chain) {
            extended_chain(chain, ip)
        } else {
            ip
        },
        None => ip,
    }
}

/// Appends the client's address to the chain that a request came with.
/// A chain that does not read as text is refused.
pub fn extend_forwarded_for(chain: &[u8], ip: &[u8]) -> (extended: Result<Vec<u8>, ProxyError>)
    ensures
        match extended {
            Ok(value) => is_header_text(chain@) && value@ == extended_chain(chain@, ip@),
            Err(e) => e == ProxyError::InvalidHeaderEncoding && !is_header_text(chain@),
        },
{
    if !reads_as_text(chain) {
        return Err(ProxyError::InvalidHeaderEncoding);
    }
    let mut value = slice_to_vec(chain);
    value.push(44u8);
    value.push(32u8);
    value.extend_from_slice(ip);
    assert(value@ == extended_chain(chain@, ip@));
    Ok(value)
}

/// A chain of addresses as plain bytes.
pub open spec fn chain_view(existing: Option<&[u8]>) -> Option<Seq<u8>> {
    match existing {
        Some(chain) => Some(chain@),
        None => None,
    }
}

/// Works out the forwarded-for value. A chain that cannot be read is not
/// extended but replaced by the client's address: the request goes on.
pub fn forwarded_for_value(existing: Option<&[u8]>, ip: &[u8]) -> (value: Vec<u8>)
    ensures
        value@ == forwarded_for(chain_view(existing), ip@),
{
    match existing {
        Some(chain) => match extend_forwarded_for(chain, ip) {
            Ok(value) => value,
            Err(_) => slice_to_vec(ip),
        },
        None => slice_to_vec(ip),
    }
}

/// The first value that a map's contents have under a name.
pub open spec fn first_value(held: Map<Seq<char>, Seq<Seq<u8>>>, name: Seq<char>) -> Option<
    Seq<u8>,
> {
    if held.dom().contains(name) && held[name].len() > 0 {
        Some(held[name][0])
    } else {
        None
    }
}

/// Headers with the client's address recorded: the forwarded-for header holds
/// one value, the chain so far with the address at its end.
pub open spec fn with_client(held: Map<Seq<char>, Seq<Seq<u8>>>, ip: Seq<u8>) -> Map<
    Seq<char>,
    Seq<Seq<u8>>,
> {
    held.insert(
        forwarded_for_name(),
        seq![forwarded_for(first_value(held, forwarded_for_name()), ip)],
    )
}

/// Whether a map's contents leave room for a name: they hold it already, or
/// hold fewer names than a map can.
pub open spec fn has_room_for(held: Map<Seq<char>, Seq<Seq<u8>>>, name: Seq<char>) -> bool {
    held.dom().contains(name) || held.dom().len() < MAX_NAMES
}

/// Sanitised headers hold no connection-scoped name, and still hold none
/// once the client's address is recorded in them.
pub proof fn lemma_outbound_has_no_hop_header(held: Map<Seq<char>, Seq<Seq<u8>>>, ip: Seq<u8>)
    ensures
        forall|name: Seq<char>| #[trigger]
            sanitized(held).dom().contains(name) ==> !is_hop_name(name),
        forall|name: Seq<char>| #[trigger]
            with_client(sanitized(held), ip).dom().contains(name) ==> !is_hop_name(name),
{
    lemma_forwarded_for_name();
}

/// What [`create_proxied_request`] is to return.
pub open spec fn outbound_error(
    forward_url: Seq<char>,
    client_ip: Seq<char>,
    request: InboundRequest,
) -> Option<ProxyError> {
    if !uri_parses(target_of(forward_url, request)) {
        Some(ProxyError::InvalidUpstreamTarget)
    } else if !is_header_value(encode_utf8(client_ip)) {
        Some(ProxyError::InvalidHeaderEncoding)
    } else if !has_room_for(sanitized(header_values(request.headers)), forwarded_for_name()) {
        Some(ProxyError::TooManyHeaders)
    } else {
        None
    }
}

proof fn lemma_forwarded_for_name()
    ensures
        is_header_name("x-forwarded-for"@),
        !is_hop_name("x-forwarded-for"@),
{
    reveal_strlit("x-forwarded-for");
    lemma_hop_literals();
    assert(ascii_lowercase("x-forwarded-for"@)[0] == 'x');
}

/// Builds the request for the upstream: the headers without the
/// connection-scoped ones, the client's address at the end of the
/// forwarded-for chain, and the target rewritten onto the upstream.
///
/// `client_ip` is the caller's address as text.
pub fn create_proxied_request(upstream_url: &str, client_ip: &str, request: InboundRequest) -> (out:
    Result<OutboundRequest, ProxyError>)
    ensures
        match out {
            Ok(outbound) => {
                &&& outbound_error(upstream_url@, client_ip@, request) is None
                &&& outbound.target@ == target_of(upstream_url@, request)
                &&& header_values(outbound.headers) == with_client(
                    sanitized(header_values(request.headers)),
                    encode_utf8(client_ip@),
                )
            },
            Err(e) => outbound_error(upstream_url@, client_ip@, request) == Some(e),
        },
{
    let mut headers = remove_hop_headers(&request.headers);
    let target = match forward_uri(upstream_url, &request) {
        Ok(text) => text,
        Err(e) => {
            return Err(e);
        },
    };
    let ip = client_ip.as_bytes();
    if !can_be_header_value(ip) {
        return Err(ProxyError::InvalidHeaderEncoding);
    }
    proof {
        lemma_forwarded_for_name();
    }
    let name = header_name("x-forwarded-for");
    let existing = match first_header(&headers, &name) {
        Some(held) => Some(value_bytes(held)),
        None => None,
    };
    if existing.is_none() && header_name_count(&headers) >= MAX_NAMES {
        return Err(ProxyError::TooManyHeaders);
    }
    let chain = forwarded_for_value(existing, ip);
    proof {
        lemma_forwarded_for_is_value(first_value(header_values(headers), forwarded_for_name()), ip@);
    }
    let value = header_value(chain.as_slice());
    insert_pair(&mut headers, &name, &value);
    Ok(OutboundRequest { target, headers })
}

/// The forwarded-for value can be carried in a header where the client's
/// address can.
pub proof fn lemma_forwarded_for_is_value(existing: Option<Seq<u8>>, ip: Seq<u8>)
    requires
        is_header_value(ip),
    ensures
        is_header_value(forwarded_for(existing, ip)),
{
    match existing {
        Some(chain) => {
            if is_header_text(chain) {
                let value = extended_chain(chain, ip);
                assert forall|i: int| 0 <= i < value.len() implies crate::headers::is_value_byte(
                    #[trigger] value[i],
                ) by {
                    if i < chain.len() {
                        assert(value[i] == chain[i]);
                        assert(crate::headers::is_text_byte(chain[i]));
                    } else if i >= chain.len() + 2 {
                        assert(value[i] == ip[i - chain.len() - 2]);
                    }
                }
            }
        },
        None => {},
    }
}

/// What the upstream answered, with its body read to the end.
#[derive(Debug)]
pub struct UpstreamResponse {
    /// The status code.
    pub status: u16,
    /// The response's headers.
    pub headers: HeaderMap<HeaderValue>,
    /// The whole body.
    pub body: Vec<u8>,
}

/// What goes back to the client.
#[derive(Debug)]
pub struct ProxiedResponse {
    /// The status code.
    pub status: u16,
    /// The headers to send.
    pub headers: HeaderMap<HeaderValue>,
    /// The body, in the chunks in which it is to be sent.
    pub body: ChunkedBody,
}

/// The status of the response to a request that the proxy could not forward.
pub const STATUS_INTERNAL_ERROR: u16 = 500;

/// The status of the response to a request that the upstream did not answer,
/// or answered with what the proxy cannot pass on.
pub const STATUS_BAD_GATEWAY: u16 = 502;

/// The name of the header by which the proxy marks what passed through it.
pub open spec fn marker_name() -> Seq<char> {
    "x-proxy-by"@
}

/// The value of that header.
pub open spec fn marker_value() -> Seq<u8> {
    encode_utf8("scrooge"@)
}

/// Headers with the proxy's mark added behind any that they carry already.
pub open spec fn marked(held: Map<Seq<char>, Seq<Seq<u8>>>) -> Map<Seq<char>, Seq<Seq<u8>>> {
    held.insert(marker_name(), values_of(held, marker_name()).push(marker_value()))
}

/// Sanitised headers still hold no connection-scoped name once they are
/// marked: what goes to the client declares no length.
pub proof fn lemma_marked_has_no_hop_header(held: Map<Seq<char>, Seq<Seq<u8>>>)
    ensures
        forall|name: Seq<char>| #[trigger]
            marked(sanitized(held)).dom().contains(name) ==> !is_hop_name(name),
        !marked(sanitized(held)).dom().contains("content-length"@),
        marked(sanitized(held)).dom().contains(marker_name()),
        marked(sanitized(held))[marker_name()].last() == marker_value(),
{
    lemma_marker();
    lemma_hop_literals();
}

/// Whether a response is the upstream's as the client gets it: its status
/// kept, its headers sanitised and marked, its body in chunks.
pub open spec fn is_proxied_from(
    proxied: ProxiedResponse,
    upstream: UpstreamResponse,
    max_chunk_size: usize,
) -> bool {
    &&& proxied.status == upstream.status
    &&& header_values(proxied.headers) == marked(sanitized(header_values(upstream.headers)))
    &&& chunk_views(proxied.body.chunks@) == chunks_of(
        upstream.body@,
        max_chunk_size as int,
        valid_utf8(upstream.body@),
    )
    &&& proxied.body.fallback == fallback_of(upstream.body@)
}

/// Whether a result is what the upstream's response becomes: the response
/// for the client where its headers have room for the mark, and
/// `TooManyHeaders` where they have none.
pub open spec fn is_outcome_of(
    out: Result<ProxiedResponse, ProxyError>,
    upstream: UpstreamResponse,
    max_chunk_size: usize,
) -> bool {
    match out {
        Ok(proxied) => has_room_for(sanitized(header_values(upstream.headers)), marker_name())
            && is_proxied_from(proxied, upstream, max_chunk_size),
        Err(e) => e == ProxyError::TooManyHeaders && !has_room_for(
            sanitized(header_values(upstream.headers)),
            marker_name(),
        ),
    }
}

/// Whether a response has the given status, no header and no body.
pub open spec fn is_bare(response: ProxiedResponse, status: u16) -> bool {
    &&& response.status == status
    &&& header_values(response.headers) == crate::headers::no_headers()
    &&& response.body.chunks@.len() == 0
    &&& response.body.fallback is None
}

proof fn lemma_marker()
    ensures
        is_header_name("x-proxy-by"@),
        !is_hop_name("x-proxy-by"@),
        is_header_value(encode_utf8("scrooge"@)),
{
    reveal_strlit("x-proxy-by");
    reveal_strlit("scrooge");
    is_ascii_spec_bytes("scrooge");
    lemma_hop_literals();
    assert(ascii_lowercase("x-proxy-by"@)[0] == 'x');
}

/// Marks headers as having passed through this proxy: adds the mark behind
/// any that they carry already. Fails where they have no room for it.
pub fn mark_headers(headers: HeaderMap<HeaderValue>) -> (out: Result<
    HeaderMap<HeaderValue>,
    ProxyError,
>)
    ensures
        match out {
            Ok(done) => has_room_for(header_values(headers), marker_name()) && header_values(done)
                == marked(header_values(headers)),
            Err(e) => e == ProxyError::TooManyHeaders && !has_room_for(
                header_values(headers),
                marker_name(),
            ),
        },
{
    let mut headers = headers;
    proof {
        lemma_marker();
    }
    let name = header_name("x-proxy-by");
    if first_header(&headers, &name).is_none() && header_name_count(&headers) >= MAX_NAMES {
        return Err(ProxyError::TooManyHeaders);
    }
    let value = header_value("scrooge".as_bytes());
    append_pair(&mut headers, &name, &value);
    Ok(headers)
}

/// Transforms the upstream's response into a chunked one for the client:
/// the connection-scoped headers and the declared length go, the body is cut
/// into chunks of at most `max_chunk_size` bytes, and the response is marked
/// as having passed through this proxy. Fails where the headers have no room
/// for the mark.
pub fn chunk_proxied_response(upstream: UpstreamResponse, max_chunk_size: usize) -> (out: Result<
    ProxiedResponse,
    ProxyError,
>)
    requires
        max_chunk_size > 0,
    ensures
        is_outcome_of(out, upstream, max_chunk_size),
{
    let kept = remove_hop_headers(&upstream.headers);
    let body = rechunk(upstream.body.as_slice(), max_chunk_size);
    match mark_headers(kept) {
        Ok(headers) => Ok(ProxiedResponse { status: upstream.status, headers, body }),
        Err(e) => Err(e),
    }
}

/// Builds the response for the client from the upstream's: first the
/// headers, sanitised and marked, then the body in chunks. Its outcome is
/// that of [`chunk_proxied_response`]; where the headers have no room for
/// the mark, the body is not touched.
pub fn create_proxied_response(upstream: UpstreamResponse, max_chunk_size: usize) -> (out: Result<
    ProxiedResponse,
    ProxyError,
>)
    requires
        max_chunk_size > 0,
    ensures
        is_outcome_of(out, upstream, max_chunk_size),
{
    let headers = match mark_headers(remove_hop_headers(&upstream.headers)) {
        Ok(headers) => headers,
        Err(e) => {
            return Err(e);
        },
    };
    let body = rechunk(upstream.body.as_slice(), max_chunk_size);
    Ok(ProxiedResponse { status: upstream.status, headers, body })
}

/// A response with a status and nothing else.
pub fn bare_response(status: u16) -> (response: ProxiedResponse)
    ensures
        is_bare(response, status),
{
    ProxiedResponse {
        status,
        headers: empty_headers(),
        body: ChunkedBody { chunks: Vec::new(), fallback: None },
    }
}

/// What one connection's requests are proxied with: the upstream, the chunk
/// limit and the caller's address. Nothing in it changes once it is made.
#[derive(Clone, Debug)]
pub struct Client {
    /// The upstream base URL.
    pub forward_to: Arc<String>,
    /// The most bytes that one chunk of a response holds; more than none.
    pub max_chunk_size: usize,
    /// The caller's address, as text.
    pub ip: String,
}

impl Client {
    /// Whether requests can be proxied with it: its chunk limit is not zero.
    pub open spec fn wf(&self) -> bool {
        self.max_chunk_size > 0
    }

    /// Puts the three together.
    pub fn new(forward_to: Arc<String>, max_chunk_size: usize, ip: String) -> (client: Self)
        ensures
            client.forward_to == forward_to,
            client.max_chunk_size == max_chunk_size,
            client.ip == ip,
            client.wf() <==> max_chunk_size > 0,
    {
        Self { forward_to, max_chunk_size, ip }
    }
}

/// What happened that the proxy has to act on.
#[derive(Debug)]
pub enum ProxyEvent {
    /// A request came in.
    Received(InboundRequest),
    /// The upstream answered the forwarded request.
    Answered(UpstreamResponse),
    /// The upstream could not be reached, or the exchange with it broke.
    Failed,
}

/// What is to be done next.
#[derive(Debug)]
pub enum ProxyAction {
    /// Send this request to the upstream, and come back with what it gives.
    Forward(OutboundRequest),
    /// Send this response to the client; the request is done.
    Respond(ProxiedResponse),
}

/// Whether an action is the one that an event calls for.
///
/// A request is forwarded, or where it cannot be, answered with a bare 500.
/// The upstream's answer goes back sanitised, marked and chunked, or where
/// it cannot be marked, as a bare 502. A failure to reach the upstream is
/// answered with a bare 502. Nothing is tried twice.
pub open spec fn is_step(
    forward_url: Seq<char>,
    max_chunk_size: usize,
    client_ip: Seq<char>,
    event: ProxyEvent,
    action: ProxyAction,
) -> bool {
    match event {
        ProxyEvent::Received(request) => match action {
            ProxyAction::Forward(outbound) => {
                &&& outbound_error(forward_url, client_ip, request) is None
                &&& outbound.target@ == target_of(forward_url, request)
                &&& header_values(outbound.headers) == with_client(
                    sanitized(header_values(request.headers)),
                    encode_utf8(client_ip),
                )
            },
            ProxyAction::Respond(response) => {
                &&& outbound_error(forward_url, client_ip, request) is Some
                &&& is_bare(response, STATUS_INTERNAL_ERROR)
            },
        },
        ProxyEvent::Answered(upstream) => match action {
            ProxyAction::Forward(_) => false,
            ProxyAction::Respond(response) => if has_room_for(
                sanitized(header_values(upstream.headers)),
                marker_name(),
            ) {
                is_proxied_from(response, upstream, max_chunk_size)
            } else {
                is_bare(response, STATUS_BAD_GATEWAY)
            },
        },
        ProxyEvent::Failed => match action {
            ProxyAction::Forward(_) => false,
            ProxyAction::Respond(response) => is_bare(response, STATUS_BAD_GATEWAY),
        },
    }
}

/// Decides the next action from an event, for the given upstream, chunk
/// limit and caller.
pub fn proxy_step(forward_url: &str, max_chunk_size: usize, client_ip: &str, event: ProxyEvent) -> (action:
    ProxyAction)
    requires
        max_chunk_size > 0,
    ensures
        is_step(forward_url@, max_chunk_size, client_ip@, event, action),
{
    match event {
        ProxyEvent::Received(request) => match create_proxied_request(
            forward_url,
            client_ip,
            request,
        ) {
            Ok(outbound) => ProxyAction::Forward(outbound),
            Err(_) => ProxyAction::Respond(bare_response(STATUS_INTERNAL_ERROR)),
        },
        ProxyEvent::Answered(upstream) => match chunk_proxied_response(upstream, max_chunk_size) {
            Ok(response) => ProxyAction::Respond(response),
            Err(_) => ProxyAction::Respond(bare_response(STATUS_BAD_GATEWAY)),
        },
        ProxyEvent::Failed => ProxyAction::Respond(bare_response(STATUS_BAD_GATEWAY)),
    }
}

/// Proxies one request, a step at a time: called with the request, it says
/// what to send to the upstream; called again with what came of that, it says
/// what to send to the client.
pub fn proxy_call(client: &Client, event: ProxyEvent) -> (action: ProxyAction)
    requires
        client.wf(),
    ensures
        is_step(client.forward_to@, client.max_chunk_size, client.ip@, event, action),
{
    proxy_step(client.forward_to.as_str(), client.max_chunk_size, client.ip.as_str(), event)
}

} // verus!
