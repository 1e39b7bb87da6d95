//! The target that a request is forwarded to: the upstream base URL with the
//! request's path and query behind it, taken over as they are.

use crate::error::ProxyError;
use hyper::http::uri::InvalidUri;
use hyper::Uri;
use vstd::prelude::*;
use vstd::string::StringExecFns;

verus! {

#[verifier::external_type_specification]
#[verifier::external_body]
pub struct ExUri(hyper::Uri);

#[verifier::external_type_specification]
#[verifier::external_body]
pub struct ExInvalidUri(hyper::http::uri::InvalidUri);

/// Whether `hyper` reads a text as a URI.
pub uninterp spec fn uri_parses(text: Seq<char>) -> bool;

/// The text of the target: base URL, path and, where the request has one,
/// `?` and the query. Nothing is decoded or encoded.
pub open spec fn forward_target(base: Seq<char>, path: Seq<char>, query: Option<Seq<char>>) -> Seq<
    char,
> {
    match query {
        Some(q) => base + path + seq!['?'] + q,
        None => base + path,
    }
}

/// A query as plain text.
pub open spec fn query_view(query: Option<&str>) -> Option<Seq<char>> {
    match query {
        Some(q) => Some(q@),
        None => None,
    }
}

/// Reads a text as a URI.
///
/// Calls `Uri`'s `FromStr`. What it accepts takes the crate pages to say, so
/// the contract only names it: the call succeeds exactly where
/// [`uri_parses`] holds of the text. Taken on trust.
#[verifier::external_body]
pub(crate) fn parse_uri(text: &str) -> (parsed: Result<Uri, InvalidUri>)
    ensures
        parsed is Ok == uri_parses(text@),
{
    text.parse::<Uri>()
}

/// Puts the target together.
pub fn compose_target(forward_url: &str, path: &str, query: Option<&str>) -> (target: String)
    ensures
        target@ == forward_target(forward_url@, path@, query_view(query)),
{
    let mut target = String::from_str(forward_url);
    target.append(path);
    match query {
        Some(q) => {
            proof {
                reveal_strlit("?");
            }
            target.append("?");
            target.append(q);
            assert(target@ == forward_url@ + path@ + seq!['?'] + q@);
        },
        None => {},
    }
    target
}

/// Keeps a target that reads as a URI and refuses one that does not.
pub fn checked_target(target: String, parses: bool) -> (checked: Result<String, ProxyError>)
    ensures
        parses ==> checked == Ok::<String, ProxyError>(target),
        !parses ==> checked == Err::<String, ProxyError>(ProxyError::InvalidUpstreamTarget),
{
    if parses {
        Ok(target)
    } else {
        Err(ProxyError::InvalidUpstreamTarget)
    }
}

} // verus!
