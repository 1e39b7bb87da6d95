use hyper::header::{HeaderName, HeaderValue};
use hyper::HeaderMap;
use scrooge::error::ProxyError;
use scrooge::headers::{can_be_header_value, reads_as_text};
use scrooge::proxy::{
    bare_response, chunk_proxied_response, create_proxied_request, create_proxied_response,
    extend_forwarded_for, forward_uri, forwarded_for_value, is_hop_header, mark_headers,
    proxy_call, proxy_step, remove_hop_headers, Client, InboundRequest, ProxyAction, ProxyEvent,
    UpstreamResponse,
};
use scrooge::target::{checked_target, compose_target};
use scrooge::Config;
use std::sync::Arc;

fn headers_of(pairs: &[(&str, &str)]) -> HeaderMap {
    let mut map = HeaderMap::new();
    for (name, value) in pairs {
        map.append(
            HeaderName::from_bytes(name.as_bytes()).unwrap(),
            HeaderValue::from_str(value).unwrap(),
        );
    }
    map
}

fn values(map: &HeaderMap, name: &str) -> Vec<Vec<u8>> {
    map.get_all(name).iter().map(|v| v.as_bytes().to_vec()).collect()
}

fn request(path: &str, query: Option<&str>, pairs: &[(&str, &str)]) -> InboundRequest {
    InboundRequest {
        path: path.to_string(),
        query: query.map(|q| q.to_string()),
        headers: headers_of(pairs),
    }
}

fn client(forward_to: &str, max_chunk_size: usize, ip: &str) -> Client {
    Client::new(Arc::new(forward_to.to_string()), max_chunk_size, ip.to_string())
}

#[test]
fn hop_headers_are_known_in_any_case() {
    for name in [
        "Connection",
        "Keep-Alive",
        "Proxy-Authenticate",
        "Proxy-Authorization",
        "Te",
        "Trailers",
        "Transfer-Encoding",
        "Upgrade",
        "Content-Length",
    ] {
        assert!(is_hop_header(name));
        assert!(is_hop_header(&name.to_lowercase()));
        assert!(is_hop_header(&name.to_uppercase()));
    }
}

#[test]
fn other_headers_are_no_hop_headers() {
    for name in ["host", "accept", "content-type", "connection2", "t", "", "upgrad", "x-forwarded-for"] {
        assert!(!is_hop_header(name));
    }
    assert!(!is_hop_header("\u{212a}eep-alive"));
}

#[test]
fn filter_drops_every_hop_header() {
    let inbound = headers_of(&[
        ("Connection", "keep-alive"),
        ("Keep-Alive", "timeout=5"),
        ("Proxy-Authenticate", "Basic"),
        ("Proxy-Authorization", "Basic abc"),
        ("TE", "trailers"),
        ("Trailers", "x"),
        ("Transfer-Encoding", "chunked"),
        ("Upgrade", "h2c"),
        ("Content-Length", "12"),
        ("Host", "up.example"),
        ("Accept", "*/*"),
    ]);
    let kept = remove_hop_headers(&inbound);
    for name in [
        "connection",
        "keep-alive",
        "proxy-authenticate",
        "proxy-authorization",
        "te",
        "trailers",
        "transfer-encoding",
        "upgrade",
        "content-length",
    ] {
        assert!(!kept.contains_key(name));
    }
    assert_eq!(kept.keys_len(), 2);
    assert_eq!(values(&kept, "host"), vec![b"up.example".to_vec()]);
    assert_eq!(values(&kept, "accept"), vec![b"*/*".to_vec()]);
}

#[test]
fn filter_keeps_every_value_of_a_name_in_order() {
    let inbound = headers_of(&[
        ("Set-Cookie", "a=1"),
        ("Accept", "text/html"),
        ("Set-Cookie", "b=2"),
        ("Connection", "close"),
        ("Set-Cookie", "c=3"),
        ("Connection", "upgrade"),
    ]);
    let kept = remove_hop_headers(&inbound);
    assert_eq!(values(&kept, "set-cookie"), vec![b"a=1".to_vec(), b"b=2".to_vec(), b"c=3".to_vec()]);
    assert_eq!(values(&kept, "accept"), vec![b"text/html".to_vec()]);
    assert_eq!(kept.len(), 4);
    assert_eq!(inbound.len(), 6);
}

#[test]
fn filter_passes_values_that_are_no_text() {
    let mut inbound = HeaderMap::new();
    inbound.insert("x-blob", HeaderValue::from_bytes(&[0x80, 0xff, 0x09]).unwrap());
    let kept = remove_hop_headers(&inbound);
    assert_eq!(values(&kept, "x-blob"), vec![vec![0x80, 0xff, 0x09]]);
}

#[test]
fn filter_of_nothing_is_nothing() {
    let kept = remove_hop_headers(&HeaderMap::new());
    assert!(kept.is_empty());
}

#[test]
fn target_with_query() {
    assert_eq!(
        compose_target("http://up.example:8888", "/a/b", Some("x=1")),
        "http://up.example:8888/a/b?x=1"
    );
    let req = request("/a/b", Some("x=1"), &[]);
    assert_eq!(
        forward_uri("http://up.example:8888", &req),
        Ok("http://up.example:8888/a/b?x=1".to_string())
    );
}

#[test]
fn target_without_query() {
    assert_eq!(compose_target("http://up.example:8888", "/a/b", None), "http://up.example:8888/a/b");
    let req = request("/a/b", None, &[]);
    assert_eq!(
        forward_uri("http://up.example:8888", &req),
        Ok("http://up.example:8888/a/b".to_string())
    );
}

#[test]
fn target_is_not_decoded_or_encoded() {
    let req = request("/a%20b/%C3%A9", Some("q=%2F&r=a+b"), &[]);
    assert_eq!(
        forward_uri("http://up.example", &req),
        Ok("http://up.example/a%20b/%C3%A9?q=%2F&r=a+b".to_string())
    );
}

#[test]
fn target_that_is_no_uri_is_refused() {
    let req = request("/a", None, &[]);
    assert_eq!(forward_uri("http://bad host", &req), Err(ProxyError::InvalidUpstreamTarget));
    assert_eq!(forward_uri("", &request("", None, &[])), Err(ProxyError::InvalidUpstreamTarget));
}

#[test]
fn checked_target_goes_by_its_flag() {
    assert_eq!(checked_target("http://x/".to_string(), true), Ok("http://x/".to_string()));
    assert_eq!(
        checked_target("http://x/".to_string(), false),
        Err(ProxyError::InvalidUpstreamTarget)
    );
}

#[test]
fn forwarded_for_is_set_where_absent() {
    let req = request("/", None, &[("Host", "a.example")]);
    let out = create_proxied_request("http://up.example:8888", "203.0.113.7", req).unwrap();
    assert_eq!(values(&out.headers, "x-forwarded-for"), vec![b"203.0.113.7".to_vec()]);
    assert_eq!(values(&out.headers, "host"), vec![b"a.example".to_vec()]);
    assert_eq!(out.target, "http://up.example:8888/");
}

#[test]
fn forwarded_for_is_extended_where_present() {
    let req = request("/", None, &[("X-Forwarded-For", "198.51.100.1")]);
    let out = create_proxied_request("http://up.example:8888", "203.0.113.7", req).unwrap();
    assert_eq!(
        values(&out.headers, "x-forwarded-for"),
        vec![b"198.51.100.1, 203.0.113.7".to_vec()]
    );
}

#[test]
fn forwarded_for_chain_keeps_its_order() {
    let req = request("/", None, &[("x-forwarded-for", "198.51.100.1, 192.0.2.9")]);
    let out = create_proxied_request("http://up.example", "2001:db8::1", req).unwrap();
    assert_eq!(
        values(&out.headers, "x-forwarded-for"),
        vec![b"198.51.100.1, 192.0.2.9, 2001:db8::1".to_vec()]
    );
}

#[test]
fn forwarded_for_goes_by_the_first_of_several_values() {
    let req = request(
        "/",
        None,
        &[("x-forwarded-for", "198.51.100.1"), ("x-forwarded-for", "192.0.2.9")],
    );
    let out = create_proxied_request("http://up.example", "203.0.113.7", req).unwrap();
    assert_eq!(
        values(&out.headers, "x-forwarded-for"),
        vec![b"198.51.100.1, 203.0.113.7".to_vec()]
    );
}

#[test]
fn forwarded_for_that_is_no_text_is_replaced() {
    let mut headers = HeaderMap::new();
    headers.insert("x-forwarded-for", HeaderValue::from_bytes(&[0x31, 0xff, 0x32]).unwrap());
    let req = InboundRequest { path: "/".to_string(), query: None, headers };
    let out = create_proxied_request("http://up.example", "203.0.113.7", req).unwrap();
    assert_eq!(values(&out.headers, "x-forwarded-for"), vec![b"203.0.113.7".to_vec()]);
}

#[test]
fn extend_forwarded_for_refuses_what_is_no_text() {
    assert_eq!(extend_forwarded_for(b"10.0.0.1", b"10.0.0.2"), Ok(b"10.0.0.1, 10.0.0.2".to_vec()));
    assert_eq!(extend_forwarded_for(b"", b"10.0.0.2"), Ok(b", 10.0.0.2".to_vec()));
    assert_eq!(
        extend_forwarded_for(&[0x31, 0x80], b"10.0.0.2"),
        Err(ProxyError::InvalidHeaderEncoding)
    );
    assert_eq!(
        extend_forwarded_for(&[0x31, 0x7f], b"10.0.0.2"),
        Err(ProxyError::InvalidHeaderEncoding)
    );
}

#[test]
fn forwarded_for_value_covers_the_three_cases() {
    assert_eq!(forwarded_for_value(None, b"10.0.0.2"), b"10.0.0.2".to_vec());
    assert_eq!(
        forwarded_for_value(Some(&b"10.0.0.1"[..]), b"10.0.0.2"),
        b"10.0.0.1, 10.0.0.2".to_vec()
    );
    assert_eq!(forwarded_for_value(Some(&[0x00][..]), b"10.0.0.2"), b"10.0.0.2".to_vec());
}

#[test]
fn outbound_request_has_no_hop_header() {
    let req = request(
        "/x",
        Some("y=2"),
        &[
            ("Connection", "close"),
            ("Content-Length", "3"),
            ("Transfer-Encoding", "chunked"),
            ("Accept", "*/*"),
        ],
    );
    let out = create_proxied_request("http://up.example", "203.0.113.7", req).unwrap();
    assert_eq!(out.target, "http://up.example/x?y=2");
    assert_eq!(out.headers.keys_len(), 2);
    assert!(out.headers.contains_key("accept"));
    assert!(out.headers.contains_key("x-forwarded-for"));
}

#[test]
fn bad_target_comes_before_everything_else() {
    let req = request("/a", None, &[]);
    assert_eq!(
        create_proxied_request("http://bad host", "bad\nip", req).err(),
        Some(ProxyError::InvalidUpstreamTarget)
    );
}

#[test]
fn client_address_that_no_header_can_carry_is_refused() {
    let req = request("/a", None, &[]);
    assert_eq!(
        create_proxied_request("http://up.example", "203.0.113.7\r\nx: y", req).err(),
        Some(ProxyError::InvalidHeaderEncoding)
    );
}

#[test]
fn full_header_map_has_no_room_for_forwarded_for() {
    let mut headers = HeaderMap::new();
    for i in 0..32768 {
        headers.insert(
            HeaderName::from_bytes(format!("x-h{}", i).as_bytes()).unwrap(),
            HeaderValue::from_static("v"),
        );
    }
    assert_eq!(headers.keys_len(), 32768);
    let req = InboundRequest { path: "/".to_string(), query: None, headers };
    assert_eq!(
        create_proxied_request("http://up.example", "203.0.113.7", req).err(),
        Some(ProxyError::TooManyHeaders)
    );
}

#[test]
fn full_header_map_with_forwarded_for_has_room() {
    let mut headers = HeaderMap::new();
    headers.insert("x-forwarded-for", HeaderValue::from_static("198.51.100.1"));
    headers.insert("connection", HeaderValue::from_static("close"));
    for i in 0..32766 {
        headers.insert(
            HeaderName::from_bytes(format!("x-h{}", i).as_bytes()).unwrap(),
            HeaderValue::from_static("v"),
        );
    }
    assert_eq!(headers.keys_len(), 32768);
    let req = InboundRequest { path: "/".to_string(), query: None, headers };
    let out = create_proxied_request("http://up.example", "203.0.113.7", req).unwrap();
    assert_eq!(out.headers.keys_len(), 32767);
    assert_eq!(
        values(&out.headers, "x-forwarded-for"),
        vec![b"198.51.100.1, 203.0.113.7".to_vec()]
    );
}

#[test]
fn header_value_checks() {
    assert!(can_be_header_value(b"text/html; q=0.9"));
    assert!(can_be_header_value(&[0x09, 0x20, 0x7e, 0x80, 0xff]));
    assert!(can_be_header_value(b""));
    assert!(!can_be_header_value(&[0x7f]));
    assert!(!can_be_header_value(b"a\nb"));
    assert!(!can_be_header_value(&[0x00]));
    assert!(reads_as_text(b"text/html\t; q=0.9"));
    assert!(reads_as_text(b""));
    assert!(!reads_as_text(&[0x80]));
    assert!(!reads_as_text(&[0x7f]));
    assert!(!reads_as_text(&[0x1f]));
}

#[test]
fn chunked_response_has_no_length_and_is_marked() {
    let answered = UpstreamResponse {
        status: 200,
        headers: headers_of(&[("Content-Length", "6"), ("Content-Type", "text/plain")]),
        body: b"abcdef".to_vec(),
    };
    let chunked = chunk_proxied_response(answered, 4).ok().unwrap();
    assert_eq!(chunked.status, 200);
    assert!(!chunked.headers.contains_key("content-length"));
    assert_eq!(values(&chunked.headers, "x-proxy-by"), vec![b"scrooge".to_vec()]);
    assert_eq!(values(&chunked.headers, "content-type"), vec![b"text/plain".to_vec()]);
    assert_eq!(chunked.headers.keys_len(), 2);
    assert_eq!(chunked.body.chunks, vec![b"abcd".to_vec(), b"ef".to_vec()]);
}

#[test]
fn chunked_response_without_headers_has_the_mark_alone() {
    let answered = UpstreamResponse { status: 204, headers: HeaderMap::new(), body: Vec::new() };
    let chunked = chunk_proxied_response(answered, 4).ok().unwrap();
    assert_eq!(chunked.status, 204);
    assert_eq!(chunked.headers.len(), 1);
    assert_eq!(values(&chunked.headers, "x-proxy-by"), vec![b"scrooge".to_vec()]);
    assert!(chunked.body.chunks.is_empty());
}

#[test]
fn chunked_response_with_full_headers_has_no_room_for_the_mark() {
    let mut headers = HeaderMap::new();
    for i in 0..32768 {
        headers.insert(
            HeaderName::from_bytes(format!("x-h{}", i).as_bytes()).unwrap(),
            HeaderValue::from_static("v"),
        );
    }
    let answered = UpstreamResponse { status: 200, headers, body: b"x".to_vec() };
    assert_eq!(chunk_proxied_response(answered, 8).err(), Some(ProxyError::TooManyHeaders));
}

#[test]
fn both_response_builders_agree() {
    let pairs = [("Connection", "close"), ("X-Proxy-By", "other"), ("Content-Type", "text/plain")];
    let body = "a\u{e9}b\u{20ac}c".as_bytes().to_vec();
    let one = chunk_proxied_response(
        UpstreamResponse { status: 201, headers: headers_of(&pairs), body: body.clone() },
        3,
    )
    .ok()
    .unwrap();
    let other = create_proxied_response(
        UpstreamResponse { status: 201, headers: headers_of(&pairs), body },
        3,
    )
    .ok()
    .unwrap();
    assert_eq!(one.status, other.status);
    assert_eq!(one.headers, other.headers);
    assert_eq!(one.body.chunks, other.body.chunks);
    assert_eq!(one.body.fallback, other.body.fallback);
    assert_eq!(values(&one.headers, "x-proxy-by"), vec![b"other".to_vec(), b"scrooge".to_vec()]);
}

#[test]
fn mark_is_added_behind_what_is_there() {
    let marked = mark_headers(HeaderMap::new()).ok().unwrap();
    assert_eq!(marked.len(), 1);
    assert_eq!(values(&marked, "x-proxy-by"), vec![b"scrooge".to_vec()]);
    let marked = mark_headers(headers_of(&[("x-proxy-by", "a"), ("accept", "*/*")])).ok().unwrap();
    assert_eq!(values(&marked, "x-proxy-by"), vec![b"a".to_vec(), b"scrooge".to_vec()]);
    assert_eq!(values(&marked, "accept"), vec![b"*/*".to_vec()]);
}

#[test]
fn mark_needs_room() {
    let mut headers = HeaderMap::new();
    for i in 0..32768 {
        headers.insert(
            HeaderName::from_bytes(format!("x-h{}", i).as_bytes()).unwrap(),
            HeaderValue::from_static("v"),
        );
    }
    assert_eq!(mark_headers(headers).err(), Some(ProxyError::TooManyHeaders));
    let mut headers = HeaderMap::new();
    headers.insert("x-proxy-by", HeaderValue::from_static("other"));
    for i in 0..32767 {
        headers.insert(
            HeaderName::from_bytes(format!("x-h{}", i).as_bytes()).unwrap(),
            HeaderValue::from_static("v"),
        );
    }
    let marked = mark_headers(headers).ok().unwrap();
    assert_eq!(marked.keys_len(), 32768);
    assert_eq!(values(&marked, "x-proxy-by"), vec![b"other".to_vec(), b"scrooge".to_vec()]);
}

/// A name of 64 bytes or more that the map took without testing its bytes.
fn odd_name() -> String {
    format!("x-odd name{}", "-".repeat(60))
}

#[test]
fn filter_passes_a_name_that_the_map_took_untested() {
    let mut inbound = HeaderMap::new();
    inbound.entry(odd_name().as_str()).unwrap().or_insert(HeaderValue::from_static("kept"));
    inbound.insert("connection", HeaderValue::from_static("close"));
    let stored: Vec<String> = inbound.keys().map(|name| name.as_str().to_string()).collect();
    assert!(stored.iter().any(|name| name.contains('\0')));
    let kept = remove_hop_headers(&inbound);
    assert_eq!(kept.keys_len(), 1);
    let (name, value) = kept.iter().next().unwrap();
    assert_eq!(name.as_str(), odd_name().replace(' ', "\0"));
    assert_eq!(value.as_bytes(), b"kept");
}

#[test]
fn filter_passes_a_value_made_of_such_a_name() {
    let mut scratch = HeaderMap::new();
    scratch.entry(odd_name().as_str()).unwrap().or_insert(HeaderValue::from_static("v"));
    let name = scratch.keys().next().unwrap().clone();
    let value = HeaderValue::from_name(name);
    assert!(value.as_bytes().contains(&0));
    let mut inbound = HeaderMap::new();
    inbound.insert("x-odd", value.clone());
    let kept = remove_hop_headers(&inbound);
    assert_eq!(kept.get("x-odd"), Some(&value));
}

#[test]
fn filter_keeps_a_value_sensitive() {
    let mut secret = HeaderValue::from_static("token");
    secret.set_sensitive(true);
    let mut inbound = HeaderMap::new();
    inbound.insert("authorization", secret);
    inbound.insert("accept", HeaderValue::from_static("*/*"));
    let kept = remove_hop_headers(&inbound);
    assert!(kept.get("authorization").unwrap().is_sensitive());
    assert!(!kept.get("accept").unwrap().is_sensitive());
}

#[test]
fn request_with_an_untested_name_is_forwarded() {
    let mut headers = HeaderMap::new();
    headers.entry(odd_name().as_str()).unwrap().or_insert(HeaderValue::from_static("kept"));
    headers.insert("x-forwarded-for", HeaderValue::from_static("198.51.100.1"));
    let req = InboundRequest { path: "/".to_string(), query: None, headers };
    let out = create_proxied_request("http://up.example", "203.0.113.7", req).unwrap();
    assert_eq!(out.headers.keys_len(), 2);
    assert_eq!(
        values(&out.headers, "x-forwarded-for"),
        vec![b"198.51.100.1, 203.0.113.7".to_vec()]
    );
}

#[test]
fn proxied_response_is_marked() {
    let answered = UpstreamResponse {
        status: 404,
        headers: headers_of(&[("Connection", "close"), ("Content-Type", "text/plain")]),
        body: b"gone".to_vec(),
    };
    let proxied = create_proxied_response(answered, 1000).ok().unwrap();
    assert_eq!(proxied.status, 404);
    assert_eq!(values(&proxied.headers, "x-proxy-by"), vec![b"scrooge".to_vec()]);
    assert!(!proxied.headers.contains_key("connection"));
    assert_eq!(proxied.headers.keys_len(), 2);
    assert_eq!(proxied.body.chunks, vec![b"gone".to_vec()]);
}

#[test]
fn mark_comes_behind_a_mark_that_is_there() {
    let answered = UpstreamResponse {
        status: 200,
        headers: headers_of(&[("X-Proxy-By", "other")]),
        body: Vec::new(),
    };
    let proxied = create_proxied_response(answered, 8).ok().unwrap();
    assert_eq!(values(&proxied.headers, "x-proxy-by"), vec![b"other".to_vec(), b"scrooge".to_vec()]);
    assert!(proxied.body.chunks.is_empty());
}

#[test]
fn response_that_is_no_text_says_so() {
    let answered =
        UpstreamResponse { status: 200, headers: HeaderMap::new(), body: vec![0xff, 0xfe, 0x00] };
    let proxied = create_proxied_response(answered, 2).ok().unwrap();
    assert_eq!(proxied.body.chunks, vec![vec![0xff, 0xfe], vec![0x00]]);
    assert_eq!(proxied.body.fallback, Some(ProxyError::NonUtf8Body));
}

#[test]
fn full_response_headers_have_no_room_for_the_mark() {
    let mut headers = HeaderMap::new();
    for i in 0..32768 {
        headers.insert(
            HeaderName::from_bytes(format!("x-h{}", i).as_bytes()).unwrap(),
            HeaderValue::from_static("v"),
        );
    }
    let answered = UpstreamResponse { status: 200, headers, body: b"x".to_vec() };
    assert_eq!(create_proxied_response(answered, 8).err(), Some(ProxyError::TooManyHeaders));
}

#[test]
fn bare_response_has_only_a_status() {
    let response = bare_response(502);
    assert_eq!(response.status, 502);
    assert!(response.headers.is_empty());
    assert!(response.body.chunks.is_empty());
    assert_eq!(response.body.fallback, None);
}

#[test]
fn status_request_end_to_end() {
    let client = client("http://up.example:8888", 1000, "203.0.113.7");
    let inbound = request("/status", None, &[("Host", "proxy.example"), ("Connection", "close")]);
    let outbound = match proxy_call(&client, ProxyEvent::Received(inbound)) {
        ProxyAction::Forward(outbound) => outbound,
        ProxyAction::Respond(_) => panic!("the request was not forwarded"),
    };
    assert_eq!(outbound.target, "http://up.example:8888/status");
    assert!(!outbound.headers.contains_key("connection"));
    assert_eq!(values(&outbound.headers, "x-forwarded-for"), vec![b"203.0.113.7".to_vec()]);

    let body: Vec<u8> = (0..3200).map(|i| b'0' + (i % 10) as u8).collect();
    let upstream = UpstreamResponse {
        status: 200,
        headers: headers_of(&[("Content-Length", "3200"), ("Content-Type", "text/plain")]),
        body: body.clone(),
    };
    let response = match proxy_call(&client, ProxyEvent::Answered(upstream)) {
        ProxyAction::Respond(response) => response,
        ProxyAction::Forward(_) => panic!("the response was not handed back"),
    };
    assert_eq!(response.status, 200);
    assert_eq!(response.body.chunks.len(), 4);
    let lengths: Vec<usize> = response.body.chunks.iter().map(|c| c.len()).collect();
    assert_eq!(lengths, vec![1000, 1000, 1000, 200]);
    assert_eq!(response.body.chunks.concat(), body);
    assert!(!response.headers.contains_key("content-length"));
    assert_eq!(values(&response.headers, "content-type"), vec![b"text/plain".to_vec()]);
    assert_eq!(values(&response.headers, "x-proxy-by"), vec![b"scrooge".to_vec()]);
}

#[test]
fn unreachable_upstream_gives_bad_gateway() {
    let client = client("http://up.example:8888", 1000, "203.0.113.7");
    for _ in 0..2 {
        let response = match proxy_call(&client, ProxyEvent::Failed) {
            ProxyAction::Respond(response) => response,
            ProxyAction::Forward(_) => panic!("a failure was forwarded"),
        };
        assert_eq!(response.status, 502);
        assert!(response.body.chunks.is_empty());
        assert!(response.headers.is_empty());
        let inbound = request("/status", None, &[]);
        assert!(matches!(
            proxy_call(&client, ProxyEvent::Received(inbound)),
            ProxyAction::Forward(_)
        ));
    }
}

#[test]
fn bad_upstream_url_gives_internal_error() {
    let client = client("http://bad host", 1000, "203.0.113.7");
    let inbound = request("/status", None, &[("Host", "proxy.example")]);
    let response = match proxy_call(&client, ProxyEvent::Received(inbound)) {
        ProxyAction::Respond(response) => response,
        ProxyAction::Forward(_) => panic!("a bad target was forwarded"),
    };
    assert_eq!(response.status, 500);
    assert!(response.body.chunks.is_empty());
    assert!(response.headers.is_empty());
}

#[test]
fn unmarkable_response_gives_bad_gateway() {
    let mut headers = HeaderMap::new();
    for i in 0..32768 {
        headers.insert(
            HeaderName::from_bytes(format!("x-h{}", i).as_bytes()).unwrap(),
            HeaderValue::from_static("v"),
        );
    }
    let upstream = UpstreamResponse { status: 200, headers, body: b"x".to_vec() };
    let response = match proxy_step("http://up.example", 8, "203.0.113.7", ProxyEvent::Answered(upstream)) {
        ProxyAction::Respond(response) => response,
        ProxyAction::Forward(_) => panic!("a response was forwarded"),
    };
    assert_eq!(response.status, 502);
    assert!(response.headers.is_empty());
    assert!(response.body.chunks.is_empty());
}

#[test]
fn client_keeps_what_it_is_given() {
    let forward_to = Arc::new("http://up.example".to_string());
    let made = Client::new(forward_to.clone(), 64, "203.0.113.7".to_string());
    assert!(Arc::ptr_eq(&made.forward_to, &forward_to));
    assert_eq!(made.max_chunk_size, 64);
    assert_eq!(made.ip, "203.0.113.7");
}

#[test]
fn configuration_is_built_step_by_step() {
    let config = Config::new()
        .with_upstream("http://up.example:8888".to_string())
        .with_max_chunk_size(3);
    let inbound = request("/a/b", Some("x=1"), &[]);
    let outbound = match scrooge::proxy_call(&config, "203.0.113.7", ProxyEvent::Received(inbound)) {
        ProxyAction::Forward(outbound) => outbound,
        ProxyAction::Respond(_) => panic!("the request was not forwarded"),
    };
    assert_eq!(outbound.target, "http://up.example:8888/a/b?x=1");
    let upstream = UpstreamResponse { status: 200, headers: HeaderMap::new(), body: b"abcdefg".to_vec() };
    let response = match scrooge::proxy_call(&config, "203.0.113.7", ProxyEvent::Answered(upstream)) {
        ProxyAction::Respond(response) => response,
        ProxyAction::Forward(_) => panic!("the response was not handed back"),
    };
    assert_eq!(response.body.chunks, vec![b"abc".to_vec(), b"def".to_vec(), b"g".to_vec()]);
}

#[test]
fn later_settings_replace_earlier_ones() {
    let config = Config::new()
        .with_max_chunk_size(1)
        .with_upstream("http://old.example".to_string())
        .with_upstream("http://new.example".to_string())
        .with_max_chunk_size(2);
    let inbound = request("/", None, &[]);
    let outbound = match scrooge::proxy_call(&config, "203.0.113.7", ProxyEvent::Received(inbound)) {
        ProxyAction::Forward(outbound) => outbound,
        ProxyAction::Respond(_) => panic!("the request was not forwarded"),
    };
    assert_eq!(outbound.target, "http://new.example/");
    let upstream = UpstreamResponse { status: 200, headers: HeaderMap::new(), body: b"abc".to_vec() };
    let response = match scrooge::proxy_call(&config, "203.0.113.7", ProxyEvent::Answered(upstream)) {
        ProxyAction::Respond(response) => response,
        ProxyAction::Forward(_) => panic!("the response was not handed back"),
    };
    assert_eq!(response.body.chunks, vec![b"ab".to_vec(), b"c".to_vec()]);
}
