use demogorgon::auth::FrontendAuthType;
use demogorgon::config::Backend;
use demogorgon::config::default_scope_header;
use demogorgon::finish_response;
use demogorgon::http::Header;
use demogorgon::http::Request;
use demogorgon::http::Response;
use demogorgon::proxy::create_proxied_request;
use demogorgon::proxy::create_proxied_response;
use demogorgon::proxy::get_host_from_uri;
use demogorgon::proxy::is_hop_header;
use demogorgon::proxy::remove_hop_headers;
use demogorgon::proxy::request_add_custom_headers;
use demogorgon::proxy::route_suffix;
use demogorgon::scope::ScopeEntry;

fn h(name: &str, value: &str) -> Header {
    Header { name: name.to_string(), value: value.to_string() }
}

fn values_of(headers: &[Header], name: &str) -> Vec<String> {
    headers
        .iter()
        .filter(|h| h.name.eq_ignore_ascii_case(name))
        .map(|h| h.value.clone())
        .collect()
}

fn backend(url: &str) -> Backend {
    Backend {
        cert_auth: None,
        headers: None,
        url: url.to_string(),
        scope: ScopeEntry::try_from("orders:read").unwrap(),
        scope_header: default_scope_header(),
        frontend_auth: FrontendAuthType::NoAuth,
    }
}

fn test_uri_host(uri: &str, host: &str) {
    assert_eq!(get_host_from_uri(uri).unwrap(), host);
}

#[test]
fn host_from_uri() {
    test_uri_host("http://example.com", "example.com");
    test_uri_host("https://example.com", "example.com");
}

#[test]
fn host_from_uri_with_path() {
    test_uri_host("http://example.com/", "example.com");
    test_uri_host("http://example.com/path", "example.com");
    test_uri_host("http://example.com/path/to/foo", "example.com");
    test_uri_host("http://example.com/path/to/foo/", "example.com");
    test_uri_host("https://example.com/", "example.com");
    test_uri_host("https://example.com/path", "example.com");
    test_uri_host("https://example.com/path/to/foo", "example.com");
    test_uri_host("https://example.com/path/to/foo/", "example.com");
}

#[test]
fn host_from_uri_with_query() {
    test_uri_host("http://example.com?bees=true", "example.com");
    test_uri_host("http://example.com/?bees=true", "example.com");
    test_uri_host("https://example.com?bees=true", "example.com");
    test_uri_host("https://example.com/?bees=true", "example.com");
}

#[test]
fn host_from_uri_with_path_and_query() {
    test_uri_host("http://example.com/foo/?bees=true", "example.com");
    test_uri_host("http://example.com/foo/bar/?bees=true", "example.com");
    test_uri_host("https://example.com/foo/?bees=true", "example.com");
    test_uri_host("https://example.com/foo/bar/?bees=true", "example.com");
    test_uri_host("http://example.com/foo?bees=true", "example.com");
    test_uri_host("http://example.com/foo/bar?bees=true", "example.com");
    test_uri_host("https://example.com/foo?bees=true", "example.com");
    test_uri_host("https://example.com/foo/bar?bees=true", "example.com");
}

#[test]
fn host_from_uri_without_host() {
    assert!(get_host_from_uri("/relative/path").is_none());
    assert!(get_host_from_uri("not a uri at all").is_none());
}

#[test]
fn hop_header_names_match_case_insensitively() {
    for name in [
        "Connection",
        "CONNECTION",
        "connection",
        "Keep-Alive",
        "Proxy-Authenticate",
        "proxy-authorization",
        "TE",
        "Trailers",
        "Transfer-Encoding",
        "upgrade",
    ] {
        assert!(is_hop_header(name), "{name} is hop-by-hop");
    }
    for name in ["X-Custom", "Host", "Via", "Authorization", "Content-Type"] {
        assert!(!is_hop_header(name), "{name} is not hop-by-hop");
    }
}

#[test]
fn hop_headers_removed_others_kept() {
    let headers = vec![
        h("Connection", "close"),
        h("X-Custom", "1"),
        h("CONNECTION", "keep-alive"),
        h("Transfer-Encoding", "chunked"),
        h("Content-Type", "text/plain"),
    ];
    let out = remove_hop_headers(&headers);
    assert_eq!(out.len(), 2);
    assert_eq!(out[0].name, "X-Custom");
    assert_eq!(out[0].value, "1");
    assert_eq!(out[1].name, "Content-Type");
}

#[test]
fn route_suffix_drops_first_segment() {
    assert_eq!(route_suffix("/orders/42?x=1"), "/42?x=1");
    assert_eq!(route_suffix("/orders/a/b"), "/a/b");
    assert_eq!(route_suffix("/orders"), "");
    assert_eq!(route_suffix("/orders?x=1"), "");
    assert_eq!(route_suffix("/"), "");
    assert_eq!(route_suffix(""), "");
}

#[test]
fn rewrite_end_to_end() {
    let b = backend("https://up.example/api");
    let req = Request { uri: "/orders/42?x=1".to_string(), headers: vec![h("Accept", "*/*")] };
    let ip = "9.9.9.9".to_string();
    let out = create_proxied_request(&ip, &b, req).unwrap();
    assert_eq!(out.uri, "https://up.example/api/42?x=1");
    assert_eq!(values_of(&out.headers, "host"), vec!["up.example"]);
    assert_eq!(values_of(&out.headers, "via"), vec!["0.1.0 Demogorgon"]);
    assert_eq!(values_of(&out.headers, "x-forwarded-for"), vec!["9.9.9.9"]);
    assert_eq!(values_of(&out.headers, "accept"), vec!["*/*"]);
}

#[test]
fn forwarded_for_appends_to_existing_value() {
    let b = backend("http://up.example");
    let req = Request {
        uri: "/svc/x".to_string(),
        headers: vec![h("X-Forwarded-For", "1.1.1.1")],
    };
    let ip = "2.2.2.2".to_string();
    let out = create_proxied_request(&ip, &b, req).unwrap();
    assert_eq!(values_of(&out.headers, "x-forwarded-for"), vec!["1.1.1.1, 2.2.2.2"]);
}

#[test]
fn request_rewrite_strips_hop_headers() {
    let b = backend("http://up.example");
    let req = Request {
        uri: "/svc/x".to_string(),
        headers: vec![h("CONNECTION", "close"), h("X-Custom", "1")],
    };
    let ip = "3.3.3.3".to_string();
    let out = create_proxied_request(&ip, &b, req).unwrap();
    assert!(values_of(&out.headers, "connection").is_empty());
    assert_eq!(values_of(&out.headers, "x-custom"), vec!["1"]);
}

#[test]
fn request_rewrite_overwrites_client_via_and_host() {
    let b = backend("http://up.example");
    let req = Request {
        uri: "/svc/x".to_string(),
        headers: vec![h("Via", "1.0 someone"), h("Host", "gateway.example")],
    };
    let ip = "3.3.3.3".to_string();
    let out = create_proxied_request(&ip, &b, req).unwrap();
    assert_eq!(values_of(&out.headers, "via"), vec!["0.1.0 Demogorgon"]);
    assert_eq!(values_of(&out.headers, "host"), vec!["up.example"]);
}

#[test]
fn request_rewrite_fails_without_upstream_host() {
    let b = backend("not-a-url");
    let req = Request { uri: "/svc/x".to_string(), headers: vec![] };
    let ip = "3.3.3.3".to_string();
    assert!(create_proxied_request(&ip, &b, req).is_err());
}

#[test]
fn custom_headers_overwrite_client_headers() {
    let mut b = backend("http://up.example");
    b.headers = Some(vec![h("X-From", "gateway"), h("X-Extra", "1")]);
    let req = Request { uri: "/svc/x".to_string(), headers: vec![h("X-From", "client")] };
    let out = request_add_custom_headers(&b, req);
    assert_eq!(values_of(&out.headers, "x-from"), vec!["gateway"]);
    assert_eq!(values_of(&out.headers, "x-extra"), vec!["1"]);
}

#[test]
fn response_rewrite_strips_hop_headers_and_sets_via() {
    let resp = Response {
        status: 200,
        headers: vec![h("Connection", "close"), h("X-Custom", "1"), h("Via", "1.0 upstream")],
    };
    let out = create_proxied_response(resp);
    assert_eq!(out.status, 200);
    assert!(values_of(&out.headers, "connection").is_empty());
    assert_eq!(values_of(&out.headers, "x-custom"), vec!["1"]);
    assert_eq!(values_of(&out.headers, "via"), vec!["0.1.0 Demogorgon"]);
}

#[test]
fn redirect_response_becomes_bad_gateway() {
    for status in [301u16, 302, 303, 307, 308] {
        let resp = Response {
            status,
            headers: vec![h("Location", "http://internal.example/secret"), h("X-Keep", "1")],
        };
        let out = finish_response(resp);
        assert_eq!(out.status, 502);
        assert!(values_of(&out.headers, "location").is_empty());
        assert!(values_of(&out.headers, "x-keep").is_empty());
        assert_eq!(values_of(&out.headers, "via"), vec!["0.1.0 Demogorgon"]);
    }
}

#[test]
fn non_redirect_response_passes_through() {
    let resp = Response { status: 404, headers: vec![h("X-Keep", "1")] };
    let out = finish_response(resp);
    assert_eq!(out.status, 404);
    assert_eq!(values_of(&out.headers, "x-keep"), vec!["1"]);
    assert_eq!(values_of(&out.headers, "via"), vec!["0.1.0 Demogorgon"]);
}
