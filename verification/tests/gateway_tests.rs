use demogorgon::Plan;
use demogorgon::auth::FrontendAuthType;
use demogorgon::canonical_reason;
use demogorgon::config::Auth;
use demogorgon::config::Backend;
use demogorgon::config::Config;
use demogorgon::config::JwtAlgorithm;
use demogorgon::config::default_scope_header;
use demogorgon::http::Header;
use demogorgon::http::Request;
use demogorgon::plan_request;
use demogorgon::route_of_request;
use demogorgon::scope::ScopeEntry;
use demogorgon::tls::PemItem;
use demogorgon::tls::client_cert_from_pem;
use demogorgon::tls::select_client_cert;

fn h(name: &str, value: &str) -> Header {
    Header { name: name.to_string(), value: value.to_string() }
}

fn values_of(headers: &[Header], name: &str) -> Vec<String> {
    headers
        .iter()
        .filter(|h| h.name.eq_ignore_ascii_case(name))
        .map(|h| h.value.clone())
        .collect()
}

fn backend(url: &str, scope: &str) -> Backend {
    Backend {
        cert_auth: None,
        headers: None,
        url: url.to_string(),
        scope: ScopeEntry::try_from(scope).unwrap(),
        scope_header: default_scope_header(),
        frontend_auth: FrontendAuthType::NoAuth,
    }
}

fn plain_auth() -> Auth {
    Auth {
        algorithm: JwtAlgorithm::Es256,
        keyfile: "public_key.pem".to_string(),
        key_pem: Vec::new(),
        issuer: "test-issuer".to_string(),
    }
}

#[test]
fn route_selector_is_first_path_segment() {
    assert_eq!(route_of_request("/orders/42?x=1"), "orders");
    assert_eq!(route_of_request("/orders"), "orders");
    assert_eq!(route_of_request("/orders?x=1"), "orders");
    assert_eq!(route_of_request("/"), "");
    assert_eq!(route_of_request(""), "");
}

#[test]
fn unknown_route_is_not_found() {
    let config = Config { address: "127.0.0.1:4000".to_string(), auth: plain_auth(), backends: vec![] };
    let ip = "1.2.3.4".to_string();
    let req = Request { uri: "/nothing/here".to_string(), headers: vec![] };
    match plan_request(&config, &ip, req) {
        Plan::Respond(resp) => {
            assert_eq!(resp.status, 404);
            assert_eq!(values_of(&resp.headers, "via"), vec!["0.1.0 Demogorgon"]);
        },
        Plan::Forward { .. } => panic!("expected a response"),
    }
}

#[test]
fn known_route_forwards_rewritten_request() {
    let config = Config {
        address: "127.0.0.1:4000".to_string(),
        auth: plain_auth(),
        backends: vec![
            ("orders".to_string(), backend("https://up.example/api", "orders:read")),
            ("other".to_string(), backend("https://other.example", "a:b")),
        ],
    };
    let ip = "1.2.3.4".to_string();
    let req = Request { uri: "/orders/42?x=1".to_string(), headers: vec![h("X-Custom", "1")] };
    match plan_request(&config, &ip, req) {
        Plan::Forward { request, scope, backend } => {
            assert_eq!(backend, 0);
            assert_eq!(scope.render(), "*:*");
            assert_eq!(request.uri, "https://up.example/api/42?x=1");
            assert_eq!(values_of(&request.headers, "host"), vec!["up.example"]);
            assert_eq!(values_of(&request.headers, "x-custom"), vec!["1"]);
            assert_eq!(values_of(&request.headers, "x-forwarded-for"), vec!["1.2.3.4"]);
        },
        Plan::Respond(resp) => panic!("expected forwarding, got status {}", resp.status),
    }
}

#[test]
fn backend_without_usable_url_answers_bad_gateway() {
    let config = Config {
        address: "127.0.0.1:4000".to_string(),
        auth: plain_auth(),
        backends: vec![("svc".to_string(), backend("garbage url", "a:b"))],
    };
    let ip = "1.2.3.4".to_string();
    let req = Request { uri: "/svc/x".to_string(), headers: vec![] };
    match plan_request(&config, &ip, req) {
        Plan::Respond(resp) => assert_eq!(resp.status, 502),
        Plan::Forward { .. } => panic!("expected a response"),
    }
}

#[test]
fn token_route_without_credentials_answers_bad_request() {
    let mut b = backend("https://up.example", "a:b");
    b.frontend_auth = FrontendAuthType::Token;
    let config = Config {
        address: "127.0.0.1:4000".to_string(),
        auth: plain_auth(),
        backends: vec![("svc".to_string(), b)],
    };
    let ip = "1.2.3.4".to_string();
    let req = Request { uri: "/svc/x".to_string(), headers: vec![] };
    match plan_request(&config, &ip, req) {
        Plan::Respond(resp) => {
            assert_eq!(resp.status, 400);
            assert_eq!(values_of(&resp.headers, "via"), vec!["0.1.0 Demogorgon"]);
        },
        Plan::Forward { .. } => panic!("expected a response"),
    }
}

#[test]
fn path_without_a_segment_is_not_found() {
    let config = Config {
        address: "127.0.0.1:4000".to_string(),
        auth: plain_auth(),
        backends: vec![("svc".to_string(), backend("http://up.example", "a:b"))],
    };
    let ip = "1.2.3.4".to_string();
    let req = Request { uri: "/".to_string(), headers: vec![] };
    match plan_request(&config, &ip, req) {
        Plan::Respond(resp) => assert_eq!(resp.status, 404),
        Plan::Forward { .. } => panic!("expected a response"),
    }
}

#[test]
fn lookup_finds_the_named_backend() {
    let config = Config {
        address: "127.0.0.1:4000".to_string(),
        auth: plain_auth(),
        backends: vec![
            ("a".to_string(), backend("http://a.example", "a:a")),
            ("b".to_string(), backend("http://b.example", "b:b")),
        ],
    };
    let (i, b) = config.lookup_backend(&"b".to_string()).unwrap();
    assert_eq!(i, 1);
    assert_eq!(b.url, "http://b.example");
    assert!(config.lookup_backend(&"c".to_string()).is_none());
}

#[test]
fn reason_phrases_for_gateway_statuses() {
    assert_eq!(canonical_reason(400), "Bad Request");
    assert_eq!(canonical_reason(401), "Unauthorized");
    assert_eq!(canonical_reason(403), "Forbidden");
    assert_eq!(canonical_reason(404), "Not Found");
    assert_eq!(canonical_reason(502), "Bad Gateway");
    assert_eq!(canonical_reason(504), "Gateway Timeout");
    assert_eq!(canonical_reason(200), "");
}

#[test]
fn default_scope_header_name() {
    assert_eq!(default_scope_header(), "X-Demogorgon-Scope");
}

#[test]
fn select_client_cert_takes_all_certs_and_the_one_key() {
    let items = vec![
        PemItem::Cert(vec![1, 2]),
        PemItem::Other,
        PemItem::Key(vec![3]),
        PemItem::Cert(vec![4]),
    ];
    let (certs, key) = select_client_cert(&items).unwrap();
    assert_eq!(certs, vec![vec![1, 2], vec![4]]);
    assert_eq!(key, vec![3]);
}

#[test]
fn select_client_cert_rejects_zero_or_many_keys() {
    let none = vec![PemItem::Cert(vec![1])];
    assert_eq!(select_client_cert(&none).unwrap_err(), "Missing private key.");
    let two = vec![PemItem::Key(vec![1]), PemItem::Cert(vec![2]), PemItem::Key(vec![3])];
    assert_eq!(select_client_cert(&two).unwrap_err(), "Multiple private keys.");
}

#[test]
fn client_cert_from_pem_reads_a_real_bundle() {
    let key = rcgen::KeyPair::generate().unwrap();
    let params = rcgen::CertificateParams::new(vec!["client.example".to_string()]).unwrap();
    let cert = params.self_signed(&key).unwrap();
    let bundle = format!("{}{}", cert.pem(), key.serialize_pem());
    let (certs, privkey) = client_cert_from_pem(&bundle.into_bytes()).unwrap();
    assert_eq!(certs.len(), 1);
    assert!(!privkey.is_empty());
}

#[test]
fn client_cert_from_pem_rejects_a_bundle_without_a_key() {
    let key = rcgen::KeyPair::generate().unwrap();
    let params = rcgen::CertificateParams::new(vec!["client.example".to_string()]).unwrap();
    let cert = params.self_signed(&key).unwrap();
    let bundle = cert.pem();
    assert_eq!(client_cert_from_pem(&bundle.into_bytes()).unwrap_err(), "Missing private key.");
}

#[test]
fn client_cert_from_pem_rejects_two_keys() {
    let key = rcgen::KeyPair::generate().unwrap();
    let other = rcgen::KeyPair::generate().unwrap();
    let bundle = format!("{}{}", key.serialize_pem(), other.serialize_pem());
    assert_eq!(client_cert_from_pem(&bundle.into_bytes()).unwrap_err(), "Multiple private keys.");
}
