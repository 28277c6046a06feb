use davgate::handler::screen_request;
use davgate::request::{header_from, GatewayRequest};
use davgate::response::{from_engine, DavAuthError};
use davgate::router::{route, stripped_path};
use davgate::token::basic_auth_header;

#[test]
fn route_carries_matching_prefix() {
    let prefix = Some(String::from("/dav"));
    let d = route(&prefix, "/dav/foo.txt");
    assert_eq!(d.strip_prefix.as_deref(), Some("/dav"));
}

#[test]
fn route_without_match_carries_nothing() {
    let prefix = Some(String::from("/dav"));
    assert!(route(&prefix, "/other/foo.txt").strip_prefix.is_none());
    assert!(route(&None, "/dav/foo.txt").strip_prefix.is_none());
}

#[test]
fn stripping_prefix_yields_engine_path() {
    assert_eq!(stripped_path("/dav/foo.txt", "/dav").as_deref(), Some("/foo.txt"));
    assert_eq!(stripped_path("/dav", "/dav").as_deref(), Some(""));
    assert!(stripped_path("/other/foo.txt", "/dav").is_none());
}

#[test]
fn authenticated_request_reaches_routing() {
    let token = basic_auth_header("testuser", "testpassword");
    let req = GatewayRequest {
        path: String::from("/dav/foo.txt"),
        headers: vec![header_from("Authorization", token.as_bytes())],
    };
    let prefix = Some(String::from("/dav"));
    let d = screen_request(&req, &token, &prefix).ok().unwrap();
    assert_eq!(d.strip_prefix.as_deref(), Some("/dav"));
    assert_eq!(
        stripped_path(&req.path, d.strip_prefix.as_deref().unwrap()).as_deref(),
        Some("/foo.txt")
    );
}

#[test]
fn unauthenticated_request_short_circuits() {
    let token = basic_auth_header("testuser", "testpassword");
    let req = GatewayRequest {
        path: String::from("/dav/foo.txt"),
        headers: vec![header_from("Authorization", b"Basic wrong")],
    };
    let prefix = Some(String::from("/dav"));
    assert!(matches!(
        screen_request(&req, &token, &prefix),
        Err(DavAuthError::DavAuthError)
    ));
}

#[test]
fn engine_response_passes_through_unchanged() {
    let headers = vec![header_from("DAV", b"1,2"), header_from("Content-Type", b"application/xml")];
    let body = b"<multistatus/>".to_vec();
    let r = from_engine(207, headers, body);
    assert_eq!(r.status, 207);
    assert_eq!(r.headers.len(), 2);
    assert_eq!(r.headers[0].name, b"DAV".to_vec());
    assert_eq!(r.headers[0].value, b"1,2".to_vec());
    assert_eq!(r.headers[1].name, b"Content-Type".to_vec());
    assert_eq!(r.headers[1].value, b"application/xml".to_vec());
    assert_eq!(r.body, b"<multistatus/>".to_vec());
}

#[test]
fn unauthorized_response_is_fixed() {
    let e = DavAuthError::DavAuthError;
    assert_eq!(e.status_code(), 401);
    assert_eq!(e.message(), "Nice try.");
    let r = e.error_response();
    assert_eq!(r.status, 401);
    assert_eq!(r.headers.len(), 2);
    assert_eq!(r.headers[0].name, b"WWW-Authenticate".to_vec());
    assert_eq!(r.headers[0].value, b"Basic realm=\"User Visible Realm\"".to_vec());
    assert_eq!(r.headers[1].name, b"Content-Type".to_vec());
    assert_eq!(r.headers[1].value, b"text/html".to_vec());
    assert_eq!(r.body, b"Nice try.".to_vec());
}
