use davgate::gate::{authenticate, AuthDecision};
use davgate::request::{header_from, GatewayRequest};
use davgate::resolver::get_client_ip;
use davgate::token::basic_auth_header;

fn request_with(headers: Vec<(&str, &[u8])>) -> GatewayRequest {
    let mut hs = Vec::new();
    for (name, value) in headers {
        hs.push(header_from(name, value));
    }
    GatewayRequest { path: String::from("/"), headers: hs }
}

#[test]
fn exact_token_is_allowed() {
    let token = basic_auth_header("testuser", "testpassword");
    let req = request_with(vec![("Authorization", token.as_bytes())]);
    assert!(matches!(authenticate(&req, &token), AuthDecision::Allow));
}

#[test]
fn header_name_match_is_case_insensitive() {
    let token = basic_auth_header("testuser", "testpassword");
    let req = request_with(vec![("AUTHORIZATION", token.as_bytes())]);
    assert!(matches!(authenticate(&req, &token), AuthDecision::Allow));
}

#[test]
fn each_flipped_byte_is_denied() {
    let token = basic_auth_header("testuser", "testpassword");
    let bytes = token.as_bytes();
    for i in 0..bytes.len() {
        let mut flipped = bytes.to_vec();
        flipped[i] ^= 0x01;
        let req = request_with(vec![("Authorization", flipped.as_slice())]);
        assert!(matches!(authenticate(&req, &token), AuthDecision::Deny));
    }
}

#[test]
fn token_value_match_is_case_sensitive() {
    let token = basic_auth_header("testuser", "testpassword");
    let lower = token.to_lowercase();
    let req = request_with(vec![("Authorization", lower.as_bytes())]);
    assert!(matches!(authenticate(&req, &token), AuthDecision::Deny));
}

#[test]
fn missing_header_is_denied() {
    let token = basic_auth_header("testuser", "testpassword");
    let req = request_with(vec![("X-Other", b"value")]);
    assert!(matches!(authenticate(&req, &token), AuthDecision::Deny));
    let bare = request_with(vec![]);
    assert!(matches!(authenticate(&bare, &token), AuthDecision::Deny));
}

#[test]
fn interleaved_requests_decide_independently() {
    let token = basic_auth_header("testuser", "testpassword");
    let good = request_with(vec![("Authorization", token.as_bytes())]);
    let bad = request_with(vec![("Authorization", b"Basic nonsense")]);
    for _ in 0..8 {
        assert!(matches!(authenticate(&good, &token), AuthDecision::Allow));
        assert!(matches!(authenticate(&bad, &token), AuthDecision::Deny));
        assert!(matches!(authenticate(&good, &token), AuthDecision::Allow));
    }
}

#[test]
fn resolve_takes_first_forwarded_element() {
    let req = request_with(vec![("X-Forwarded-For", b"1.2.3.4, 5.6.7.8")]);
    assert_eq!(get_client_ip(&req), "1.2.3.4");
}

#[test]
fn resolve_without_header_is_unknown() {
    let req = request_with(vec![]);
    assert_eq!(get_client_ip(&req), "Unknown IP");
}

#[test]
fn resolve_unparsable_header_is_unknown() {
    let req = request_with(vec![("X-Forwarded-For", &[0xffu8, 0x01u8])]);
    assert_eq!(get_client_ip(&req), "Unknown IP");
}

#[test]
fn resolve_trims_blanks_around_address() {
    let req = request_with(vec![("x-forwarded-for", b"  10.0.0.1\t, 5.6.7.8")]);
    assert_eq!(get_client_ip(&req), "10.0.0.1");
}

#[test]
fn resolve_empty_first_element() {
    let req = request_with(vec![("X-Forwarded-For", b", 5.6.7.8")]);
    assert_eq!(get_client_ip(&req), "");
}
