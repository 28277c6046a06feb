use davgate::b64::b64_decode;
use davgate::token::{basic_auth_header, decode_credentials};

#[test]
fn test_basic_auth_header_valid() {
    let username = "testuser";
    let password = "testpassword";
    let expected = "Basic dGVzdHVzZXI6dGVzdHBhc3N3b3Jk"; // Base64 encoded "testuser:testpassword"
    let result = basic_auth_header(username, password);
    assert_eq!(result, expected);
}

#[test]
fn test_basic_auth_header_empty_username() {
    let username = "";
    let password = "testpassword";
    let expected = "Basic OnRlc3RwYXNzd29yZA=="; // Base64 encoded ":testpassword"
    let result = basic_auth_header(username, password);
    assert_eq!(result, expected);
}

#[test]
fn test_basic_auth_header_empty_password() {
    let username = "testuser";
    let password = "";
    let expected = "Basic dGVzdHVzZXI6"; // Base64 encoded "testuser:"
    let result = basic_auth_header(username, password);
    assert_eq!(result, expected);
}

#[test]
fn test_basic_auth_header_empty_username_and_password() {
    let username = "";
    let password = "";
    let expected = "Basic Og=="; // Base64 encoded ":"
    let result = basic_auth_header(username, password);
    assert_eq!(result, expected);
}

#[test]
fn round_trip_recovers_credentials() {
    let token = basic_auth_header("testuser", "testpassword");
    let (user, pass) = decode_credentials(&token).unwrap();
    assert_eq!(user, b"testuser".to_vec());
    assert_eq!(pass, b"testpassword".to_vec());
}

#[test]
fn round_trip_empty_credentials() {
    let token = basic_auth_header("", "");
    let (user, pass) = decode_credentials(&token).unwrap();
    assert!(user.is_empty());
    assert!(pass.is_empty());
}

#[test]
fn round_trip_password_with_colon() {
    // The first colon splits, so a colon in the password survives the trip.
    let token = basic_auth_header("user", "pa:ss");
    let (user, pass) = decode_credentials(&token).unwrap();
    assert_eq!(user, b"user".to_vec());
    assert_eq!(pass, b"pa:ss".to_vec());
}

#[test]
fn decode_rejects_wrong_scheme() {
    assert!(decode_credentials("Bearer dGVzdA==").is_none());
    assert!(decode_credentials("dGVzdA==").is_none());
    assert!(decode_credentials("").is_none());
}

#[test]
fn decode_rejects_missing_colon() {
    // "bm9jb2xvbg==" is the base64 encoding of "nocolon".
    assert!(decode_credentials("Basic bm9jb2xvbg==").is_none());
}

#[test]
fn decode_rejects_bad_base64() {
    assert!(decode_credentials("Basic ????").is_none());
    assert!(decode_credentials("Basic abc").is_none());
}

#[test]
fn base64_decoder_on_malformed_input() {
    assert!(b64_decode(b"abc").is_none());
    assert!(b64_decode(b"a*cd").is_none());
    assert!(b64_decode(b"ab=c").is_none());
    // Non-canonical trailing bits are rejected.
    assert!(b64_decode(b"OR==").is_none());
    assert_eq!(b64_decode(b"").unwrap(), Vec::<u8>::new());
    assert_eq!(b64_decode(b"Og==").unwrap(), b":".to_vec());
}
