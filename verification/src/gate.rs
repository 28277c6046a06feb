//! The authentication gate: the per-request allow/deny decision, an exact
//! byte comparison of the presented `Authorization` header against the one
//! stored token.

use crate::request::{bytes_eq, find_header, header_lookup, GatewayRequest, Header};
use vstd::prelude::*;
use vstd::string::StringSliceAdditionalSpecFns;

verus! {

/// The outcome of the auth gate for one request.
pub enum AuthDecision {
    Allow,
    Deny,
}

/// The bytes of the header name `authorization`.
pub open spec fn auth_header_name() -> Seq<u8> {
    seq![97u8, 117u8, 116u8, 104u8, 111u8, 114u8, 105u8, 122u8, 97u8, 116u8, 105u8, 111u8, 110u8]
}

/// The decision for a request with the given headers against `token`:
/// allow exactly when an `Authorization` header is present and byte-equal
/// to the stored token; deny otherwise.
pub open spec fn decision_of(headers: Seq<Header>, token: Seq<u8>) -> AuthDecision {
    match header_lookup(headers, auth_header_name()) {
        Some(v) => if v == token {
            AuthDecision::Allow
        } else {
            AuthDecision::Deny
        },
        None => AuthDecision::Deny,
    }
}

/// Decides whether a request carries the stored token.
///
/// The comparison is exact byte equality: no case folding, no partial
/// match.  A missing header and a mismatched header both deny.
pub fn authenticate(req: &GatewayRequest, token: &str) -> (r: AuthDecision)
    ensures
        r == decision_of(req.headers@, token.spec_bytes()),
        (r is Allow) <==> header_lookup(req.headers@, auth_header_name()) == Some(
            token.spec_bytes(),
        ),
{
    let name: [u8; 13] = [97, 117, 116, 104, 111, 114, 105, 122, 97, 116, 105, 111, 110];
    proof {
        assert(name@ =~= auth_header_name());
    }
    match find_header(&req.headers, name.as_slice()) {
        Some(v) => {
            if bytes_eq(v.as_slice(), token.as_bytes()) {
                AuthDecision::Allow
            } else {
                AuthDecision::Deny
            }
        },
        None => AuthDecision::Deny,
    }
}

/// Law: a presented header value that differs from the stored token at any
/// single position is denied.
pub proof fn lemma_flipped_byte_denied(headers: Seq<Header>, token: Seq<u8>, v: Seq<u8>, i: int)
    requires
        header_lookup(headers, auth_header_name()) == Some(v),
        0 <= i < v.len(),
        v.len() == token.len(),
        v[i] != token[i],
    ensures
        decision_of(headers, token) is Deny,
{
    assert(v != token);
}

/// Law: a request with no `Authorization` header is denied.
pub proof fn lemma_missing_header_denied(headers: Seq<Header>, token: Seq<u8>)
    requires
        header_lookup(headers, auth_header_name()) is None,
    ensures
        decision_of(headers, token) is Deny,
{
}

} // verus!
