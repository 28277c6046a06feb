//! The decision core of the request handler: every request is judged
//! exactly once; a denied request short-circuits before the protocol engine
//! is touched, an allowed one is routed to it.

use crate::gate::{authenticate, decision_of, AuthDecision};
use crate::request::GatewayRequest;
use crate::response::DavAuthError;
use crate::router::{route, RouteDecision};
use vstd::prelude::*;
use vstd::string::StringSliceAdditionalSpecFns;
use vstd::utf8::encode_utf8;

verus! {

/// Screens one request against the stored token and the configured mount
/// prefix.
///
/// Returns the routing decision exactly when the auth gate allows the request,
/// and the unauthorized error otherwise — so the caller can reach the
/// protocol engine only on an allowed request.
pub fn screen_request(req: &GatewayRequest, token: &str, prefix: &Option<String>) -> (r: Result<
    RouteDecision,
    DavAuthError,
>)
    ensures
        (r is Ok) <==> decision_of(req.headers@, token.spec_bytes()) is Allow,
        r matches Ok(d) ==> match (prefix, &d.strip_prefix) {
            (Some(p), Some(q)) => q@ == p@ && encode_utf8(p@).is_prefix_of(encode_utf8(req.path@)),
            (Some(p), None) => !encode_utf8(p@).is_prefix_of(encode_utf8(req.path@)),
            (None, None) => true,
            (None, Some(_)) => false,
        },
{
    match authenticate(req, token) {
        AuthDecision::Allow => Ok(route(prefix, req.path.as_str())),
        AuthDecision::Deny => Err(DavAuthError::DavAuthError),
    }
}

} // verus!
