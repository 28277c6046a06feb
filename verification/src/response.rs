//! The two responses the auth gateway can produce: the fixed unauthorized reply,
//! and the protocol engine's own reply passed back unmodified.

use crate::request::Header;
use vstd::prelude::*;
use vstd::string::{StrSliceExecFns, StringSliceAdditionalSpecFns};

verus! {

/// The single error this layer raises: the request was not authorized.
pub enum DavAuthError {
    DavAuthError,
}

/// A response as handed back to the transport: status, headers and body.
pub struct GatewayResponse {
    pub status: u16,
    pub headers: Vec<Header>,
    pub body: Vec<u8>,
}

impl DavAuthError {
    /// The status of every unauthorized reply.
    pub fn status_code(&self) -> (r: u16)
        ensures
            r == 401,
    {
        match *self {
            DavAuthError::DavAuthError => 401,
        }
    }

    /// The fixed body text of the unauthorized reply.
    pub fn message(&self) -> (r: String)
        ensures
            r@ == "Nice try."@,
    {
        "Nice try.".to_owned()
    }

    /// The full unauthorized reply: status 401, the authentication
    /// challenge, an HTML content type, and the fixed body.
    pub fn error_response(&self) -> (r: GatewayResponse)
        ensures
            r.status == 401,
            r.headers@.len() == 2,
            r.headers@[0].name@ == "WWW-Authenticate".spec_bytes(),
            r.headers@[0].value@ == "Basic realm=\"User Visible Realm\"".spec_bytes(),
            r.headers@[1].name@ == "Content-Type".spec_bytes(),
            r.headers@[1].value@ == "text/html".spec_bytes(),
            r.body@ == "Nice try.".spec_bytes(),
    {
        let mut headers: Vec<Header> = Vec::new();
        headers.push(
            Header {
                name: "WWW-Authenticate".as_bytes_vec(),
                value: "Basic realm=\"User Visible Realm\"".as_bytes_vec(),
            },
        );
        headers.push(
            Header { name: "Content-Type".as_bytes_vec(), value: "text/html".as_bytes_vec() },
        );
        GatewayResponse { status: self.status_code(), headers, body: "Nice try.".as_bytes_vec() }
    }
}

/// Wraps what the protocol engine answered.  Status, headers and body pass
/// through unchanged: this layer never edits an allowed response.
pub fn from_engine(status: u16, headers: Vec<Header>, body: Vec<u8>) -> (r: GatewayResponse)
    ensures
        r.status == status,
        r.headers == headers,
        r.body == body,
{
    GatewayResponse { status, headers, body }
}

} // verus!
