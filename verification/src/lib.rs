//! A verified authentication gate and request router for a WebDAV gateway.
//!
//! The crate decides, for each inbound request, whether to reject it with a
//! fixed unauthorized response or to forward it to a protocol engine,
//! optionally stripping a configured path prefix first.

pub mod b64;
pub mod gate;
pub mod handler;
pub mod request;
pub mod resolver;
pub mod response;
pub mod router;
pub mod text;
pub mod token;

