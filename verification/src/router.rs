//! The request router: decides, from the configured mount prefix and the
//! request path alone, what literal prefix the protocol engine should strip
//! before it resolves the path internally.

use vstd::prelude::*;
use vstd::string::{StrSliceExecFns, StringSliceAdditionalSpecFns};
use vstd::utf8::{encode_utf8, is_char_boundary};

verus! {

/// How much of the path to strip before delegation: the configured prefix
/// when the path begins with it, nothing otherwise.
pub struct RouteDecision {
    pub strip_prefix: Option<String>,
}

/// Whether the byte string `a` starts the byte string `b`.
pub fn bytes_prefix(a: &[u8], b: &[u8]) -> (r: bool)
    ensures
        r == a@.is_prefix_of(b@),
{
    if a.len() > b.len() {
        return false;
    }
    let n = a.len();
    let mut i: usize = 0;
    while i < n
        invariant
            0 <= i <= n,
            n == a@.len() <= b@.len(),
            forall|m: int| 0 <= m < i ==> a@[m] == b@[m],
        decreases n - i,
    {
        if a[i] != b[i] {
            proof {
                assert(!a@.is_prefix_of(b@)) by {
                    assert(a@[i as int] != b@[i as int]);
                }
            }
            return false;
        }
        i = i + 1;
    }
    proof {
        assert(a@ =~= b@.subrange(0, a@.len() as int));
    }
    true
}

/// Routes a request path against the configured mount prefix.
///
/// The decision carries the prefix exactly when one is configured and the
/// path begins with it, byte for byte; otherwise it carries nothing and the
/// request is forwarded unmodified.
pub fn route(prefix: &Option<String>, path: &str) -> (r: RouteDecision)
    ensures
        match (prefix, &r.strip_prefix) {
            (Some(p), Some(q)) => q@ == p@ && encode_utf8(p@).is_prefix_of(path.spec_bytes()),
            (Some(p), None) => !encode_utf8(p@).is_prefix_of(path.spec_bytes()),
            (None, None) => true,
            (None, Some(_)) => false,
        },
{
    match prefix {
        Some(p) => {
            if bytes_prefix(p.as_str().as_bytes(), path.as_bytes()) {
                RouteDecision { strip_prefix: Some(p.clone()) }
            } else {
                RouteDecision { strip_prefix: None }
            }
        },
        None => RouteDecision { strip_prefix: None },
    }
}

/// Strips a mount prefix from a path, the way the protocol engine will when
/// it is handed the routing decision.
///
/// Returns the path after the prefix when the path begins with it and the
/// cut falls on a character boundary; `None` otherwise.
pub fn stripped_path(path: &str, prefix: &str) -> (r: Option<String>)
    ensures
        match r {
            Some(s) => prefix.spec_bytes().is_prefix_of(path.spec_bytes()) && encode_utf8(s@)
                == path.spec_bytes().skip(prefix.spec_bytes().len() as int) && prefix.spec_bytes()
                + encode_utf8(s@) == path.spec_bytes(),
            None => !(prefix.spec_bytes().is_prefix_of(path.spec_bytes()) && is_char_boundary(
                path.spec_bytes(),
                prefix.spec_bytes().len() as int,
            )),
        },
{
    let mid = prefix.as_bytes().len();
    proof {
        assert(mid == prefix.spec_bytes().len());
    }
    if !path.is_char_boundary(mid) {
        return None;
    }
    if !bytes_prefix(prefix.as_bytes(), path.as_bytes()) {
        return None;
    }
    let (_, rest) = path.split_at(mid);
    proof {
        assert(rest.spec_bytes() =~= path.spec_bytes().skip(prefix.spec_bytes().len() as int));
        assert(prefix.spec_bytes() + rest.spec_bytes() =~= path.spec_bytes());
    }
    Some(rest.to_owned())
}

} // verus!
