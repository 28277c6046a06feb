//! The request as the auth gate and the router see it: a path and a header
//! mapping, with case-insensitive lookup of a header by name.

use vstd::prelude::*;
use vstd::slice::slice_to_vec;
use vstd::string::{StrSliceExecFns, StringSliceAdditionalSpecFns};

verus! {

/// One request header: a name and a raw byte value.
pub struct Header {
    pub name: Vec<u8>,
    pub value: Vec<u8>,
}

/// What the auth gate and the router read of an inbound request.  The method and
/// the body stay with the transport: only the path and the headers matter
/// here, and they are forwarded untouched.
pub struct GatewayRequest {
    pub path: String,
    pub headers: Vec<Header>,
}

/// ASCII upper-case letters folded to lower case; all other bytes unchanged.
pub open spec fn lower_byte(b: u8) -> u8 {
    if 65 <= b <= 90 {
        (b + 32) as u8
    } else {
        b
    }
}

/// Header names compare equal regardless of ASCII case.
pub open spec fn name_matches(a: Seq<u8>, b: Seq<u8>) -> bool {
    a.len() == b.len() && forall|i: int| 0 <= i < a.len() ==> lower_byte(a[i]) == lower_byte(b[i])
}

/// The value of the first header whose name matches `name`, if any.
pub open spec fn header_lookup(headers: Seq<Header>, name: Seq<u8>) -> Option<Seq<u8>>
    decreases headers.len(),
{
    if headers.len() == 0 {
        None
    } else if name_matches(headers[0].name@, name) {
        Some(headers[0].value@)
    } else {
        header_lookup(headers.drop_first(), name)
    }
}

/// Builds a header from a name and a raw value.
pub fn header_from(name: &str, value: &[u8]) -> (h: Header)
    ensures
        h.name@ == name.spec_bytes(),
        h.value@ == value@,
{
    Header { name: name.as_bytes_vec(), value: slice_to_vec(value) }
}

fn lower_byte_exec(b: u8) -> (r: u8)
    ensures
        r == lower_byte(b),
{
    if 65 <= b && b <= 90 {
        b + 32
    } else {
        b
    }
}

/// Whether two header names are the same up to ASCII case.
fn names_match(a: &[u8], b: &[u8]) -> (r: bool)
    ensures
        r == name_matches(a@, b@),
{
    if a.len() != b.len() {
        return false;
    }
    let n = a.len();
    let mut i: usize = 0;
    while i < n
        invariant
            0 <= i <= n,
            n == a@.len() == b@.len(),
            forall|m: int| 0 <= m < i ==> lower_byte(a@[m]) == lower_byte(b@[m]),
        decreases n - i,
    {
        if lower_byte_exec(a[i]) != lower_byte_exec(b[i]) {
            return false;
        }
        i = i + 1;
    }
    true
}

/// Finds the first header whose name matches `name`, regardless of case.
pub fn find_header<'a>(headers: &'a Vec<Header>, name: &[u8]) -> (r: Option<&'a Vec<u8>>)
    ensures
        match r {
            Some(v) => header_lookup(headers@, name@) == Some(v@),
            None => header_lookup(headers@, name@) is None,
        },
{
    let n = headers.len();
    let mut i: usize = 0;
    proof {
        assert(headers@.skip(0) =~= headers@);
    }
    while i < n
        invariant
            0 <= i <= n,
            n == headers@.len(),
            header_lookup(headers@, name@) == header_lookup(headers@.skip(i as int), name@),
        decreases n - i,
    {
        if names_match(headers[i].name.as_slice(), name) {
            proof {
                assert(headers@.skip(i as int)[0] == headers@[i as int]);
            }
            return Some(&headers[i].value);
        }
        proof {
            assert(headers@.skip(i as int).drop_first() =~= headers@.skip(i + 1));
        }
        i = i + 1;
    }
    None
}

/// Whether two byte strings are equal, byte for byte.
pub fn bytes_eq(a: &[u8], b: &[u8]) -> (r: bool)
    ensures
        r == (a@ == b@),
{
    if a.len() != b.len() {
        proof {
            assert(a@ != b@);
        }
        return false;
    }
    let n = a.len();
    let mut i: usize = 0;
    while i < n
        invariant
            0 <= i <= n,
            n == a@.len() == b@.len(),
            forall|m: int| 0 <= m < i ==> a@[m] == b@[m],
        decreases n - i,
    {
        if a[i] != b[i] {
            proof {
                assert(a@ != b@);
            }
            return false;
        }
        i = i + 1;
    }
    proof {
        assert(a@ =~= b@);
    }
    true
}

} // verus!
