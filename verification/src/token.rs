//! The credential store: derives the one authorization token the auth gate
//! compares against, and recovers a credential pair from such a token.

use crate::b64::{
    b64_decode, b64_encode, base64_bytes, base64_decode, lemma_decode_encode, lemma_encode_ascii,
};
use crate::text::{ascii_chars_of, first_index, lemma_first_index_at};
use vstd::prelude::*;
use vstd::string::{StrSliceExecFns, StringExecFns, StringSliceAdditionalSpecFns};
use vstd::utf8::{encode_utf8, is_ascii_chars, is_ascii_chars_encode_utf8};

verus! {

/// ASCII code of the colon separating username and password.
pub open spec fn colon_byte() -> u8 {
    58
}

/// The bytes of the scheme prefix `"Basic "`.
pub open spec fn basic_prefix_bytes() -> Seq<u8> {
    seq![66u8, 97u8, 115u8, 105u8, 99u8, 32u8]
}

/// The credential line whose encoding the token carries: `user ":" pass`.
pub open spec fn credential_bytes(user: Seq<u8>, pass: Seq<u8>) -> Seq<u8> {
    user + seq![colon_byte()] + pass
}

/// The authorization token for a credential pair: `"Basic "` followed by
/// the base64 encoding of `user ":" pass`.
pub open spec fn token_bytes(user: Seq<u8>, pass: Seq<u8>) -> Seq<u8> {
    basic_prefix_bytes() + base64_bytes(credential_bytes(user, pass))
}

/// Derives the authorization header value for a credential pair.
///
/// Any byte sequences are accepted, the empty ones included; the result is
/// always the `"Basic "` prefix followed by the padded base64 encoding of
/// `username ":" password`.
pub fn basic_auth_header(username: &str, password: &str) -> (r: String)
    ensures
        r@ == ascii_chars_of(token_bytes(username.spec_bytes(), password.spec_bytes())),
        r@ == "Basic "@ + ascii_chars_of(
            base64_bytes(credential_bytes(username.spec_bytes(), password.spec_bytes())),
        ),
        encode_utf8(r@) == token_bytes(username.spec_bytes(), password.spec_bytes()),
{
    let ghost ub = username.spec_bytes();
    let ghost pb = password.spec_bytes();
    let mut cred = username.as_bytes_vec();
    cred.push(58);
    let mut pv = password.as_bytes_vec();
    cred.append(&mut pv);
    proof {
        assert(cred@ =~= credential_bytes(ub, pb));
    }
    let enc = b64_encode(cred.as_slice());
    let mut r = "Basic ".to_owned();
    r.append(enc.as_str());
    proof {
        reveal_strlit("Basic ");
        assert(r@ =~= ascii_chars_of(token_bytes(ub, pb)));
        lemma_encode_ascii(cred@);
        assert(is_ascii_chars(r@));
        is_ascii_chars_encode_utf8(r@);
        assert(encode_utf8(r@) =~= token_bytes(ub, pb));
    }
    r
}

/// The credential pair carried by an authorization token, if it is well
/// formed: a `"Basic "` prefix, valid padded base64, and a colon somewhere
/// in the decoded bytes.  The username is everything before the first colon.
pub open spec fn credentials_of(t: Seq<u8>) -> Option<(Seq<u8>, Seq<u8>)> {
    if t.len() >= 6 && t.take(6) == basic_prefix_bytes() {
        match base64_decode(t.skip(6)) {
            Some(d) => {
                let k = first_index(d, colon_byte());
                if k < d.len() {
                    Some((d.take(k), d.skip(k + 1)))
                } else {
                    None
                }
            },
            None => None,
        }
    } else {
        None
    }
}

/// Law: decoding a token built from a credential pair recovers the pair,
/// provided the username holds no colon (a colon there would move the split).
pub proof fn lemma_token_round_trip(user: Seq<u8>, pass: Seq<u8>)
    requires
        !user.contains(colon_byte()),
    ensures
        credentials_of(token_bytes(user, pass)) == Some((user, pass)),
{
    let d = credential_bytes(user, pass);
    let t = token_bytes(user, pass);
    assert(t.take(6) =~= basic_prefix_bytes());
    assert(t.skip(6) =~= base64_bytes(d));
    lemma_decode_encode(d);
    assert forall|m: int| 0 <= m < user.len() implies d[m] != colon_byte() by {
        assert(d[m] == user[m]);
    }
    assert(d[user.len() as int] == colon_byte());
    lemma_first_index_at(d, colon_byte(), user.len() as int);
    assert(d.take(user.len() as int) =~= user);
    assert(d.skip(user.len() + 1 as int) =~= pass);
}

/// Recovers the credential pair from an authorization header value, if it
/// is a well-formed basic-authentication token.
pub fn decode_credentials(token: &str) -> (r: Option<(Vec<u8>, Vec<u8>)>)
    ensures
        match r {
            Some(cred) => credentials_of(token.spec_bytes()) == Some((cred.0@, cred.1@)),
            None => credentials_of(token.spec_bytes()) is None,
        },
{
    let bytes = token.as_bytes();
    let n = bytes.len();
    if n < 6 {
        return None;
    }
    if !(bytes[0] == 66 && bytes[1] == 97 && bytes[2] == 115 && bytes[3] == 105 && bytes[4] == 99
        && bytes[5] == 32) {
        proof {
            assert(bytes@.take(6) != basic_prefix_bytes());
        }
        return None;
    }
    proof {
        assert(bytes@.take(6) =~= basic_prefix_bytes());
    }
    let mut tail: Vec<u8> = Vec::new();
    let mut j: usize = 6;
    while j < n
        invariant
            6 <= j <= n,
            n == bytes@.len(),
            tail@ =~= bytes@.subrange(6, j as int),
        decreases n - j,
    {
        tail.push(bytes[j]);
        j = j + 1;
    }
    proof {
        assert(tail@ =~= bytes@.skip(6));
    }
    let d = match b64_decode(tail.as_slice()) {
        Some(d) => d,
        None => {
            return None;
        },
    };
    let dn = d.len();
    let mut k: usize = 0;
    while k < dn && d[k] != 58
        invariant
            0 <= k <= dn,
            dn == d@.len(),
            forall|m: int| 0 <= m < k ==> d@[m] != colon_byte(),
        decreases dn - k,
    {
        k = k + 1;
    }
    proof {
        lemma_first_index_at(d@, colon_byte(), k as int);
    }
    if k == dn {
        return None;
    }
    let mut user: Vec<u8> = Vec::new();
    let mut m: usize = 0;
    while m < k
        invariant
            0 <= m <= k < dn,
            dn == d@.len(),
            user@ =~= d@.subrange(0, m as int),
        decreases k - m,
    {
        user.push(d[m]);
        m = m + 1;
    }
    let mut pass: Vec<u8> = Vec::new();
    let mut q: usize = k + 1;
    while q < dn
        invariant
            k + 1 <= q <= dn,
            dn == d@.len(),
            pass@ =~= d@.subrange(k + 1, q as int),
        decreases dn - q,
    {
        pass.push(d[q]);
        q = q + 1;
    }
    proof {
        assert(user@ =~= d@.take(k as int));
        assert(pass@ =~= d@.skip(k + 1));
    }
    Some((user, pass))
}

} // verus!
