//! Byte-level text helpers shared by the token codec, the client address
//! resolver and the auth gate: ASCII views, scanning and whitespace trimming.

use vstd::prelude::*;

verus! {

/// The characters of an ASCII byte sequence.
pub open spec fn ascii_chars_of(s: Seq<u8>) -> Seq<char> {
    Seq::new(s.len(), |i: int| s[i] as char)
}

/// The index of the first occurrence of `b` in `s`, or `s.len()` if absent.
pub open spec fn first_index(s: Seq<u8>, b: u8) -> int
    decreases s.len(),
{
    if s.len() == 0 {
        0
    } else if s[0] == b {
        0
    } else {
        1 + first_index(s.drop_first(), b)
    }
}

/// `first_index` returns `k` exactly when everything before `k` differs
/// from `b` and position `k` holds `b` or is the end.
pub proof fn lemma_first_index_at(s: Seq<u8>, b: u8, k: int)
    requires
        0 <= k <= s.len(),
        forall|m: int| 0 <= m < k ==> s[m] != b,
        k < s.len() ==> s[k] == b,
    ensures
        first_index(s, b) == k,
    decreases s.len(),
{
    if k != 0 {
        lemma_first_index_at(s.drop_first(), b, k - 1);
    }
}

/// Space or horizontal tab: the whitespace trimmed around an address.
pub open spec fn is_blank(b: u8) -> bool {
    b == 32 || b == 9
}

/// `s` without its leading blanks.
pub open spec fn trim_front(s: Seq<u8>) -> Seq<u8>
    decreases s.len(),
{
    if s.len() == 0 {
        s
    } else if is_blank(s[0]) {
        trim_front(s.drop_first())
    } else {
        s
    }
}

/// `s` without its trailing blanks.
pub open spec fn trim_back(s: Seq<u8>) -> Seq<u8>
    decreases s.len(),
{
    if s.len() == 0 {
        s
    } else if is_blank(s.last()) {
        trim_back(s.drop_last())
    } else {
        s
    }
}

/// `s` without leading and trailing blanks.
pub open spec fn trim_blanks(s: Seq<u8>) -> Seq<u8> {
    trim_back(trim_front(s))
}

/// Relies on `String::from_utf8`: ASCII bytes are valid UTF-8, and the
/// resulting string holds exactly those bytes as characters.
#[verifier::external_body]
pub(crate) fn string_from_ascii(bytes: Vec<u8>) -> (r: String)
    requires
        forall|i: int| 0 <= i < bytes@.len() ==> bytes@[i] < 128,
    ensures
        r@ == ascii_chars_of(bytes@),
{
    String::from_utf8(bytes).unwrap()
}

} // verus!
