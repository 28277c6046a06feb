//! Base64 (RFC 4648, standard alphabet, `=` padding) as a byte-level
//! specification, a trusted encoder backed by the `base64` crate, and a
//! verified decoder proved to invert the encoding.

use crate::text::ascii_chars_of;
use base64::Engine;
use vstd::prelude::*;

verus! {

/// ASCII code of the `=` padding byte.
pub open spec fn pad_byte() -> u8 {
    61
}

/// ASCII code of the base64 digit for a 6-bit value `v` in `0..64`:
/// `A-Z`, then `a-z`, then `0-9`, then `+` and `/`.
pub open spec fn b64_digit(v: int) -> u8
    recommends
        0 <= v < 64,
{
    if v < 26 {
        (v + 65) as u8
    } else if v < 52 {
        (v + 71) as u8
    } else if v < 62 {
        (v - 4) as u8
    } else if v == 62 {
        43
    } else {
        47
    }
}

/// The 6-bit value of a base64 digit byte, or `-1` if `d` is not a digit.
pub open spec fn b64_val(d: u8) -> int {
    if 65 <= d <= 90 {
        d - 65
    } else if 97 <= d <= 122 {
        d - 71
    } else if 48 <= d <= 57 {
        d + 4
    } else if d == 43 {
        62
    } else if d == 47 {
        63
    } else {
        -1
    }
}

pub open spec fn is_b64_digit(d: u8) -> bool {
    b64_val(d) >= 0
}

/// The four digit bytes encoding a full group of three input bytes.
pub open spec fn enc3(a: u8, b: u8, c: u8) -> Seq<u8> {
    seq![
        b64_digit(a as int / 4),
        b64_digit((a as int % 4) * 16 + b as int / 16),
        b64_digit((b as int % 16) * 4 + c as int / 64),
        b64_digit(c as int % 64),
    ]
}

/// The final quad for a trailing group of two input bytes: three digits and `=`.
pub open spec fn enc2(a: u8, b: u8) -> Seq<u8> {
    seq![
        b64_digit(a as int / 4),
        b64_digit((a as int % 4) * 16 + b as int / 16),
        b64_digit((b as int % 16) * 4),
        pad_byte(),
    ]
}

/// The final quad for a trailing group of one input byte: two digits and `==`.
pub open spec fn enc1(a: u8) -> Seq<u8> {
    seq![b64_digit(a as int / 4), b64_digit((a as int % 4) * 16), pad_byte(), pad_byte()]
}

/// The padded base64 encoding of a byte sequence.
pub open spec fn base64_bytes(s: Seq<u8>) -> Seq<u8>
    decreases s.len(),
{
    if s.len() == 0 {
        Seq::empty()
    } else if s.len() == 1 {
        enc1(s[0])
    } else if s.len() == 2 {
        enc2(s[0], s[1])
    } else {
        enc3(s[0], s[1], s[2]) + base64_bytes(s.skip(3))
    }
}

/// Relies on the `base64` crate's `STANDARD` engine (`Engine::encode`):
/// RFC 4648 base64 over the alphabet `A-Z a-z 0-9 + /` with `=` padding,
/// which `base64_bytes` states byte for byte.
#[verifier::external_body]
pub(crate) fn b64_encode(bytes: &[u8]) -> (r: String)
    ensures
        r@ == ascii_chars_of(base64_bytes(bytes@)),
{
    base64::engine::general_purpose::STANDARD.encode(bytes)
}

/// The three bytes carried by a quad of digit bytes.
pub open spec fn dec_quad(w: u8, x: u8, y: u8, z: u8) -> Seq<u8> {
    seq![
        (b64_val(w) * 4 + b64_val(x) / 16) as u8,
        ((b64_val(x) % 16) * 16 + b64_val(y) / 4) as u8,
        ((b64_val(y) % 4) * 64 + b64_val(z)) as u8,
    ]
}

/// Decoding of a final quad `g` (of length 4), honouring `=` padding and
/// rejecting non-canonical trailing bits.
pub open spec fn dec_tail(g: Seq<u8>) -> Option<Seq<u8>>
    recommends
        g.len() == 4,
{
    if !(is_b64_digit(g[0]) && is_b64_digit(g[1])) {
        None
    } else if g[2] == pad_byte() && g[3] == pad_byte() {
        if b64_val(g[1]) % 16 == 0 {
            Some(seq![(b64_val(g[0]) * 4 + b64_val(g[1]) / 16) as u8])
        } else {
            None
        }
    } else if g[3] == pad_byte() {
        if is_b64_digit(g[2]) && b64_val(g[2]) % 4 == 0 {
            Some(
                seq![
                    (b64_val(g[0]) * 4 + b64_val(g[1]) / 16) as u8,
                    ((b64_val(g[1]) % 16) * 16 + b64_val(g[2]) / 4) as u8,
                ],
            )
        } else {
            None
        }
    } else if is_b64_digit(g[2]) && is_b64_digit(g[3]) {
        Some(dec_quad(g[0], g[1], g[2], g[3]))
    } else {
        None
    }
}

/// Decoding of a padded base64 byte sequence: `None` on any malformed input.
pub open spec fn base64_decode(t: Seq<u8>) -> Option<Seq<u8>>
    decreases t.len(),
{
    if t.len() == 0 {
        Some(Seq::empty())
    } else if t.len() < 4 {
        None
    } else if t.len() == 4 {
        dec_tail(t)
    } else if is_b64_digit(t[0]) && is_b64_digit(t[1]) && is_b64_digit(t[2]) && is_b64_digit(
        t[3],
    ) {
        match base64_decode(t.skip(4)) {
            Some(rest) => Some(dec_quad(t[0], t[1], t[2], t[3]) + rest),
            None => None,
        }
    } else {
        None
    }
}

/// A digit byte carries back the value it was made from, and is neither
/// padding nor outside the alphabet.
pub proof fn lemma_val_of_digit(v: int)
    requires
        0 <= v < 64,
    ensures
        b64_val(b64_digit(v)) == v,
        is_b64_digit(b64_digit(v)),
        b64_digit(v) != pad_byte(),
{
}

/// A quad made from three bytes decodes back to those bytes.
proof fn lemma_dec_enc3(a: u8, b: u8, c: u8)
    ensures
        dec_quad(
            b64_digit(a as int / 4),
            b64_digit((a as int % 4) * 16 + b as int / 16),
            b64_digit((b as int % 16) * 4 + c as int / 64),
            b64_digit(c as int % 64),
        ) =~= seq![a, b, c],
{
    lemma_val_of_digit(a as int / 4);
    lemma_val_of_digit((a as int % 4) * 16 + b as int / 16);
    lemma_val_of_digit((b as int % 16) * 4 + c as int / 64);
    lemma_val_of_digit(c as int % 64);
}

/// The encoding of a non-empty sequence is at least one quad long, and its
/// length is always a multiple of four.
pub proof fn lemma_encode_len(s: Seq<u8>)
    ensures
        base64_bytes(s).len() % 4 == 0,
        s.len() > 0 ==> base64_bytes(s).len() >= 4,
    decreases s.len(),
{
    if s.len() > 2 {
        lemma_encode_len(s.skip(3));
    }
}

/// Every byte of an encoding is ASCII: a digit byte or padding.
pub proof fn lemma_encode_ascii(s: Seq<u8>)
    ensures
        forall|i: int| 0 <= i < base64_bytes(s).len() ==> base64_bytes(s)[i] < 128,
    decreases s.len(),
{
    if s.len() > 2 {
        lemma_encode_ascii(s.skip(3));
        assert forall|i: int| 0 <= i < base64_bytes(s).len() implies base64_bytes(s)[i]
            < 128 by {
            if i >= 4 {
                assert(base64_bytes(s)[i] == base64_bytes(s.skip(3))[i - 4]);
            }
        }
    }
}

/// Joins the bytes already decoded with the outcome on the remaining input.
pub open spec fn glue(prefix: Seq<u8>, rest: Option<Seq<u8>>) -> Option<Seq<u8>> {
    match rest {
        Some(r) => Some(prefix + r),
        None => None,
    }
}

/// The value of a base64 digit byte, if it is one.
fn b64_val_exec(d: u8) -> (v: Option<u8>)
    ensures
        match v {
            Some(x) => b64_val(d) == x as int,
            None => b64_val(d) == -1,
        },
{
    if 65 <= d && d <= 90 {
        Some(d - 65)
    } else if 97 <= d && d <= 122 {
        Some(d - 71)
    } else if 48 <= d && d <= 57 {
        Some(d + 4)
    } else if d == 43 {
        Some(62)
    } else if d == 47 {
        Some(63)
    } else {
        None
    }
}

/// Decodes padded standard base64, rejecting any malformed input.
pub fn b64_decode(t: &[u8]) -> (r: Option<Vec<u8>>)
    ensures
        match r {
            Some(v) => base64_decode(t@) == Some(v@),
            None => base64_decode(t@) is None,
        },
{
    let n = t.len();
    let mut out: Vec<u8> = Vec::new();
    let mut i: usize = 0;
    proof {
        assert(t@.skip(0) =~= t@);
        assert(out@ =~= Seq::<u8>::empty());
        if let Some(r0) = base64_decode(t@) {
            assert(out@ + r0 =~= r0);
        }
    }
    while n - i > 4
        invariant
            i <= n,
            n == t@.len(),
            base64_decode(t@) == glue(out@, base64_decode(t@.skip(i as int))),
        decreases n - i,
    {
        let w = b64_val_exec(t[i]);
        let x = b64_val_exec(t[i + 1]);
        let y = b64_val_exec(t[i + 2]);
        let z = b64_val_exec(t[i + 3]);
        let ghost rem = t@.skip(i as int);
        proof {
            assert(rem.len() > 4);
            assert(rem[0] == t@[i as int] && rem[1] == t@[i + 1] && rem[2] == t@[i + 2] && rem[3]
                == t@[i + 3]);
        }
        match (w, x, y, z) {
            (Some(wv), Some(xv), Some(yv), Some(zv)) => {
                let b0 = wv * 4 + xv / 16;
                let b1 = (xv % 16) * 16 + yv / 4;
                let b2 = (yv % 4) * 64 + zv;
                let ghost out_old = out@;
                out.push(b0);
                out.push(b1);
                out.push(b2);
                proof {
                    assert(out@ =~= out_old + dec_quad(rem[0], rem[1], rem[2], rem[3]));
                    assert(rem.skip(4) =~= t@.skip(i + 4));
                    if let Some(r4) = base64_decode(rem.skip(4)) {
                        assert(out_old + (dec_quad(rem[0], rem[1], rem[2], rem[3]) + r4) =~= out@
                            + r4);
                    }
                }
                i = i + 4;
            },
            _ => {
                return None;
            },
        }
    }
    if i == n {
        proof {
            assert(t@.skip(i as int).len() == 0);
            assert(base64_decode(t@.skip(i as int)) == Some(Seq::<u8>::empty()));
            assert(out@ + Seq::<u8>::empty() =~= out@);
        }
        return Some(out);
    }
    if n - i < 4 {
        return None;
    }
    let ghost rem = t@.skip(i as int);
    proof {
        assert(rem.len() == 4);
        assert(rem[0] == t@[i as int] && rem[1] == t@[i + 1] && rem[2] == t@[i + 2] && rem[3] == t@[
            i + 3]);
        assert(base64_decode(rem) == dec_tail(rem));
    }
    let w = match b64_val_exec(t[i]) {
        Some(v) => v,
        None => {
            return None;
        },
    };
    let x = match b64_val_exec(t[i + 1]) {
        Some(v) => v,
        None => {
            return None;
        },
    };
    let g2 = t[i + 2];
    let g3 = t[i + 3];
    let ghost out_old = out@;
    if g2 == 61 && g3 == 61 {
        if x % 16 != 0 {
            return None;
        }
        out.push(w * 4 + x / 16);
        proof {
            assert(out@ =~= out_old + seq![(b64_val(rem[0]) * 4 + b64_val(rem[1]) / 16) as u8]);
        }
        Some(out)
    } else if g3 == 61 {
        let y = match b64_val_exec(g2) {
            Some(v) => v,
            None => {
                return None;
            },
        };
        if y % 4 != 0 {
            return None;
        }
        out.push(w * 4 + x / 16);
        out.push((x % 16) * 16 + y / 4);
        proof {
            assert(out@ =~= out_old + seq![
                (b64_val(rem[0]) * 4 + b64_val(rem[1]) / 16) as u8,
                ((b64_val(rem[1]) % 16) * 16 + b64_val(rem[2]) / 4) as u8,
            ]);
        }
        Some(out)
    } else {
        let y = match b64_val_exec(g2) {
            Some(v) => v,
            None => {
                return None;
            },
        };
        let z = match b64_val_exec(g3) {
            Some(v) => v,
            None => {
                return None;
            },
        };
        out.push(w * 4 + x / 16);
        out.push((x % 16) * 16 + y / 4);
        out.push((y % 4) * 64 + z);
        proof {
            assert(out@ =~= out_old + dec_quad(rem[0], rem[1], rem[2], rem[3]));
        }
        Some(out)
    }
}

/// Law: decoding inverts encoding, for every byte sequence.
pub proof fn lemma_decode_encode(s: Seq<u8>)
    ensures
        base64_decode(base64_bytes(s)) == Some(s),
    decreases s.len(),
{
    if s.len() == 0 {
        assert(s =~= Seq::<u8>::empty());
    } else if s.len() == 1 {
        let a = s[0];
        lemma_val_of_digit(a as int / 4);
        lemma_val_of_digit((a as int % 4) * 16);
        assert(base64_decode(enc1(a)) == Some(seq![a]));
        assert(s =~= seq![a]);
    } else if s.len() == 2 {
        let a = s[0];
        let b = s[1];
        lemma_val_of_digit(a as int / 4);
        lemma_val_of_digit((a as int % 4) * 16 + b as int / 16);
        lemma_val_of_digit((b as int % 16) * 4);
        assert(base64_decode(enc2(a, b)) == Some(seq![a, b]));
        assert(s =~= seq![a, b]);
    } else if s.len() == 3 {
        let a = s[0];
        let b = s[1];
        let c = s[2];
        let g = enc3(a, b, c);
        lemma_val_of_digit(a as int / 4);
        lemma_val_of_digit((a as int % 4) * 16 + b as int / 16);
        lemma_val_of_digit((b as int % 16) * 4 + c as int / 64);
        lemma_val_of_digit(c as int % 64);
        assert(s.skip(3).len() == 0);
        assert(base64_bytes(s.skip(3)) == Seq::<u8>::empty());
        assert(base64_bytes(s) =~= g);
        lemma_dec_enc3(a, b, c);
        assert(base64_decode(g) == Some(seq![a, b, c]));
        assert(s =~= seq![a, b, c]);
    } else {
        let a = s[0];
        let b = s[1];
        let c = s[2];
        let g = enc3(a, b, c);
        let rest = base64_bytes(s.skip(3));
        let t = base64_bytes(s);
        assert(t == g + rest);
        lemma_encode_len(s.skip(3));
        assert(t.len() > 4);
        lemma_val_of_digit(a as int / 4);
        lemma_val_of_digit((a as int % 4) * 16 + b as int / 16);
        lemma_val_of_digit((b as int % 16) * 4 + c as int / 64);
        lemma_val_of_digit(c as int % 64);
        assert(t[0] == g[0] && t[1] == g[1] && t[2] == g[2] && t[3] == g[3]);
        assert(t.skip(4) =~= rest);
        lemma_decode_encode(s.skip(3));
        lemma_dec_enc3(a, b, c);
        assert(dec_quad(t[0], t[1], t[2], t[3]) + s.skip(3) =~= s);
    }
}

} // verus!
