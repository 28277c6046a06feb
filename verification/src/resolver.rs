//! The client address resolver: derives a diagnostic client identifier from
//! the forwarding header, for logging only — never for the auth decision.

use crate::request::{find_header, header_lookup, GatewayRequest, Header};
use crate::text::{
    ascii_chars_of, first_index, is_blank, lemma_first_index_at, string_from_ascii, trim_back,
    trim_blanks, trim_front,
};
use vstd::prelude::*;

verus! {

/// The bytes of the header name `x-forwarded-for`.
pub open spec fn forwarded_for_name() -> Seq<u8> {
    seq![
        120u8,
        45u8,
        102u8,
        111u8,
        114u8,
        119u8,
        97u8,
        114u8,
        100u8,
        101u8,
        100u8,
        45u8,
        102u8,
        111u8,
        114u8,
    ]
}

/// A byte that header-to-text conversion accepts: visible ASCII, space or tab.
pub open spec fn is_header_text_byte(b: u8) -> bool {
    32 <= b < 127 || b == 9
}

/// Whether a whole header value converts to text.
pub open spec fn header_text(v: Seq<u8>) -> bool {
    forall|i: int| 0 <= i < v.len() ==> is_header_text_byte(v[i])
}

/// The placeholder returned when no address can be derived.
pub open spec fn unknown_ip() -> Seq<char> {
    "Unknown IP"@
}

/// The resolved client address for a header mapping: the first
/// comma-separated element of the forwarding header, trimmed of blanks; the
/// placeholder when the header is absent or does not convert to text.
pub open spec fn client_ip_of(headers: Seq<Header>) -> Seq<char> {
    match header_lookup(headers, forwarded_for_name()) {
        Some(v) => if header_text(v) {
            ascii_chars_of(trim_blanks(v.take(first_index(v, 44))))
        } else {
            unknown_ip()
        },
        None => unknown_ip(),
    }
}

fn is_blank_exec(b: u8) -> (r: bool)
    ensures
        r == is_blank(b),
{
    b == 32 || b == 9
}

/// Resolves the diagnostic client address of a request.  Never fails: every
/// header mapping resolves to some string.
#[verifier::loop_isolation(false)]
pub fn get_client_ip(req: &GatewayRequest) -> (r: String)
    ensures
        r@ == client_ip_of(req.headers@),
{
    let name: [u8; 15] = [120, 45, 102, 111, 114, 119, 97, 114, 100, 101, 100, 45, 102, 111, 114];
    proof {
        assert(name@ =~= forwarded_for_name());
    }
    let v = match find_header(&req.headers, name.as_slice()) {
        Some(v) => v,
        None => {
            return "Unknown IP".to_owned();
        },
    };
    let n = v.len();
    let mut i: usize = 0;
    while i < n
        invariant
            0 <= i <= n,
            n == v@.len(),
            forall|m: int| 0 <= m < i ==> is_header_text_byte(v@[m]),
        decreases n - i,
    {
        let b = v[i];
        if !(32 <= b && b < 127 || b == 9) {
            proof {
                assert(!header_text(v@));
            }
            return "Unknown IP".to_owned();
        }
        i = i + 1;
    }
    let mut k: usize = 0;
    while k < n && v[k] != 44
        invariant
            0 <= k <= n,
            n == v@.len(),
            forall|m: int| 0 <= m < k ==> v@[m] != 44,
        decreases n - k,
    {
        k = k + 1;
    }
    proof {
        lemma_first_index_at(v@, 44, k as int);
    }
    let mut seg: Vec<u8> = Vec::new();
    let mut j: usize = 0;
    while j < k
        invariant
            0 <= j <= k <= n,
            n == v@.len(),
            seg@ =~= v@.subrange(0, j as int),
        decreases k - j,
    {
        seg.push(v[j]);
        j = j + 1;
    }
    proof {
        assert(seg@ =~= v@.take(k as int));
    }
    let sn = seg.len();
    let mut start: usize = 0;
    proof {
        assert(seg@.skip(0) =~= seg@);
    }
    while start < sn && is_blank_exec(seg[start])
        invariant
            0 <= start <= sn,
            sn == seg@.len(),
            trim_front(seg@) == trim_front(seg@.skip(start as int)),
        decreases sn - start,
    {
        proof {
            assert(seg@.skip(start as int)[0] == seg@[start as int]);
            assert(seg@.skip(start as int).drop_first() =~= seg@.skip(start + 1));
        }
        start = start + 1;
    }
    proof {
        if start < sn {
            assert(!is_blank(seg@.skip(start as int)[0]));
        }
        assert(trim_front(seg@) == seg@.skip(start as int));
    }
    let ghost fr = seg@.skip(start as int);
    let mut end: usize = sn;
    proof {
        assert(fr.take(sn - start) =~= fr);
    }
    while end > start && is_blank_exec(seg[end - 1])
        invariant
            start <= end <= sn,
            sn == seg@.len(),
            fr == seg@.skip(start as int),
            trim_back(fr) == trim_back(fr.take(end - start)),
        decreases end,
    {
        proof {
            let x = fr.take(end - start);
            assert(x.last() == seg@[end - 1]);
            assert(x.drop_last() =~= fr.take(end - 1 - start));
        }
        end = end - 1;
    }
    proof {
        if end > start {
            assert(fr.take(end - start).last() == seg@[end - 1]);
        }
        assert(trim_back(fr) == fr.take(end - start));
        assert(fr.take(end - start) =~= seg@.subrange(start as int, end as int));
    }
    let mut out: Vec<u8> = Vec::new();
    let mut q: usize = start;
    while q < end
        invariant
            start <= q <= end <= sn,
            sn == seg@.len(),
            out@ =~= seg@.subrange(start as int, q as int),
        decreases end - q,
    {
        out.push(seg[q]);
        q = q + 1;
    }
    proof {
        assert(out@ =~= trim_blanks(seg@));
        assert(forall|m: int| 0 <= m < out@.len() ==> out@[m] < 128);
    }
    string_from_ascii(out)
}

} // verus!
