//! Small request helpers: the client's address, and short strings kept inline.
use vstd::prelude::*;
use vstd::string::StrSliceExecFns;
use vstd::string::StringSliceAdditionalSpecFns;

use crate::text::{
    chars_of, find_char, find_char_in, range_eq_lower, to_ascii_lower, trim, trim_bounds,
    trim_char_bounds, trim_matches,
};

verus! {

/// The request headers that say who the client is, each as text when the
/// request has it and it is visible ASCII.
pub struct ClientIpHeaders<'a> {
    pub cf_connecting_ip: Option<&'a str>,
    pub true_client_ip: Option<&'a str>,
    pub forwarded: Option<&'a str>,
    pub x_real_ip: Option<&'a str>,
    pub x_forwarded_for: Option<&'a str>,
}

/// The address that one element of a `Forwarded` header gives in its
/// `for=` parameter: the element is trimmed, must start with `for=` in any
/// case, and the address is what follows up to the next `=`, trimmed and
/// without surrounding quotes; an empty address counts as none.
pub open spec fn spec_for_value(p: Seq<char>) -> Option<Seq<char>> {
    let t = trim(p);
    if t.len() >= 4 && to_ascii_lower(t.take(4)) == "for="@ {
        let rest = t.skip(4);
        let raw = match find_char(rest, '=') {
            Some(i) => rest.take(i),
            None => rest,
        };
        let ip = trim_matches(trim(raw), '"');
        if ip.len() > 0 {
            Some(ip)
        } else {
            None
        }
    } else {
        None
    }
}

/// The first address that the `;`-separated elements of a `Forwarded`
/// header give, in order.
pub open spec fn spec_forwarded_for(f: Seq<char>) -> Option<Seq<char>>
    decreases f.len(),
{
    match find_char(f, ';') {
        Some(i) => if 0 <= i < f.len() {
            match spec_for_value(f.take(i)) {
                Some(ip) => Some(ip),
                None => spec_forwarded_for(f.skip(i + 1)),
            }
        } else {
            None
        },
        None => spec_for_value(f),
    }
}

/// The first element of an `X-Forwarded-For` header, trimmed, unless empty.
pub open spec fn spec_first_forwarded(x: Seq<char>) -> Option<Seq<char>> {
    let first = match find_char(x, ',') {
        Some(i) => x.take(i),
        None => x,
    };
    if trim(first).len() > 0 {
        Some(trim(first))
    } else {
        None
    }
}

pub open spec fn opt_view(o: Option<&str>) -> Option<Seq<char>> {
    match o {
        Some(s) => Some(s@),
        None => None,
    }
}

/// The client's address, from the most trusted source the request has:
/// `CF-Connecting-IP`, `True-Client-IP`, the `for=` of `Forwarded`,
/// `X-Real-IP`, the first element of `X-Forwarded-For`, and at last the
/// address of the peer.
pub open spec fn spec_real_client_ip(h: ClientIpHeaders, peer: Option<Seq<char>>) -> Option<
    Seq<char>,
> {
    if h.cf_connecting_ip is Some {
        Some(trim(h.cf_connecting_ip->0@))
    } else if h.true_client_ip is Some {
        Some(trim(h.true_client_ip->0@))
    } else if h.forwarded is Some && spec_forwarded_for(h.forwarded->0@) is Some {
        spec_forwarded_for(h.forwarded->0@)
    } else if h.x_real_ip is Some {
        Some(trim(h.x_real_ip->0@))
    } else if h.x_forwarded_for is Some && spec_first_forwarded(h.x_forwarded_for->0@) is Some {
        spec_first_forwarded(h.x_forwarded_for->0@)
    } else {
        peer
    }
}

/// Priority law of the client address: `CF-Connecting-IP` wins when the
/// request has it; without it `True-Client-IP` wins; with only `X-Real-IP`
/// among the headers, it gives the address; each trimmed. With none of the
/// headers the address is the peer's. Whatever the headers, an address is
/// found when the peer's is known.
pub proof fn law_client_ip_priority(h: ClientIpHeaders, peer: Option<Seq<char>>)
    ensures
        h.cf_connecting_ip matches Some(c) ==> spec_real_client_ip(h, peer) == Some(trim(c@)),
        h.cf_connecting_ip is None ==> (h.true_client_ip matches Some(t) ==> spec_real_client_ip(
            h,
            peer,
        ) == Some(trim(t@))),
        h.cf_connecting_ip is None && h.true_client_ip is None && h.forwarded is None ==> (
        h.x_real_ip matches Some(x) ==> spec_real_client_ip(h, peer) == Some(trim(x@))),
        h.cf_connecting_ip is None && h.true_client_ip is None && h.forwarded is None
            && h.x_real_ip is None && h.x_forwarded_for is None ==> spec_real_client_ip(h, peer)
            == peer,
        peer is Some ==> spec_real_client_ip(h, peer) is Some,
{
}

fn trimmed(s: &str) -> (r: String)
    ensures
        r@ == trim(s@),
{
    let v = chars_of(s);
    let (a, b) = trim_bounds(&v, 0, v.len());
    assert(v@.subrange(0, v.len() as int) =~= s@);
    s.substring_char(a, b).to_owned()
}

/// The `for=` address of the element `v[lo..hi]`.
fn for_value(s: &str, v: &Vec<char>, lo: usize, hi: usize) -> (r: Option<String>)
    requires
        lo <= hi <= v.len(),
        v@ == s@,
    ensures
        match r {
            Some(ip) => spec_for_value(v@.subrange(lo as int, hi as int)) == Some(ip@),
            None => spec_for_value(v@.subrange(lo as int, hi as int)) is None,
        },
{
    let ghost p = v@.subrange(lo as int, hi as int);
    let (a, b) = trim_bounds(v, lo, hi);
    let ghost t = v@.subrange(a as int, b as int);
    if b - a < 4 || !range_eq_lower(v, a, a + 4, "for=") {
        proof {
            if b - a >= 4 {
                assert(t.take(4) =~= v@.subrange(a as int, a + 4));
            }
        }
        return None;
    }
    assert(t.take(4) =~= v@.subrange(a as int, a + 4));
    let ghost rest = t.skip(4);
    assert(rest =~= v@.subrange(a + 4, b as int));
    let end = match find_char_in(v, a + 4, b, '=') {
        Some(i) => {
            proof {
                crate::text::lemma_find_char_props(rest, '=');
                assert(rest.take(i as int) =~= v@.subrange(a + 4, a + 4 + i));
            }
            a + 4 + i
        },
        None => b,
    };
    let (c, d) = trim_bounds(v, a + 4, end);
    let (e, f) = trim_char_bounds(v, c, d, '"');
    if e == f {
        return None;
    }
    Some(s.substring_char(e, f).to_owned())
}

/// The address that a `Forwarded` header gives.
fn forwarded_for(s: &str) -> (r: Option<String>)
    ensures
        match r {
            Some(ip) => spec_forwarded_for(s@) == Some(ip@),
            None => spec_forwarded_for(s@) is None,
        },
{
    let v = chars_of(s);
    let n = v.len();
    let mut pos: usize = 0;
    assert(v@.skip(0) =~= s@);
    while pos <= n
        invariant
            v@ == s@,
            n == v.len(),
            pos <= n,
            spec_forwarded_for(s@) == spec_forwarded_for(v@.skip(pos as int)),
        decreases n - pos,
    {
        let ghost f = v@.skip(pos as int);
        assert(f =~= v@.subrange(pos as int, n as int));
        match find_char_in(&v, pos, n, ';') {
            Some(i) => {
                proof {
                    crate::text::lemma_find_char_props(f, ';');
                    assert(f.take(i as int) =~= v@.subrange(pos as int, pos + i));
                    assert(f.skip(i + 1) =~= v@.skip(pos + i + 1));
                }
                match for_value(s, &v, pos, pos + i) {
                    Some(ip) => {
                        return Some(ip);
                    },
                    None => {},
                }
                pos = pos + i + 1;
            },
            None => {
                return for_value(s, &v, pos, n);
            },
        }
    }
    None
}

/// The first element of an `X-Forwarded-For` header.
fn first_forwarded(s: &str) -> (r: Option<String>)
    ensures
        match r {
            Some(ip) => spec_first_forwarded(s@) == Some(ip@),
            None => spec_first_forwarded(s@) is None,
        },
{
    let v = chars_of(s);
    let n = v.len();
    assert(v@.subrange(0, n as int) =~= s@);
    let end = match find_char_in(&v, 0, n, ',') {
        Some(i) => {
            proof {
                crate::text::lemma_find_char_props(s@, ',');
                assert(s@.take(i as int) =~= v@.subrange(0, i as int));
            }
            i
        },
        None => n,
    };
    let (a, b) = trim_bounds(&v, 0, end);
    if a == b {
        None
    } else {
        Some(s.substring_char(a, b).to_owned())
    }
}

/// The client's address: see `spec_real_client_ip`. `peer_ip` is the
/// address of the connection's peer, as text.
pub fn get_real_client_ip(headers: &ClientIpHeaders, peer_ip: Option<String>) -> (r: Option<String>)
    ensures
        match r {
            Some(ip) => spec_real_client_ip(
                *headers,
                match peer_ip {
                    Some(p) => Some(p@),
                    None => None,
                },
            ) == Some(ip@),
            None => spec_real_client_ip(
                *headers,
                match peer_ip {
                    Some(p) => Some(p@),
                    None => None,
                },
            ) is None,
        },
{
    if let Some(cf) = headers.cf_connecting_ip {
        return Some(trimmed(cf));
    }
    if let Some(t) = headers.true_client_ip {
        return Some(trimmed(t));
    }
    if let Some(f) = headers.forwarded {
        if let Some(ip) = forwarded_for(f) {
            return Some(ip);
        }
    }
    if let Some(x) = headers.x_real_ip {
        return Some(trimmed(x));
    }
    if let Some(x) = headers.x_forwarded_for {
        if let Some(ip) = first_forwarded(x) {
            return Some(ip);
        }
    }
    peer_ip
}

/// A string of at most 50 bytes kept inline; longer input is cut at 50
/// bytes.
#[derive(Debug, Clone, Copy, PartialEq, Eq)]
pub struct StackString {
    bytes: [u8; 50],
    len: u8,
}

impl View for StackString {
    type V = Seq<u8>;

    /// The bytes kept.
    closed spec fn view(&self) -> Seq<u8> {
        self.bytes@.take(self.len as int)
    }
}

impl StackString {
    /// Keeps the first `min(s.len(), 50)` bytes of `s`.
    pub fn new(s: &str) -> (r: Self)
        ensures
            r@ == s.spec_bytes().take(
                if s.spec_bytes().len() < 50 {
                    s.spec_bytes().len() as int
                } else {
                    50
                },
            ),
    {
        let src = s.as_bytes();
        let len: usize = if src.len() < 50 {
            src.len()
        } else {
            50
        };
        let mut bytes: [u8; 50] = [0u8; 50];
        let mut i: usize = 0;
        while i < len
            invariant
                len <= 50,
                len <= src@.len(),
                src@ == s.spec_bytes(),
                i <= len,
                forall|j: int| 0 <= j < i ==> bytes@[j] == src@[j],
            decreases len - i,
        {
            bytes[i] = src[i];
            i = i + 1;
        }
        let r = StackString { bytes, len: len as u8 };
        assert(r.bytes@.take(len as int) =~= s.spec_bytes().take(len as int));
        r
    }

    /// The number of bytes kept.
    pub fn len(&self) -> (n: usize)
        ensures
            n == self@.len(),
    {
        proof {
            use_type_invariant(self);
        }
        self.len as usize
    }

    /// The kept bytes as text: the longest prefix of them that is UTF-8
    /// (all of them, unless the cut at 50 bytes fell inside a character).
    pub fn as_str(&self) -> (r: &str)
        ensures
            r.spec_bytes() == self@.take(utf8_prefix_len(self@, self@.len() as int)),
    {
        proof {
            use_type_invariant(self);
        }
        let all = vstd::array::array_as_slice(&self.bytes);
        let ghost v = self@;
        let mut k: usize = self.len as usize;
        loop
            invariant
                k <= self.len <= 50,
                all@ == self.bytes@,
                v == self@,
                v == self.bytes@.take(self.len as int),
                utf8_prefix_len(v, v.len() as int) == utf8_prefix_len(v, k as int),
            decreases k,
        {
            let part = vstd::slice::slice_subrange(all, 0, k);
            assert(part@ =~= v.take(k as int));
            match str_from_utf8(part) {
                Some(s) => {
                    return s;
                },
                None => {
                    if k == 0 {
                        assert(v.take(0) =~= Seq::<u8>::empty());
                        assert(false);
                    }
                    k = k - 1;
                },
            }
        }
    }

    #[verifier::type_invariant]
    spec fn well_formed(self) -> bool {
        self.len <= 50
    }
}

/// The length of the longest prefix of `b`, at most `k` bytes long, that is
/// UTF-8.
pub open spec fn utf8_prefix_len(b: Seq<u8>, k: int) -> int
    decreases k,
{
    if k <= 0 {
        0
    } else if vstd::utf8::valid_utf8(b.take(k)) {
        k
    } else {
        utf8_prefix_len(b, k - 1)
    }
}

/// Calls `std::str::from_utf8`: the text whose bytes are `b` when `b` is
/// UTF-8, and nothing otherwise (its documentation: an error exactly when
/// the bytes are not UTF-8).
#[verifier::external_body]
fn str_from_utf8<'a>(b: &'a [u8]) -> (r: Option<&'a str>)
    ensures
        match r {
            Some(s) => vstd::utf8::valid_utf8(b@) && s.spec_bytes() == b@,
            None => !vstd::utf8::valid_utf8(b@),
        },
{
    std::str::from_utf8(b).ok()
}

} // verus!
