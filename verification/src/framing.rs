//! The binary-RPC message framing: each message travels as one frame of a
//! compression flag byte (0, uncompressed), a four-byte big-endian payload
//! length, and the payload itself.

use vstd::prelude::*;
use crate::bytes::append_bytes;
use crate::bytes::copy_range;

verus! {

/// The big-endian four-byte encoding of `n`.
pub open spec fn be32(n: nat) -> Seq<u8> {
    seq![
        ((n / 256 / 256 / 256) % 256) as u8,
        ((n / 256 / 256) % 256) as u8,
        ((n / 256) % 256) as u8,
        (n % 256) as u8,
    ]
}

/// The value of a four-byte big-endian length.
pub open spec fn be32_val(s: Seq<u8>) -> nat {
    (16777216 * s[0] + 65536 * s[1] + 256 * s[2] + s[3]) as nat
}

/// The frame around payload `p`.
pub open spec fn frame(p: Seq<u8>) -> Seq<u8> {
    seq![0u8] + be32(p.len()) + p
}

/// Strips a frame: the payload, or `None` when the bytes are not one whole
/// uncompressed frame whose declared length matches.
pub open spec fn unframe(s: Seq<u8>) -> Option<Seq<u8>> {
    if s.len() >= 5 && s[0] == 0 && be32_val(s.subrange(1, 5)) == s.len() - 5 {
        Some(s.subrange(5, s.len() as int))
    } else {
        None
    }
}

/// A length below 2^32 survives the four-byte big-endian round trip.
pub proof fn lemma_be32_val(n: nat)
    requires
        n <= 0xffff_ffff,
    ensures
        be32_val(be32(n)) == n,
{
    let n1 = n / 256;
    let n2 = n1 / 256;
    let n3 = n2 / 256;
    assert(n == 256 * n1 + n % 256);
    assert(n1 == 256 * n2 + n1 % 256);
    assert(n2 == 256 * n3 + n2 % 256);
    assert(n3 < 256);
    assert(n3 % 256 == n3);
    assert(be32_val(be32(n)) == 16777216 * n3 + 65536 * (n2 % 256) + 256 * (n1 % 256) + n % 256);
}

/// Round trip: stripping the frame around `p` yields `p`.
pub proof fn lemma_frame_round_trip(p: Seq<u8>)
    requires
        p.len() <= 0xffff_ffff,
    ensures
        unframe(frame(p)) == Some(p),
{
    let s = frame(p);
    let b = be32(p.len());
    assert(s.len() == 5 + p.len());
    assert(s[0] == 0);
    assert(s[1] == b[0] && s[2] == b[1] && s[3] == b[2] && s[4] == b[3]);
    assert(s.subrange(1, 5) =~= b);
    lemma_be32_val(p.len());
    assert(s.subrange(5, s.len() as int) =~= p);
}

/// Wraps a payload in a frame.
pub fn frame_bytes(p: &Vec<u8>) -> (r: Vec<u8>)
    requires
        p@.len() <= 0xffff_ffff,
    ensures
        r@ == frame(p@),
{
    let n = p.len() as u32;
    let mut out: Vec<u8> = Vec::new();
    out.push(0);
    out.push(((n / 256 / 256 / 256) % 256) as u8);
    out.push(((n / 256 / 256) % 256) as u8);
    out.push(((n / 256) % 256) as u8);
    out.push((n % 256) as u8);
    proof {
        assert(out@ =~= seq![0u8] + be32(p@.len()));
    }
    append_bytes(&mut out, p);
    proof {
        assert(out@ =~= frame(p@));
    }
    out
}

/// Strips a frame.
pub fn unframe_bytes(s: &Vec<u8>) -> (r: Option<Vec<u8>>)
    ensures
        (match r {
            Some(v) => Some(v@),
            None => None::<Seq<u8>>,
        }) == unframe(s@),
{
    if s.len() < 5 {
        return None;
    }
    if s[0] != 0 {
        return None;
    }
    let v: u32 = (s[1] as u32) * 16777216 + (s[2] as u32) * 65536 + (s[3] as u32) * 256 + (
    s[4] as u32);
    proof {
        assert(s@.subrange(1, 5)[0] == s@[1]);
        assert(s@.subrange(1, 5)[1] == s@[2]);
        assert(s@.subrange(1, 5)[2] == s@[3]);
        assert(s@.subrange(1, 5)[3] == s@[4]);
    }
    if s.len() - 5 != v as usize {
        return None;
    }
    Some(copy_range(s, 5, s.len()))
}

} // verus!
