//! The header map model: a list of name/value pairs of bytes, looked up with
//! case-insensitive names, the last written pair winning on duplicates.

use vstd::prelude::*;
use crate::bytes::bytes_eq;
use crate::bytes::copy_bytes;

verus! {

/// ASCII lowercasing of one byte.
pub open spec fn lower_byte(b: u8) -> u8 {
    if 65 <= b <= 90 {
        (b + 32) as u8
    } else {
        b
    }
}

/// ASCII lowercasing of a byte string.
pub open spec fn lower_seq(s: Seq<u8>) -> Seq<u8> {
    s.map_values(|b: u8| lower_byte(b))
}

/// The mathematical view of a header list: each name and value as a byte
/// sequence, in order of arrival.
pub open spec fn headers_view(hs: Seq<(Vec<u8>, Vec<u8>)>) -> Seq<(Seq<u8>, Seq<u8>)> {
    hs.map_values(|p: (Vec<u8>, Vec<u8>)| (p.0@, p.1@))
}

/// Looks `key` (given in lowercase) up in a header list: the value of the
/// last pair whose lowercased name equals `key`, if any.
pub open spec fn header_lookup(hs: Seq<(Seq<u8>, Seq<u8>)>, key: Seq<u8>) -> Option<Seq<u8>>
    decreases hs.len(),
{
    if hs.len() == 0 {
        None
    } else if lower_seq(hs.last().0) == key {
        Some(hs.last().1)
    } else {
        header_lookup(hs.drop_last(), key)
    }
}

/// ASCII-lowercases a byte string.
pub fn to_lower(v: &Vec<u8>) -> (r: Vec<u8>)
    ensures
        r@ == lower_seq(v@),
{
    let mut out: Vec<u8> = Vec::new();
    let mut i: usize = 0;
    while i < v.len()
        invariant
            i <= v.len(),
            out@ == lower_seq(v@.take(i as int)),
        decreases v.len() - i,
    {
        let b = v[i];
        if 65 <= b && b <= 90 {
            out.push(b + 32);
        } else {
            out.push(b);
        }
        proof {
            assert(out@ =~= lower_seq(v@.take(i + 1)));
        }
        i = i + 1;
    }
    proof {
        assert(v@.take(v@.len() as int) =~= v@);
    }
    out
}

/// Finds the last header whose lowercased name equals `key` and returns a
/// copy of its value.
pub fn lookup_header(headers: &Vec<(Vec<u8>, Vec<u8>)>, key: &Vec<u8>) -> (r: Option<Vec<u8>>)
    ensures
        (match r {
            Some(v) => Some(v@),
            None => None::<Seq<u8>>,
        }) == header_lookup(headers_view(headers@), key@),
{
    let ghost hv = headers_view(headers@);
    let mut idx: usize = headers.len();
    proof {
        assert(hv.take(headers@.len() as int) =~= hv);
    }
    while idx > 0
        invariant
            idx <= headers.len(),
            hv == headers_view(headers@),
            header_lookup(hv, key@) == header_lookup(hv.take(idx as int), key@),
        decreases idx,
    {
        idx = idx - 1;
        let lowered = to_lower(&headers[idx].0);
        proof {
            assert(hv.take(idx + 1).last() == (headers@[idx as int].0@, headers@[idx as int].1@));
            assert(hv.take(idx + 1).drop_last() =~= hv.take(idx as int));
        }
        if bytes_eq(&lowered, key) {
            let value = copy_bytes(&headers[idx].1);
            return Some(value);
        }
    }
    proof {
        assert(hv.take(0) =~= Seq::<(Seq<u8>, Seq<u8>)>::empty());
    }
    None
}

} // verus!
