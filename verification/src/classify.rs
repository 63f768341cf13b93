//! The classifier: a total, pure function from a request's header list to
//! the index of the backend that must handle it.

use vstd::prelude::*;
use crate::bytes::bytes_eq;
use crate::headers::header_lookup;
use crate::headers::headers_view;

verus! {

/// The bytes of the header name `content-type`.
pub open spec fn content_type_key() -> Seq<u8> {
    seq![99u8, 111u8, 110u8, 116u8, 101u8, 110u8, 116u8, 45u8, 116u8, 121u8, 112u8, 101u8]
}

/// The bytes of the reserved binary-RPC content type, `application/grpc`.
pub open spec fn grpc_content_type() -> Seq<u8> {
    seq![
        97u8,
        112u8,
        112u8,
        108u8,
        105u8,
        99u8,
        97u8,
        116u8,
        105u8,
        111u8,
        110u8,
        47u8,
        103u8,
        114u8,
        112u8,
        99u8,
    ]
}

/// The classification rule: index 1 (the binary-RPC backend) exactly when the
/// `content-type` header is present with the exact byte value
/// `application/grpc`; index 0 (the HTTP/JSON backend) in every other case,
/// including a missing header, an empty value, and any parameterized or
/// case-variant value.
pub open spec fn spec_classify(hs: Seq<(Seq<u8>, Seq<u8>)>) -> int {
    if header_lookup(hs, content_type_key()) == Some(grpc_content_type()) {
        1
    } else {
        0
    }
}

/// The classifier is total: every header list, whatever it holds, maps to a
/// valid index into the two-entry backend table. No "no match" state exists.
pub proof fn lemma_classify_total(hs: Seq<(Seq<u8>, Seq<u8>)>)
    ensures
        0 <= spec_classify(hs) < 2,
{
}

/// Builds the header name `content-type` as bytes.
pub fn content_type_key_bytes() -> (r: Vec<u8>)
    ensures
        r@ == content_type_key(),
{
    let mut v: Vec<u8> = Vec::new();
    v.push(99);
    v.push(111);
    v.push(110);
    v.push(116);
    v.push(101);
    v.push(110);
    v.push(116);
    v.push(45);
    v.push(116);
    v.push(121);
    v.push(112);
    v.push(101);
    proof {
        assert(v@ =~= content_type_key());
    }
    v
}

/// Builds the content type `application/grpc` as bytes.
pub fn grpc_content_type_bytes() -> (r: Vec<u8>)
    ensures
        r@ == grpc_content_type(),
{
    let mut v: Vec<u8> = Vec::new();
    v.push(97);
    v.push(112);
    v.push(112);
    v.push(108);
    v.push(105);
    v.push(99);
    v.push(97);
    v.push(116);
    v.push(105);
    v.push(111);
    v.push(110);
    v.push(47);
    v.push(103);
    v.push(114);
    v.push(112);
    v.push(99);
    proof {
        assert(v@ =~= grpc_content_type());
    }
    v
}

/// Classifies a request by its headers. Total: always returns a valid index,
/// reads nothing but the header list, and never fails.
pub fn classify(headers: &Vec<(Vec<u8>, Vec<u8>)>) -> (i: usize)
    ensures
        i == spec_classify(headers_view(headers@)),
        i <= 1,
{
    let key = content_type_key_bytes();
    match crate::headers::lookup_header(headers, &key) {
        None => 0,
        Some(value) => {
            let grpc = grpc_content_type_bytes();
            if bytes_eq(&value, &grpc) {
                1
            } else {
                0
            }
        },
    }
}

} // verus!
