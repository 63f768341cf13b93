//! The common response envelope: the one protocol-neutral shape every
//! backend's native response is folded into before it is written back to the
//! connection, and the normalizer that does the folding.

use vstd::prelude::*;
use crate::classify::content_type_key;
use crate::classify::content_type_key_bytes;
use crate::classify::grpc_content_type;
use crate::classify::grpc_content_type_bytes;
use crate::headers::headers_view;
use crate::http_backend::HttpResponse;
use crate::http_backend::HttpResponseModel;
use crate::rpc_backend::RpcCode;
use crate::rpc_backend::RpcResponse;
use crate::rpc_backend::RpcResponseModel;

verus! {

/// The common response envelope: a status code, response headers, and the
/// body bytes to write back.
pub struct Envelope {
    pub status: u16,
    pub headers: Vec<(Vec<u8>, Vec<u8>)>,
    pub body: Vec<u8>,
}

/// The mathematical view of an envelope.
pub struct EnvelopeModel {
    pub status: int,
    pub headers: Seq<(Seq<u8>, Seq<u8>)>,
    pub body: Seq<u8>,
}

impl View for Envelope {
    type V = EnvelopeModel;

    open spec fn view(&self) -> EnvelopeModel {
        EnvelopeModel {
            status: self.status as int,
            headers: headers_view(self.headers@),
            body: self.body@,
        }
    }
}

/// A backend's native response, one variant per backend kind.
pub enum NativeResponse {
    Http(HttpResponse),
    Rpc(RpcResponse),
}

/// The bytes of `application/json`.
pub open spec fn json_content_type() -> Seq<u8> {
    seq![
        97u8,
        112u8,
        112u8,
        108u8,
        105u8,
        99u8,
        97u8,
        116u8,
        105u8,
        111u8,
        110u8,
        47u8,
        106u8,
        115u8,
        111u8,
        110u8,
    ]
}

/// The bytes of the header name `grpc-status`.
pub open spec fn grpc_status_key() -> Seq<u8> {
    seq![103u8, 114u8, 112u8, 99u8, 45u8, 115u8, 116u8, 97u8, 116u8, 117u8, 115u8]
}

/// The decimal ASCII form of an RPC status code.
pub open spec fn status_ascii(code: RpcCode) -> Seq<u8> {
    match code {
        RpcCode::Success => seq![48u8],
        RpcCode::InvalidArgument => seq![51u8],
        RpcCode::ResourceExhausted => seq![56u8],
    }
}

/// The envelope headers of an HTTP/JSON response.
pub open spec fn http_envelope_headers() -> Seq<(Seq<u8>, Seq<u8>)> {
    seq![(content_type_key(), json_content_type())]
}

/// The envelope headers of a binary-RPC response: the RPC content type and
/// the protocol's status code.
pub open spec fn rpc_envelope_headers(code: RpcCode) -> Seq<(Seq<u8>, Seq<u8>)> {
    seq![(content_type_key(), grpc_content_type()), (grpc_status_key(), status_ascii(code))]
}

/// An HTTP response keeps its status 1:1; the body is passed through.
pub open spec fn spec_normalize_http(h: HttpResponseModel) -> EnvelopeModel {
    EnvelopeModel { status: h.status, headers: http_envelope_headers(), body: h.body }
}

/// An RPC response rides on transport status 200; its own outcome travels in
/// the protocol's status header, and the framed payload is passed through.
pub open spec fn spec_normalize_rpc(r: RpcResponseModel) -> EnvelopeModel {
    EnvelopeModel { status: 200, headers: rpc_envelope_headers(r.code), body: r.payload }
}

/// The normalizer over the sum of native response shapes.
pub open spec fn spec_normalize(n: NativeResponse) -> EnvelopeModel {
    match n {
        NativeResponse::Http(h) => spec_normalize_http(h@),
        NativeResponse::Rpc(r) => spec_normalize_rpc(r@),
    }
}

/// Builds the content type `application/json` as bytes.
fn json_content_type_bytes() -> (r: Vec<u8>)
    ensures
        r@ == json_content_type(),
{
    let mut v: Vec<u8> = Vec::new();
    v.push(97);
    v.push(112);
    v.push(112);
    v.push(108);
    v.push(105);
    v.push(99);
    v.push(97);
    v.push(116);
    v.push(105);
    v.push(111);
    v.push(110);
    v.push(47);
    v.push(106);
    v.push(115);
    v.push(111);
    v.push(110);
    proof {
        assert(v@ =~= json_content_type());
    }
    v
}

/// Builds the header name `grpc-status` as bytes.
fn grpc_status_key_bytes() -> (r: Vec<u8>)
    ensures
        r@ == grpc_status_key(),
{
    let mut v: Vec<u8> = Vec::new();
    v.push(103);
    v.push(114);
    v.push(112);
    v.push(99);
    v.push(45);
    v.push(115);
    v.push(116);
    v.push(97);
    v.push(116);
    v.push(117);
    v.push(115);
    proof {
        assert(v@ =~= grpc_status_key());
    }
    v
}

/// Builds the decimal ASCII form of an RPC status code.
fn status_ascii_bytes(code: RpcCode) -> (r: Vec<u8>)
    ensures
        r@ == status_ascii(code),
{
    let mut v: Vec<u8> = Vec::new();
    match code {
        RpcCode::Success => v.push(48),
        RpcCode::InvalidArgument => v.push(51),
        RpcCode::ResourceExhausted => v.push(56),
    }
    proof {
        assert(v@ =~= status_ascii(code));
    }
    v
}

/// Folds a native response into the common envelope.
pub fn normalize(n: NativeResponse) -> (e: Envelope)
    ensures
        e@ == spec_normalize(n),
{
    match n {
        NativeResponse::Http(h) => {
            let mut hs: Vec<(Vec<u8>, Vec<u8>)> = Vec::new();
            hs.push((content_type_key_bytes(), json_content_type_bytes()));
            proof {
                assert(headers_view(hs@) =~= http_envelope_headers());
            }
            Envelope { status: h.status, headers: hs, body: h.body }
        },
        NativeResponse::Rpc(r) => {
            let mut hs: Vec<(Vec<u8>, Vec<u8>)> = Vec::new();
            hs.push((content_type_key_bytes(), grpc_content_type_bytes()));
            hs.push((grpc_status_key_bytes(), status_ascii_bytes(r.code)));
            proof {
                assert(headers_view(hs@) =~= rpc_envelope_headers(r.code));
            }
            Envelope { status: 200, headers: hs, body: r.payload }
        },
    }
}

} // verus!
