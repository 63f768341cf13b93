//! The binary-RPC backend: one unary echo method with the same meaning as
//! the HTTP endpoint, spoken over the binary framing and schema. Malformed
//! framing or schema surfaces as an RPC failure status, never a crash.

use vstd::prelude::*;
use crate::echo::EchoRequest;
use crate::echo::EchoResponse;
use crate::echo::greet;
use crate::echo::greeting_of;
use crate::framing::frame;
use crate::framing::frame_bytes;
use crate::framing::unframe;
use crate::framing::unframe_bytes;
use crate::proto::dec_echo;
use crate::proto::decode_echo;
use crate::proto::enc_echo;
use crate::proto::encode_echo;
use crate::proto::lemma_enc_varint_len;
use crate::proto::lemma_pow128_values;

verus! {

/// The RPC status codes this backend can answer with, by their protocol
/// meaning: success, a request outside the wire schema, and a request too
/// large to answer.
#[derive(Clone, Copy, PartialEq, Eq, Structural, Debug)]
pub enum RpcCode {
    Success,
    InvalidArgument,
    ResourceExhausted,
}

/// A native RPC response: a status code and the framed response message.
pub struct RpcResponse {
    pub code: RpcCode,
    pub payload: Vec<u8>,
}

/// The mathematical view of an RPC response.
pub struct RpcResponseModel {
    pub code: RpcCode,
    pub payload: Seq<u8>,
}

impl View for RpcResponse {
    type V = RpcResponseModel;

    open spec fn view(&self) -> RpcResponseModel {
        RpcResponseModel { code: self.code, payload: self.payload@ }
    }
}

/// The largest message this backend answers: the greeting and its framing
/// must still fit a four-byte frame length.
pub const MAX_MESSAGE_LEN: usize = 0xffff_fff1;

/// The RPC echo service.
pub struct GrpcEchoService;

impl GrpcEchoService {
    /// The unary echo method: greets the message.
    pub fn unary_echo(&self, request: EchoRequest) -> (r: EchoResponse)
        ensures
            r.message@ == greeting_of(request.message@),
    {
        EchoResponse { message: greet(&request.message) }
    }
}

/// What the backend returns: for one well-framed, well-formed message that is
/// not over the size cap, a success status carrying the framed greeting; a
/// failure status with an empty payload in every other case.
pub open spec fn spec_rpc_backend(body: Seq<u8>) -> RpcResponseModel {
    match unframe(body) {
        None => RpcResponseModel { code: RpcCode::InvalidArgument, payload: Seq::empty() },
        Some(p) => match dec_echo(p) {
            None => RpcResponseModel { code: RpcCode::InvalidArgument, payload: Seq::empty() },
            Some(m) => if m.len() <= MAX_MESSAGE_LEN {
                RpcResponseModel {
                    code: RpcCode::Success,
                    payload: frame(enc_echo(greeting_of(m))),
                }
            } else {
                RpcResponseModel { code: RpcCode::ResourceExhausted, payload: Seq::empty() }
            },
        },
    }
}

/// The backend: unframes and decodes the request, runs the echo method, and
/// frames the encoded answer.
pub fn grpc_backend(body: &Vec<u8>) -> (r: RpcResponse)
    ensures
        r@ == spec_rpc_backend(body@),
{
    match unframe_bytes(body) {
        None => RpcResponse { code: RpcCode::InvalidArgument, payload: Vec::new() },
        Some(payload) => match decode_echo(&payload) {
            None => RpcResponse { code: RpcCode::InvalidArgument, payload: Vec::new() },
            Some(m) => {
                if m.len() <= MAX_MESSAGE_LEN {
                    let service = GrpcEchoService;
                    let response = service.unary_echo(EchoRequest { message: m });
                    proof {
                        lemma_pow128_values();
                        lemma_enc_varint_len(response.message@.len(), 5);
                    }
                    let encoded = encode_echo(&response.message);
                    let framed = frame_bytes(&encoded);
                    RpcResponse { code: RpcCode::Success, payload: framed }
                } else {
                    RpcResponse { code: RpcCode::ResourceExhausted, payload: Vec::new() }
                }
            },
        },
    }
}

} // verus!
