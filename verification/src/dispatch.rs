//! The dispatcher: owner of the fixed backend table, built and validated
//! once at startup, then read-only. For each request it runs classifier,
//! chosen backend, and normalizer, and hands back the envelope to write.

use vstd::prelude::*;
use crate::classify::classify;
use crate::classify::content_type_key;
use crate::classify::grpc_content_type;
use crate::classify::spec_classify;
use crate::echo::greeting_of;
use crate::envelope::Envelope;
use crate::envelope::EnvelopeModel;
use crate::envelope::NativeResponse;
use crate::envelope::http_envelope_headers;
use crate::envelope::normalize;
use crate::envelope::rpc_envelope_headers;
use crate::envelope::spec_normalize_http;
use crate::envelope::spec_normalize_rpc;
use crate::framing::frame;
use crate::framing::lemma_frame_round_trip;
use crate::headers::header_lookup;
use crate::headers::headers_view;
use crate::http_backend::echo_path;
use crate::http_backend::http_backend;
use crate::http_backend::post_method;
use crate::http_backend::spec_http_backend;
use crate::json::json_obj;
use crate::json::lemma_json_round_trip;
use crate::json::spec_parse_echo;
use crate::proto::enc_echo;
use crate::proto::lemma_echo_round_trip;
use crate::proto::lemma_enc_varint_len;
use crate::proto::lemma_pow128_values;
use crate::rpc_backend::MAX_MESSAGE_LEN;
use crate::rpc_backend::RpcCode;
use crate::rpc_backend::grpc_backend;
use crate::rpc_backend::spec_rpc_backend;

verus! {

/// The closed set of backend kinds the listener can serve.
#[derive(Clone, Copy, PartialEq, Eq, Structural, Debug)]
pub enum BackendKind {
    HttpJson,
    BinaryRpc,
}

/// A startup-time configuration fault: the process must refuse to start on
/// it rather than serve with a broken table.
#[derive(Clone, Copy, PartialEq, Eq, Structural, Debug)]
pub enum ConfigError {
    BadTableSize,
}

/// A request head: method, path, and the header list in arrival order.
pub struct RequestHead {
    pub method: Vec<u8>,
    pub path: Vec<u8>,
    pub headers: Vec<(Vec<u8>, Vec<u8>)>,
}

/// The mathematical view of a request head.
pub struct HeadModel {
    pub method: Seq<u8>,
    pub path: Seq<u8>,
    pub headers: Seq<(Seq<u8>, Seq<u8>)>,
}

impl View for RequestHead {
    type V = HeadModel;

    open spec fn view(&self) -> HeadModel {
        HeadModel { method: self.method@, path: self.path@, headers: headers_view(self.headers@) }
    }
}

/// The conventional table: the HTTP/JSON backend at index 0, the binary-RPC
/// backend at index 1.
pub open spec fn standard_table() -> Seq<BackendKind> {
    seq![BackendKind::HttpJson, BackendKind::BinaryRpc]
}

/// What one backend kind answers for a request.
pub open spec fn spec_run_backend(kind: BackendKind, head: HeadModel, body: Seq<u8>) -> EnvelopeModel {
    match kind {
        BackendKind::HttpJson => spec_normalize_http(
            spec_http_backend(head.method, head.path, body),
        ),
        BackendKind::BinaryRpc => spec_normalize_rpc(spec_rpc_backend(body)),
    }
}

/// What the dispatcher answers: the envelope of the backend the classifier
/// picks from the table. A pure function of the request alone.
pub open spec fn spec_dispatch(table: Seq<BackendKind>, head: HeadModel, body: Seq<u8>) -> EnvelopeModel {
    spec_run_backend(table[spec_classify(head.headers)], head, body)
}

/// The dispatcher: the backend table, fixed after construction.
pub struct Dispatcher {
    pub backends: Vec<BackendKind>,
}

impl Dispatcher {
    /// The table invariant: one entry per index the classifier can return.
    pub open spec fn wf(&self) -> bool {
        self.backends@.len() == 2
    }

    /// Validates the backend table once, at startup: a table whose size does
    /// not cover the classifier's range is refused, never served.
    pub fn new(backends: Vec<BackendKind>) -> (r: Result<Dispatcher, ConfigError>)
        ensures
            (match r {
                Ok(d) => backends@.len() == 2 && d.backends@ == backends@ && d.wf(),
                Err(e) => backends@.len() != 2 && e == ConfigError::BadTableSize,
            }),
    {
        if backends.len() == 2 {
            Ok(Dispatcher { backends })
        } else {
            Err(ConfigError::BadTableSize)
        }
    }

    /// The conventional dispatcher: HTTP/JSON at index 0, binary RPC at 1.
    pub fn standard() -> (d: Dispatcher)
        ensures
            d.wf(),
            d.backends@ == standard_table(),
    {
        let mut backends: Vec<BackendKind> = Vec::new();
        backends.push(BackendKind::HttpJson);
        backends.push(BackendKind::BinaryRpc);
        proof {
            assert(backends@ =~= standard_table());
        }
        Dispatcher { backends }
    }

    /// Whether the table was validated; what `dispatch` asks of its caller.
    pub fn well_formed(&self) -> (b: bool)
        ensures
            b == self.wf(),
    {
        self.backends.len() == 2
    }

    /// Serves one request: classify, run the chosen backend, normalize.
    pub fn dispatch(&self, head: &RequestHead, body: &Vec<u8>) -> (e: Envelope)
        requires
            self.wf(),
        ensures
            e@ == spec_dispatch(self.backends@, head@, body@),
    {
        let i = classify(&head.headers);
        let kind = self.backends[i];
        match kind {
            BackendKind::HttpJson => normalize(
                NativeResponse::Http(http_backend(&head.method, &head.path, body)),
            ),
            BackendKind::BinaryRpc => normalize(NativeResponse::Rpc(grpc_backend(body))),
        }
    }
}

/// Whatever the path and method, a request whose `content-type` is exactly
/// `application/grpc` is handled by the binary-RPC backend.
pub proof fn lemma_rpc_content_type_routes_to_rpc(head: HeadModel, body: Seq<u8>)
    requires
        header_lookup(head.headers, content_type_key()) == Some(grpc_content_type()),
    ensures
        spec_dispatch(standard_table(), head, body) == spec_normalize_rpc(spec_rpc_backend(body)),
{
}

/// A request with a missing `content-type` header, or any value other than
/// `application/grpc`, is handled by the HTTP/JSON backend.
pub proof fn lemma_other_content_routes_to_http(head: HeadModel, body: Seq<u8>)
    requires
        header_lookup(head.headers, content_type_key()) != Some(grpc_content_type()),
    ensures
        spec_dispatch(standard_table(), head, body) == spec_normalize_http(
            spec_http_backend(head.method, head.path, body),
        ),
{
}

/// For every message `m`: a `POST /echo` carrying the serialized object for
/// `m`, under any non-RPC content type, is answered with a success envelope
/// whose body is the serialized greeting of `m`.
pub proof fn lemma_http_echo_round_trip(head: HeadModel, m: Seq<u8>)
    requires
        header_lookup(head.headers, content_type_key()) != Some(grpc_content_type()),
        head.method == post_method(),
        head.path == echo_path(),
    ensures
        spec_dispatch(standard_table(), head, json_obj(m)) == (EnvelopeModel {
            status: 200,
            headers: http_envelope_headers(),
            body: json_obj(greeting_of(m)),
        }),
{
    lemma_json_round_trip(m);
}

/// For every message `m` within the size cap: a framed, encoded RPC call for
/// `m`, under the RPC content type, is answered with a success envelope whose
/// body is the framed, encoded greeting of `m`.
pub proof fn lemma_rpc_echo_round_trip(head: HeadModel, m: Seq<u8>)
    requires
        header_lookup(head.headers, content_type_key()) == Some(grpc_content_type()),
        m.len() <= MAX_MESSAGE_LEN,
    ensures
        spec_dispatch(standard_table(), head, frame(enc_echo(m))) == (EnvelopeModel {
            status: 200,
            headers: rpc_envelope_headers(RpcCode::Success),
            body: frame(enc_echo(greeting_of(m))),
        }),
{
    lemma_pow128_values();
    if m.len() > 0 {
        lemma_enc_varint_len(m.len(), 5);
    }
    lemma_frame_round_trip(enc_echo(m));
    lemma_echo_round_trip(m);
}

/// No cross-talk: of two requests, one classified to each backend, each is
/// answered exactly by its own backend's contract, a function of its own
/// request alone.
#[verifier::rlimit(100)]
pub proof fn lemma_no_cross_talk(h1: HeadModel, b1: Seq<u8>, h2: HeadModel, b2: Seq<u8>)
    requires
        header_lookup(h1.headers, content_type_key()) == Some(grpc_content_type()),
        header_lookup(h2.headers, content_type_key()) != Some(grpc_content_type()),
    ensures
        spec_dispatch(standard_table(), h1, b1) == spec_normalize_rpc(spec_rpc_backend(b1)),
        spec_dispatch(standard_table(), h2, b2) == spec_normalize_http(
            spec_http_backend(h2.method, h2.path, b2),
        ),
{
}

/// Idempotence: the same request yields the same envelope, byte for byte;
/// dispatch is a pure function of its input.
pub proof fn lemma_dispatch_deterministic(
    table: Seq<BackendKind>,
    h1: HeadModel,
    b1: Seq<u8>,
    h2: HeadModel,
    b2: Seq<u8>,
)
    requires
        h1 == h2,
        b1 == b2,
    ensures
        spec_dispatch(table, h1, b1) == spec_dispatch(table, h2, b2),
{
}

/// A malformed body on the HTTP echo path is answered with a client error
/// and an empty body; the request is absorbed, not escalated.
pub proof fn lemma_malformed_json_client_error(head: HeadModel, body: Seq<u8>)
    requires
        header_lookup(head.headers, content_type_key()) != Some(grpc_content_type()),
        head.method == post_method(),
        head.path == echo_path(),
        spec_parse_echo(body) is None,
    ensures
        spec_dispatch(standard_table(), head, body).status == 400,
        spec_dispatch(standard_table(), head, body).body == Seq::<u8>::empty(),
{
}

/// Recovery after a failure: a malformed body on the echo path is answered
/// with a client error, and a well-formed echo request handled afterwards by
/// the same dispatcher is answered exactly as in isolation — the failure
/// leaves no state behind, since every answer is a function of its own
/// request alone.
pub proof fn lemma_recovery_after_malformed(
    bad_head: HeadModel,
    bad_body: Seq<u8>,
    head: HeadModel,
    m: Seq<u8>,
)
    requires
        header_lookup(bad_head.headers, content_type_key()) != Some(grpc_content_type()),
        bad_head.method == post_method(),
        bad_head.path == echo_path(),
        spec_parse_echo(bad_body) is None,
        header_lookup(head.headers, content_type_key()) != Some(grpc_content_type()),
        head.method == post_method(),
        head.path == echo_path(),
    ensures
        spec_dispatch(standard_table(), bad_head, bad_body).status == 400,
        spec_dispatch(standard_table(), head, json_obj(m)) == (EnvelopeModel {
            status: 200,
            headers: http_envelope_headers(),
            body: json_obj(greeting_of(m)),
        }),
{
    lemma_json_round_trip(m);
}

} // verus!
