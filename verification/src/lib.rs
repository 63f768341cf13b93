//! A single-port echo server core: one listening endpoint serves both a
//! JSON-over-HTTP interface and a binary RPC protocol. The library holds the
//! verified heart of that server: the classifier that picks a backend from a
//! request's `content-type` header, the two backend computations (JSON echo
//! and unary RPC echo, including their wire codecs), and the normalizer that
//! folds every backend's native response into one common envelope.
//!
//! All wire data is modelled as bytes; the surrounding process (sockets,
//! HTTP framing, the async runtime) stays outside and hands the library plain
//! values.

pub mod bytes;
pub mod classify;
pub mod dispatch;
pub mod echo;
pub mod envelope;
pub mod framing;
pub mod headers;
pub mod http_backend;
pub mod json;
pub mod proto;
pub mod rpc_backend;

pub use dispatch::BackendKind;
pub use dispatch::Dispatcher;
pub use dispatch::RequestHead;
pub use echo::EchoRequest;
pub use echo::EchoResponse;
pub use envelope::Envelope;
pub use rpc_backend::GrpcEchoService;
