//! The HTTP/JSON backend: one REST endpoint, `POST /echo`, taking
//! `{"message": "<string>"}` and answering `200` with the greeting, `400` on
//! a malformed body, and `404` on any other route.

use vstd::prelude::*;
use crate::bytes::bytes_eq;
use crate::echo::greet;
use crate::echo::greeting_of;
use crate::json::json_obj;
use crate::json::parse_echo_request;
use crate::json::spec_parse_echo;
use crate::json::write_json_message;

verus! {

/// A native HTTP response: a status code and a body.
pub struct HttpResponse {
    pub status: u16,
    pub body: Vec<u8>,
}

/// The mathematical view of an HTTP response.
pub struct HttpResponseModel {
    pub status: int,
    pub body: Seq<u8>,
}

impl View for HttpResponse {
    type V = HttpResponseModel;

    open spec fn view(&self) -> HttpResponseModel {
        HttpResponseModel { status: self.status as int, body: self.body@ }
    }
}

/// The bytes of `POST`.
pub open spec fn post_method() -> Seq<u8> {
    seq![80u8, 79u8, 83u8, 84u8]
}

/// The bytes of `/echo`.
pub open spec fn echo_path() -> Seq<u8> {
    seq![47u8, 101u8, 99u8, 104u8, 111u8]
}

/// What the echo handler returns: `200` with the serialized greeting when the
/// body parses, `400` with an empty body when it does not.
pub open spec fn spec_echo_for_json(body: Seq<u8>) -> HttpResponseModel {
    match spec_parse_echo(body) {
        None => HttpResponseModel { status: 400, body: Seq::empty() },
        Some(m) => HttpResponseModel { status: 200, body: json_obj(greeting_of(m)) },
    }
}

/// What the whole backend returns: the echo handler on `POST /echo`, `404`
/// with an empty body on every other method or path.
pub open spec fn spec_http_backend(method: Seq<u8>, path: Seq<u8>, body: Seq<u8>) -> HttpResponseModel {
    if method == post_method() && path == echo_path() {
        spec_echo_for_json(body)
    } else {
        HttpResponseModel { status: 404, body: Seq::empty() }
    }
}

/// Builds the method name `POST` as bytes.
pub fn post_method_bytes() -> (r: Vec<u8>)
    ensures
        r@ == post_method(),
{
    let mut v: Vec<u8> = Vec::new();
    v.push(80);
    v.push(79);
    v.push(83);
    v.push(84);
    proof {
        assert(v@ =~= post_method());
    }
    v
}

/// Builds the path `/echo` as bytes.
pub fn echo_path_bytes() -> (r: Vec<u8>)
    ensures
        r@ == echo_path(),
{
    let mut v: Vec<u8> = Vec::new();
    v.push(47);
    v.push(101);
    v.push(99);
    v.push(104);
    v.push(111);
    proof {
        assert(v@ =~= echo_path());
    }
    v
}

/// The echo handler: parses the body, greets the message, serializes the
/// answer. A malformed body is answered with a client error, never a crash.
pub fn echo_for_json(body: &Vec<u8>) -> (r: HttpResponse)
    ensures
        r@ == spec_echo_for_json(body@),
{
    match parse_echo_request(body) {
        None => HttpResponse { status: 400, body: Vec::new() },
        Some(m) => {
            let greeting = greet(&m);
            HttpResponse { status: 200, body: write_json_message(&greeting) }
        },
    }
}

/// The backend: routes `POST /echo` to the echo handler and answers `404`
/// elsewhere.
pub fn http_backend(method: &Vec<u8>, path: &Vec<u8>, body: &Vec<u8>) -> (r: HttpResponse)
    ensures
        r@ == spec_http_backend(method@, path@, body@),
{
    let post = post_method_bytes();
    let echo = echo_path_bytes();
    if bytes_eq(method, &post) && bytes_eq(path, &echo) {
        echo_for_json(body)
    } else {
        HttpResponse { status: 404, body: Vec::new() }
    }
}

} // verus!
