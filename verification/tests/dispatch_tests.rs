use echo_mux::dispatch::BackendKind;
use echo_mux::dispatch::ConfigError;
use echo_mux::dispatch::Dispatcher;
use echo_mux::dispatch::RequestHead;
use echo_mux::http_backend::echo_for_json;
use echo_mux::http_backend::http_backend;
use echo_mux::json::write_json_message;
use echo_mux::proto::encode_echo;

fn frame_of(payload: &[u8]) -> Vec<u8> {
    let n = payload.len() as u32;
    let mut out = vec![
        0u8,
        (n >> 24) as u8,
        (n >> 16) as u8,
        (n >> 8) as u8,
        n as u8,
    ];
    out.extend_from_slice(payload);
    out
}

fn head(method: &[u8], path: &[u8], headers: &[(&[u8], &[u8])]) -> RequestHead {
    RequestHead {
        method: method.to_vec(),
        path: path.to_vec(),
        headers: headers.iter().map(|(n, v)| (n.to_vec(), v.to_vec())).collect(),
    }
}

fn header_value(headers: &[(Vec<u8>, Vec<u8>)], name: &[u8]) -> Option<Vec<u8>> {
    headers
        .iter()
        .rev()
        .find(|(n, _)| n == &name.to_vec())
        .map(|(_, v)| v.clone())
}

#[test]
fn new_accepts_two_backends() {
    let d = Dispatcher::new(vec![BackendKind::HttpJson, BackendKind::BinaryRpc]);
    assert!(d.is_ok());
}

#[test]
fn new_refuses_empty_table() {
    let d = Dispatcher::new(Vec::new());
    assert_eq!(d.err(), Some(ConfigError::BadTableSize));
}

#[test]
fn new_refuses_oversized_table() {
    let d = Dispatcher::new(vec![
        BackendKind::HttpJson,
        BackendKind::BinaryRpc,
        BackendKind::HttpJson,
    ]);
    assert_eq!(d.err(), Some(ConfigError::BadTableSize));
}

#[test]
fn http_echo_end_to_end() {
    let d = Dispatcher::standard();
    let body = write_json_message(&b"world".to_vec());
    let h = head(b"POST", b"/echo", &[(b"content-type", b"application/json")]);
    let env = d.dispatch(&h, &body);
    assert_eq!(env.status, 200);
    assert_eq!(
        header_value(&env.headers, b"content-type"),
        Some(b"application/json".to_vec())
    );
    assert_eq!(env.body, b"{\"message\":\"Hello, world!\"}".to_vec());
}

#[test]
fn rpc_echo_end_to_end() {
    let d = Dispatcher::standard();
    let body = frame_of(&encode_echo(&b"world".to_vec()));
    let h = head(b"POST", b"/examples.Echo/UnaryEcho", &[(b"content-type", b"application/grpc")]);
    let env = d.dispatch(&h, &body);
    assert_eq!(env.status, 200);
    assert_eq!(
        header_value(&env.headers, b"content-type"),
        Some(b"application/grpc".to_vec())
    );
    assert_eq!(header_value(&env.headers, b"grpc-status"), Some(b"0".to_vec()));
    assert_eq!(env.body, frame_of(&encode_echo(&b"Hello, world!".to_vec())));
}

#[test]
fn grpc_content_type_routes_to_rpc_whatever_the_path() {
    let d = Dispatcher::standard();
    // an empty body is not a frame: the RPC backend answers, with its own
    // failure status, even on the HTTP echo path and method
    let h = head(b"POST", b"/echo", &[(b"content-type", b"application/grpc")]);
    let env = d.dispatch(&h, &Vec::new());
    assert_eq!(env.status, 200);
    assert_eq!(
        header_value(&env.headers, b"content-type"),
        Some(b"application/grpc".to_vec())
    );
    assert_eq!(header_value(&env.headers, b"grpc-status"), Some(b"3".to_vec()));
}

#[test]
fn other_content_types_route_to_http() {
    let d = Dispatcher::standard();
    let body = write_json_message(&b"m".to_vec());
    for ct in [
        &b"application/json"[..],
        b"application/grpc+proto",
        b"Application/Grpc",
        b"",
    ] {
        let h = head(b"POST", b"/echo", &[(b"content-type", ct)]);
        let env = d.dispatch(&h, &body);
        assert_eq!(env.status, 200);
        assert_eq!(
            header_value(&env.headers, b"content-type"),
            Some(b"application/json".to_vec())
        );
    }
    // missing header entirely
    let h = head(b"POST", b"/echo", &[]);
    let env = d.dispatch(&h, &body);
    assert_eq!(env.status, 200);
    assert_eq!(
        header_value(&env.headers, b"content-type"),
        Some(b"application/json".to_vec())
    );
}

#[test]
fn concurrent_style_requests_no_cross_talk() {
    // two independent requests, one per backend: each envelope carries only
    // its own backend's shape
    let d = Dispatcher::standard();
    let http_head = head(b"POST", b"/echo", &[]);
    let http_body = write_json_message(&b"first".to_vec());
    let rpc_head = head(b"POST", b"/echo", &[(b"content-type", b"application/grpc")]);
    let rpc_body = frame_of(&encode_echo(&b"second".to_vec()));
    let http_env = d.dispatch(&http_head, &http_body);
    let rpc_env = d.dispatch(&rpc_head, &rpc_body);
    assert_eq!(http_env.body, b"{\"message\":\"Hello, first!\"}".to_vec());
    assert_eq!(header_value(&http_env.headers, b"grpc-status"), None);
    assert_eq!(rpc_env.body, frame_of(&encode_echo(&b"Hello, second!".to_vec())));
    assert_eq!(header_value(&rpc_env.headers, b"grpc-status"), Some(b"0".to_vec()));
}

#[test]
fn malformed_json_gets_client_error_and_listener_goes_on() {
    let d = Dispatcher::standard();
    let h = head(b"POST", b"/echo", &[]);
    let env = d.dispatch(&h, &b"{\"message\": oops}".to_vec());
    assert_eq!(env.status, 400);
    assert!(env.body.is_empty());
    // the next request on the same dispatcher is served normally
    let env2 = d.dispatch(&h, &write_json_message(&b"next".to_vec()));
    assert_eq!(env2.status, 200);
    assert_eq!(env2.body, b"{\"message\":\"Hello, next!\"}".to_vec());
}

#[test]
fn http_echo_accepts_escaped_and_extra_members() {
    let d = Dispatcher::standard();
    let h = head(b"POST", b"/echo", &[(b"content-type", b"application/json")]);
    // a body as other JSON writers produce it: escaped non-ASCII, an
    // unknown member, free whitespace
    let body = b"{ \"tag\": [1, 2.5], \"message\": \"caf\\u00e9\" }".to_vec();
    let env = d.dispatch(&h, &body);
    assert_eq!(env.status, 200);
    assert_eq!(env.body, "{\"message\":\"Hello, café!\"}".as_bytes().to_vec());
}

#[test]
fn unknown_route_is_not_found() {
    let d = Dispatcher::standard();
    let body = write_json_message(&b"m".to_vec());
    let env = d.dispatch(&head(b"POST", b"/else", &[]), &body);
    assert_eq!(env.status, 404);
    let env = d.dispatch(&head(b"GET", b"/echo", &[]), &body);
    assert_eq!(env.status, 404);
}

#[test]
fn same_request_twice_is_byte_identical() {
    let d = Dispatcher::standard();
    for (h, body) in [
        (head(b"POST", b"/echo", &[]), write_json_message(&b"again".to_vec())),
        (
            head(b"POST", b"/x", &[(b"content-type", b"application/grpc")]),
            frame_of(&encode_echo(&b"again".to_vec())),
        ),
    ] {
        let first = d.dispatch(&h, &body);
        let second = d.dispatch(&h, &body);
        assert_eq!(first.status, second.status);
        assert_eq!(first.headers, second.headers);
        assert_eq!(first.body, second.body);
    }
}

#[test]
fn echo_handler_direct_success_and_failure() {
    let ok = echo_for_json(&b"{\"message\":\"direct\"}".to_vec());
    assert_eq!(ok.status, 200);
    assert_eq!(ok.body, b"{\"message\":\"Hello, direct!\"}".to_vec());
    let bad = echo_for_json(&b"[]".to_vec());
    assert_eq!(bad.status, 400);
    assert!(bad.body.is_empty());
}

#[test]
fn http_backend_routes_by_method_and_path() {
    let body = b"{\"message\":\"r\"}".to_vec();
    let ok = http_backend(&b"POST".to_vec(), &b"/echo".to_vec(), &body);
    assert_eq!(ok.status, 200);
    let wrong_method = http_backend(&b"PUT".to_vec(), &b"/echo".to_vec(), &body);
    assert_eq!(wrong_method.status, 404);
    let wrong_path = http_backend(&b"POST".to_vec(), &b"/echo/".to_vec(), &body);
    assert_eq!(wrong_path.status, 404);
}
