use echo_mux::classify::classify;

fn hdr(name: &[u8], value: &[u8]) -> (Vec<u8>, Vec<u8>) {
    (name.to_vec(), value.to_vec())
}

#[test]
fn classify_missing_content_type() {
    let headers: Vec<(Vec<u8>, Vec<u8>)> = vec![hdr(b"accept", b"*/*")];
    assert_eq!(classify(&headers), 0);
}

#[test]
fn classify_no_headers_at_all() {
    let headers: Vec<(Vec<u8>, Vec<u8>)> = Vec::new();
    assert_eq!(classify(&headers), 0);
}

#[test]
fn classify_exact_grpc() {
    let headers = vec![hdr(b"content-type", b"application/grpc")];
    assert_eq!(classify(&headers), 1);
}

#[test]
fn classify_header_name_case_insensitive() {
    let headers = vec![hdr(b"Content-Type", b"application/grpc")];
    assert_eq!(classify(&headers), 1);
}

#[test]
fn classify_value_case_sensitive() {
    let headers = vec![hdr(b"content-type", b"Application/Grpc")];
    assert_eq!(classify(&headers), 0);
}

#[test]
fn classify_parameterized_grpc_value_goes_http() {
    let headers = vec![hdr(b"content-type", b"application/grpc+proto")];
    assert_eq!(classify(&headers), 0);
}

#[test]
fn classify_empty_value_goes_http() {
    let headers = vec![hdr(b"content-type", b"")];
    assert_eq!(classify(&headers), 0);
}

#[test]
fn classify_json_value_goes_http() {
    let headers = vec![hdr(b"content-type", b"application/json")];
    assert_eq!(classify(&headers), 0);
}

#[test]
fn classify_last_duplicate_wins_grpc() {
    let headers = vec![
        hdr(b"content-type", b"application/json"),
        hdr(b"content-type", b"application/grpc"),
    ];
    assert_eq!(classify(&headers), 1);
}

#[test]
fn classify_last_duplicate_wins_http() {
    let headers = vec![
        hdr(b"content-type", b"application/grpc"),
        hdr(b"Content-Type", b"application/json"),
    ];
    assert_eq!(classify(&headers), 0);
}
