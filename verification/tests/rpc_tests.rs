use echo_mux::echo::EchoRequest;
use echo_mux::framing::frame_bytes;
use echo_mux::framing::unframe_bytes;
use echo_mux::proto::decode_echo;
use echo_mux::proto::encode_echo;
use echo_mux::rpc_backend::grpc_backend;
use echo_mux::rpc_backend::GrpcEchoService;
use echo_mux::rpc_backend::RpcCode;

fn frame_of(payload: &[u8]) -> Vec<u8> {
    let n = payload.len() as u32;
    let mut out = vec![
        0u8,
        (n >> 24) as u8,
        (n >> 16) as u8,
        (n >> 8) as u8,
        n as u8,
    ];
    out.extend_from_slice(payload);
    out
}

#[test]
fn unary_echo_greets() {
    let service = GrpcEchoService;
    let response = service.unary_echo(EchoRequest { message: b"tonic".to_vec() });
    assert_eq!(response.message, b"Hello, tonic!".to_vec());
}

#[test]
fn encode_small_message_exact_bytes() {
    let out = encode_echo(&b"abc".to_vec());
    assert_eq!(out, vec![0x0a, 3, b'a', b'b', b'c']);
}

#[test]
fn encode_empty_message_is_empty() {
    assert_eq!(encode_echo(&Vec::new()), Vec::<u8>::new());
}

#[test]
fn encode_uses_two_byte_varint_for_long_field() {
    let m = vec![b'x'; 300];
    let out = encode_echo(&m);
    // 300 = 0b100101100: varint 0xac 0x02
    assert_eq!(out[0], 0x0a);
    assert_eq!(out[1], 0xac);
    assert_eq!(out[2], 0x02);
    assert_eq!(out.len(), 3 + 300);
}

#[test]
fn decode_inverts_encode() {
    for m in [
        Vec::new(),
        b"hi".to_vec(),
        vec![0u8; 200],
        vec![0xffu8; 1000],
    ] {
        let enc = encode_echo(&m);
        assert_eq!(decode_echo(&enc), Some(m));
    }
}

#[test]
fn decode_last_field_wins() {
    let bytes = vec![0x0a, 1, b'a', 0x0a, 1, b'b'];
    assert_eq!(decode_echo(&bytes), Some(b"b".to_vec()));
}

#[test]
fn decode_rejects_wrong_wire_type_on_message_field() {
    // field 1 as a varint, where the schema has a length-delimited string
    assert_eq!(decode_echo(&vec![0x08, 1]), None);
}

#[test]
fn decode_skips_unknown_fields() {
    // field 2 varint, then field 1 string
    assert_eq!(
        decode_echo(&vec![0x10, 5, 0x0a, 2, b'h', b'i']),
        Some(b"hi".to_vec())
    );
    // field 3 64-bit, field 1 string, field 2 length-delimited, field 4 32-bit
    let bytes = vec![
        0x19, 1, 2, 3, 4, 5, 6, 7, 8, // field 3, wire type 1
        0x0a, 2, b'h', b'i', // field 1, string "hi"
        0x12, 3, b'x', b'y', b'z', // field 2, wire type 2
        0x25, 9, 9, 9, 9, // field 4, wire type 5
    ];
    assert_eq!(decode_echo(&bytes), Some(b"hi".to_vec()));
    // a skipped varint may take the full ten-byte form of a 64-bit value
    let mut long = vec![0x10];
    long.extend_from_slice(&[0xff, 0xff, 0xff, 0xff, 0xff, 0xff, 0xff, 0xff, 0xff, 0x01]);
    long.extend_from_slice(&[0x0a, 1, b'a']);
    assert_eq!(decode_echo(&long), Some(b"a".to_vec()));
}

#[test]
fn decode_accepts_non_minimal_varint_length() {
    // length 2 spelled in five bytes
    let bytes = vec![0x0a, 0x82, 0x80, 0x80, 0x80, 0x00, b'h', b'i'];
    assert_eq!(decode_echo(&bytes), Some(b"hi".to_vec()));
}

#[test]
fn decode_skips_balanced_groups() {
    // field 2 opens a group holding a varint field and a nested group,
    // then field 1 carries the string
    let bytes = vec![
        0x13, // field 2, start group
        0x08, 7, // field 1 varint inside the group
        0x1b, 0x1c, // field 3: nested empty group
        0x14, // field 2, end group
        0x0a, 1, b'g', // field 1 string "g"
    ];
    assert_eq!(decode_echo(&bytes), Some(b"g".to_vec()));
}

#[test]
fn decode_rejects_unbalanced_groups() {
    // end group without a start
    assert_eq!(decode_echo(&vec![0x14, 0x0a, 0]), None);
    // start group never closed
    assert_eq!(decode_echo(&vec![0x13, 0x08, 7]), None);
    // closed under the wrong field number
    assert_eq!(decode_echo(&vec![0x13, 0x1c, 0x0a, 0]), None);
}

#[test]
fn decode_rejects_invalid_keys_and_varints() {
    // field number 0
    assert_eq!(decode_echo(&vec![0x02, 0, b'x']), None);
    // a varint of more than ten bytes
    let mut long = vec![0x10];
    long.extend_from_slice(&[0x80; 11]);
    long.push(0x01);
    long.extend_from_slice(&[0x0a, 1, b'a']);
    assert_eq!(decode_echo(&long), None);
    // a ten-byte varint past the 64-bit range
    let mut big = vec![0x10];
    big.extend_from_slice(&[0xff, 0xff, 0xff, 0xff, 0xff, 0xff, 0xff, 0xff, 0xff, 0x7f]);
    big.extend_from_slice(&[0x0a, 1, b'a']);
    assert_eq!(decode_echo(&big), None);
}

#[test]
fn decode_rejects_truncated_record() {
    assert_eq!(decode_echo(&vec![0x0a]), None);
    assert_eq!(decode_echo(&vec![0x0a, 5, b'a']), None);
}

#[test]
fn frame_round_trip() {
    let payload = b"some payload".to_vec();
    let framed = frame_bytes(&payload);
    assert_eq!(framed, frame_of(b"some payload"));
    assert_eq!(unframe_bytes(&framed), Some(payload));
}

#[test]
fn unframe_rejects_bad_frames() {
    // too short
    assert_eq!(unframe_bytes(&vec![0, 0, 0, 0]), None);
    // compressed flag set
    assert_eq!(unframe_bytes(&vec![1, 0, 0, 0, 0]), None);
    // declared length does not match
    assert_eq!(unframe_bytes(&vec![0, 0, 0, 0, 2, b'x']), None);
    assert_eq!(unframe_bytes(&vec![0, 0, 0, 0, 0, b'x']), None);
}

#[test]
fn grpc_backend_success_round_trip() {
    let request = frame_of(&encode_echo(&b"verus".to_vec()));
    let response = grpc_backend(&request);
    assert_eq!(response.code, RpcCode::Success);
    let expected = frame_of(&encode_echo(&b"Hello, verus!".to_vec()));
    assert_eq!(response.payload, expected);
}

#[test]
fn grpc_backend_empty_message() {
    let request = frame_of(&encode_echo(&Vec::new()));
    let response = grpc_backend(&request);
    assert_eq!(response.code, RpcCode::Success);
    let unframed = unframe_bytes(&response.payload).unwrap();
    assert_eq!(decode_echo(&unframed), Some(b"Hello, !".to_vec()));
}

#[test]
fn grpc_backend_exact_wire_bytes() {
    // request: one frame around the message {message: "hi"}
    let request = vec![0u8, 0, 0, 0, 4, 0x0a, 2, b'h', b'i'];
    let response = grpc_backend(&request);
    assert_eq!(response.code, RpcCode::Success);
    // response: one frame around {message: "Hello, hi!"}
    let expected = vec![
        0u8, 0, 0, 0, 12, 0x0a, 10, b'H', b'e', b'l', b'l', b'o', b',', b' ', b'h', b'i', b'!',
    ];
    assert_eq!(response.payload, expected);
}

#[test]
fn grpc_backend_rejects_malformed_framing() {
    let response = grpc_backend(&b"not a frame".to_vec());
    assert_eq!(response.code, RpcCode::InvalidArgument);
    assert!(response.payload.is_empty());
}

#[test]
fn grpc_backend_rejects_malformed_message() {
    let request = frame_of(&[0x08, 1]);
    let response = grpc_backend(&request);
    assert_eq!(response.code, RpcCode::InvalidArgument);
    assert!(response.payload.is_empty());
}
