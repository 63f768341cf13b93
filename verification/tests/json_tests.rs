use echo_mux::echo::greet;
use echo_mux::json::parse_echo_request;
use echo_mux::json::write_json_message;

#[test]
fn greet_exact_bytes() {
    assert_eq!(greet(&b"world".to_vec()), b"Hello, world!".to_vec());
}

#[test]
fn greet_empty_message() {
    assert_eq!(greet(&Vec::new()), b"Hello, !".to_vec());
}

#[test]
fn write_exact_bytes() {
    let out = write_json_message(&b"world".to_vec());
    assert_eq!(out, b"{\"message\":\"world\"}".to_vec());
}

#[test]
fn write_escapes_quote_backslash_and_controls() {
    let out = write_json_message(&b"a\"b\\c\nd".to_vec());
    assert_eq!(out, b"{\"message\":\"a\\\"b\\\\c\\u000ad\"}".to_vec());
}

#[test]
fn parse_simple_object() {
    let m = parse_echo_request(&b"{\"message\":\"hi\"}".to_vec());
    assert_eq!(m, Some(b"hi".to_vec()));
}

#[test]
fn parse_accepts_whitespace() {
    let m = parse_echo_request(&b"  {\t\"message\" \r\n:  \"hi\" }  ".to_vec());
    assert_eq!(m, Some(b"hi".to_vec()));
}

#[test]
fn parse_simple_escapes() {
    let m = parse_echo_request(&b"{\"message\":\"a\\\"b\\\\c\\/d\\n\\t\"}".to_vec());
    assert_eq!(m, Some(b"a\"b\\c/d\n\t".to_vec()));
}

#[test]
fn parse_unicode_escape_ascii() {
    let m = parse_echo_request(&b"{\"message\":\"\\u0041\\u000a\"}".to_vec());
    assert_eq!(m, Some(b"A\n".to_vec()));
}

#[test]
fn parse_unicode_escape_beyond_ascii() {
    // two-byte UTF-8
    assert_eq!(
        parse_echo_request(&b"{\"message\":\"\\u00e9\"}".to_vec()),
        Some("\u{e9}".as_bytes().to_vec())
    );
    assert_eq!(
        parse_echo_request(&b"{\"message\":\"\\u0158\"}".to_vec()),
        Some("\u{158}".as_bytes().to_vec())
    );
    // three-byte UTF-8
    assert_eq!(
        parse_echo_request(&b"{\"message\":\"\\u20aC\"}".to_vec()),
        Some("\u{20ac}".as_bytes().to_vec())
    );
}

#[test]
fn parse_surrogate_pair_escape() {
    let m = parse_echo_request(&b"{\"message\":\"\\ud83d\\ude00\"}".to_vec());
    assert_eq!(m, Some("\u{1f600}".as_bytes().to_vec()));
}

#[test]
fn parse_lone_surrogate_rejected() {
    assert_eq!(parse_echo_request(&b"{\"message\":\"\\ud83d\"}".to_vec()), None);
    assert_eq!(parse_echo_request(&b"{\"message\":\"\\ud83dx\"}".to_vec()), None);
    assert_eq!(parse_echo_request(&b"{\"message\":\"\\ude00\"}".to_vec()), None);
}

#[test]
fn parse_skips_unknown_members() {
    let body = b"{\"id\":17,\"message\":\"hi\",\"extra\":{\"a\":[1,-2.5e+3,true,null,\"s\"],\"b\":{}}}";
    assert_eq!(parse_echo_request(&body.to_vec()), Some(b"hi".to_vec()));
    let body2 = b"{\"first\":[[],[[true]]],\"message\":\"m\"}";
    assert_eq!(parse_echo_request(&body2.to_vec()), Some(b"m".to_vec()));
}

#[test]
fn parse_duplicate_message_member_rejected() {
    assert_eq!(
        parse_echo_request(&b"{\"message\":\"a\",\"message\":\"b\"}".to_vec()),
        None
    );
}

#[test]
fn parse_missing_message_member_rejected() {
    assert_eq!(parse_echo_request(&b"{\"other\":\"a\"}".to_vec()), None);
}

#[test]
fn parse_non_string_message_rejected() {
    assert_eq!(parse_echo_request(&b"{\"message\":[\"a\"]}".to_vec()), None);
    assert_eq!(parse_echo_request(&b"{\"message\":null}".to_vec()), None);
}

#[test]
fn parse_trailing_comma_rejected() {
    assert_eq!(parse_echo_request(&b"{\"message\":\"a\",}".to_vec()), None);
    assert_eq!(parse_echo_request(&b"{\"a\":[1,2,],\"message\":\"m\"}".to_vec()), None);
}

#[test]
fn parse_malformed_unknown_member_rejected() {
    assert_eq!(parse_echo_request(&b"{\"a\":01,\"message\":\"m\"}".to_vec()), None);
    assert_eq!(parse_echo_request(&b"{\"a\":1.,\"message\":\"m\"}".to_vec()), None);
    assert_eq!(parse_echo_request(&b"{\"a\":tru,\"message\":\"m\"}".to_vec()), None);
    assert_eq!(parse_echo_request(&b"{\"a\":[1,\"message\":\"m\"}".to_vec()), None);
}

#[test]
fn parse_depth_past_reference_limit_rejected() {
    // a member nested 127 containers deep is taken, one past that is not
    let mut shallow = b"{\"a\":".to_vec();
    shallow.extend(std::iter::repeat(b'[').take(126));
    shallow.extend(std::iter::repeat(b']').take(126));
    shallow.extend_from_slice(b",\"message\":\"m\"}");
    assert_eq!(parse_echo_request(&shallow), Some(b"m".to_vec()));
    let mut deep = b"{\"a\":".to_vec();
    deep.extend(std::iter::repeat(b'[').take(200));
    deep.extend(std::iter::repeat(b']').take(200));
    deep.extend_from_slice(b",\"message\":\"m\"}");
    assert_eq!(parse_echo_request(&deep), None);
}

#[test]
fn parse_utf8_content_passes_through() {
    let body = "{\"message\":\"héllo\"}".as_bytes().to_vec();
    let m = parse_echo_request(&body);
    assert_eq!(m, Some("héllo".as_bytes().to_vec()));
}

#[test]
fn parse_malformed_inputs_rejected() {
    assert_eq!(parse_echo_request(&b"".to_vec()), None);
    assert_eq!(parse_echo_request(&b"not json".to_vec()), None);
    assert_eq!(parse_echo_request(&b"{}".to_vec()), None);
    assert_eq!(parse_echo_request(&b"{\"message\":42}".to_vec()), None);
    assert_eq!(parse_echo_request(&b"{\"msg\":\"hi\"}".to_vec()), None);
    assert_eq!(parse_echo_request(&b"{\"message\":\"hi\"".to_vec()), None);
    assert_eq!(parse_echo_request(&b"{\"message\":\"hi}".to_vec()), None);
    assert_eq!(parse_echo_request(&b"{\"message\":\"hi\"}x".to_vec()), None);
    assert_eq!(parse_echo_request(&b"{\"message\":\"hi\\x\"}".to_vec()), None);
    assert_eq!(parse_echo_request(&b"{\"message\":\"\x01\"}".to_vec()), None);
}

#[test]
fn write_then_parse_round_trip() {
    let messages: Vec<Vec<u8>> = vec![
        b"".to_vec(),
        b"plain".to_vec(),
        b"with \"quotes\" and \\slashes\\".to_vec(),
        b"\x00\x01\x1f control".to_vec(),
        "ünïcødé".as_bytes().to_vec(),
    ];
    for m in messages {
        let body = write_json_message(&m);
        assert_eq!(parse_echo_request(&body), Some(m));
    }
}

#[test]
fn writer_output_readable_by_serde() {
    let m = b"a\"b\\c\nd \x02 tail".to_vec();
    let body = write_json_message(&m);
    let value: serde_json::Value = serde_json::from_slice(&body).unwrap();
    let message = value.get("message").unwrap().as_str().unwrap();
    assert_eq!(message.as_bytes(), &m[..]);
}

#[test]
fn serde_agrees_on_tricky_accepted_bodies() {
    for body in [
        &br#"{"message":"\u00e9"}"#[..],
        br#"{"id":17,"message":"hi","extra":{"a":[1,-2.5e+3,true,null,"s"]}}"#,
        br#"{"message":"\ud83d\ude00"}"#,
        br#" { "message" : "ws" } "#,
    ] {
        let value: serde_json::Value = serde_json::from_slice(body).unwrap();
        let expected = value.get("message").unwrap().as_str().unwrap();
        assert_eq!(
            parse_echo_request(&body.to_vec()),
            Some(expected.as_bytes().to_vec()),
        );
    }
}

#[test]
fn serde_agrees_on_syntax_errors() {
    // bodies that are not JSON at all are errors for serde too
    for body in [
        &br#"{"message":"a",}"#[..],
        br#"{"message":"\ud83d"}"#,
        br#"{"a":01,"message":"m"}"#,
        br#"{"a":tru,"message":"m"}"#,
    ] {
        assert!(serde_json::from_slice::<serde_json::Value>(body).is_err());
        assert_eq!(parse_echo_request(&body.to_vec()), None);
    }
}

#[test]
fn serde_output_readable_by_parser() {
    let mut map = serde_json::Map::new();
    map.insert(
        "message".to_string(),
        serde_json::Value::String("plain words".to_string()),
    );
    let body = serde_json::to_vec(&serde_json::Value::Object(map)).unwrap();
    assert_eq!(parse_echo_request(&body), Some(b"plain words".to_vec()));
}
