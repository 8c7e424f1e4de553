use mcproxy::{
    frame, frame_length, login_disconnect, parse_handshake, read_string, read_var_int, respond,
    size_in_bytes, status_response, write_string, write_var_int, NextState, ProtocolError,
    LOGIN_DISCONNECT_JSON,
};

fn encode(v: i32) -> Vec<u8> {
    let mut out = Vec::new();
    write_var_int(&mut out, v);
    out
}

fn decode(bytes: &[u8]) -> (Result<i32, ProtocolError>, usize) {
    let mut read = bytes;
    let r = read_var_int(&mut read);
    (r, read.len())
}

#[test]
fn varint_boundary_encodings() {
    let cases: Vec<(i32, Vec<u8>)> = vec![
        (0, vec![0x00]),
        (127, vec![0x7f]),
        (128, vec![0x80, 0x01]),
        (16383, vec![0xff, 0x7f]),
        (16384, vec![0x80, 0x80, 0x01]),
        (2097151, vec![0xff, 0xff, 0x7f]),
        (2147483647, vec![0xff, 0xff, 0xff, 0xff, 0x07]),
        (-1, vec![0xff, 0xff, 0xff, 0xff, 0x0f]),
    ];
    for (v, expected) in cases {
        assert_eq!(encode(v), expected, "encoding of {v}");
        assert_eq!(size_in_bytes(v), expected.len(), "size of {v}");
    }
}

#[test]
fn varint_round_trip_with_trailing_bytes() {
    for v in [0, 1, 127, 128, 300, 16384, 2097152, 268435455, 268435456, i32::MAX, -1, -2, i32::MIN] {
        let mut bytes = encode(v);
        let n = bytes.len();
        bytes.extend_from_slice(&[0xaa, 0xbb]);
        let (r, left) = decode(&bytes);
        assert_eq!(r, Ok(v));
        assert_eq!(left, 2);
        assert!(n <= 5);
        assert_eq!(n, size_in_bytes(v));
    }
}

#[test]
fn varint_size_formula() {
    assert_eq!(size_in_bytes(0), 1);
    assert_eq!(size_in_bytes(1), 1);
    assert_eq!(size_in_bytes(255), 2);
    assert_eq!(size_in_bytes(1 << 21), 4);
    assert_eq!(size_in_bytes(1 << 28), 5);
    assert_eq!(size_in_bytes(i32::MIN), 5);
}

#[test]
fn varint_six_continuation_bytes_is_malformed() {
    let (r, left) = decode(&[0xff, 0xff, 0xff, 0xff, 0xff, 0xff]);
    assert_eq!(r, Err(ProtocolError::MalformedVarint));
    assert_eq!(left, 1);
}

#[test]
fn varint_truncated_is_malformed() {
    assert_eq!(decode(&[0x80, 0x80]).0, Err(ProtocolError::MalformedVarint));
    assert_eq!(decode(&[]).0, Err(ProtocolError::MalformedVarint));
}

#[test]
fn varint_non_canonical_decodes() {
    assert_eq!(decode(&[0x80, 0x00]), (Ok(0), 0));
}

#[test]
fn empty_string_encoding() {
    let mut out = Vec::new();
    write_string(&mut out, String::new());
    assert_eq!(out, vec![0x00]);
    let mut read: &[u8] = &out;
    assert_eq!(read_string(&mut read), Ok(String::new()));
    assert!(read.is_empty());
}

#[test]
fn string_round_trip_multibyte() {
    let s = String::from("héllo, wörld ✓");
    let mut out = Vec::new();
    write_string(&mut out, s.clone());
    assert_eq!(out[0] as usize, s.len());
    out.push(0x42);
    let mut read: &[u8] = &out;
    assert_eq!(read_string(&mut read), Ok(s));
    assert_eq!(read, &[0x42]);
}

#[test]
fn string_negative_length() {
    let mut read: &[u8] = &[0xff, 0xff, 0xff, 0xff, 0x0f, 0x41];
    assert_eq!(read_string(&mut read), Err(ProtocolError::InvalidLength));
    assert_eq!(read.len(), 6);
}

#[test]
fn string_invalid_utf8() {
    let mut read: &[u8] = &[0x02, 0xc3, 0x28];
    assert_eq!(read_string(&mut read), Err(ProtocolError::InvalidUtf8));
}

#[test]
fn string_truncated_body() {
    let mut read: &[u8] = &[0x03, 0x61];
    assert_eq!(read_string(&mut read), Err(ProtocolError::Truncated));
}

#[test]
fn frame_prepends_length() {
    assert_eq!(frame(&[1, 2, 3]), vec![3, 1, 2, 3]);
    assert_eq!(frame(&[]), vec![0]);
    let body = vec![7u8; 200];
    let f = frame(&body);
    assert_eq!(&f[..2], &[0xc8, 0x01]);
    assert_eq!(&f[2..], &body[..]);
    assert_eq!(f.len(), size_in_bytes(200) + 200);
}

#[test]
fn frame_length_decisions() {
    assert_eq!(frame_length(&[]), Ok(None));
    assert_eq!(frame_length(&[0x80]), Ok(None));
    assert_eq!(frame_length(&[0x10]), Ok(Some(16)));
    assert_eq!(frame_length(&[0x80, 0x01]), Ok(Some(128)));
    assert_eq!(frame_length(&[0x80, 0x80, 0x80, 0x80, 0x80]), Err(ProtocolError::MalformedVarint));
    assert_eq!(frame_length(&[0xff, 0xff, 0xff, 0xff, 0x0f]), Err(ProtocolError::InvalidLength));
}

fn handshake_body(packet_id: u8, next: u8) -> Vec<u8> {
    let mut b = vec![packet_id, 0xfb, 0x05, 0x09];
    b.extend_from_slice(b"localhost");
    b.extend_from_slice(&[0x63, 0xdd, next]);
    b
}

#[test]
fn handshake_status_request() {
    let body = handshake_body(0x00, 0x01);
    assert_eq!(body.len(), 16);
    assert_eq!(frame_length(&[0x10]), Ok(Some(body.len())));
    let h = parse_handshake(&body).unwrap();
    assert_eq!(h.protocol_version, 763);
    assert_eq!(h.server_address, "localhost");
    assert_eq!(h.server_port, 25565);
    assert_eq!(h.next_state, NextState::Status);

    let json = format!("{{\"version\":{{\"name\":\"Proxy\",\"protocol\":{}}}}}", h.protocol_version);
    let out = respond(&h, json.clone());
    let mut expected_body = vec![0x00, json.len() as u8];
    expected_body.extend_from_slice(json.as_bytes());
    let mut expected = vec![expected_body.len() as u8];
    expected.extend_from_slice(&expected_body);
    assert_eq!(out, expected);
}

#[test]
fn handshake_login_request() {
    let body = handshake_body(0x00, 0x02);
    let h = parse_handshake(&body).unwrap();
    assert_eq!(h.next_state, NextState::Login);
    let out = respond(&h, String::from("{}"));
    let json = "{\"text\":\"Disconnect\",\"color\":\"red\"}";
    assert_eq!(LOGIN_DISCONNECT_JSON, json);
    let mut expected = vec![(json.len() + 2) as u8, 0x00, json.len() as u8];
    expected.extend_from_slice(json.as_bytes());
    assert_eq!(out, expected);
    assert_eq!(login_disconnect(), expected);
}

#[test]
fn handshake_trailing_bytes_ignored() {
    let mut body = handshake_body(0x00, 0x01);
    body.extend_from_slice(&[0xde, 0xad]);
    assert_eq!(parse_handshake(&body).unwrap().next_state, NextState::Status);
}

#[test]
fn handshake_invalid_next_state() {
    let body = handshake_body(0x00, 0x03);
    assert_eq!(parse_handshake(&body).err(), Some(ProtocolError::InvalidNextState));
}

#[test]
fn handshake_unexpected_packet_id() {
    let body = handshake_body(0x01, 0x01);
    assert_eq!(parse_handshake(&body).err(), Some(ProtocolError::UnexpectedPacketId));
}

#[test]
fn handshake_truncated() {
    assert_eq!(parse_handshake(&[]).err(), Some(ProtocolError::Truncated));
    let body = handshake_body(0x00, 0x01);
    assert_eq!(parse_handshake(&body[..body.len() - 1]).err(), Some(ProtocolError::Truncated));
    assert_eq!(parse_handshake(&[0x00, 0x80]).err(), Some(ProtocolError::MalformedVarint));
}

#[test]
fn status_response_is_repeatable() {
    let json = String::from("{\"players\":{\"online\":0,\"max\":5}}");
    let a = status_response(json.clone());
    let b = status_response(json.clone());
    assert_eq!(a, b);
    assert_eq!(a[0] as usize, a.len() - 1);
    assert_eq!(a[1], 0x00);
    assert_eq!(a[2] as usize, json.len());
    assert_eq!(&a[3..], json.as_bytes());
}

#[test]
fn varint_min_value_encoding() {
    assert_eq!(encode(i32::MIN), vec![0x80, 0x80, 0x80, 0x80, 0x08]);
    assert_eq!(encode(300), vec![0xac, 0x02]);
    assert_eq!(decode(&[0xac, 0x02]), (Ok(300), 0));
}
