use mcp_language_server::framing::{
    FrameError, FrameOutcome, FrameStage, decode_frame, encode_frame,
};
use mcp_language_server::protocol::{Message, MessageID, render_message};

fn bytes(s: &str) -> Vec<u8> {
    s.as_bytes().to_vec()
}

#[test]
fn encode_frame_wire_format() {
    let body = bytes("{\"jsonrpc\":\"2.0\"}");
    let framed = encode_frame(&body);
    let expected = format!("Content-Length: {}\r\n\r\n{{\"jsonrpc\":\"2.0\"}}", body.len());
    assert_eq!(framed, bytes(&expected));
}

#[test]
fn decode_of_encode_yields_original_body() {
    let body = bytes("{\"id\":1,\"result\":null}");
    let framed = encode_frame(&body);
    match decode_frame(&framed) {
        FrameOutcome::Frame { body: out, consumed } => {
            assert_eq!(out, body);
            assert_eq!(consumed, framed.len());
        },
        _ => panic!("a whole frame must decode"),
    }
}

#[test]
fn decode_leaves_following_bytes() {
    let body = bytes("abc");
    let mut framed = encode_frame(&body);
    let second = encode_frame(&bytes("de"));
    let first_len = framed.len();
    framed.extend_from_slice(&second);
    match decode_frame(&framed) {
        FrameOutcome::Frame { body: out, consumed } => {
            assert_eq!(out, bytes("abc"));
            assert_eq!(consumed, first_len);
        },
        _ => panic!("the first frame must decode"),
    }
}

#[test]
fn decode_ignores_other_headers() {
    let buf = bytes("Content-Type: application/json\r\nContent-Length: 2\r\n\r\nhi");
    match decode_frame(&buf) {
        FrameOutcome::Frame { body, consumed } => {
            assert_eq!(body, bytes("hi"));
            assert_eq!(consumed, buf.len());
        },
        _ => panic!("frame with extra headers must decode"),
    }
}

#[test]
fn decode_empty_buffer_is_clean_boundary() {
    let buf: Vec<u8> = Vec::new();
    assert!(matches!(
        decode_frame(&buf),
        FrameOutcome::Incomplete { stage: FrameStage::AtBoundary }
    ));
}

#[test]
fn decode_partial_headers_is_in_headers() {
    let buf = bytes("Content-Length: 12");
    assert!(matches!(
        decode_frame(&buf),
        FrameOutcome::Incomplete { stage: FrameStage::InHeaders }
    ));
}

#[test]
fn decode_short_body_is_in_body() {
    let buf = bytes("Content-Length: 10\r\n\r\nabc");
    assert!(matches!(
        decode_frame(&buf),
        FrameOutcome::Incomplete { stage: FrameStage::InBody }
    ));
}

#[test]
fn decode_missing_content_length() {
    let buf = bytes("Content-Type: application/json\r\n\r\nbody");
    assert!(matches!(
        decode_frame(&buf),
        FrameOutcome::Invalid { error: FrameError::MissingContentLength }
    ));
}

#[test]
fn decode_malformed_content_length() {
    let buf = bytes("Content-Length: twelve\r\n\r\nbody");
    assert!(matches!(
        decode_frame(&buf),
        FrameOutcome::Invalid { error: FrameError::MalformedHeader }
    ));
}

#[test]
fn wire_round_trip_is_idempotent() {
    // A message framed by the writer decodes to the bytes that were
    // framed; decoding, re-encoding and decoding again changes nothing.
    let msg = Message::new_request(
        MessageID::Number(7),
        "textDocument/definition",
        String::from("{\"position\":{\"line\":3,\"character\":0}}"),
    );
    let body = render_message(&msg).into_bytes();
    let framed = encode_frame(&body);
    let FrameOutcome::Frame { body: decoded, consumed } = decode_frame(&framed) else {
        panic!("the framed message must decode");
    };
    assert_eq!(consumed, framed.len());
    assert_eq!(decoded, body);
    let reframed = encode_frame(&decoded);
    assert_eq!(reframed, framed);
    let FrameOutcome::Frame { body: decoded_again, .. } = decode_frame(&reframed) else {
        panic!("the reframed message must decode");
    };
    assert_eq!(decoded_again, body);
    // The decoded bytes still parse as the same message.
    let v: serde_json::Value = serde_json::from_slice(&decoded_again).expect("JSON body");
    assert_eq!(v.get("id").and_then(|i| i.as_i64()), Some(7));
    assert_eq!(v.get("method").and_then(|m| m.as_str()), Some("textDocument/definition"));
}
