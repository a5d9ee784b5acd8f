use mcp_language_server::protocol::{Message, MessageClass, MessageID, classify, render_message};

#[test]
fn message_id_as_string() {
    assert_eq!(MessageID::Number(42).as_string(), "42");
    assert_eq!(MessageID::Number(-7).as_string(), "-7");
    assert_eq!(MessageID::IdString(String::from("abc")).as_string(), "abc");
    assert_eq!(MessageID::Null.as_string(), "<null>");
}

#[test]
fn message_id_equals() {
    assert!(MessageID::Number(1).equals(&MessageID::Number(1)));
    assert!(!MessageID::Number(1).equals(&MessageID::Number(2)));
    assert!(MessageID::IdString(String::from("a")).equals(&MessageID::IdString(String::from("a"))));
    assert!(!MessageID::IdString(String::from("a")).equals(&MessageID::IdString(String::from("b"))));
    assert!(MessageID::Null.equals(&MessageID::Null));
    assert!(!MessageID::Number(1).equals(&MessageID::Null));
}

#[test]
fn message_predicates() {
    let req = Message::new_request(MessageID::Number(1), "initialize", String::from("{}"));
    assert!(req.is_request());
    assert!(!req.is_notification());
    assert!(!req.is_response());

    let note = Message::new_notification("initialized", String::from("{}"));
    assert!(!note.is_request());
    assert!(note.is_notification());
    assert!(!note.is_response());

    let resp = Message::new_response(MessageID::Number(1), String::from("null"));
    assert!(resp.is_response());
    assert!(!resp.is_request());

    let err = Message::new_error_response(MessageID::Number(2), -32603, "boom");
    assert!(err.is_response());
}

#[test]
fn message_classification() {
    let req = Message::new_request(MessageID::Number(1), "m", String::from("{}"));
    assert!(matches!(classify(&req), MessageClass::ServerRequest));
    let note = Message::new_notification("m", String::from("{}"));
    assert!(matches!(classify(&note), MessageClass::ServerNotification));
    let resp = Message::new_response(MessageID::Number(1), String::from("3"));
    assert!(matches!(classify(&resp), MessageClass::Response));
    let invalid = Message { id: None, method: None, params: None, result: None, error: None };
    assert!(matches!(classify(&invalid), MessageClass::Invalid));
}

#[test]
fn render_request_canonical() {
    let req = Message::new_request(MessageID::Number(3), "textDocument/hover", String::from("{\"a\":1}"));
    let text = render_message(&req);
    assert_eq!(
        text,
        "{\"jsonrpc\":\"2.0\",\"id\":3,\"method\":\"textDocument/hover\",\"params\":{\"a\":1}}"
    );
}

#[test]
fn render_notification_canonical() {
    let note = Message::new_notification("exit", String::from("null"));
    let text = render_message(&note);
    assert_eq!(text, "{\"jsonrpc\":\"2.0\",\"method\":\"exit\",\"params\":null}");
}

#[test]
fn render_error_response_canonical() {
    let err = Message::new_error_response(MessageID::Number(9), -32603, "bad \"quote\"");
    let text = render_message(&err);
    assert_eq!(
        text,
        "{\"jsonrpc\":\"2.0\",\"id\":9,\"error\":{\"code\":-32603,\"message\":\"bad \\\"quote\\\"\"}}"
    );
}

#[test]
fn rendered_message_parses_as_json() {
    let req = Message::new_request(
        MessageID::IdString(String::from("x\ny")),
        "init",
        String::from("{\"k\":[1,2]}"),
    );
    let text = render_message(&req);
    let v: serde_json::Value = serde_json::from_str(&text).expect("canonical JSON parses");
    assert_eq!(v.get("jsonrpc").and_then(|j| j.as_str()), Some("2.0"));
    assert_eq!(v.get("id").and_then(|j| j.as_str()), Some("x\ny"));
    assert_eq!(v.get("method").and_then(|j| j.as_str()), Some("init"));
    assert_eq!(
        v.get("params").and_then(|p| p.get("k")).and_then(|k| k.as_array()).map(|a| a.len()),
        Some(2)
    );
}

#[test]
fn control_characters_are_escaped() {
    let err = Message::new_error_response(MessageID::Number(1), -1, "a\u{01}b\u{1f}c");
    let text = render_message(&err);
    assert!(text.contains("a\\u0001b\\u001fc"));
    // The escaped text is valid JSON and reads back as the original.
    let v: serde_json::Value = serde_json::from_str(&text).expect("escaped JSON parses");
    assert_eq!(
        v.get("error").and_then(|e| e.get("message")).and_then(|m| m.as_str()),
        Some("a\u{01}b\u{1f}c")
    );
}
