use mcp_language_server::client::{
    DiagnosticsCache, HandlerRegistry, LoopAction, ResponsePayload, Session, handle_inbound,
    handler_response,
};
use mcp_language_server::protocol::{Message, MessageID};
use mcp_language_server::renders::Diagnostic;
use mcp_language_server::requests::RequestTracker;
use mcp_language_server::session_params::initialize_params_json;

fn empty_registry() -> HandlerRegistry {
    HandlerRegistry::new()
}

#[test]
fn response_is_delivered_to_matching_caller() {
    let mut pending = RequestTracker::new();
    let id = pending.allocate(77).expect("ids available");
    let resp = Message::new_response(MessageID::Number(id), String::from("{\"ok\":true}"));
    let action = handle_inbound(&mut pending, &empty_registry(), &empty_registry(), resp);
    match action {
        LoopAction::Deliver { token, payload } => {
            assert_eq!(token, 77);
            match payload {
                ResponsePayload::Success(v) => assert_eq!(v, "{\"ok\":true}"),
                _ => panic!("a result delivers success"),
            }
        },
        _ => panic!("a matching response must deliver"),
    }
    assert_eq!(pending.take(id), None);
}

#[test]
fn error_response_delivers_failure_verbatim() {
    let mut pending = RequestTracker::new();
    let id = pending.allocate(5).expect("ids available");
    let resp = Message::new_error_response(MessageID::Number(id), -32000, "server busy");
    let action = handle_inbound(&mut pending, &empty_registry(), &empty_registry(), resp);
    match action {
        LoopAction::Deliver { token, payload } => {
            assert_eq!(token, 5);
            match payload {
                ResponsePayload::Failure { code, message } => {
                    assert_eq!(code, -32000);
                    assert_eq!(message, "server busy");
                },
                _ => panic!("an error delivers failure"),
            }
        },
        _ => panic!("a matching response must deliver"),
    }
}

#[test]
fn unknown_response_id_is_dropped() {
    let mut pending = RequestTracker::new();
    let resp = Message::new_response(MessageID::Number(42), String::from("null"));
    let action = handle_inbound(&mut pending, &empty_registry(), &empty_registry(), resp);
    assert!(matches!(action, LoopAction::DropUnknownResponse));
}

#[test]
fn server_request_without_handler_gets_internal_error() {
    let mut pending = RequestTracker::new();
    let req = Message::new_request(
        MessageID::Number(9),
        "workspace/configuration",
        String::from("{}"),
    );
    let action = handle_inbound(&mut pending, &empty_registry(), &empty_registry(), req);
    match action {
        LoopAction::WriteResponse(resp) => {
            let e = resp.error.expect("an error response");
            assert_eq!(e.code, -32603);
            assert_eq!(e.message, "No handler for request method: workspace/configuration");
        },
        _ => panic!("an unhandled request is answered at once"),
    }
}

#[test]
fn server_request_with_handler_is_run() {
    let mut pending = RequestTracker::new();
    let mut handlers = HandlerRegistry::new();
    handlers.register(String::from("workspace/configuration"));
    let req = Message::new_request(
        MessageID::Number(9),
        "workspace/configuration",
        String::from("[1]"),
    );
    let action = handle_inbound(&mut pending, &empty_registry(), &handlers, req);
    match action {
        LoopAction::RunRequestHandler { id, method, params } => {
            assert!(id.equals(&MessageID::Number(9)));
            assert_eq!(method, "workspace/configuration");
            assert_eq!(params, "[1]");
        },
        _ => panic!("a handled request runs its handler"),
    }
}

#[test]
fn publish_diagnostics_is_always_taken_internally() {
    let mut pending = RequestTracker::new();
    let note = Message::new_notification(
        "textDocument/publishDiagnostics",
        String::from("{\"uri\":\"u\"}"),
    );
    let action = handle_inbound(&mut pending, &empty_registry(), &empty_registry(), note);
    match action {
        LoopAction::UpdateDiagnostics { params } => assert_eq!(params, "{\"uri\":\"u\"}"),
        _ => panic!("the diagnostics push is internal"),
    }
}

#[test]
fn notification_dispatch() {
    let mut pending = RequestTracker::new();
    let mut handlers = HandlerRegistry::new();
    handlers.register(String::from("window/logMessage"));
    let known = Message::new_notification("window/logMessage", String::from("{}"));
    let action = handle_inbound(&mut pending, &handlers, &empty_registry(), known);
    assert!(matches!(action, LoopAction::RunNotificationHandler { .. }));
    let unknown = Message::new_notification("window/other", String::from("{}"));
    let action = handle_inbound(&mut pending, &handlers, &empty_registry(), unknown);
    assert!(matches!(action, LoopAction::LogUnhandledNotification));
}

#[test]
fn invalid_message_is_dropped() {
    let mut pending = RequestTracker::new();
    let m = Message { id: Some(MessageID::Number(1)), method: None, params: None, result: None, error: None };
    let action = handle_inbound(&mut pending, &empty_registry(), &empty_registry(), m);
    assert!(matches!(action, LoopAction::LogInvalid));
}

#[test]
fn handler_outcome_becomes_response() {
    let ok = handler_response(MessageID::Number(1), Ok(String::from("null")));
    assert_eq!(ok.result, Some(String::from("null")));
    assert!(ok.error.is_none());
    let err = handler_response(MessageID::Number(2), Err(String::from("boom")));
    let e = err.error.expect("error response");
    assert_eq!(e.code, -32603);
    assert_eq!(e.message, "boom");
}

#[test]
fn diagnostics_cache_replaces_wholesale() {
    let mut cache = DiagnosticsCache::new();
    let uri = String::from("file:///w/a.rs");
    assert_eq!(cache.get(&uri).len(), 0);
    let d = |msg: &str| Diagnostic {
        start_line: 0,
        start_char: 0,
        end_line: 0,
        end_char: 1,
        severity: Some(1),
        message: String::from(msg),
        source: None,
    };
    cache.publish(uri.clone(), vec![d("first"), d("second")]);
    let got = cache.get(&uri);
    assert_eq!(got.len(), 2);
    assert_eq!(got[0].message, "first");
    cache.publish(uri.clone(), vec![d("only")]);
    let got = cache.get(&uri);
    assert_eq!(got.len(), 1);
    assert_eq!(got[0].message, "only");
    assert_eq!(cache.get(&String::from("file:///w/other.rs")).len(), 0);
}

#[test]
fn lifecycle_orders_the_four_methods() {
    let mut session = Session::new();
    assert!(!session.is_ready());
    assert_eq!(session.begin_initialize(), "initialize");
    assert_eq!(session.finish_initialize(), "initialized");
    assert!(session.is_ready());
    assert_eq!(session.begin_shutdown(), "shutdown");
    assert_eq!(session.finish_shutdown(), "exit");
    assert!(!session.is_ready());
}

#[test]
fn initialize_params_advertise_capabilities() {
    let text = initialize_params_json("file:///w", 4242, "w");
    let v: serde_json::Value = serde_json::from_str(&text).expect("params are JSON");
    assert_eq!(v.get("processId").and_then(|p| p.as_u64()), Some(4242));
    assert_eq!(v.get("rootUri").and_then(|p| p.as_str()), Some("file:///w"));
    let lenses = v
        .get("initializationOptions")
        .and_then(|o| o.get("codelenses"))
        .expect("codelenses present");
    for key in ["generate", "regenerate_cgo", "test", "tidy", "upgrade_dependency", "vendor"] {
        assert_eq!(lenses.get(key).and_then(|b| b.as_bool()), Some(true));
    }
    assert_eq!(lenses.get("vulncheck").and_then(|b| b.as_bool()), Some(false));
    let caps = v.get("capabilities").expect("capabilities present");
    assert_eq!(
        caps.get("workspace").and_then(|w| w.get("configuration")).and_then(|b| b.as_bool()),
        Some(true)
    );
    let td = caps.get("textDocument").expect("text document capabilities");
    assert_eq!(
        td.get("synchronization").and_then(|s| s.get("didSave")).and_then(|b| b.as_bool()),
        Some(true)
    );
    assert_eq!(
        td.get("completion")
            .and_then(|c| c.get("completionItem"))
            .and_then(|ci| ci.get("snippetSupport"))
            .and_then(|b| b.as_bool()),
        Some(true)
    );
    let kinds = td
        .get("codeAction")
        .and_then(|c| c.get("codeActionLiteralSupport"))
        .and_then(|c| c.get("codeActionKind"))
        .and_then(|c| c.get("valueSet"))
        .and_then(|c| c.as_array())
        .expect("code action kinds");
    let kinds: Vec<&str> = kinds.iter().filter_map(|k| k.as_str()).collect();
    assert_eq!(kinds, vec!["quickfix", "refactor", "source"]);
    let folders = v.get("workspaceFolders").and_then(|f| f.as_array()).expect("folders");
    assert_eq!(folders[0].get("name").and_then(|n| n.as_str()), Some("w"));
}
