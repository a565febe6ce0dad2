use mplug::ipc::{
    dispatch_outcome, parse_dispatch_response, parse_watch_line, topic_event, DispatchOutcome, IpcEvent,
    JsonMember,
};

#[test]
fn dispatch_response_json_error_field_is_error() {
    assert_eq!(
        parse_dispatch_response(r#"{"error":"unknown dispatcher"}"#),
        DispatchOutcome::Error("unknown dispatcher".to_string())
    );
}

#[test]
fn dispatch_response_success_bool_passes_through() {
    assert_eq!(parse_dispatch_response(r#"{"success":false}"#), DispatchOutcome::Success(false));
    assert_eq!(parse_dispatch_response(r#"{"success":true}"#), DispatchOutcome::Success(true));
}

#[test]
fn dispatch_response_other_json_is_success() {
    assert_eq!(parse_dispatch_response(r#"{"clients":[]}"#), DispatchOutcome::Success(true));
}

#[test]
fn dispatch_response_non_json_is_success() {
    assert_eq!(parse_dispatch_response("ok"), DispatchOutcome::Success(true));
}

#[test]
fn dispatch_outcome_prefers_error() {
    assert_eq!(
        dispatch_outcome(JsonMember::Text("bad".to_string()), JsonMember::Flag(true)),
        DispatchOutcome::Error("bad".to_string())
    );
    assert_eq!(dispatch_outcome(JsonMember::Other, JsonMember::Flag(false)), DispatchOutcome::Success(false));
    assert_eq!(dispatch_outcome(JsonMember::NotJson, JsonMember::NotJson), DispatchOutcome::Success(true));
    assert_eq!(parse_dispatch_response(r#"{"error":3,"success":false}"#), DispatchOutcome::Success(false));
}

#[test]
fn parse_watch_line_parses_json_object() {
    let v = parse_watch_line(r#"  {"title":"foo"}  "#).unwrap();
    assert_eq!(v, r#"{"title":"foo"}"#);
    let value: serde_json::Value = serde_json::from_str(&v).unwrap();
    assert_eq!(value.get("title").and_then(|x| x.as_str()), Some("foo"));
}

#[test]
fn parse_watch_line_skips_non_json_and_blank() {
    assert!(parse_watch_line("not json").is_none());
    assert!(parse_watch_line("").is_none());
    assert!(parse_watch_line("   ").is_none());
}

#[test]
fn topic_event_maps_keymode_and_layout() {
    assert_eq!(
        topic_event("keymode", r#"{"keymode": "normal"}"#),
        Some(IpcEvent::KeyMode("normal".to_string()))
    );
    assert_eq!(
        topic_event("keyboardlayout", r#"{"layout": "us"}"#),
        Some(IpcEvent::KeyboardLayout("us".to_string()))
    );
}

#[test]
fn topic_event_skips_missing_fields_and_unknown_topics() {
    assert!(topic_event("keymode", r#"{"other": 1}"#).is_none());
    assert!(topic_event("keyboardlayout", "{}").is_none());
    assert!(topic_event("not-a-topic", "{}").is_none());
}

#[test]
fn topic_event_wraps_state_topics() {
    assert!(matches!(
        topic_event("all-monitors", r#"{"monitors": []}"#),
        Some(IpcEvent::Monitors(_))
    ));
    assert_eq!(topic_event("all-clients", "[]"), Some(IpcEvent::Clients("[]".to_string())));
    assert_eq!(topic_event("all-tags", "[]"), Some(IpcEvent::Tags("[]".to_string())));
}
