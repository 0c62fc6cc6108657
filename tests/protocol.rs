use mini_claw::protocol::{event_from_raw, parse_rpc_event, PiEvent, RawEvent, RequestEncoder, RequestKind};

#[test]
fn test_parse_agent_start() {
    let event = parse_rpc_event(r#"{"type":"agent_start"}"#);
    assert!(matches!(event, PiEvent::AgentStart));
}

#[test]
fn test_parse_agent_end() {
    let event = parse_rpc_event(r#"{"type":"agent_end","messages":[]}"#);
    assert!(matches!(event, PiEvent::AgentEnd));
}

#[test]
fn test_parse_text_delta() {
    let event = parse_rpc_event(
        r#"{"type":"message_update","assistantMessageEvent":{"type":"text_delta","delta":"Hello"}}"#,
    );
    match event {
        PiEvent::TextDelta(text) => assert_eq!(text, "Hello"),
        _ => panic!("Expected TextDelta"),
    }
}

#[test]
fn test_parse_tool_start() {
    let event = parse_rpc_event(r#"{"type":"tool_execution_start","tool":{"name":"bash"}}"#);
    match event {
        PiEvent::ToolStart { name } => assert_eq!(name, "bash"),
        _ => panic!("Expected ToolStart"),
    }
}

#[test]
fn test_parse_error() {
    let event = parse_rpc_event(r#"{"type":"error","error":"something failed"}"#);
    match event {
        PiEvent::Error(msg) => assert_eq!(msg, "something failed"),
        _ => panic!("Expected Error"),
    }
}

#[test]
fn test_parse_invalid_json() {
    let event = parse_rpc_event("not json");
    assert!(matches!(event, PiEvent::Error(_)));
}

fn text_delta(e: PiEvent) -> Option<String> {
    match e {
        PiEvent::TextDelta(t) => Some(t),
        _ => None,
    }
}

#[test]
fn invalid_line_is_carried_in_the_error() {
    match parse_rpc_event("{oops") {
        PiEvent::Error(m) => assert_eq!(m, "Invalid JSON: {oops"),
        _ => panic!("Expected Error"),
    }
}

#[test]
fn unknown_kinds_give_an_empty_text_delta() {
    assert_eq!(text_delta(parse_rpc_event(r#"{"type":"brand_new"}"#)).as_deref(), Some(""));
    assert_eq!(text_delta(parse_rpc_event(r#"{"no_type":1}"#)).as_deref(), Some(""));
    assert_eq!(text_delta(parse_rpc_event("[1,2]")).as_deref(), Some(""));
    assert_eq!(
        text_delta(parse_rpc_event(
            r#"{"type":"message_update","assistantMessageEvent":{"type":"future_delta","delta":"x"}}"#
        ))
        .as_deref(),
        Some("")
    );
    assert_eq!(text_delta(parse_rpc_event(r#"{"type":"message_update"}"#)).as_deref(), Some(""));
}

#[test]
fn message_update_variants() {
    match parse_rpc_event(
        r#"{"type":"message_update","assistantMessageEvent":{"type":"thinking_delta","delta":"hmm"}}"#,
    ) {
        PiEvent::ThinkingDelta(t) => assert_eq!(t, "hmm"),
        _ => panic!("Expected ThinkingDelta"),
    }
    match parse_rpc_event(
        r#"{"type":"message_update","assistantMessageEvent":{"type":"toolcall_start","partial":{"name":"read"}}}"#,
    ) {
        PiEvent::ToolStart { name } => assert_eq!(name, "read"),
        _ => panic!("Expected ToolStart"),
    }
    match parse_rpc_event(
        r#"{"type":"message_update","assistantMessageEvent":{"type":"toolcall_start"}}"#,
    ) {
        PiEvent::ToolStart { name } => assert_eq!(name, "unknown"),
        _ => panic!("Expected ToolStart"),
    }
    match parse_rpc_event(
        r#"{"type":"message_update","assistantMessageEvent":{"type":"toolcall_delta","delta":"{\"a\""}}"#,
    ) {
        PiEvent::ToolUpdate(t) => assert_eq!(t, "{\"a\""),
        _ => panic!("Expected ToolUpdate"),
    }
    assert!(matches!(
        parse_rpc_event(r#"{"type":"message_update","assistantMessageEvent":{"type":"done"}}"#),
        PiEvent::AgentEnd
    ));
    match parse_rpc_event(
        r#"{"type":"message_update","assistantMessageEvent":{"type":"error","reason":"overloaded"}}"#,
    ) {
        PiEvent::Error(t) => assert_eq!(t, "overloaded"),
        _ => panic!("Expected Error"),
    }
}

#[test]
fn tool_execution_variants() {
    match parse_rpc_event(r#"{"type":"tool_execution_start"}"#) {
        PiEvent::ToolStart { name } => assert_eq!(name, "tool"),
        _ => panic!("Expected ToolStart"),
    }
    match parse_rpc_event(r#"{"type":"tool_execution_update","output":"line 1"}"#) {
        PiEvent::ToolUpdate(t) => assert_eq!(t, "line 1"),
        _ => panic!("Expected ToolUpdate"),
    }
    assert!(matches!(parse_rpc_event(r#"{"type":"tool_execution_end"}"#), PiEvent::ToolEnd));
    match parse_rpc_event(r#"{"type":"error","error":42}"#) {
        PiEvent::Error(t) => assert_eq!(t, "unknown error"),
        _ => panic!("Expected Error"),
    }
}

#[test]
fn decoding_fields_directly() {
    let raw = RawEvent {
        kind: Some("message_update".to_string()),
        delta_kind: Some("text_delta".to_string()),
        delta: None,
        partial_name: None,
        reason: None,
        tool_name: None,
        output: None,
        error: None,
    };
    assert_eq!(text_delta(event_from_raw(&raw)).as_deref(), Some(""));
}

#[test]
fn requests_are_numbered_and_escaped() {
    let mut enc = RequestEncoder::new();
    assert_eq!(
        enc.encode(RequestKind::Prompt, "hi"),
        "{\"id\":\"req-1\",\"type\":\"prompt\",\"message\":\"hi\"}\n"
    );
    assert_eq!(
        enc.encode(RequestKind::Steer, "say \"stop\"\n"),
        "{\"id\":\"req-2\",\"type\":\"steer\",\"message\":\"say \\\"stop\\\"\\n\"}\n"
    );
    assert_eq!(
        enc.encode(RequestKind::FollowUp, ""),
        "{\"id\":\"req-3\",\"type\":\"follow_up\",\"message\":\"\"}\n"
    );
    assert_eq!(enc.sent(), 3);
}

#[test]
fn control_characters_are_escaped_in_requests() {
    let mut enc = RequestEncoder::new();
    assert_eq!(
        enc.encode(RequestKind::Prompt, "a\u{1}\tb\\\r"),
        "{\"id\":\"req-1\",\"type\":\"prompt\",\"message\":\"a\\u0001\\tb\\\\\\r\"}\n"
    );
}
