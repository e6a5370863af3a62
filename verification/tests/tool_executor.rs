use wisp::json::{JsonMember, JsonValue};
use wisp::naming::{split_qualified_tool_name, ToolExecutionError};
use wisp::tools::{attach_raw_result, normalize_raw_tool_result, ConversationToolCall, ConversationToolContent};

fn json_of(v: serde_json::Value) -> JsonValue {
    match v {
        serde_json::Value::Null => JsonValue::Null,
        serde_json::Value::Bool(b) => JsonValue::Bool(b),
        serde_json::Value::Number(n) => JsonValue::Number(n.to_string()),
        serde_json::Value::String(s) => JsonValue::String(s),
        serde_json::Value::Array(a) => JsonValue::Array(a.into_iter().map(json_of).collect()),
        serde_json::Value::Object(o) => JsonValue::Object(
            o.into_iter().map(|(key, value)| JsonMember { key, value: json_of(value) }).collect(),
        ),
    }
}

fn parse_json(text: &str) -> Option<JsonValue> {
    serde_json::from_str::<serde_json::Value>(text).ok().map(json_of)
}


#[test]
fn split_qualified_tool_name_splits_at_first_colon_only() {
    let (server_id, tool_name) = split_qualified_tool_name("server-1:tool:name:with:colon").expect("valid name");

    assert_eq!(server_id, "server-1");
    assert_eq!(tool_name, "tool:name:with:colon");
}

#[test]
fn split_qualified_tool_name_rejects_invalid_names() {
    assert!(matches!(
        split_qualified_tool_name("missing_colon"),
        Err(ToolExecutionError::InvalidQualifiedName(_))
    ));
    assert!(matches!(
        split_qualified_tool_name(":missing_server"),
        Err(ToolExecutionError::InvalidQualifiedName(_))
    ));
    assert!(matches!(
        split_qualified_tool_name("missing_tool:"),
        Err(ToolExecutionError::InvalidQualifiedName(_))
    ));
}

#[test]
fn normalize_raw_tool_result_preserves_text_image_resource_and_error_state() {
    let raw = parse_json(
        r#"{
            "isError": true,
            "content": [
                { "type": "text", "text": "hello" },
                { "type": "image", "data": "abc", "mimeType": "image/jpeg" },
                { "type": "resource", "uri": "file://x", "mimeType": "text/plain", "text": "resource text" }
            ]
        }"#,
    )
    .unwrap();
    let result = normalize_raw_tool_result(raw).expect("result normalized");

    assert!(result.is_error);
    assert_eq!(result.content.len(), 3);
    assert!(matches!(result.content[0], ConversationToolContent::Text { .. }));
    assert!(matches!(result.content[1], ConversationToolContent::Image { .. }));
    assert!(matches!(result.content[2], ConversationToolContent::Resource { .. }));
}

#[test]
fn attach_raw_result_returns_completed_call() {
    let call = ConversationToolCall {
        id: "call_1".to_string(),
        name: "server:tool".to_string(),
        arguments: parse_json(r#"{"q":"x"}"#).unwrap(),
        result: None,
        qualified_name: None,
    };

    let completed = attach_raw_result(call, parse_json(r#"{"content":[{"type":"text","text":"done"}]}"#).unwrap())
        .expect("completed");

    assert_eq!(completed.id, "call_1");
    assert!(completed.result.is_some());
}

#[test]
fn non_array_content_is_an_invalid_result() {
    let r = normalize_raw_tool_result(parse_json(r#"{"content":"x"}"#).unwrap());
    assert!(matches!(r, Err(ToolExecutionError::InvalidResult(_))));
}

#[test]
fn missing_content_keeps_the_raw_value_as_text() {
    let r = normalize_raw_tool_result(parse_json(r#"{"is_error":true,"x":1}"#).unwrap()).unwrap();
    assert!(r.is_error);
    assert_eq!(r.content.len(), 1);
    match &r.content[0] {
        ConversationToolContent::Text { text } => assert_eq!(text, r#"{"is_error":true,"x":1}"#),
        _ => panic!("expected text"),
    }
}

#[test]
fn unsupported_content_type_is_named() {
    let r = normalize_raw_tool_result(parse_json(r#"{"content":[{"type":"audio"}]}"#).unwrap()).unwrap();
    match &r.content[0] {
        ConversationToolContent::Text { text } => assert_eq!(text, "[Unsupported tool content type: audio]"),
        _ => panic!("expected text"),
    }
    let _ = JsonValue::Null;
}
