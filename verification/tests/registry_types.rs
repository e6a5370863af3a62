use wisp::json::{JsonMember, JsonValue};
use wisp::naming::registered_name;
use wisp::tools::{ToolContent, ToolResult};

fn json_of(v: serde_json::Value) -> JsonValue {
    match v {
        serde_json::Value::Null => JsonValue::Null,
        serde_json::Value::Bool(b) => JsonValue::Bool(b),
        serde_json::Value::Number(n) => JsonValue::Number(n.to_string()),
        serde_json::Value::String(s) => JsonValue::String(s),
        serde_json::Value::Array(a) => JsonValue::Array(a.into_iter().map(json_of).collect()),
        serde_json::Value::Object(o) => JsonValue::Object(
            o.into_iter().map(|(key, value)| JsonMember { key, value: json_of(value) }).collect(),
        ),
    }
}

fn parse_json(text: &str) -> Option<JsonValue> {
    serde_json::from_str::<serde_json::Value>(text).ok().map(json_of)
}


fn json(text: &str) -> JsonValue {
    parse_json(text).expect("valid JSON")
}

#[test]
fn test_registered_name_basic() {
    assert_eq!(registered_name("tavily", "search"), "mcp_tavily_search");
}

#[test]
fn test_registered_name_lowercases() {
    assert_eq!(registered_name("MyServer", "FindTool"), "mcp_myserver_findtool");
}

#[test]
fn test_registered_name_replaces_special_chars() {
    assert_eq!(registered_name("my-server", "read-file"), "mcp_my_server_read_file");
}

#[test]
fn test_registered_name_trims_underscores() {
    assert_eq!(registered_name("_server_", "_tool_"), "mcp_server_tool");
}

#[test]
fn test_registered_name_handles_colon() {
    assert_eq!(registered_name("server:1", "tool:name"), "mcp_server_1_tool_name");
}

#[test]
fn test_registered_name_empty_parts() {
    assert_eq!(registered_name("", ""), "mcp_");
}

#[test]
fn test_from_mcp_response_text_content() {
    let raw = json(r#"{ "content": [{ "type": "text", "text": "hello" }], "isError": false }"#);
    let result = ToolResult::from_mcp_response(raw);
    assert!(!result.is_error);
    assert_eq!(result.content.len(), 1);
    assert_eq!(result.content[0], ToolContent::Text { text: "hello".to_string() });
}

#[test]
fn test_from_mcp_response_image_content() {
    let raw = json(r#"{ "content": [{ "type": "image", "data": "abc123", "mimeType": "image/png" }], "isError": false }"#);
    let result = ToolResult::from_mcp_response(raw);
    assert_eq!(
        result.content[0],
        ToolContent::Image { data: "abc123".to_string(), mime_type: "image/png".to_string() }
    );
}

#[test]
fn test_from_mcp_response_resource_content() {
    let raw = json(
        r#"{ "content": [{ "type": "resource", "uri": "file:///tmp/x.txt", "mimeType": "text/plain", "text": "file content" }], "isError": false }"#,
    );
    let result = ToolResult::from_mcp_response(raw);
    assert_eq!(
        result.content[0],
        ToolContent::Resource {
            uri: "file:///tmp/x.txt".to_string(),
            mime_type: Some("text/plain".to_string()),
            text: Some("file content".to_string()),
            blob: None
        }
    );
}

#[test]
fn test_from_mcp_response_is_error_false_by_default() {
    let result = ToolResult::from_mcp_response(json(r#"{ "content": [] }"#));
    assert!(!result.is_error);
}

#[test]
fn test_from_mcp_response_detects_error() {
    let raw = json(r#"{ "content": [{ "type": "text", "text": "fail" }], "isError": true }"#);
    let result = ToolResult::from_mcp_response(raw);
    assert!(result.is_error);
}

#[test]
fn test_from_mcp_response_detects_snake_case_error() {
    let raw = json(r#"{ "content": [{ "type": "text", "text": "fail" }], "is_error": true }"#);
    let result = ToolResult::from_mcp_response(raw);
    assert!(result.is_error);
}

#[test]
fn test_from_mcp_response_unsupported_type_returns_text_fallback() {
    let raw = json(r#"{ "content": [{ "type": "audio", "data": "..." }], "isError": false }"#);
    let result = ToolResult::from_mcp_response(raw);
    assert!(matches!(&result.content[0], ToolContent::Text { text } if text.contains("audio")));
}

#[test]
fn test_from_mcp_response_empty_content() {
    let result = ToolResult::from_mcp_response(json(r#"{ "content": [], "isError": false }"#));
    assert!(result.content.is_empty());
}

#[test]
fn test_from_mcp_response_missing_content_field() {
    let result = ToolResult::from_mcp_response(json(r#"{ "isError": false }"#));
    assert!(result.content.is_empty());
}

#[test]
fn test_from_mcp_response_resource_with_snake_case_mime_type() {
    let raw = json(
        r#"{ "content": [{ "type": "resource", "uri": "file://x", "mime_type": "text/csv", "text": "a,b" }], "isError": false }"#,
    );
    let result = ToolResult::from_mcp_response(raw);
    assert_eq!(
        result.content[0],
        ToolContent::Resource {
            uri: "file://x".to_string(),
            mime_type: Some("text/csv".to_string()),
            text: Some("a,b".to_string()),
            blob: None
        }
    );
}

#[test]
fn test_format_for_ai_success() {
    let result = ToolResult { content: vec![ToolContent::Text { text: "Temperature is 25°C.".to_string() }], is_error: false };
    let formatted = result.format_for_ai("mcp_tavily_search", &json(r#"{"q":"weather"}"#));

    assert!(formatted.contains("[Tool: mcp_tavily_search]"));
    assert!(formatted.contains(r#"Arguments: {"q":"weather"}"#));
    assert!(formatted.contains("Status: success"));
    assert!(formatted.contains("[Result]"));
    assert!(formatted.contains("Temperature is 25°C."));
}

#[test]
fn test_format_for_ai_error() {
    let result = ToolResult { content: vec![ToolContent::Text { text: "Connection refused.".to_string() }], is_error: true };
    let formatted = result.format_for_ai("mcp_http_get", &json(r#"{"url":"http://x"}"#));

    assert!(formatted.contains("Status: error"));
    assert!(formatted.contains("[Error]"));
    assert!(formatted.contains("Connection refused."));
}

#[test]
fn test_format_for_ai_no_result_no_args() {
    let result = ToolResult { content: vec![], is_error: false };
    let formatted = result.format_for_ai("mcp_void", &JsonValue::Null);
    assert!(formatted.contains("[Tool: mcp_void]"));
    assert!(formatted.contains("Arguments: null"));
    assert!(formatted.contains("Status: success"));
    assert!(!formatted.contains("[Result]"));
}

#[test]
fn test_format_for_ai_image_content() {
    let result = ToolResult {
        content: vec![ToolContent::Image { data: "abc".to_string(), mime_type: "image/png".to_string() }],
        is_error: false,
    };
    let formatted = result.format_for_ai("mcp_img", &json("{}"));
    assert!(formatted.contains("[Result]"));
    assert!(formatted.contains("[Image]"));
}

#[test]
fn test_format_for_ai_resource_content() {
    let result = ToolResult {
        content: vec![ToolContent::Resource {
            uri: "file://x".to_string(),
            mime_type: Some("text/plain".to_string()),
            text: Some("file data".to_string()),
            blob: None,
        }],
        is_error: false,
    };
    let formatted = result.format_for_ai("mcp_read", &json("{}"));
    assert!(formatted.contains("file data"));
}

#[test]
fn test_format_for_ai_resource_without_text() {
    let result = ToolResult {
        content: vec![ToolContent::Resource { uri: "file:///secret.bin".to_string(), mime_type: None, text: None, blob: None }],
        is_error: false,
    };
    let formatted = result.format_for_ai("mcp_read", &json("{}"));
    assert!(formatted.contains("[Resource: file:///secret.bin]"));
}
