use serde_json::Value;

use wisp::json::{JsonMember, JsonValue};
use wisp::rpc::{
    call_tool_params, classify_line, initialize_params, initialized_notification, int_string, list_tools_params,
    number_as_i64, rpc_line, rpc_outcome, rpc_request, IncomingLine,
};

fn json_of(v: serde_json::Value) -> JsonValue {
    match v {
        serde_json::Value::Null => JsonValue::Null,
        serde_json::Value::Bool(b) => JsonValue::Bool(b),
        serde_json::Value::Number(n) => JsonValue::Number(n.to_string()),
        serde_json::Value::String(s) => JsonValue::String(s),
        serde_json::Value::Array(a) => JsonValue::Array(a.into_iter().map(json_of).collect()),
        serde_json::Value::Object(o) => JsonValue::Object(
            o.into_iter().map(|(key, value)| JsonMember { key, value: json_of(value) }).collect(),
        ),
    }
}

fn parse_json(text: &str) -> Option<JsonValue> {
    serde_json::from_str::<serde_json::Value>(text).ok().map(json_of)
}

fn serde_of(v: &JsonValue) -> serde_json::Value {
    match v {
        JsonValue::Null => serde_json::Value::Null,
        JsonValue::Bool(b) => serde_json::Value::Bool(*b),
        JsonValue::Number(n) => serde_json::Value::Number(n.parse().expect("number text")),
        JsonValue::String(s) => serde_json::Value::String(s.clone()),
        JsonValue::Array(a) => serde_json::Value::Array(a.iter().map(serde_of).collect()),
        JsonValue::Object(o) => serde_json::Value::Object(o.iter().map(|m| (m.key.clone(), serde_of(&m.value))).collect()),
    }
}

fn to_json_string(v: &JsonValue) -> String {
    serde_json::to_string(&serde_of(v)).expect("serializable")
}


fn parse(text: &str) -> Value {
    serde_json::from_str(text).expect("valid json")
}

#[test]
fn request_line_carries_id_method_and_params() {
    let req = rpc_request(7, "tools/list", list_tools_params(Some("abc".to_string())));
    let line = rpc_line(&req);
    assert!(line.ends_with('\n'));
    let v = parse(line.trim_end());
    assert_eq!(v["jsonrpc"], Value::from("2.0"));
    assert_eq!(v["id"], Value::from(7));
    assert_eq!(v["method"], Value::from("tools/list"));
    assert_eq!(v["params"]["cursor"], Value::from("abc"));
}

#[test]
fn initialize_parameters_name_the_client() {
    let v = parse(rpc_line(&initialize_params()).trim_end());
    assert_eq!(v["protocolVersion"], Value::from("2024-11-05"));
    assert_eq!(v["clientInfo"]["name"], Value::from("wisp"));
    assert_eq!(v["clientInfo"]["version"], Value::from("0.1.0"));
    assert!(v["capabilities"].as_object().unwrap().is_empty());
    let n = parse(rpc_line(&initialized_notification()).trim_end());
    assert_eq!(n["method"], Value::from("notifications/initialized"));
    assert!(n.get("id").is_none());
}

#[test]
fn tool_call_without_arguments_sends_empty_object() {
    let v = parse(rpc_line(&call_tool_params("search", None)).trim_end());
    assert_eq!(v["name"], Value::from("search"));
    assert!(v["arguments"].as_object().unwrap().is_empty());
    let with = parse(rpc_line(&call_tool_params("s", Some(JsonValue::Bool(true)))).trim_end());
    assert_eq!(with["arguments"], Value::Bool(true));
}

#[test]
fn outcome_prefers_error_then_result() {
    let ok = parse_json(r#"{"id":1,"result":{"x":2}}"#).unwrap();
    let r = rpc_outcome(&ok).unwrap();
    assert_eq!(parse(&to_json_string(&r)), parse(r#"{"x":2}"#));
    let err = parse_json(r#"{"id":1,"error":{"code":-1},"result":3}"#).unwrap();
    assert_eq!(rpc_outcome(&err).unwrap_err(), r#"MCP Server Error: {"code":-1}"#);
    let none = parse_json(r#"{"id":1}"#).unwrap();
    assert_eq!(rpc_outcome(&none).unwrap_err(), "MCP response missing 'result'");
}

#[test]
fn lines_are_sorted_by_kind() {
    assert!(matches!(classify_line("   \n"), IncomingLine::Blank));
    match classify_line(r#"  {"id": 12, "result": {}}  "#) {
        IncomingLine::Response(id, _) => assert_eq!(id, 12),
        other => panic!("unexpected {:?}", other),
    }
    match classify_line(r#"{"method":"notifications/progress"}"#) {
        IncomingLine::Notification(t) => assert_eq!(t, r#"{"method":"notifications/progress"}"#),
        other => panic!("unexpected {:?}", other),
    }
    match classify_line(r#"{"id":"abc"}"#) {
        IncomingLine::Notification(_) => {}
        other => panic!("unexpected {:?}", other),
    }
    match classify_line("not json") {
        IncomingLine::Invalid(t) => assert_eq!(t, "not json"),
        other => panic!("unexpected {:?}", other),
    }
}

#[test]
fn integer_ids_follow_as_i64() {
    assert_eq!(number_as_i64("0"), Some(0));
    assert_eq!(number_as_i64("-42"), Some(-42));
    assert_eq!(number_as_i64("9223372036854775807"), Some(i64::MAX));
    assert_eq!(number_as_i64("-9223372036854775808"), Some(i64::MIN));
    assert_eq!(number_as_i64("9223372036854775808"), None);
    assert_eq!(number_as_i64("1.5"), None);
    assert_eq!(number_as_i64(""), None);
    assert_eq!(number_as_i64("-"), None);
    assert_eq!(int_string(-17), "-17");
    assert_eq!(int_string(i64::MIN), "-9223372036854775808");
}
