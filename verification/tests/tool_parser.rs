use wisp::json::JsonValue;
use wisp::tool_parser::parse_tool_calls;

fn serde_of(v: &JsonValue) -> serde_json::Value {
    match v {
        JsonValue::Null => serde_json::Value::Null,
        JsonValue::Bool(b) => serde_json::Value::Bool(*b),
        JsonValue::Number(n) => serde_json::Value::Number(n.parse().expect("number text")),
        JsonValue::String(s) => serde_json::Value::String(s.clone()),
        JsonValue::Array(a) => serde_json::Value::Array(a.iter().map(serde_of).collect()),
        JsonValue::Object(o) => serde_json::Value::Object(o.iter().map(|m| (m.key.clone(), serde_of(&m.value))).collect()),
    }
}

fn to_json_string(v: &JsonValue) -> String {
    serde_json::to_string(&serde_of(v)).expect("serializable")
}


fn arg(v: &JsonValue, key: &str) -> String {
    to_json_string(v.get(key).expect("argument present"))
}

#[test]
fn parses_fenced_single_tool_call_and_removes_it_from_clean_text() {
    let parsed = parse_tool_calls(
        "I will search.\n```json\n{\"tool_call\":{\"name\":\"server:search\",\"arguments\":{\"query\":\"wisp\"}}}\n```",
    );

    assert_eq!(parsed.clean_text, "I will search.");
    assert_eq!(parsed.calls.len(), 1);
    assert_eq!(parsed.calls[0].name, "server:search");
    assert_eq!(arg(&parsed.calls[0].arguments, "query"), "\"wisp\"");
    assert!(!parsed.calls[0].id.is_empty());
}

#[test]
fn parses_multiple_tool_calls_from_array_wrapper() {
    let parsed = parse_tool_calls(
        "{\"tool_calls\":[{\"id\":\"a\",\"name\":\"s:first\",\"arguments\":{}},{\"id\":\"b\",\"name\":\"s:second\",\"arguments\":{}}]}",
    );

    assert_eq!(parsed.clean_text, "");
    assert_eq!(parsed.calls.iter().map(|call| call.name.as_str()).collect::<Vec<_>>(), vec!["s:first", "s:second"]);
}

#[test]
fn parses_direct_tagged_tool_call_object_and_removes_it_from_clean_text() {
    let parsed = parse_tool_calls(
        "before <|tool_call|> {\"name\": \"server:search\", \"arguments\": {\"query\": \"2025年春节日期\", \"max_results\": 3}} <|tool_call|> after",
    );

    assert_eq!(parsed.clean_text, "before  after");
    assert_eq!(parsed.calls.len(), 1);
    assert_eq!(parsed.calls[0].name, "server:search");
    assert_eq!(arg(&parsed.calls[0].arguments, "query"), "\"2025年春节日期\"");
    assert_eq!(arg(&parsed.calls[0].arguments, "max_results"), "3");
    assert!(!parsed.calls[0].id.is_empty());
}

#[test]
fn handles_nested_json_arguments() {
    let parsed = parse_tool_calls(
        "before {\"tool_call\":{\"id\":\"call_nested\",\"name\":\"s:nested\",\"arguments\":{\"filters\":{\"a\":1,\"b\":[true,{\"c\":\"d\"}]}}}} after",
    );

    assert_eq!(parsed.clean_text, "before  after");
    assert_eq!(parsed.calls.len(), 1);
    let filters = parsed.calls[0].arguments.get("filters").unwrap();
    let b = filters.get("b").unwrap().as_array().unwrap();
    assert_eq!(to_json_string(b[1].get("c").unwrap()), "\"d\"");
}

#[test]
fn ignores_tool_call_without_arguments_object() {
    let input = "before <|tool_call|> {\"name\": \"mcp__tavily_search\"} <|tool_call|> after";
    let parsed = parse_tool_calls(input);

    assert_eq!(parsed.clean_text, input);
    assert!(parsed.calls.is_empty());
}

#[test]
fn leaves_non_tool_json_in_clean_text() {
    let input = "Here is data {\"hello\":\"world\"}";
    let parsed = parse_tool_calls(input);

    assert_eq!(parsed.clean_text, input);
    assert!(parsed.calls.is_empty());
}

#[test]
fn fresh_ids_are_uuids_and_given_ids_are_kept() {
    let parsed = parse_tool_calls("{\"name\":\"s:t\",\"arguments\":{}} {\"id\":\"x\",\"name\":\"s:u\",\"arguments\":{}}");
    assert_eq!(parsed.calls.len(), 2);
    assert_eq!(parsed.calls[0].id.len(), 36);
    assert_eq!(parsed.calls[0].qualified_name.as_deref(), Some("s:t"));
    assert_eq!(parsed.calls[1].id, "x");
}

#[test]
fn unpaired_marker_stays_in_text() {
    let parsed = parse_tool_calls("a <|tool_call|> {\"name\":\"s:t\",\"arguments\":{}}");
    assert_eq!(parsed.clean_text, "a <|tool_call|> {\"name\":\"s:t\",\"arguments\":{}}");
    assert!(parsed.calls.is_empty());
}

#[test]
fn blank_name_is_not_a_call() {
    let parsed = parse_tool_calls("{\"name\":\"  \",\"arguments\":{}}");
    assert!(parsed.calls.is_empty());
    assert_eq!(parsed.clean_text, "{\"name\":\"  \",\"arguments\":{}}");
}

#[test]
fn calls_in_tool_calls_tags_are_found_by_the_object_scan() {
    let parsed = parse_tool_calls("<|tool_calls|>[{\"id\":\"call_1\",\"name\":\"server:tool\",\"arguments\":{}}]<|/tool_calls|>");
    assert_eq!(parsed.calls.len(), 1);
    assert_eq!(parsed.calls[0].id, "call_1");
    assert_eq!(parsed.clean_text, "<|tool_calls|>[]<|/tool_calls|>");
}
