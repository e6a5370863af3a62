use std::collections::HashSet;

use wisp::json::{JsonMember, JsonValue};
use wisp::mcp_types::{NormalizedTool, TransportConfig};
use wisp::registry::{registry_list_tools, ToolError, ToolRegistry};

fn json_of(v: serde_json::Value) -> JsonValue {
    match v {
        serde_json::Value::Null => JsonValue::Null,
        serde_json::Value::Bool(b) => JsonValue::Bool(b),
        serde_json::Value::Number(n) => JsonValue::Number(n.to_string()),
        serde_json::Value::String(s) => JsonValue::String(s),
        serde_json::Value::Array(a) => JsonValue::Array(a.into_iter().map(json_of).collect()),
        serde_json::Value::Object(o) => JsonValue::Object(
            o.into_iter().map(|(key, value)| JsonMember { key, value: json_of(value) }).collect(),
        ),
    }
}

fn parse_json(text: &str) -> Option<JsonValue> {
    serde_json::from_str::<serde_json::Value>(text).ok().map(json_of)
}


fn make_tool(name: &str, server_id: &str) -> NormalizedTool {
    NormalizedTool {
        name: name.to_string(),
        server_id: server_id.to_string(),
        qualified_name: format!("{server_id}:{name}"),
        description: Some(format!("The {name} tool")),
        input_schema: parse_json(
            r#"{"type":"object","properties":{"q":{"type":"string","description":"Search query"}},"required":["q"]}"#,
        )
        .unwrap(),
        annotations: None,
    }
}

fn make_transport_stdio() -> TransportConfig {
    TransportConfig::Stdio { command: "echo".to_string(), args: vec![], env: vec![], cwd: None }
}

fn make_transport_http() -> TransportConfig {
    TransportConfig::Http { url: "http://localhost:9999".to_string(), headers: vec![], session_id: None }
}

fn make_registry() -> ToolRegistry {
    ToolRegistry::new()
}

fn enabled(reg: &ToolRegistry) -> HashSet<String> {
    reg.enabled_set().into_iter().collect()
}

#[test]
fn test_register_server_adds_tools_with_mcp_prefix() {
    let mut reg = make_registry();
    let tools = vec![make_tool("search", "tavily")];
    reg.register_server("tavily", &tools, &make_transport_stdio());

    let def = reg.get_tool("mcp_tavily_search").expect("tool should be registered");
    assert_eq!(def.name, "mcp_tavily_search");
    assert!(def.enabled);
}

#[test]
fn test_register_server_multiple_tools() {
    let mut reg = make_registry();
    let tools = vec![make_tool("search", "srv"), make_tool("read", "srv")];
    reg.register_server("srv", &tools, &make_transport_stdio());

    assert_eq!(reg.list_tools().len(), 2);
    assert!(reg.get_tool("mcp_srv_search").is_some());
    assert!(reg.get_tool("mcp_srv_read").is_some());
}

#[test]
fn test_register_server_same_name_different_servers() {
    let mut reg = make_registry();
    reg.register_server("a", &[make_tool("search", "a")], &make_transport_stdio());
    reg.register_server("b", &[make_tool("search", "b")], &make_transport_http());

    let a = reg.get_tool("mcp_a_search").expect("a's tool");
    let b = reg.get_tool("mcp_b_search").expect("b's tool");
    assert_eq!(a.name, "mcp_a_search");
    assert_eq!(b.name, "mcp_b_search");
}

#[test]
fn test_register_server_new_tools_are_enabled_by_default() {
    let mut reg = make_registry();
    reg.register_server("s", &[make_tool("x", "s")], &make_transport_stdio());

    assert!(enabled(&reg).contains("mcp_s_x"));
}

#[test]
fn test_register_server_empty_tool_list() {
    let mut reg = make_registry();
    reg.register_server("empty", &[], &make_transport_stdio());
    assert!(reg.list_tools().is_empty());
}

#[test]
fn test_unregister_server_removes_all_tools() {
    let mut reg = make_registry();
    reg.register_server("srv", &[make_tool("a", "srv"), make_tool("b", "srv")], &make_transport_stdio());
    assert_eq!(reg.list_tools().len(), 2);

    let removed = reg.unregister_server("srv");
    assert_eq!(removed.len(), 2);
    assert!(reg.list_tools().is_empty());
}

#[test]
fn test_unregister_server_removes_tools_from_enabled_set() {
    let mut reg = make_registry();
    reg.register_server("s", &[make_tool("x", "s")], &make_transport_stdio());
    assert!(enabled(&reg).contains("mcp_s_x"));

    reg.unregister_server("s");
    assert!(!enabled(&reg).contains("mcp_s_x"));
}

#[test]
fn test_unregister_server_unknown_server_does_nothing() {
    let mut reg = make_registry();
    reg.register_server("real", &[make_tool("t", "real")], &make_transport_stdio());
    let removed = reg.unregister_server("ghost");
    assert!(removed.is_empty());
    assert_eq!(reg.list_tools().len(), 1);
}

#[test]
fn test_register_after_unregister() {
    let mut reg = make_registry();
    reg.register_server("s", &[make_tool("x", "s")], &make_transport_stdio());
    reg.unregister_server("s");
    assert!(reg.list_tools().is_empty());

    reg.register_server("s", &[make_tool("x", "s")], &make_transport_stdio());
    assert!(reg.get_tool("mcp_s_x").is_some());
}

#[test]
fn test_get_tool_returns_none_for_unknown() {
    let reg = make_registry();
    assert!(reg.get_tool("nonexistent").is_none());
}

#[test]
fn test_get_tool_returns_some_for_registered() {
    let mut reg = make_registry();
    reg.register_server("s", &[make_tool("t", "s")], &make_transport_stdio());
    assert!(reg.get_tool("mcp_s_t").is_some());
}

#[test]
fn test_list_tools_returns_all() {
    let mut reg = make_registry();
    reg.register_server("s", &[make_tool("a", "s"), make_tool("b", "s")], &make_transport_stdio());
    assert_eq!(reg.list_tools().len(), 2);
}

#[test]
fn test_list_tools_empty_when_nothing_registered() {
    let reg = make_registry();
    assert!(reg.list_tools().is_empty());
}

#[test]
fn test_list_enabled_tools_filters_disabled() {
    let mut reg = make_registry();
    reg.register_server("s", &[make_tool("a", "s"), make_tool("b", "s")], &make_transport_stdio());
    reg.set_tool_enabled("mcp_s_a", false);
    let enabled = reg.list_enabled_tools();
    assert_eq!(enabled.len(), 1);
    assert_eq!(enabled[0].name, "mcp_s_b");
}

#[test]
fn test_list_enabled_tools_empty_when_all_disabled() {
    let mut reg = make_registry();
    reg.register_server("s", &[make_tool("t", "s")], &make_transport_stdio());
    reg.set_tool_enabled("mcp_s_t", false);
    assert!(reg.list_enabled_tools().is_empty());
}

#[test]
fn test_set_enabled_overwrites_with_filtered_set() {
    let mut reg = make_registry();
    reg.register_server("s", &[make_tool("a", "s"), make_tool("b", "s")], &make_transport_stdio());
    let names = vec!["mcp_s_a".to_string(), "nonexistent".to_string()];
    reg.set_enabled(names);

    assert!(enabled(&reg).contains("mcp_s_a"));
    assert!(!enabled(&reg).contains("mcp_s_b"));
}

#[test]
fn test_set_tool_enabled_false_disables() {
    let mut reg = make_registry();
    reg.register_server("s", &[make_tool("t", "s")], &make_transport_stdio());
    reg.set_tool_enabled("mcp_s_t", false);
    assert!(!enabled(&reg).contains("mcp_s_t"));
}

#[test]
fn test_set_tool_enabled_unknown_name_does_nothing() {
    let mut reg = make_registry();
    reg.set_tool_enabled("ghost", false);
    assert!(enabled(&reg).is_empty());
}

#[test]
fn test_set_server_enabled_disables_all_server_tools() {
    let mut reg = make_registry();
    reg.register_server("s", &[make_tool("a", "s"), make_tool("b", "s")], &make_transport_stdio());
    reg.set_server_enabled("s", false);
    assert!(!enabled(&reg).contains("mcp_s_a"));
    assert!(!enabled(&reg).contains("mcp_s_b"));
}

#[test]
fn test_set_server_enabled_unknown_server_does_nothing() {
    let mut reg = make_registry();
    reg.register_server("s", &[make_tool("t", "s")], &make_transport_stdio());
    reg.set_server_enabled("ghost", false);
    assert!(enabled(&reg).contains("mcp_s_t"));
}

#[test]
fn test_set_server_enabled_reenables() {
    let mut reg = make_registry();
    reg.register_server("s", &[make_tool("t", "s")], &make_transport_stdio());
    reg.set_tool_enabled("mcp_s_t", false);
    reg.set_server_enabled("s", true);
    assert!(enabled(&reg).contains("mcp_s_t"));
}

#[test]
fn test_execute_unknown_tool_returns_not_found() {
    let reg = make_registry();
    let err = reg.prepare_execution("ghost", JsonValue::Null);
    assert!(matches!(err, Err(ToolError::NotFound(n)) if n == "ghost"));
}

#[test]
fn test_build_tools_prompt_returns_formatted_text() {
    let mut reg = make_registry();
    reg.register_server("s", &[make_tool("t", "s")], &make_transport_stdio());
    let prompt = reg.build_tools_prompt();

    assert!(prompt.contains("## Available Tools"));
    assert!(prompt.contains("**mcp_s_t**"));
    assert!(prompt.contains("The t tool"));
    assert!(prompt.contains("`q` (string)"));
    assert!(prompt.contains("<|tool_calls|>"));
}

#[test]
fn test_build_tools_prompt_empty_when_no_tools() {
    let reg = make_registry();
    assert!(reg.build_tools_prompt().is_empty());
}

#[test]
fn test_build_tools_prompt_empty_when_all_disabled() {
    let mut reg = make_registry();
    reg.register_server("s", &[make_tool("t", "s")], &make_transport_stdio());
    reg.set_tool_enabled("mcp_s_t", false);
    assert!(reg.build_tools_prompt().is_empty());
}

#[test]
fn test_build_tools_prompt_disabled_tools_not_included() {
    let mut reg = make_registry();
    reg.register_server("s", &[make_tool("a", "s"), make_tool("b", "s")], &make_transport_stdio());
    reg.set_tool_enabled("mcp_s_a", false);
    let prompt = reg.build_tools_prompt();
    assert!(!prompt.contains("mcp_s_a"));
    assert!(prompt.contains("mcp_s_b"));
}

#[test]
fn test_build_tools_prompt_tool_without_properties() {
    let mut reg = make_registry();
    let mut tool = make_tool("no_params", "s");
    tool.input_schema = parse_json(r#"{ "type": "object" }"#).unwrap();
    reg.register_server("s", &[tool], &make_transport_stdio());
    let prompt = reg.build_tools_prompt();
    assert!(prompt.contains("**mcp_s_no_params**"));
}

#[test]
fn test_build_tools_prompt_multiple_tools_sorted_by_name() {
    let mut reg = make_registry();
    reg.register_server("s", &[make_tool("z_tool", "s"), make_tool("a_tool", "s")], &make_transport_stdio());
    let prompt = reg.build_tools_prompt();
    let bullet_lines: Vec<&str> = prompt.lines().filter(|line| line.starts_with("- **mcp_s_")).collect();
    assert_eq!(bullet_lines.len(), 2);
    assert!(bullet_lines[0].contains("mcp_s_a_tool"));
    assert!(bullet_lines[1].contains("mcp_s_z_tool"));
}

#[test]
fn prompt_is_exact_for_one_tool() {
    let mut reg = make_registry();
    let mut tool = make_tool("t", "s");
    tool.description = None;
    tool.input_schema = parse_json(r#"{"properties":{"b":{"description":"B"},"a":{"type":"integer"}}}"#).unwrap();
    reg.register_server("s", &[tool], &make_transport_stdio());
    let expected = "## Available Tools\n\nYou have access to the following tools. Use them via <|tool_calls|> when appropriate.\n\n- **mcp_s_t**: No description\n  - `a` (integer): \n  - `b` (string): B\n\nCall tools by wrapping a JSON array in `<|tool_calls|>` tags:\n<|tool_calls|>\n[{\"name\":\"tool_name\",\"arguments\":{\"param1\":\"value1\"}}]\n<|/tool_calls|>";
    assert_eq!(reg.build_tools_prompt(), expected);
}

#[test]
fn registering_again_replaces_and_metadata_names_the_source() {
    let mut reg = make_registry();
    reg.register_server("s", &[make_tool("t", "s")], &make_transport_stdio());
    let mut newer = make_tool("t", "s");
    newer.description = Some("newer".to_string());
    reg.register_server("s", &[newer], &make_transport_http());
    assert_eq!(reg.list_tools().len(), 1);
    let def = reg.get_tool("mcp_s_t").unwrap();
    assert_eq!(def.description.as_deref(), Some("newer"));
    let keys: Vec<&str> = def.metadata.iter().map(|(k, _)| k.as_str()).collect();
    assert_eq!(keys, vec!["provider", "server_id", "original_name"]);
    let target = reg.prepare_execution("mcp_s_t", parse_json("{}").unwrap()).unwrap();
    assert!(matches!(target.transport, TransportConfig::Http { .. }));
    assert_eq!(target.original_name, "t");
    assert!(target.arguments.is_some());
    let target = reg.prepare_execution("mcp_s_t", JsonValue::Null).unwrap();
    assert!(target.arguments.is_none());
    match target.failure("mcp_s_t", "boom") {
        ToolError::ExecutionFailed(m) => assert_eq!(m, "tool 'mcp_s_t' (MCP http, server 's'): boom"),
        _ => panic!("expected failure"),
    }
}

#[test]
fn list_for_display_is_sorted_and_synced() {
    let mut reg = make_registry();
    reg.register_server("s", &[make_tool("b", "s"), make_tool("a", "s")], &make_transport_stdio());
    reg.set_tool_enabled("mcp_s_b", false);
    let tools = registry_list_tools(&reg);
    assert_eq!(tools.iter().map(|t| t.name.as_str()).collect::<Vec<_>>(), vec!["mcp_s_a", "mcp_s_b"]);
    assert!(tools[0].enabled);
    assert!(!tools[1].enabled);
}

#[test]
fn tool_error_messages() {
    assert_eq!(ToolError::NotFound("x".into()).message(), "tool not found: x");
    assert_eq!(ToolError::ExecutionFailed("y".into()).message(), "tool execution failed: y");
}
