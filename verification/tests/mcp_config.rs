use wisp::json::JsonValue;
use wisp::mcp_config::GlobalToolState;
use wisp::mcp_types::NormalizedTool;

fn tool(server: &str, name: &str) -> NormalizedTool {
    NormalizedTool {
        name: name.to_string(),
        server_id: server.to_string(),
        qualified_name: format!("{}:{}", server, name),
        description: Some(format!("{} tool", name)),
        input_schema: JsonValue::Object(vec![]),
        annotations: None,
    }
}

#[test]
fn global_tools_are_listed_by_qualified_name() {
    let mut state = GlobalToolState::new();
    state.rebuild(vec![tool("s2", "b"), tool("s1", "a")]);
    let list = state.list_global_tools();
    let names: Vec<&str> = list.iter().map(|t| t.qualified_name.as_str()).collect();
    assert_eq!(names, vec!["s1:a", "s2:b"]);
    assert!(list.iter().all(|t| !t.enabled));
}

#[test]
fn enabling_keeps_only_listed_tools() {
    let mut state = GlobalToolState::new();
    state.rebuild(vec![tool("s1", "a"), tool("s1", "b")]);
    state.set_global_enabled_tools(vec!["s1:a".to_string(), "ghost:x".to_string()]);
    assert_eq!(state.enabled_tools, vec!["s1:a".to_string()]);
}

#[test]
fn server_switch_covers_all_its_tools() {
    let mut state = GlobalToolState::new();
    state.rebuild(vec![tool("s1", "a"), tool("s1", "b"), tool("s2", "c")]);
    state.set_server_enabled("s1", true);
    let mut on = state.enabled_tools.clone();
    on.sort();
    assert_eq!(on, vec!["s1:a".to_string(), "s1:b".to_string()]);
    state.set_server_enabled("s1", false);
    assert!(state.enabled_tools.is_empty());
}

#[test]
fn rebuild_drops_enabled_names_of_vanished_tools() {
    let mut state = GlobalToolState::new();
    state.rebuild(vec![tool("s1", "a"), tool("s1", "b")]);
    state.set_global_enabled_tools(vec!["s1:a".to_string(), "s1:b".to_string()]);
    state.rebuild(vec![tool("s1", "b")]);
    assert_eq!(state.enabled_tools, vec!["s1:b".to_string()]);
}
