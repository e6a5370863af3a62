use wisp::chat::{create_memory_pool, Chat};
use wisp::json::{JsonMember, JsonValue};
use wisp::mcp_types::{ConnectionStatus, ServerConfig, TransportConfig};
use wisp::messages::{MessageRole, MessageSource};
use wisp::orchestrator::PalReply;
use wisp::refresh::{refresh_registry, servers_to_list, ServerListing};
use wisp::registry::ToolRegistry;
use wisp::rounds::UnlockedPals;
use wisp::send::{begin_send, store_replies, SendPath};
use wisp::tools::{failed_call, ConversationToolCall, ConversationToolContent};

fn chat() -> Chat {
    let mut chat = Chat::new_with_pool(create_memory_pool()).expect("chat");
    chat.create_conversation("c1", "Conversation", "desc").expect("conversation");
    chat
}

fn stdio() -> TransportConfig {
    TransportConfig::Stdio { command: "srv".to_string(), args: vec![], env: vec![], cwd: None }
}

fn server(id: &str) -> ServerConfig {
    ServerConfig {
        id: id.to_string(),
        name: id.to_string(),
        transport: stdio(),
        auto_reconnect: false,
        reconnect_interval_ms: 1000,
        max_reconnect_attempts: 0,
        heartbeat_interval_ms: 1000,
        protocol_version: None,
    }
}

fn status(id: &str, connected: bool) -> ConnectionStatus {
    ConnectionStatus { server_id: id.to_string(), connected, last_ping_at: None, reconnect_attempts: 0, error: None }
}

fn listing(id: &str, names: &[&str]) -> ServerListing {
    let tools = names
        .iter()
        .map(|n| JsonValue::Object(vec![JsonMember { key: "name".to_string(), value: JsonValue::String(n.to_string()) }]))
        .collect();
    ServerListing {
        server_id: id.to_string(),
        transport: stdio(),
        answer: JsonValue::Object(vec![JsonMember { key: "tools".to_string(), value: JsonValue::Array(tools) }]),
    }
}

fn names(registry: &ToolRegistry) -> Vec<String> {
    let mut v: Vec<String> = registry.list_tools().into_iter().map(|d| d.name).collect();
    v.sort();
    v
}

fn reply(id: &str, text: &str) -> PalReply {
    PalReply {
        message_id: id.to_string(),
        pal_id: "p1".to_string(),
        pal_name: "Pal".to_string(),
        text: text.to_string(),
        source: MessageSource::Directed,
    }
}

#[test]
fn a_new_conversation_starts_with_its_system_message() {
    let mut chat = chat();
    let all = chat.get_all_message_involved("c1").expect("thread");
    assert_eq!(all.len(), 1);
    assert_eq!(all[0].id, "system-c1");
    assert_eq!(all[0].sender, MessageRole::System);
}

#[test]
fn a_taken_system_message_id_gets_a_new_one() {
    let mut chat = chat();
    chat.add_message("c1", "system-c2", "taken", None, "user", Some("system-c1"), None, None).expect("message");
    chat.create_conversation("c2", "Second", "desc").expect("created all the same");
    let all = chat.get_all_message_involved("c2").expect("thread");
    assert_eq!(all.len(), 1);
    assert_eq!(all[0].sender, MessageRole::System);
    assert_ne!(all[0].id, "system-c2");
    assert!(all[0].id.starts_with("system-c2"));
}

#[test]
fn only_connected_servers_are_listed() {
    let servers = vec![server("a"), server("b"), server("c")];
    let statuses = vec![status("a", true), status("b", false), status("c", true)];
    let listed: Vec<String> = servers_to_list(&servers, &statuses).into_iter().map(|s| s.server_id).collect();
    assert_eq!(listed, vec!["a", "c"]);
}

#[test]
fn refresh_registers_listed_tools_and_drops_disconnected_servers() {
    let mut registry = ToolRegistry::new();
    refresh_registry(&mut registry, &vec![listing("a", &["echo"]), listing("b", &["ping"])]);
    assert_eq!(names(&registry), vec!["mcp_a_echo", "mcp_b_ping"]);
    refresh_registry(&mut registry, &vec![listing("a", &["echo", "time"])]);
    assert_eq!(names(&registry), vec!["mcp_a_echo", "mcp_a_time"]);
}

#[test]
fn sending_with_targets_records_them_and_chooses_the_round() {
    let mut chat = chat();
    let mut unlocked = UnlockedPals::new();
    let path = begin_send(&mut chat, &mut unlocked, "c1", None, "u1", "hi", None, &Some(vec!["p1".to_string()]), 7)
        .expect("stored");
    match path {
        SendPath::Multi(t) => assert_eq!(t, vec!["p1"]),
        SendPath::Single => panic!("round expected"),
    }
    assert_eq!(unlocked.get("c1"), vec!["p1"]);
    let path = begin_send(&mut chat, &mut unlocked, "c1", Some("u1"), "u2", "again", None, &None, 7).expect("stored");
    assert!(matches!(path, SendPath::Single));
    let err = begin_send(&mut chat, &mut unlocked, "c1", None, "u1", "dup", None, &None, 7).unwrap_err();
    assert_eq!(err, "message already exists: u1");
}

#[test]
fn replies_are_stored_under_the_message_they_answer() {
    let mut chat = chat();
    let mut unlocked = UnlockedPals::new();
    begin_send(&mut chat, &mut unlocked, "c1", None, "u1", "hi", None, &None, 7).expect("stored");
    let last = store_replies(&mut chat, "c1", "u1", &[reply("r1", "one"), reply("r2", "two")], 9).expect("replies");
    assert_eq!(last, "r2");
    let path = chat.get_message_path_to("c1", "r2").expect("path");
    let ids: Vec<String> = path.into_iter().map(|m| m.id).collect();
    assert_eq!(ids, vec!["u1", "r2"]);
    let stored = chat.messages_manager.get("r2").expect("reply stored");
    assert_eq!(stored.pal_id.as_deref(), Some("p1"));
    assert_eq!(stored.pal_name.as_deref(), Some("Pal"));
    assert_eq!(stored.source, MessageSource::Directed);
    assert_eq!(stored.timestamp, 9);
    assert_eq!(chat.messages_manager.get("u1").expect("user message").timestamp, 7);
    let err = store_replies(&mut chat, "c1", "u1", &[reply("r3", "x"), reply("r1", "y")], 9).unwrap_err();
    assert_eq!(err, "message already exists: r1");
    assert_eq!(store_replies(&mut chat, "c1", "u1", &[], 9).expect("none"), "u1");
}

#[test]
fn a_failed_call_becomes_an_error_result() {
    let call = ConversationToolCall {
        id: "call_1".to_string(),
        name: "server:tool".to_string(),
        arguments: JsonValue::Object(vec![]),
        result: None,
        qualified_name: None,
    };
    let done = failed_call(call, "timed out");
    let result = done.result.expect("result");
    assert!(result.is_error);
    assert_eq!(result.content, vec![ConversationToolContent::Text { text: "Tool 'server:tool' failed: timed out".to_string() }]);
}
