use wisp::chat::{create_memory_pool, Chat};
use wisp::json::JsonValue;
use wisp::messages::MessageRole;
use wisp::provider::Provider;
use wisp::tools::{ConversationToolCall, ConversationToolContent, ConversationToolResult};
use wisp::turn::{Turn, TurnStep};

fn chat_with_user_message() -> Chat {
    let mut chat = Chat::new_with_pool(create_memory_pool()).expect("chat");
    chat.create_conversation("c1", "Conversation", "desc").expect("conversation");
    chat.add_message("c1", "u1", "hi", None, "user", None, None, None).expect("user message");
    chat
}

fn provider() -> Provider {
    Provider {
        name: "p".to_string(),
        display_name: "P".to_string(),
        base_url: "http://localhost".to_string(),
        models: Vec::new(),
    }
}

fn completed_call(id: &str) -> ConversationToolCall {
    ConversationToolCall {
        id: id.to_string(),
        name: "server:tool".to_string(),
        arguments: JsonValue::Object(Vec::new()),
        result: Some(ConversationToolResult {
            content: vec![ConversationToolContent::Text { text: "tool says hi".to_string() }],
            is_error: false,
        }),
        qualified_name: None,
    }
}

const CALL_TEXT: &str = "<|tool_call|>{\"id\":\"call_1\",\"name\":\"server:tool\",\"arguments\":{}}<|tool_call|>";

#[test]
fn turn_without_calls_completes_in_one_round() {
    let mut chat = chat_with_user_message();
    let mut turn = Turn::new("c1".to_string(), "u1".to_string(), 10);
    let request = turn
        .begin_round(&mut chat, None, &provider(), "m", &[], "a0".to_string(), 100)
        .expect("round begins");
    assert_eq!(request.messages.len(), 1);
    assert_eq!(request.messages[0].id, "u1");
    assert!(request.system_prompt.is_none());
    assert!(request.native_tools.is_empty());

    let step = turn.finish_round(&mut chat, "hello there", "thinking", Vec::new()).expect("round ends");
    match step {
        TurnStep::Complete(leaf) => assert_eq!(leaf, "a0"),
        TurnStep::RunTools(_) => panic!("no tools expected"),
    }
    let path = chat.get_message_path_to("c1", "a0").expect("path");
    assert_eq!(path.len(), 2);
    assert_eq!(path[1].text, "hello there");
    assert_eq!(path[1].sender, MessageRole::Assistant);
    assert_eq!(path[1].reasoning.as_deref(), Some("thinking"));
}

#[test]
fn turn_with_written_calls_runs_them_and_stores_results() {
    let mut chat = chat_with_user_message();
    let mut turn = Turn::new("c1".to_string(), "u1".to_string(), 10);
    turn.begin_round(&mut chat, None, &provider(), "m", &[], "a0".to_string(), 100).expect("round begins");
    let step = turn.finish_round(&mut chat, CALL_TEXT, "", Vec::new()).expect("round ends");
    let calls = match step {
        TurnStep::RunTools(calls) => calls,
        TurnStep::Complete(_) => panic!("calls expected"),
    };
    assert_eq!(calls.len(), 1);
    assert_eq!(calls[0].id, "call_1");
    assert_eq!(calls[0].name, "server:tool");

    let completed = vec![completed_call("call_1")];
    turn.store_results(&mut chat, &completed, &vec!["t0".to_string()], 100).expect("results stored");
    assert_eq!(turn.round, 1);
    assert_eq!(turn.leaf, "t0");

    let request = turn
        .begin_round(&mut chat, None, &provider(), "m", &[], "a1".to_string(), 100)
        .expect("second round begins");
    let senders: Vec<MessageRole> = request.messages.iter().map(|m| m.sender.clone()).collect();
    assert_eq!(senders, vec![MessageRole::User, MessageRole::Assistant, MessageRole::Tool]);
    assert_eq!(request.messages[1].text, "");
    assert!(request.messages[1].tool_calls.as_deref().unwrap_or("").contains("call_1"));
    assert!(request.messages[2].text.contains("[Tool: server:tool]"));
    assert!(request.messages[2].text.contains("tool says hi"));

    let step = turn.finish_round(&mut chat, "final answer", "", Vec::new()).expect("round ends");
    match step {
        TurnStep::Complete(leaf) => assert_eq!(leaf, "a1"),
        TurnStep::RunTools(_) => panic!("no tools expected"),
    }
    assert_eq!(chat.get_default_leaf("c1").expect("leaf"), Some("a1".to_string()));
}

#[test]
fn turn_with_native_calls_prefers_them() {
    let mut chat = chat_with_user_message();
    let mut turn = Turn::new("c1".to_string(), "u1".to_string(), 10);
    turn.begin_round(&mut chat, None, &provider(), "m", &[], "a0".to_string(), 100).expect("round begins");
    let native = vec![ConversationToolCall {
        id: "native_1".to_string(),
        name: "server:other".to_string(),
        arguments: JsonValue::Object(Vec::new()),
        result: None,
        qualified_name: None,
    }];
    let step = turn.finish_round(&mut chat, CALL_TEXT, "", native).expect("round ends");
    match step {
        TurnStep::RunTools(calls) => {
            assert_eq!(calls.len(), 1);
            assert_eq!(calls[0].id, "native_1");
        }
        TurnStep::Complete(_) => panic!("calls expected"),
    }
}

#[test]
fn turn_fails_when_the_last_round_still_calls_tools() {
    let mut chat = chat_with_user_message();
    let mut turn = Turn::new("c1".to_string(), "u1".to_string(), 10);
    let mut round = 0;
    loop {
        let draft = format!("a{round}");
        turn.begin_round(&mut chat, None, &provider(), "m", &[], draft, 100).expect("round begins");
        match turn.finish_round(&mut chat, CALL_TEXT, "", Vec::new()) {
            Ok(TurnStep::RunTools(_)) => {
                let tool_id = format!("t{round}");
                turn.store_results(&mut chat, &vec![completed_call("call_1")], &vec![tool_id], 100).expect("stored");
                round += 1;
            }
            Ok(TurnStep::Complete(_)) => panic!("the model keeps calling tools"),
            Err(message) => {
                assert_eq!(message, "Max tool rounds reached for conversation 'c1'");
                break;
            }
        }
    }
    assert_eq!(round, 9);
}

#[test]
fn turn_reports_a_missing_conversation() {
    let mut chat = chat_with_user_message();
    let mut turn = Turn::new("missing".to_string(), "u1".to_string(), 10);
    let err = turn
        .begin_round(&mut chat, None, &provider(), "m", &[], "a0".to_string(), 100)
        .expect_err("no such conversation");
    assert!(err.starts_with("Failed to build message path for conversation 'missing' from leaf 'u1': "));
}

#[test]
fn store_results_refuses_a_tool_id_already_stored() {
    let mut chat = chat_with_user_message();
    let mut turn = Turn::new("c1".to_string(), "u1".to_string(), 10);
    turn.begin_round(&mut chat, None, &provider(), "m", &[], "a0".to_string(), 100).expect("round begins");
    turn.finish_round(&mut chat, CALL_TEXT, "", Vec::new()).expect("round ends");
    let completed = vec![completed_call("call_1"), completed_call("call_2")];
    let err = turn
        .store_results(&mut chat, &completed, &vec!["t0".to_string(), "u1".to_string()], 100)
        .expect_err("u1 is taken");
    assert_eq!(err, "message already exists: u1");
    assert_eq!(turn.round, 0);
    let stored = chat.messages_manager.get("t0").expect("first result stored");
    assert_eq!(stored.sender, MessageRole::Tool);
}

#[test]
fn store_results_refuses_repeated_tool_ids() {
    let mut chat = chat_with_user_message();
    let mut turn = Turn::new("c1".to_string(), "u1".to_string(), 10);
    turn.begin_round(&mut chat, None, &provider(), "m", &[], "a0".to_string(), 100).expect("round begins");
    turn.finish_round(&mut chat, CALL_TEXT, "", Vec::new()).expect("round ends");
    let completed = vec![completed_call("call_1"), completed_call("call_2")];
    let err = turn
        .store_results(&mut chat, &completed, &vec!["t0".to_string(), "t0".to_string()], 100)
        .expect_err("t0 twice");
    assert_eq!(err, "message already exists: t0");
}

fn rounds_until_failure(max_tool_rounds: usize) -> usize {
    let mut chat = chat_with_user_message();
    let mut turn = Turn::new("c1".to_string(), "u1".to_string(), max_tool_rounds);
    let mut rounds = 0;
    loop {
        let draft = format!("a{rounds}");
        turn.begin_round(&mut chat, None, &provider(), "m", &[], draft, 100).expect("round begins");
        rounds += 1;
        match turn.finish_round(&mut chat, CALL_TEXT, "", Vec::new()) {
            Ok(TurnStep::RunTools(_)) => {
                let tool_id = format!("t{rounds}");
                turn.store_results(&mut chat, &vec![completed_call("call_1")], &vec![tool_id], 100).expect("stored");
            }
            Ok(TurnStep::Complete(_)) => panic!("the model keeps calling tools"),
            Err(message) => {
                assert_eq!(message, "Max tool rounds reached for conversation 'c1'");
                return rounds;
            }
        }
    }
}

#[test]
fn turn_takes_at_most_the_configured_rounds() {
    assert_eq!(rounds_until_failure(3), 3);
    assert_eq!(rounds_until_failure(1), 1);
    assert_eq!(rounds_until_failure(0), 1);
}

#[test]
fn finish_round_stores_the_text_without_the_calls() {
    let mut chat = chat_with_user_message();
    let mut turn = Turn::new("c1".to_string(), "u1".to_string(), 10);
    turn.begin_round(&mut chat, None, &provider(), "m", &[], "a0".to_string(), 100).expect("round begins");
    let text = format!("Let me look. {CALL_TEXT}");
    turn.finish_round(&mut chat, &text, "", Vec::new()).expect("round ends");
    let stored = chat.messages_manager.get("a0").expect("draft stored");
    assert_eq!(stored.text, "Let me look.");
}
