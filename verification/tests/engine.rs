use std::collections::VecDeque;

use wisp::chat::{create_memory_pool, Chat};
use wisp::engine::{
    assistant_message_id, tool_message_id, AssistantRound, ConversationEngine, ConversationEngineConfig,
    ConversationEngineError, ConversationLlm, ConversationToolRunner,
};
use wisp::messages::{Message, MessageRole};
use wisp::tools::{ConversationToolCall, ConversationToolContent, ConversationToolResult};

struct FakeLlm {
    rounds: VecDeque<AssistantRound>,
    seen_roles: Vec<Vec<MessageRole>>,
}

impl FakeLlm {
    fn new(rounds: Vec<AssistantRound>) -> Self {
        Self { rounds: VecDeque::from(rounds), seen_roles: Vec::new() }
    }
}

impl ConversationLlm for FakeLlm {
    fn next_round(&mut self, messages: &[Message]) -> Result<AssistantRound, ConversationEngineError> {
        self.seen_roles.push(messages.iter().map(|message| message.sender.clone()).collect());
        self.rounds.pop_front().ok_or_else(|| ConversationEngineError::Llm("no more rounds".to_string()))
    }
}

struct FakeTools;

impl ConversationToolRunner for FakeTools {
    fn execute(&mut self, call: ConversationToolCall) -> Result<ConversationToolCall, ConversationEngineError> {
        Ok(ConversationToolCall {
            result: Some(ConversationToolResult {
                content: vec![ConversationToolContent::Text { text: "tool says hi".to_string() }],
                is_error: false,
            }),
            ..call
        })
    }
}

fn chat() -> Chat {
    Chat::new_with_pool(create_memory_pool()).expect("chat")
}

#[test]
fn simple_text_round_persists_user_and_assistant() {
    let mut chat = chat();
    chat.create_conversation("c1", "Conversation", "desc").expect("conversation");
    let llm = FakeLlm::new(vec![AssistantRound { text: "hello".to_string(), reasoning: None }]);
    let tools = FakeTools;
    let mut engine = ConversationEngine::new(&mut chat, llm, tools, ConversationEngineConfig::default());

    let leaf = engine
        .send_user_message("c1", None, "u1", "hi", None)
        .expect("send succeeds");

    assert_eq!(leaf, "assistant-u1-0");
    let path = engine.chat.get_message_path_to("c1", &leaf).expect("path");
    assert_eq!(path.iter().map(|message| message.sender.clone()).collect::<Vec<_>>(), vec![MessageRole::User, MessageRole::Assistant]);
    assert_eq!(path[1].text, "hello");
}

#[test]
fn tool_round_persists_assistant_tool_call_tool_result_and_final_assistant() {
    let mut chat = chat();
    chat.create_conversation("c1", "Conversation", "desc").expect("conversation");
    let llm = FakeLlm::new(vec![
        AssistantRound {
            text: "<|tool_calls|>[{\"id\":\"call_1\",\"name\":\"server:tool\",\"arguments\":{}}]<|/tool_calls|>".to_string(),
            reasoning: None,
        },
        AssistantRound { text: "final answer".to_string(), reasoning: None },
    ]);
    let tools = FakeTools;
    let mut engine = ConversationEngine::new(&mut chat, llm, tools, ConversationEngineConfig::default());

    let leaf = engine
        .send_user_message("c1", None, "u1", "use tool", None)
        .expect("send succeeds");

    assert_eq!(leaf, "assistant-tool-assistant-u1-0-call_1-1");
    let path = engine.chat.get_message_path_to("c1", &leaf).expect("path");
    assert_eq!(path.iter().map(|message| message.sender.clone()).collect::<Vec<_>>(), vec![
        MessageRole::User,
        MessageRole::Assistant,
        MessageRole::Tool,
        MessageRole::Assistant,
    ]);
    assert!(path[1].tool_calls.as_ref().expect("tool calls").contains("tool says hi"));
    assert!(path[2].text.contains("tool says hi"));
    assert_eq!(path[3].text, "final answer");
}

#[test]
fn max_tool_rounds_stops_infinite_tool_loop() {
    let mut chat = chat();
    chat.create_conversation("c1", "Conversation", "desc").expect("conversation");
    let llm = FakeLlm::new(vec![
        AssistantRound {
            text: "<|tool_calls|>[{\"id\":\"call_1\",\"name\":\"server:tool\",\"arguments\":{}}]<|/tool_calls|>".to_string(),
            reasoning: None,
        },
    ]);
    let tools = FakeTools;
    let mut engine = ConversationEngine::new(&mut chat, llm, tools, ConversationEngineConfig { max_tool_rounds: 0 });

    let err = engine
        .send_user_message("c1", None, "u1", "loop", None)
        .expect_err("max rounds reached");

    assert!(matches!(err, ConversationEngineError::MaxToolRounds));
}

#[test]
fn default_config_allows_ten_tool_rounds() {
    assert_eq!(ConversationEngineConfig::default().max_tool_rounds, 10);
}

#[test]
fn message_ids_follow_their_patterns() {
    assert_eq!(assistant_message_id("u1", 12), "assistant-u1-12");
    assert_eq!(tool_message_id("assistant-u1-0", "call_9"), "tool-assistant-u1-0-call_9");
}

#[test]
fn reasoning_is_stored_with_the_answer() {
    let mut chat = chat();
    chat.create_conversation("c1", "Conversation", "desc").expect("conversation");
    let llm = FakeLlm::new(vec![AssistantRound { text: "ok".to_string(), reasoning: Some("thought".to_string()) }]);
    let mut engine = ConversationEngine::new(&mut chat, llm, FakeTools, ConversationEngineConfig::default());
    let leaf = engine.send_user_message("c1", None, "u1", "hi", None).unwrap();
    let path = engine.chat.get_message_path_to("c1", &leaf).unwrap();
    assert_eq!(path[1].reasoning.as_deref(), Some("thought"));
    assert_eq!(path[1].tool_calls, None);
}

#[test]
fn model_error_stops_the_turn() {
    let mut chat = chat();
    chat.create_conversation("c1", "Conversation", "desc").expect("conversation");
    let llm = FakeLlm::new(vec![]);
    let mut engine = ConversationEngine::new(&mut chat, llm, FakeTools, ConversationEngineConfig::default());
    let err = engine.send_user_message("c1", None, "u1", "hi", None).unwrap_err();
    assert_eq!(err.to_text(), "llm error: no more rounds");
}

#[test]
fn continue_from_leaf_fails_at_once_without_a_path() {
    let mut chat = chat();
    let llm = FakeLlm::new(vec![AssistantRound { text: "unused".to_string(), reasoning: None }]);
    let mut engine = ConversationEngine::new(&mut chat, llm, FakeTools, ConversationEngineConfig::default());
    let err = engine.continue_from_leaf("missing", "u1").unwrap_err();
    assert_eq!(err.to_text(), "chat error: conversation not found");
    assert!(engine.llm.seen_roles.is_empty());
}

struct FailingTools;

impl ConversationToolRunner for FailingTools {
    fn execute(&mut self, _call: ConversationToolCall) -> Result<ConversationToolCall, ConversationEngineError> {
        Err(ConversationEngineError::Tool("boom".to_string()))
    }
}

#[test]
fn a_failing_tool_is_reported_to_the_model_and_the_turn_goes_on() {
    let mut chat = chat();
    chat.create_conversation("c1", "Conversation", "desc").expect("conversation");
    let llm = FakeLlm::new(vec![
        AssistantRound {
            text: "<|tool_call|>{\"id\":\"call_1\",\"name\":\"server:tool\",\"arguments\":{}}<|tool_call|>".to_string(),
            reasoning: None,
        },
        AssistantRound { text: "sorry".to_string(), reasoning: None },
    ]);
    let mut engine = ConversationEngine::new(&mut chat, llm, FailingTools, ConversationEngineConfig::default());
    let leaf = engine.send_user_message("c1", None, "u1", "use tool", None).expect("turn goes on");
    let path = engine.chat.get_message_path_to("c1", &leaf).expect("path");
    assert_eq!(path.len(), 4);
    assert!(path[2].text.contains("Tool 'server:tool' failed: tool error: boom"));
    assert_eq!(path[3].text, "sorry");
}
