use async_openai::types::chat::{
    ChatCompletionRequestAssistantMessageContent, ChatCompletionRequestMessage,
    ChatCompletionRequestSystemMessageContent, ChatCompletionRequestUserMessageContent,
};

use wisp::messages::{ImageContent, ImageUrl, Message, MessageRole, MessageSource};
use wisp::payload::{assistant_request_text, build_openai_messages};

fn message(role: MessageRole, text: &str, tool_calls: Option<String>) -> Message {
    Message {
        id: format!("{}_id", text.replace(' ', "_")),
        text: text.to_string(),
        reasoning: None,
        sender: role,
        timestamp: 1,
        tokens: None,
        embedding: None,
        images: None,
        tool_calls,
        source: MessageSource::UserPrompted,
        pal_id: None,
        pal_name: None,
    }
}

#[test]
fn assistant_message_is_sent_as_plain_text() {
    let messages = vec![
        message(MessageRole::User, "hello", None),
        message(MessageRole::Assistant, "hi there", None),
    ];

    let converted = build_openai_messages(&messages);
    assert_eq!(converted.len(), 2);
    assert!(matches!(converted[0], ChatCompletionRequestMessage::User(_)));
    match &converted[1] {
        ChatCompletionRequestMessage::Assistant(msg) => {
            assert!(msg.tool_calls.is_none());
            assert_eq!(
                msg.content,
                Some(ChatCompletionRequestAssistantMessageContent::Text(
                    "hi there".to_string()
                ))
            );
        }
        other => panic!("expected assistant, got {other:?}"),
    }
}

#[test]
fn tool_message_becomes_system_message() {
    let messages = vec![
        message(MessageRole::Tool, "[Tool: search]\n[Result]\nfound", None),
    ];

    let converted = build_openai_messages(&messages);
    assert_eq!(converted.len(), 1);
    match &converted[0] {
        ChatCompletionRequestMessage::System(msg) => {
            let text = match &msg.content {
                ChatCompletionRequestSystemMessageContent::Text(t) => t.as_str(),
                _ => panic!("expected text content"),
            };
            assert!(text.contains("[Tool: search]"));
            assert!(text.contains("found"));
        }
        other => panic!("expected system, got {other:?}"),
    }
}

#[test]
fn builds_multimodal_user_message_for_images() {
    let mut msg = message(MessageRole::User, "describe", None);
    msg.images = Some(vec![ImageContent {
        content_type: "image_url".to_string(),
        image_url: ImageUrl {
            url: "data:image/png;base64,abc".to_string(),
        },
    }]);

    let converted = build_openai_messages(&[msg]);
    match &converted[0] {
        ChatCompletionRequestMessage::User(msg) => match &msg.content {
            ChatCompletionRequestUserMessageContent::Array(parts) => {
                assert_eq!(parts.len(), 2);
            }
            other => panic!("expected multimodal array, got {other:?}"),
        },
        other => panic!("expected user, got {other:?}"),
    }
}

#[test]
fn keeps_normal_assistant_text_as_text_content() {
    let converted = build_openai_messages(&[message(MessageRole::Assistant, "hello", None)]);
    match &converted[0] {
        ChatCompletionRequestMessage::Assistant(msg) => {
            assert!(msg.tool_calls.is_none());
            assert_eq!(
                msg.content,
                Some(ChatCompletionRequestAssistantMessageContent::Text(
                    "hello".to_string()
                ))
            );
        }
        other => panic!("expected assistant, got {other:?}"),
    }
}

#[test]
fn stored_calls_are_written_back_into_assistant_text() {
    let raw = r#"[{"id":"c1","name":"s:t","arguments":{"q":1},"result":null}]"#;
    let text = assistant_request_text("looking", Some(raw));
    let tag = text.strip_prefix("looking\n<|tool_calls|>").expect("text then tag");
    let json = tag.strip_suffix("<|/tool_calls|>").expect("closing marker");
    let value: serde_json::Value = serde_json::from_str(json).unwrap();
    let mut expected = serde_json::Map::new();
    expected.insert("name".to_string(), serde_json::Value::String("s:t".to_string()));
    let mut args = serde_json::Map::new();
    args.insert("q".to_string(), serde_json::Value::from(1));
    expected.insert("arguments".to_string(), serde_json::Value::Object(args));
    assert_eq!(value, serde_json::Value::Array(vec![serde_json::Value::Object(expected)]));
    assert_eq!(
        assistant_request_text("", Some("not json")),
        "<|tool_calls|>[]<|/tool_calls|>"
    );
    assert_eq!(assistant_request_text("plain", None), "plain");
}

#[test]
fn user_text_without_images_stays_text() {
    let converted = build_openai_messages(&[message(MessageRole::User, "hi", None)]);
    match &converted[0] {
        ChatCompletionRequestMessage::User(msg) => {
            assert_eq!(msg.content, ChatCompletionRequestUserMessageContent::Text("hi".to_string()));
        }
        other => panic!("expected user, got {other:?}"),
    }
}
