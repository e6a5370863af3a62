use wisp::character::Character;
use wisp::messages::{MessageRole, MessageSource};
use wisp::orchestrator::{build_context_for_pal, PalReply};

fn test_character(id: &str, name: &str, system_prompt: &str, role_bio: &str) -> Character {
    Character {
        id: id.to_string(),
        name: name.to_string(),
        alias: None,
        avatar: None,
        description: String::new(),
        system_prompt: system_prompt.to_string(),
        parameters: Vec::new(),
        model_id: "gpt-4".to_string(),
        created_at: 0,
        updated_at: 0,
        role_bio: role_bio.to_string(),
    }
}

fn test_reply(pal_id: &str, pal_name: &str, text: &str, source: MessageSource) -> PalReply {
    PalReply {
        message_id: format!("msg-{}", pal_id),
        pal_id: pal_id.to_string(),
        pal_name: pal_name.to_string(),
        text: text.to_string(),
        source,
    }
}

#[test]
fn build_context_includes_system_prompt() {
    let pal = test_character("c1", "Code Critic", "You are a code critic.", "Critiques code");
    let replies = vec![];

    let context = build_context_for_pal("conv1", &replies, &pal).unwrap();

    assert_eq!(context.len(), 1);
    assert_eq!(context[0].sender, MessageRole::System);
    assert_eq!(context[0].text, "You are a code critic.");
}

#[test]
fn build_context_includes_previous_pal_replies() {
    let pal = test_character("c1", "Code Critic", "You are a code critic.", "Critiques code");
    let replies = vec![
        test_reply("c2", "PM", "Let's focus on features.", MessageSource::UserPrompted),
        test_reply("c3", "Designer", "I can help with UI.", MessageSource::UserPrompted),
    ];

    let context = build_context_for_pal("conv1", &replies, &pal).unwrap();

    assert_eq!(context.len(), 3);
    assert_eq!(context[0].sender, MessageRole::System);
    assert_eq!(context[1].sender, MessageRole::Assistant);
    assert_eq!(context[1].text, "Let's focus on features.");
    assert_eq!(context[1].pal_id, Some("c2".to_string()));
    assert_eq!(context[1].pal_name, Some("PM".to_string()));
    assert_eq!(context[2].sender, MessageRole::Assistant);
    assert_eq!(context[2].text, "I can help with UI.");
    assert_eq!(context[2].pal_id, Some("c3".to_string()));
    assert_eq!(context[2].pal_name, Some("Designer".to_string()));
}

#[test]
fn build_context_without_system_prompt_omits_system_message() {
    let pal = test_character("c1", "Bot", "", "A simple bot");
    let replies = vec![];

    let context = build_context_for_pal("conv1", &replies, &pal).unwrap();

    assert_eq!(context.len(), 0);
}

#[test]
fn build_context_preserves_reply_source_metadata() {
    let pal = test_character("c1", "Bot", "You are a bot.", "A bot");
    let replies = vec![test_reply("c2", "Other", "hello", MessageSource::Directed)];

    let context = build_context_for_pal("conv1", &replies, &pal).unwrap();

    assert_eq!(context.len(), 2);
    assert_eq!(context[1].source, MessageSource::Directed);
}

#[test]
fn system_message_is_named_after_the_pal() {
    let pal = test_character("c9", "Bot", "prompt", "bio");
    let context = build_context_for_pal("conv", &[], &pal).unwrap();
    assert_eq!(context[0].id, "c9-system");
    assert_eq!(context[0].source, MessageSource::UserPrompted);
    assert_eq!(context[0].pal_id, None);
    assert_eq!(context[0].timestamp, 0);
    let replies = vec![test_reply("c2", "Other", "hello", MessageSource::UserPrompted)];
    let context = build_context_for_pal("conv", &replies, &test_character("c1", "B", "", "")).unwrap();
    assert_eq!(context[0].id, "msg-c2");
    assert!(context[0].tool_calls.is_none() && context[0].reasoning.is_none());
}
