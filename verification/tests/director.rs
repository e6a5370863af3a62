use wisp::character::Character;
use wisp::director::{assemble_director_prompt, decision_from_value, parse_director_response};
use wisp::json::{JsonMember, JsonValue};

fn json_of(v: serde_json::Value) -> JsonValue {
    match v {
        serde_json::Value::Null => JsonValue::Null,
        serde_json::Value::Bool(b) => JsonValue::Bool(b),
        serde_json::Value::Number(n) => JsonValue::Number(n.to_string()),
        serde_json::Value::String(s) => JsonValue::String(s),
        serde_json::Value::Array(a) => JsonValue::Array(a.into_iter().map(json_of).collect()),
        serde_json::Value::Object(o) => JsonValue::Object(
            o.into_iter().map(|(key, value)| JsonMember { key, value: json_of(value) }).collect(),
        ),
    }
}

fn parse_json(text: &str) -> Option<JsonValue> {
    serde_json::from_str::<serde_json::Value>(text).ok().map(json_of)
}


fn test_character(id: &str, name: &str, role_bio: &str) -> Character {
    Character {
        id: id.to_string(),
        name: name.to_string(),
        alias: None,
        avatar: None,
        description: String::new(),
        system_prompt: String::new(),
        parameters: Vec::new(),
        model_id: "gpt-4".to_string(),
        created_at: 0,
        updated_at: 0,
        role_bio: role_bio.to_string(),
    }
}

#[test]
fn assemble_director_prompt_includes_pal_names_and_bios() {
    let pals = vec![
        test_character("c1", "Code Critic", "Expert in Rust and system design"),
        test_character("c2", "PM", "Product strategy"),
    ];
    let messages = vec!["User: how do I refactor this?".to_string()];

    let prompt = assemble_director_prompt(&messages, &pals);

    assert!(prompt.contains("Code Critic"), "should include pal name");
    assert!(prompt.contains("Expert in Rust and system design"), "should include pal bio");
    assert!(prompt.contains("PM"), "should include second pal name");
    assert!(prompt.contains("Product strategy"), "should include second pal bio");
    assert!(prompt.contains("User: how do I refactor this?"), "should include recent messages");
    assert!(prompt.contains("\"action\": \"invoke\""), "should describe the invoke format");
}

#[test]
fn assemble_director_prompt_includes_recent_messages() {
    let messages = vec![
        "User: hello".to_string(),
        "Assistant: hi there".to_string(),
        "User: can you help?".to_string(),
    ];
    let pals = vec![test_character("c1", "Helper", "Helps with things")];

    let prompt = assemble_director_prompt(&messages, &pals);

    assert!(prompt.contains("User: hello"));
    assert!(prompt.contains("Assistant: hi there"));
    assert!(prompt.contains("User: can you help?"));
}

#[test]
fn empty_pals_list_produces_prompt_with_no_options() {
    let messages = vec!["User: hello".to_string()];
    let pals: Vec<Character> = vec![];

    let prompt = assemble_director_prompt(&messages, &pals);

    assert!(prompt.contains("(none)"), "should indicate no pals available");
    assert!(!prompt.contains("- "), "should not list any pals");
}

#[test]
fn empty_messages_produces_prompt_with_no_conversation() {
    let messages: Vec<String> = vec![];
    let pals = vec![test_character("c1", "Bot", "A bot")];

    let prompt = assemble_director_prompt(&messages, &pals);

    assert!(prompt.contains("- Bot:"));
    assert!(prompt.ends_with("Director response: "), "should end with the prompt suffix");
}

#[test]
fn parse_director_response_invoke_with_pal_id() {
    let response = r#"{"action": "invoke", "pal_id": "c1"}"#;

    let decision = parse_director_response(response);

    assert!(decision.should_invoke);
    assert_eq!(decision.target_pal_id, Some("c1".to_string()));
}

#[test]
fn parse_director_response_none_action() {
    let response = r#"{"action": "none"}"#;

    let decision = parse_director_response(response);

    assert!(!decision.should_invoke);
    assert_eq!(decision.target_pal_id, None);
}

#[test]
fn parse_director_response_with_extra_text_before_json() {
    let response = "Let me think...\n{\"action\": \"invoke\", \"pal_id\": \"c2\"}\nThat's my decision.";

    let decision = parse_director_response(response);

    assert!(decision.should_invoke);
    assert_eq!(decision.target_pal_id, Some("c2".to_string()));
}

#[test]
fn parse_director_response_invalid_json_returns_none() {
    let response = "I don't think anyone else needs to chime in.";

    let decision = parse_director_response(response);

    assert!(!decision.should_invoke);
    assert_eq!(decision.target_pal_id, None);
}

#[test]
fn parse_director_response_missing_action_returns_none() {
    let response = r#"{"foo": "bar"}"#;

    let decision = parse_director_response(response);

    assert!(!decision.should_invoke);
    assert_eq!(decision.target_pal_id, None);
}

#[test]
fn parse_director_response_invoke_without_pal_id_returns_invoke_with_none() {
    let response = r#"{"action": "invoke"}"#;

    let decision = parse_director_response(response);

    assert!(decision.should_invoke);
    assert_eq!(decision.target_pal_id, None);
}

#[test]
fn parse_director_response_empty_string_returns_none() {
    let response = "";

    let decision = parse_director_response(response);

    assert!(!decision.should_invoke);
    assert_eq!(decision.target_pal_id, None);
}

#[test]
fn director_prompt_is_exact_for_one_pal_and_one_message() {
    let prompt = assemble_director_prompt(&["User: hi".to_string()], &[test_character("c1", "Bot", "A bot")]);
    let expected = "You are a dialogue director. Your job is to determine if another character should join the conversation.\n\nAvailable characters (only those already @mentioned by the user):\n- Bot: A bot\n\nRecent conversation:\nUser: hi\n\nIf another character's expertise or perspective would add value, respond with a JSON object:\n{\"action\": \"invoke\", \"pal_id\": \"<character_id>\"}\n\nOtherwise respond with:\n{\"action\": \"none\"}\n\nDirector response: ";
    assert_eq!(prompt, expected);
}

#[test]
fn director_prompt_lists_pals_one_per_line() {
    let prompt = assemble_director_prompt(
        &[],
        &[test_character("a", "A", "first"), test_character("b", "B", "second")],
    );
    assert!(prompt.contains(":\n- A: first\n- B: second\n\nRecent conversation:\n\n\nIf another"));
}

#[test]
fn director_reply_with_unparsable_braces_invokes_nobody() {
    let decision = parse_director_response("{ not json }");
    assert!(!decision.should_invoke);
    assert_eq!(decision.target_pal_id, None);
}

#[test]
fn director_reply_with_non_string_pal_id_invokes_without_target() {
    let decision = parse_director_response(r#"{"action":"invoke","pal_id":7}"#);
    assert!(decision.should_invoke);
    assert_eq!(decision.target_pal_id, None);
}

#[test]
fn decision_from_parsed_value() {
    let v = parse_json(r#"{"action":"invoke","pal_id":"z"}"#).unwrap();
    let d = decision_from_value(Some(&v));
    assert!(d.should_invoke);
    assert_eq!(d.target_pal_id.as_deref(), Some("z"));
    let d = decision_from_value(None);
    assert!(!d.should_invoke);
}
