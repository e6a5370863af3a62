use wisp::character::Character;
use wisp::messages::{MessageRole, MessageSource};
use wisp::multi_pal::{reply_message, MultiPalRound, PalStep};
use wisp::orchestrator::PalReply;

fn character(id: &str, name: &str, system_prompt: &str, role_bio: &str) -> Character {
    Character {
        id: id.to_string(),
        name: name.to_string(),
        alias: None,
        avatar: None,
        description: String::new(),
        system_prompt: system_prompt.to_string(),
        parameters: vec![],
        model_id: "m".to_string(),
        created_at: 0,
        updated_at: 0,
        role_bio: role_bio.to_string(),
    }
}

fn cast() -> Vec<Character> {
    vec![
        character("coder", "Coder", "You write code.", "writes code"),
        character("designer", "Designer", "", "draws screens"),
        character("writer", "Writer", "You write prose.", "writes prose"),
    ]
}

fn asked(step: &PalStep) -> (String, usize) {
    match step {
        PalStep::Ask { pal, context } => (pal.id.clone(), context.len()),
        other => panic!("expected a question, got {:?}", other),
    }
}

#[test]
fn targets_answer_in_turn_then_director_passes() {
    let (mut round, step) =
        MultiPalRound::start("c1".to_string(), "u1".to_string(), vec!["coder".to_string(), "designer".to_string()], cast());
    assert_eq!(asked(&step), ("coder".to_string(), 1));
    let step = round.on_reply("code!".to_string());
    assert_eq!(asked(&step), ("designer".to_string(), 1));
    let step = round.on_reply("screens!".to_string());
    match &step {
        PalStep::Ask { pal, context } => {
            assert_eq!(pal.id, "coder");
            assert_eq!(context.len(), 1);
            assert_eq!(context[0].id, "director-prompt");
            assert_eq!(context[0].sender, MessageRole::User);
            assert!(context[0].text.contains("- Coder: writes code"));
            assert!(context[0].text.contains("Designer: screens!"));
            assert!(!context[0].text.contains("Writer"));
        }
        other => panic!("expected the director, got {:?}", other),
    }
    match round.on_reply("{\"action\": \"none\"}".to_string()) {
        PalStep::Done(replies) => {
            let ids: Vec<&str> = replies.iter().map(|r| r.message_id.as_str()).collect();
            assert_eq!(ids, vec!["pal-coder-u1", "pal-designer-u1"]);
            assert_eq!(replies[1].text, "screens!");
        }
        other => panic!("expected the end, got {:?}", other),
    }
}

#[test]
fn director_can_call_in_another_character() {
    let (mut round, _) = MultiPalRound::start("c1".to_string(), "u1".to_string(), vec!["coder".to_string()], cast());
    let step = round.on_reply("code!".to_string());
    assert_eq!(asked(&step).0, "coder");
    let step = round.on_reply("{\"action\": \"invoke\", \"pal_id\": \"writer\"}".to_string());
    match &step {
        PalStep::Ask { pal, context } => {
            assert_eq!(pal.id, "writer");
            assert_eq!(context.len(), 2);
            assert_eq!(context[0].sender, MessageRole::System);
            assert_eq!(context[1].text, "code!");
        }
        other => panic!("expected the writer, got {:?}", other),
    }
    match round.on_reply("prose!".to_string()) {
        PalStep::Done(replies) => {
            assert_eq!(replies.len(), 2);
            assert_eq!(replies[1].message_id, "directed-writer-u1");
            assert_eq!(replies[1].source, MessageSource::Directed);
        }
        other => panic!("expected the end, got {:?}", other),
    }
}

#[test]
fn unknown_target_fails_the_round() {
    let (_, step) = MultiPalRound::start("c1".to_string(), "u1".to_string(), vec!["ghost".to_string()], cast());
    match step {
        PalStep::Fail(m) => assert_eq!(m, "Pal not found: ghost"),
        other => panic!("expected failure, got {:?}", other),
    }
}

#[test]
fn director_naming_unknown_character_fails() {
    let (mut round, _) = MultiPalRound::start("c1".to_string(), "u1".to_string(), vec!["coder".to_string()], cast());
    round.on_reply("code!".to_string());
    match round.on_reply("{\"action\": \"invoke\", \"pal_id\": \"nobody\"}".to_string()) {
        PalStep::Fail(m) => assert_eq!(m, "Director invoked unknown pal: nobody"),
        other => panic!("expected failure, got {:?}", other),
    }
}

#[test]
fn no_targets_means_no_director() {
    let (_, step) = MultiPalRound::start("c1".to_string(), "u1".to_string(), vec![], cast());
    match step {
        PalStep::Done(replies) => assert!(replies.is_empty()),
        other => panic!("expected the end, got {:?}", other),
    }
}

#[test]
fn director_check_alone_chooses_among_unlocked() {
    let (mut round, step) =
        MultiPalRound::start_director("c1".to_string(), "u1".to_string(), vec!["designer".to_string()], cast());
    match &step {
        PalStep::Ask { pal, context } => {
            assert_eq!(pal.id, "designer");
            assert!(context[0].text.contains("- Designer: draws screens"));
            assert!(context[0].text.contains("(none)") == false);
        }
        other => panic!("expected the director, got {:?}", other),
    }
    match round.on_reply("{\"action\": \"invoke\", \"pal_id\": \"designer\"}".to_string()) {
        PalStep::Ask { pal, context } => {
            assert_eq!(pal.id, "designer");
            assert!(context.is_empty());
        }
        other => panic!("expected the designer, got {:?}", other),
    }
}

#[test]
fn director_check_without_unlocked_ends_at_once() {
    let (_, step) = MultiPalRound::start_director("c1".to_string(), "u1".to_string(), vec![], cast());
    assert!(matches!(step, PalStep::Done(ref r) if r.is_empty()));
}

#[test]
fn replies_become_assistant_messages() {
    let reply = PalReply {
        message_id: "pal-coder-u1".to_string(),
        pal_id: "coder".to_string(),
        pal_name: "Coder".to_string(),
        text: "hi".to_string(),
        source: MessageSource::Directed,
    };
    let m = reply_message(&reply, 42);
    assert_eq!(m.id, "pal-coder-u1");
    assert_eq!(m.sender, MessageRole::Assistant);
    assert_eq!(m.timestamp, 42);
    assert_eq!(m.pal_id.as_deref(), Some("coder"));
    assert_eq!(m.source, MessageSource::Directed);
}
