use wisp::chat::{create_memory_pool, Chat};
use wisp::multi_pal::{MultiPalRound, PalStep};
use wisp::rounds::{uses_multi_pal, UnlockedPals};
use wisp::send::{begin_send, SendPath};

fn setup() -> (Chat, UnlockedPals, String) {
    let mut chat = Chat::new_with_pool(create_memory_pool()).expect("chat");
    chat.create_conversation("c1", "Conversation", "desc").expect("conversation");
    (chat, UnlockedPals::new(), "c1".to_string())
}

fn send(chat: &mut Chat, pals: &mut UnlockedPals, id: &str, text: &str, targets: Option<Vec<String>>) -> SendPath {
    begin_send(chat, pals, "c1", None, id, text, None, &targets, 0).expect("message stored")
}

#[test]
fn send_message_with_none_target_pal_ids_uses_single_pal_path() {
    let (mut chat, mut pals, _) = setup();
    let path = send(&mut chat, &mut pals, "u1", "Hello", None);
    assert!(matches!(path, SendPath::Single), "expected single-pal path");
}

#[test]
fn send_message_with_empty_target_pal_ids_uses_single_pal_path() {
    let (mut chat, mut pals, _) = setup();
    let path = send(&mut chat, &mut pals, "u1", "Hello", Some(vec![]));
    assert!(matches!(path, SendPath::Single), "expected single-pal path");
}

#[test]
fn send_message_with_non_empty_target_pal_ids_triggers_orchestrator() {
    let (mut chat, mut pals, conversation_id) = setup();
    let targets = match send(&mut chat, &mut pals, "u1", "Hello everyone", Some(vec!["nonexistent-pal".to_string()])) {
        SendPath::Multi(t) => t,
        SendPath::Single => panic!("expected the orchestrator path"),
    };
    let (_, step) = MultiPalRound::start(conversation_id.clone(), "u1".to_string(), targets, vec![]);
    match step {
        PalStep::Fail(err) => assert!(
            err.contains("Pal not found"),
            "expected orchestrator 'Pal not found' error, got: {}",
            err
        ),
        _ => panic!("expected orchestrator 'Pal not found' error"),
    }
    assert!(pals.contains(&conversation_id), "unlocked_pals should contain an entry for the conversation");
    assert!(
        pals.get(&conversation_id).contains(&"nonexistent-pal".to_string()),
        "unlocked_pals should contain the target_pal_id"
    );
}

#[test]
fn unlocked_pals_stores_target_pal_ids_from_request() {
    let (mut chat, mut pals, conversation_id) = setup();
    send(&mut chat, &mut pals, "u1", "@coder @designer help", Some(vec!["coder".to_string(), "designer".to_string()]));
    assert!(pals.contains(&conversation_id), "should have entry for conversation");
    let stored = pals.get(&conversation_id);
    assert!(stored.contains(&"coder".to_string()), "should contain coder");
    assert!(stored.contains(&"designer".to_string()), "should contain designer");
    assert_eq!(stored.len(), 2, "should have exactly 2 entries");
}

#[test]
fn unlocked_pals_not_stored_when_no_target_pal_ids() {
    let (mut chat, mut pals, conversation_id) = setup();
    send(&mut chat, &mut pals, "u1", "Hello", None);
    assert!(!pals.contains(&conversation_id), "should NOT have an entry when no target_pal_ids");
}

#[test]
fn unlocked_pals_accumulates_across_messages() {
    let (mut chat, mut pals, conversation_id) = setup();
    send(&mut chat, &mut pals, "u1", "@coder look at this", Some(vec!["coder".to_string()]));
    send(&mut chat, &mut pals, "u2", "@designer share feedback", Some(vec!["designer".to_string()]));
    let stored = pals.get(&conversation_id);
    assert!(stored.contains(&"coder".to_string()), "should contain coder from first message");
    assert!(stored.contains(&"designer".to_string()), "should contain designer from second message");
    assert_eq!(stored.len(), 2, "should have accumulated both pals");
}

#[test]
fn multi_pal_path_needs_named_targets() {
    assert!(!uses_multi_pal(&None));
    assert!(!uses_multi_pal(&Some(vec![])));
    assert!(uses_multi_pal(&Some(vec!["coder".to_string()])));
}
