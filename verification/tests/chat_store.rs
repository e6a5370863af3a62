use wisp::chat::{create_memory_pool, Chat, ChatError, ConversationError};

fn add(chat: &mut Chat, conversation_id: &str, id: &str, text: &str, sender: &str, parent: Option<&str>) {
    chat.add_message(conversation_id, id, text, None, sender, parent, None, None)
        .expect("message inserted");
}

fn new_chat() -> Chat {
    Chat::new_with_pool(create_memory_pool()).expect("chat created")
}

fn branching_chat() -> Chat {
    let mut chat = new_chat();
    chat.create_conversation("c1", "Conversation", "desc").expect("conversation created");
    add(&mut chat, "c1", "u1", "root user", "user", None);
    add(&mut chat, "c1", "a1", "assistant branch 1", "bot", Some("u1"));
    add(&mut chat, "c1", "a2", "assistant branch 2", "bot", Some("u1"));
    add(&mut chat, "c1", "u2", "follow up", "user", Some("a2"));
    chat
}

#[test]
fn get_message_path_to_returns_only_selected_branch() {
    let pool = create_memory_pool();
    let mut chat = Chat::new_with_pool(pool).expect("chat created");
    chat.create_conversation("c1", "Conversation", "desc")
        .expect("conversation created");

    add(&mut chat, "c1", "u1", "root user", "user", None);
    add(&mut chat, "c1", "a1", "assistant branch 1", "bot", Some("u1"));
    add(&mut chat, "c1", "a2", "assistant branch 2", "bot", Some("u1"));
    add(&mut chat, "c1", "u2", "follow up", "user", Some("a2"));

    let path = chat
        .get_message_path_to("c1", "u2")
        .expect("path selected");
    let ids: Vec<String> = path.into_iter().map(|message| message.id).collect();

    assert_eq!(ids, vec!["u1", "a2", "u2"]);
}

#[test]
fn get_default_leaf_selects_last_child_recursively() {
    let pool = create_memory_pool();
    let mut chat = Chat::new_with_pool(pool).expect("chat created");
    chat.create_conversation("c1", "Conversation", "desc")
        .expect("conversation created");

    add(&mut chat, "c1", "u1", "root user", "user", None);
    add(&mut chat, "c1", "a1", "assistant branch 1", "bot", Some("u1"));
    add(&mut chat, "c1", "a2", "assistant branch 2", "bot", Some("u1"));
    add(&mut chat, "c1", "u2", "follow up", "user", Some("a2"));

    assert_eq!(
        chat.get_default_leaf("c1").expect("leaf selected"),
        Some("u2".to_string())
    );
}

#[test]
fn get_message_path_to_rejects_leaf_outside_conversation() {
    let pool = create_memory_pool();
    let mut chat = Chat::new_with_pool(pool).expect("chat created");
    chat.create_conversation("c1", "Conversation 1", "desc")
        .expect("conversation created");
    chat.create_conversation("c2", "Conversation 2", "desc")
        .expect("conversation created");

    add(&mut chat, "c1", "u1", "root user", "user", None);
    add(&mut chat, "c2", "u2", "other root", "user", None);

    let err = chat
        .get_message_path_to("c1", "u2")
        .expect_err("foreign leaf rejected");
    assert!(matches!(
        err,
        ChatError::Conversation(ConversationError::InvalidOperation(_))
    ));
}

#[test]
fn path_error_names_leaf_and_conversation() {
    let mut chat = new_chat();
    chat.create_conversation("c1", "C", "d").unwrap();
    add(&mut chat, "c1", "u1", "root", "user", None);
    match chat.get_message_path_to("c1", "ghost") {
        Err(ChatError::Conversation(ConversationError::InvalidOperation(m))) => {
            assert_eq!(m, "message ghost is not in conversation c1");
        }
        other => panic!("unexpected {:?}", other),
    }
}

#[test]
fn path_of_a_new_conversation_is_its_system_message() {
    let mut chat = new_chat();
    chat.create_conversation("c1", "C", "d").unwrap();
    let path = chat.get_message_path_to("c1", "system-c1").unwrap();
    assert_eq!(path.len(), 1);
    assert_eq!(path[0].text, "");
    assert!(chat.get_message_path_to("c1", "anything").is_err());
    assert_eq!(chat.get_default_leaf("c1").unwrap(), Some("system-c1".to_string()));
}

#[test]
fn missing_conversation_is_not_found() {
    let mut chat = new_chat();
    assert!(matches!(
        chat.get_message_path_to("nope", "u1"),
        Err(ChatError::Conversation(ConversationError::NotFound))
    ));
    assert!(matches!(
        chat.get_default_leaf("nope"),
        Err(ChatError::Conversation(ConversationError::NotFound))
    ));
    assert!(matches!(
        chat.get_all_message_involved("nope"),
        Err(ChatError::Conversation(ConversationError::NotFound))
    ));
}

#[test]
fn duplicate_conversation_and_message_are_refused() {
    let mut chat = new_chat();
    chat.create_conversation("c1", "C", "d").unwrap();
    assert!(matches!(
        chat.create_conversation("c1", "again", "d"),
        Err(ChatError::Conversation(ConversationError::Duplicate(ref id))) if id == "c1"
    ));
    add(&mut chat, "c1", "u1", "root", "user", None);
    assert!(matches!(
        chat.add_message("c1", "u1", "again", None, "user", Some("u1"), None, None),
        Err(ChatError::DuplicateMessage(ref id)) if id == "u1"
    ));
    assert!(matches!(
        chat.add_message("c1", "x", "t", None, "robot", None, None, None),
        Err(ChatError::UnknownSender(ref s)) if s == "robot"
    ));
}

#[test]
fn all_messages_come_level_by_level() {
    let mut chat = branching_chat();
    let ids: Vec<String> = chat
        .get_all_message_involved("c1")
        .unwrap()
        .into_iter()
        .map(|m| m.id)
        .collect();
    assert_eq!(ids, vec!["u1", "a1", "a2", "u2"]);
}

#[test]
fn thread_tree_walks_with_a_stack() {
    let mut chat = branching_chat();
    let tree = chat.get_thread_tree("c1").unwrap();
    let keys: Vec<String> = tree.iter().map(|t| t.key.clone()).collect();
    assert_eq!(keys, vec!["u1", "a2", "u2", "a1"]);
    assert_eq!(tree[0].parent, None);
    assert_eq!(tree[0].children, vec!["a1".to_string(), "a2".to_string()]);
    assert_eq!(tree[1].parent, Some("u1".to_string()));
}

#[test]
fn update_message_changes_text_only() {
    let mut chat = branching_chat();
    chat.update_message("a1", "edited").unwrap();
    let m = chat.messages_manager.get("a1").unwrap();
    assert_eq!(m.text, "edited");
    assert_eq!(m.sender, wisp::messages::MessageRole::Assistant);
    chat.update_message("missing", "x").unwrap();
}

#[test]
fn list_conversations_in_creation_order() {
    let mut chat = new_chat();
    chat.create_conversation("b", "B", "d").unwrap();
    chat.create_conversation("a", "A", "d").unwrap();
    let list = chat.list_conversations().unwrap();
    let ids: Vec<String> = list.iter().map(|c| c.id.clone()).collect();
    assert_eq!(ids, vec!["b", "a"]);
    assert_eq!(list[0].description.as_deref(), Some("d"));
}

#[test]
fn delete_conversation_removes_its_thread() {
    let mut chat = branching_chat();
    chat.create_conversation("c2", "Other", "d").unwrap();
    add(&mut chat, "c2", "x1", "other", "user", None);
    chat.delete_conversation("c1").unwrap();
    let ids: Vec<String> = chat.list_conversations().unwrap().into_iter().map(|c| c.id).collect();
    assert_eq!(ids, vec!["c2"]);
    assert!(chat.messages_manager.get("u1").is_err());
    assert!(chat.messages_manager.get("u2").is_err());
    assert!(chat.messages_manager.get("x1").is_ok());
}

#[test]
fn delete_message_relinks_answers_to_parent() {
    let mut chat = branching_chat();
    let parent = chat.delete_message("a2", false).unwrap();
    assert_eq!(parent, Some("u1".to_string()));
    assert_eq!(chat.thread_manager.get_parent("u2").unwrap(), Some("u1".to_string()));
    let ids: Vec<String> = chat.get_message_path_to("c1", "u2").unwrap().into_iter().map(|m| m.id).collect();
    assert_eq!(ids, vec!["u1", "u2"]);
}

#[test]
fn delete_root_with_several_answers_is_refused() {
    let mut chat = branching_chat();
    match chat.delete_message("u1", false) {
        Err(ChatError::Conversation(ConversationError::InvalidOperation(m))) => {
            assert_eq!(m, "Cannot delete root message with children");
        }
        other => panic!("unexpected {:?}", other),
    }
}

#[test]
fn delete_root_with_one_answer_hands_over_the_thread() {
    let mut chat = new_chat();
    chat.create_conversation("c1", "C", "d").unwrap();
    add(&mut chat, "c1", "u1", "root", "user", None);
    add(&mut chat, "c1", "a1", "answer", "assistant", Some("u1"));
    assert_eq!(chat.delete_message("u1", false).unwrap(), None);
    let list = chat.list_conversations().unwrap();
    assert_eq!(list[0].entry_message_id.as_deref(), Some("a1"));
}

#[test]
fn delete_message_recursively_removes_the_branch() {
    let mut chat = branching_chat();
    assert_eq!(chat.delete_message("a2", true).unwrap(), None);
    assert!(chat.messages_manager.get("a2").is_err());
    assert!(chat.messages_manager.get("u2").is_err());
    let ids: Vec<String> = chat.get_all_message_involved("c1").unwrap().into_iter().map(|m| m.id).collect();
    assert_eq!(ids, vec!["u1", "a1"]);
}

#[test]
fn delete_root_recursively_empties_the_thread() {
    let mut chat = branching_chat();
    assert_eq!(chat.delete_message("u1", true).unwrap(), None);
    assert!(chat.get_all_message_involved("c1").unwrap().is_empty());
    assert_eq!(chat.get_default_leaf("c1").unwrap(), None);
}

#[test]
fn reply_path_extends_parent_path() {
    let mut chat = branching_chat();
    add(&mut chat, "c1", "a3", "reply", "assistant", Some("u2"));
    let ids: Vec<String> = chat.get_message_path_to("c1", "a3").unwrap().into_iter().map(|m| m.id).collect();
    assert_eq!(ids, vec!["u1", "a2", "u2", "a3"]);
}

#[test]
fn conversations_can_be_renamed_and_described() {
    let mut chat = new_chat();
    chat.create_conversation("c1", "Old", "d").unwrap();
    chat.conversation_manager.update_name("c1", "New").unwrap();
    chat.conversation_manager.update_description("c1", "about").unwrap();
    chat.conversation_manager.update_name("missing", "x").unwrap();
    let c = chat.conversation_manager.get("c1").unwrap();
    assert_eq!(c.name, "New");
    assert_eq!(c.description.as_deref(), Some("about"));
}

#[test]
fn entry_can_be_moved_by_hand() {
    let mut chat = branching_chat();
    chat.conversation_manager.update_entry_message_id("c1", Some("a2")).unwrap();
    let ids: Vec<String> = chat.get_message_path_to("c1", "u2").unwrap().into_iter().map(|m| m.id).collect();
    assert_eq!(ids, vec!["a2", "u2"]);
}
