use orchd::conversation::{
    Conversation, ConversationError, ConversationMessage, ConversationStore, MessageRole, ToolCall, ToolResult,
};
use orchd::json::JsonValue;
use orchd::str_map::{KeyMap, StrMap};

const NOW: i64 = 1_700_000_000_000_000_000;
const DAY: i64 = 86_400_000_000_000;

fn mk_message(role: MessageRole, content: &str, tokens: Option<u64>) -> ConversationMessage {
    ConversationMessage {
        id: "msg-1".to_string(),
        role,
        content: content.to_string(),
        timestamp: NOW,
        model: Some("codex".to_string()),
        tokens,
        tool_calls: Vec::new(),
        tool_results: Vec::new(),
        metadata: StrMap::new(),
    }
}

fn mk_tool_call(name: &str) -> ToolCall {
    ToolCall { id: "tool-1".to_string(), name: name.to_string(), arguments: JsonValue::Null, timestamp: NOW }
}

fn mk_tool_result(tool_call_id: &str, is_error: bool) -> ToolResult {
    ToolResult {
        tool_call_id: tool_call_id.to_string(),
        content: if is_error {
            "permission denied".to_string()
        } else {
            "ok".to_string()
        },
        is_error,
        duration_ms: 42,
    }
}

#[test]
fn tool_result_creation_round_trip_fields() {
    let result = mk_tool_result("tool-1", true);

    assert_eq!(result.tool_call_id, "tool-1");
    assert!(result.is_error);
    assert_eq!(result.duration_ms, 42);
}

#[test]
fn conversation_error_display_impls_are_readable() {
    let not_found = ConversationError::NotFound("C-1".to_string()).to_string();
    let exists = ConversationError::AlreadyExists("C-2".to_string()).to_string();
    let serialization =
        ConversationError::SerializationError("bad json writer".to_string()).to_string();
    let import = ConversationError::ImportError("missing field".to_string()).to_string();

    assert!(not_found.contains("conversation not found"));
    assert!(exists.contains("already exists"));
    assert!(serialization.contains("serialization error"));
    assert!(import.contains("import error"));
    assert_eq!(not_found, "conversation not found: C-1");
    assert_eq!(exists, "conversation already exists: C-2");
}

#[test]
fn message_roles_are_distinct() {
    assert_ne!(MessageRole::User, MessageRole::Assistant);
    assert_ne!(MessageRole::System, MessageRole::Tool);
}


#[test]
fn conversation_message_creation_supports_all_roles() {
    assert_eq!(mk_message(MessageRole::System, "You are helpful", None).role, MessageRole::System);
    assert_eq!(mk_message(MessageRole::User, "Please refactor", Some(13)).role, MessageRole::User);
    assert_eq!(mk_message(MessageRole::Assistant, "Sure", Some(21)).role, MessageRole::Assistant);
    assert_eq!(mk_message(MessageRole::Tool, "Tool output", None).role, MessageRole::Tool);
}

#[test]
fn tool_call_creation_round_trip_fields() {
    let call = mk_tool_call("read_file");
    assert!(call.id.starts_with("tool-"));
    assert_eq!(call.name, "read_file");
}

#[test]
fn create_conversation_and_add_message_updates_tokens() {
    let mut store = ConversationStore::new();
    let conversation_id = store.create_conversation("T-100", Some("S-100"), "conv-1", NOW);
    store.add_message(&conversation_id, mk_message(MessageRole::Assistant, "Generated patch", Some(77)), NOW + 1).expect("add message should succeed");
    let conversation = store.get_conversation(&conversation_id).expect("conversation exists");
    assert_eq!(conversation.task_id, "T-100");
    assert_eq!(conversation.session_id.as_deref(), Some("S-100"));
    assert_eq!(conversation.messages.len(), 1);
    assert_eq!(conversation.total_tokens, 77);
    assert_eq!(conversation.model_usage.get("codex"), Some(&77));
    assert_eq!(conversation.updated_at, NOW + 1);
    assert_eq!(conversation.created_at, NOW);
}

#[test]
fn add_message_returns_not_found_for_unknown_conversation() {
    let mut store = ConversationStore::new();
    let result = store.add_message("missing", mk_message(MessageRole::User, "x", Some(1)), NOW);
    assert!(matches!(result, Err(ConversationError::NotFound(_))));
}

#[test]
fn tokens_saturate() {
    let mut store = ConversationStore::new();
    let id = store.create_conversation("T", None, "c", NOW);
    store.add_message(&id, mk_message(MessageRole::User, "a", Some(u64::MAX - 1)), NOW).unwrap();
    store.add_message(&id, mk_message(MessageRole::User, "b", Some(5)), NOW).unwrap();
    store.add_message(&id, mk_message(MessageRole::User, "c", None), NOW).unwrap();
    assert_eq!(store.total_tokens(&id), u64::MAX);
    assert_eq!(store.get_conversation(&id).unwrap().model_usage.get("codex"), Some(&u64::MAX));
    assert_eq!(store.get_conversation(&id).unwrap().messages.len(), 3);
}

#[test]
fn get_task_conversations_returns_only_matching_task() {
    let mut store = ConversationStore::new();
    let c1 = store.create_conversation("T-a", None, "c1", NOW);
    let c2 = store.create_conversation("T-a", None, "c2", NOW);
    let _ = store.create_conversation("T-b", None, "c3", NOW);
    let task_conversations = store.get_task_conversations("T-a");
    assert_eq!(task_conversations.len(), 2);
    assert_eq!(task_conversations[0].id, c1);
    assert_eq!(task_conversations[1].id, c2);
}

#[test]
fn get_messages_respects_limit_and_offset() {
    let mut store = ConversationStore::new();
    let id = store.create_conversation("T-limit", None, "c", NOW);
    for idx in 0..5 {
        store.add_message(&id, mk_message(MessageRole::User, &format!("message-{idx}"), Some(1)), NOW).expect("add message");
    }
    let page = store.get_messages(&id, Some(2), Some(1));
    assert_eq!(page.len(), 2);
    assert_eq!(page[0].content, "message-1");
    assert_eq!(page[1].content, "message-2");
    assert_eq!(store.get_messages(&id, None, None).len(), 5);
    assert_eq!(store.get_messages(&id, Some(usize::MAX), Some(3)).len(), 2);
}

#[test]
fn get_messages_handles_out_of_range_offset() {
    let mut store = ConversationStore::new();
    let id = store.create_conversation("T-offset", None, "c", NOW);
    store.add_message(&id, mk_message(MessageRole::User, "single-message", Some(1)), NOW).expect("add message");
    assert!(store.get_messages(&id, Some(3), Some(9)).is_empty());
    assert!(store.get_messages("missing", None, None).is_empty());
}

#[test]
fn get_last_n_messages_returns_recent_items() {
    let mut store = ConversationStore::new();
    let id = store.create_conversation("T-last", None, "c", NOW);
    for idx in 0..4 {
        store.add_message(&id, mk_message(MessageRole::Assistant, &format!("item-{idx}"), Some(2)), NOW).expect("add message");
    }
    let last = store.get_last_n_messages(&id, 2);
    assert_eq!(last.len(), 2);
    assert_eq!(last[0].content, "item-2");
    assert_eq!(last[1].content, "item-3");
    assert_eq!(store.get_last_n_messages(&id, 10).len(), 4);
    assert!(store.get_last_n_messages(&id, 0).is_empty());
}

#[test]
fn search_messages_finds_matches_across_conversations() {
    let mut store = ConversationStore::new();
    let c1 = store.create_conversation("T-s1", None, "c1", NOW);
    let c2 = store.create_conversation("T-s2", None, "c2", NOW);
    store.add_message(&c1, mk_message(MessageRole::Assistant, "Refactor parser module", Some(11)), NOW).expect("add c1 message");
    store.add_message(&c2, mk_message(MessageRole::User, "parser crash", Some(4)), NOW).expect("add c2 message");
    let matches = store.search_messages("parser");
    assert_eq!(matches.len(), 2);
    assert_eq!(store.search_messages("  PARSER ").len(), 2);
    assert_eq!(store.search_messages("crash")[0].0.id, "c2");
}

#[test]
fn search_messages_returns_empty_for_blank_query() {
    let mut store = ConversationStore::new();
    let c1 = store.create_conversation("T-empty", None, "c1", NOW);
    store.add_message(&c1, mk_message(MessageRole::User, "content", Some(1)), NOW).expect("add message");
    assert!(store.search_messages("   ").is_empty());
}

#[test]
fn total_tokens_returns_zero_for_missing_conversation() {
    let store = ConversationStore::new();
    assert_eq!(store.total_tokens("missing"), 0);
}

#[test]
fn import_conversation_rejects_duplicate_id() {
    let mut store = ConversationStore::new();
    let id = store.create_conversation("T-dupe", None, "c-dupe", NOW);
    assert!(store.export_target(&id).is_ok());
    let copy = Conversation {
        id: id.clone(),
        task_id: "T-dupe".to_string(),
        session_id: None,
        messages: vec![],
        created_at: NOW,
        updated_at: NOW,
        total_tokens: 0,
        model_usage: KeyMap::new(),
    };
    let result = store.insert_imported(copy);
    assert!(matches!(result, Err(ConversationError::AlreadyExists(_))));
    assert!(matches!(store.export_target("nope"), Err(ConversationError::NotFound(_))));
}

#[test]
fn imported_conversations_join_their_task() {
    let mut store = ConversationStore::new();
    let c = Conversation {
        id: "imp".to_string(),
        task_id: "T".to_string(),
        session_id: Some("S".to_string()),
        messages: vec![mk_message(MessageRole::User, "hi", Some(3))],
        created_at: NOW,
        updated_at: NOW,
        total_tokens: 3,
        model_usage: KeyMap::new(),
    };
    assert_eq!(store.insert_imported(c), Ok("imp".to_string()));
    assert_eq!(store.get_task_conversations("T")[0].messages[0].content, "hi");
}

#[test]
fn delete_conversation_removes_from_store_and_task_index() {
    let mut store = ConversationStore::new();
    let id = store.create_conversation("T-delete", None, "c", NOW);
    store.delete_conversation(&id).expect("delete should succeed");
    assert!(store.get_conversation(&id).is_none());
    assert!(store.get_task_conversations("T-delete").is_empty());
    assert!(!store.task_index.contains_key("T-delete"));
}

#[test]
fn delete_conversation_returns_error_when_missing() {
    let mut store = ConversationStore::new();
    assert!(matches!(store.delete_conversation("missing"), Err(ConversationError::NotFound(_))));
}

#[test]
fn prune_old_conversations_deletes_stale_entries() {
    let mut store = ConversationStore::new();
    let old_id = store.create_conversation("T-old", None, "old", NOW - 40 * DAY);
    let new_id = store.create_conversation("T-new", None, "new", NOW - DAY);
    let removed = store.prune_old_conversations(30, NOW);
    assert_eq!(removed, 1);
    assert!(store.get_conversation(&old_id).is_none());
    assert!(store.get_conversation(&new_id).is_some());
}

#[test]
fn prune_old_conversations_handles_large_age_without_panic() {
    let mut store = ConversationStore::new();
    let id = store.create_conversation("T-large", None, "c", NOW);
    assert_eq!(store.prune_old_conversations(u64::MAX, NOW), 0);
    assert!(store.get_conversation(&id).is_some());
}
