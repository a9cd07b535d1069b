use orchd::auto_compact::{build_compaction_prompt, estimate_tokens, TokenTracker};

#[test]
fn token_tracking_record_usage() {
    let mut tracker: TokenTracker<u64> = TokenTracker::new();
    tracker.record_usage(120, 30);
    tracker.record_usage(20, 10);

    assert_eq!(tracker.input_tokens, 140);
    assert_eq!(tracker.output_tokens, 40);
    assert_eq!(tracker.total_tokens, 180);
    assert_eq!(tracker.message_count, 2);
}

#[test]
fn record_compaction_resets_counters() {
    let mut tracker = TokenTracker::new();
    tracker.record_usage(1_000, 250);
    tracker.record_compaction(chrono::Utc::now(), 300, 4, 80);

    assert_eq!(tracker.total_tokens, 300);
    assert_eq!(tracker.input_tokens, 300);
    assert_eq!(tracker.output_tokens, 0);
    assert_eq!(tracker.message_count, 1);
    assert_eq!(tracker.compaction_history.len(), 1);
    assert_eq!(tracker.compaction_history[0].tokens_before, 1_250);
    assert_eq!(tracker.compaction_history[0].tokens_after, 300);
    assert_eq!(tracker.compaction_history[0].messages_compacted, 4);
    assert_eq!(tracker.compaction_history[0].summary_length, 80);
}

#[test]
fn estimate_tokens_rough_accuracy() {
    assert_eq!(estimate_tokens(""), 0);
    assert_eq!(estimate_tokens("a"), 1);
    assert_eq!(estimate_tokens("abcd"), 1);
    assert_eq!(estimate_tokens("abcde"), 2);
}

#[test]
fn estimate_tokens_counts_bytes() {
    // "é" is two bytes in UTF-8.
    assert_eq!(estimate_tokens("éé"), 1);
    assert_eq!(estimate_tokens("ééé"), 2);
}

#[test]
fn build_compaction_prompt_format() {
    let messages = vec!["hello".to_string(), "world".to_string()];
    let prompt = build_compaction_prompt(&messages);

    assert!(prompt.contains("Summarize the following conversation concisely"));
    assert!(prompt.contains("[Message 1] hello"));
    assert!(prompt.contains("[Message 2] world"));
    assert!(prompt.ends_with("Conversation:\n[Message 1] hello\n[Message 2] world\n"));
}

#[test]
fn build_compaction_prompt_empty() {
    let prompt = build_compaction_prompt(&[]);
    assert!(prompt.ends_with("- Any unresolved issues\n\nConversation:\n"));
}
