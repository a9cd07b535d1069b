use orchd::chat_workspace::{branch_name_for_task, sanitize_branch_component};

#[test]
fn branch_name_uses_task_prefix() {
    assert_eq!(branch_name_for_task("chat-123"), "task/chat-123");
}

#[test]
fn branch_name_sanitizes_invalid_characters() {
    assert_eq!(branch_name_for_task("chat with spaces/#42"), "task/chat-with-spaces--42");
}

#[test]
fn branch_name_falls_back_when_empty_after_sanitize() {
    assert_eq!(branch_name_for_task("..."), "task/chat");
}

#[test]
fn sanitize_trims_dashes_and_dots_at_both_ends() {
    assert_eq!(sanitize_branch_component("-.a.b-."), "a.b");
    assert_eq!(sanitize_branch_component("é"), "chat");
    assert_eq!(sanitize_branch_component("x_y"), "x_y");
}
