use orchd::agent_log::{agent_log_dir, agent_log_path, tail_lines};

#[test]
fn tail_returns_last_n_lines() {
    let content = "line1\nline2\nline3\nline4\n";
    assert_eq!(tail_lines(content, 2), vec!["line3".to_string(), "line4".to_string()]);
}

#[test]
fn tail_of_short_log_is_all_of_it() {
    assert_eq!(tail_lines("a\r\nb", 5), vec!["a".to_string(), "b".to_string()]);
    assert!(tail_lines("", 3).is_empty());
    assert!(tail_lines("x\n", 0).is_empty());
}

#[test]
fn log_locations() {
    assert_eq!(agent_log_dir("/repo", "task-append"), "/repo/.othala/agent-output/task-append");
    assert_eq!(agent_log_path("/repo/", "T1"), "/repo/.othala/agent-output/T1/latest.log");
}
