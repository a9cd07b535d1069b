use orchd::event_log::JsonlEventLog;

#[test]
fn layout_paths_under_root() {
    let log = JsonlEventLog::new("/var/log/othala");
    assert_eq!(log.root, "/var/log/othala");
    assert_eq!(log.global_log_path(), "/var/log/othala/global.jsonl");
    assert_eq!(log.task_dir, "/var/log/othala/tasks");
    assert_eq!(log.task_log_path("T-1"), "/var/log/othala/tasks/T-1.jsonl");
}

#[test]
fn layout_paths_match_path_join() {
    for root in ["events", "events/", ""] {
        let log = JsonlEventLog::new(root);
        let expected = std::path::Path::new(root).join("global.jsonl");
        assert_eq!(log.global_log_path(), expected.to_str().unwrap());
        let task = std::path::Path::new(root).join("tasks").join("abc.jsonl");
        assert_eq!(log.task_log_path("abc"), task.to_str().unwrap());
    }
}
