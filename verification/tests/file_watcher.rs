use orchd::file_watcher::{simple_glob_match, ChangeKind, FileSnapshot, FileWatcher, WatcherConfig};

const T0: u128 = 1_700_000_000_000_000_000;

fn snap(modified: u128, size: u64) -> Option<FileSnapshot> {
    Some(FileSnapshot { modified, size })
}

fn test_config() -> WatcherConfig {
    WatcherConfig {
        debounce_ms: 0,
        include_patterns: vec!["**/*.rs".to_string(), "**/*.toml".to_string()],
        ignore_patterns: vec!["**/target/**".to_string()],
        max_files: 10_000,
        enabled: true,
    }
}

#[test]
fn file_watcher_default_config_values() {
    let cfg = WatcherConfig::default();
    assert_eq!(cfg.debounce_ms, 300);
    assert!(cfg.enabled);
    assert_eq!(cfg.max_files, 10_000);
    assert!(cfg.include_patterns.iter().any(|p| p == "**/*.rs"));
    assert!(cfg.ignore_patterns.iter().any(|p| p == "**/.git/**"));
}

#[test]
fn simple_glob_match_star_pattern() {
    assert!(simple_glob_match("*.rs", "main.rs"));
    assert!(!simple_glob_match("*.rs", "main.ts"));
}

#[test]
fn simple_glob_match_double_star_pattern() {
    assert!(simple_glob_match("**/*.rs", "src/main.rs"));
    assert!(simple_glob_match("**/*.rs", "main.rs"));
    assert!(!simple_glob_match("**/*.rs", "src/main.ts"));
}

#[test]
fn simple_glob_match_question_pattern() {
    assert!(simple_glob_match("file?.txt", "file1.txt"));
    assert!(simple_glob_match("file?.txt", "fileA.txt"));
    assert!(!simple_glob_match("file?.txt", "file10.txt"));
}

#[test]
fn simple_glob_match_directory_patterns() {
    assert!(simple_glob_match("**/target/**", "target"));
    assert!(simple_glob_match("**/target/**", "target/debug/app"));
    assert!(simple_glob_match("**/target/**", "crates/x/target/debug"));
    assert!(!simple_glob_match("**/target/**", "src/targets.rs"));
    assert!(simple_glob_match("src/**", "src/a/b.rs"));
    assert!(simple_glob_match("**", "anything/at/all"));
    assert!(simple_glob_match("docs/**/*.md", "docs/a/b.md"));
}

#[test]
fn should_ignore_matching() {
    let watcher = FileWatcher::new("/tmp".to_string(), test_config());
    assert!(watcher.should_ignore("target/debug/app"));
    assert!(!watcher.should_ignore("src/main.rs"));
}

#[test]
fn matches_include_matching() {
    let watcher = FileWatcher::new("/tmp".to_string(), test_config());
    assert!(watcher.matches_include("src/main.rs"));
    assert!(watcher.matches_include("Cargo.toml"));
    assert!(!watcher.matches_include("README.md"));
}

#[test]
fn change_kind_display() {
    assert_eq!(ChangeKind::Created.to_string(), "created");
    assert_eq!(ChangeKind::Modified.to_string(), "modified");
    assert_eq!(ChangeKind::Deleted.to_string(), "deleted");
}

#[test]
fn status_summary_format() {
    let watcher = FileWatcher::new("/tmp/x".to_string(), test_config());
    let summary = watcher.status_summary();
    assert!(summary.contains("Watching 0 files"));
    assert!(summary.contains("debounce: 0ms"));
    assert!(summary.contains("buffer:"));
    assert_eq!(summary, "Watching 0 files (debounce: 0ms, buffer: 0, pending: 0, not_scanned)");
}


#[test]
fn initial_scan_creates_snapshots() {
    let mut watcher = FileWatcher::new("/repo".to_string(), test_config());
    let count = watcher.initial_scan(&vec![("/repo/src/main.rs".to_string(), snap(T0, 13)), ("/repo/src/x.rs".to_string(), None)], T0);
    assert_eq!(count, 1);
    assert_eq!(watcher.tracked_file_count(), 1);
    assert_eq!(watcher.last_scan, Some(T0));
}

#[test]
fn poll_detects_new_file() {
    let mut watcher = FileWatcher::new("/repo".to_string(), test_config());
    watcher.initial_scan(&vec![], T0);
    let events = watcher.poll(&vec![("/repo/src/new.rs".to_string(), snap(T0 + 5, 14))], T0 + 10);
    assert_eq!(events.len(), 1);
    assert_eq!(events[0].path, "/repo/src/new.rs");
    assert_eq!(events[0].kind, ChangeKind::Created);
    assert_eq!(events[0].timestamp, T0 + 10);
}

#[test]
fn poll_detects_modified_file() {
    let mut watcher = FileWatcher::new("/repo".to_string(), test_config());
    watcher.initial_scan(&vec![("/repo/src/mod.rs".to_string(), snap(T0, 14))], T0);
    let events = watcher.poll(&vec![("/repo/src/mod.rs".to_string(), snap(T0 + 20_000_000, 30))], T0 + 30_000_000);
    assert_eq!(events.len(), 1);
    assert_eq!(events[0].path, "/repo/src/mod.rs");
    assert_eq!(events[0].kind, ChangeKind::Modified);
    assert!(watcher.poll(&vec![("/repo/src/mod.rs".to_string(), snap(T0 + 20_000_000, 30))], T0 + 40_000_000).is_empty());
}

#[test]
fn poll_detects_deleted_file() {
    let mut watcher = FileWatcher::new("/repo".to_string(), test_config());
    watcher.initial_scan(&vec![("/repo/src/gone.rs".to_string(), snap(T0, 16))], T0);
    let events = watcher.poll(&vec![], T0 + 1);
    assert_eq!(events.len(), 1);
    assert_eq!(events[0].path, "/repo/src/gone.rs");
    assert_eq!(events[0].kind, ChangeKind::Deleted);
    assert_eq!(watcher.tracked_file_count(), 0);
}

#[test]
fn debounce_holds_changes_until_due() {
    let mut cfg = test_config();
    cfg.debounce_ms = 300;
    let mut watcher = FileWatcher::new("/repo".to_string(), cfg);
    watcher.initial_scan(&vec![], T0);
    let first = watcher.poll(&vec![("/repo/a.rs".to_string(), snap(T0, 1))], T0);
    assert!(first.is_empty());
    assert_eq!(watcher.debounce_buffer.len(), 1);
    let later = watcher.poll(&vec![("/repo/a.rs".to_string(), snap(T0, 1))], T0 + 300_000_000);
    assert_eq!(later.len(), 1);
    assert_eq!(later[0].kind, ChangeKind::Created);
    assert_eq!(watcher.pending_events.len(), 1);
    assert_eq!(watcher.debounce_buffer.len(), 0);
}

#[test]
fn disabled_watcher_reports_nothing() {
    let mut cfg = test_config();
    cfg.enabled = false;
    let mut watcher = FileWatcher::new("/repo".to_string(), cfg);
    assert!(watcher.poll(&vec![("/repo/a.rs".to_string(), snap(T0, 1))], T0).is_empty());
    assert_eq!(watcher.tracked_file_count(), 0);
}
