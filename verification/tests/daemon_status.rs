use orchd::daemon_status::{
    format_uptime, max_health_status, DaemonHealth, HealthStatus, SystemInfo, TaskSummary,
};

fn sample_info() -> SystemInfo {
    SystemInfo {
        os: "linux".to_string(),
        arch: "x86_64".to_string(),
        rust_version: "rustc 1.80.0".to_string(),
        nix_available: false,
        graphite_available: true,
        git_version: None,
    }
}

fn sample_health() -> DaemonHealth {
    DaemonHealth::new(
        "0.1.0".to_string(),
        4242,
        "2024-01-02T03:04:05+00:00".to_string(),
        sample_info(),
    )
}

#[test]
fn daemon_health_new_sets_expected_defaults() {
    let health = sample_health();
    assert_eq!(health.status, HealthStatus::Healthy);
    assert_eq!(health.uptime_secs, 0);
    assert!(!health.version.is_empty());
    assert!(health.pid > 0);
}

#[test]
fn format_uptime_seconds_only() {
    assert_eq!(format_uptime(45), "45s");
}

#[test]
fn format_uptime_minutes_and_seconds() {
    assert_eq!(format_uptime(125), "2m 5s");
}

#[test]
fn format_uptime_hours_and_minutes() {
    assert_eq!(format_uptime(7_505), "2h 5m");
}

#[test]
fn format_uptime_days_hours_and_minutes() {
    assert_eq!(format_uptime(184_500), "2d 3h 15m");
}

#[test]
fn format_uptime_zero_and_exact_units() {
    assert_eq!(format_uptime(0), "0s");
    assert_eq!(format_uptime(60), "1m 0s");
    assert_eq!(format_uptime(3_600), "1h 0m");
    assert_eq!(format_uptime(86_400), "1d 0h 0m");
}

#[test]
fn task_summary_from_counts_maps_known_states() {
    let states = vec![
        ("chatting".to_string(), 1),
        ("ready".to_string(), 2),
        ("submitting".to_string(), 3),
        ("awaiting_merge".to_string(), 4),
        ("merged".to_string(), 5),
        ("stopped".to_string(), 6),
    ];

    let summary = TaskSummary::from_counts(&states);
    assert_eq!(summary.total, 21);
    assert_eq!(summary.chatting, 1);
    assert_eq!(summary.ready, 2);
    assert_eq!(summary.submitting, 3);
    assert_eq!(summary.awaiting_merge, 4);
    assert_eq!(summary.merged, 5);
    assert_eq!(summary.stopped, 6);
}

#[test]
fn task_summary_from_counts_includes_unknown_in_total() {
    let states = vec![("queued".to_string(), 7)];
    let summary = TaskSummary::from_counts(&states);
    assert_eq!(summary.total, 7);
    assert_eq!(summary.chatting, 0);
    assert_eq!(summary.ready, 0);
}

#[test]
fn task_summary_repeated_state_keeps_last_count() {
    let states = vec![("ready".to_string(), 2), ("ready".to_string(), 5)];
    let summary = TaskSummary::from_counts(&states);
    assert_eq!(summary.total, 7);
    assert_eq!(summary.ready, 5);
}

#[test]
fn check_health_is_unhealthy_when_no_healthy_models() {
    let mut health = sample_health();
    health.model_summary.enabled_models = vec!["codex".to_string()];
    health.model_summary.healthy_models = Vec::new();
    assert_eq!(health.check_health(), HealthStatus::Unhealthy);
}

#[test]
fn check_health_is_degraded_when_some_models_are_not_healthy() {
    let mut health = sample_health();
    health.model_summary.enabled_models = vec!["codex".to_string(), "gemini".to_string()];
    health.model_summary.healthy_models = vec!["codex".to_string()];
    assert_eq!(health.check_health(), HealthStatus::Degraded);
}

#[test]
fn check_health_honors_explicit_unhealthy_status() {
    let mut health = sample_health();
    health.status = HealthStatus::Unhealthy;
    health.model_summary.enabled_models = vec!["codex".to_string()];
    health.model_summary.healthy_models = vec!["codex".to_string()];
    assert_eq!(health.check_health(), HealthStatus::Unhealthy);
}

#[test]
fn check_health_degraded_by_cooldown() {
    let mut health = sample_health();
    health.model_summary.enabled_models = vec!["codex".to_string()];
    health.model_summary.healthy_models = vec!["codex".to_string()];
    health.model_summary.cooldown_models = vec!["codex".to_string()];
    assert_eq!(health.check_health(), HealthStatus::Degraded);
}

#[test]
fn max_health_status_prefers_worse() {
    assert_eq!(max_health_status(&HealthStatus::Healthy, &HealthStatus::Degraded), HealthStatus::Degraded);
    assert_eq!(max_health_status(&HealthStatus::Unhealthy, &HealthStatus::Degraded), HealthStatus::Unhealthy);
    assert_eq!(max_health_status(&HealthStatus::Healthy, &HealthStatus::Healthy), HealthStatus::Healthy);
}

#[test]
fn display_compact_includes_core_fields() {
    let mut health = sample_health();
    health.task_summary.total = 5;
    health.task_summary.ready = 2;
    health.model_summary.enabled_models = vec!["codex".to_string()];
    health.model_summary.healthy_models = vec!["codex".to_string()];

    let output = health.display_compact();
    assert!(output.contains("status=healthy"));
    assert!(output.contains("tasks=2/5"));
    assert!(output.contains("models=1/1"));
    assert_eq!(
        output,
        "status=healthy uptime=0s pid=4242 version=0.1.0 tasks=2/5 models=1/1"
    );
}

#[test]
fn display_full_includes_sections() {
    let health = sample_health();
    let output = health.display_full();

    assert!(output.contains("Daemon Health"));
    assert!(output.contains("Task Summary"));
    assert!(output.contains("Model Summary"));
    assert!(output.contains("System Info"));
    assert!(output.contains("Started At: 2024-01-02T03:04:05+00:00"));
    assert!(output.contains("Graphite Available: true"));
    assert!(output.ends_with("Git Version: unknown"));
}

#[test]
fn task_summary_takes_each_listed_state_once() {
    let s = |n: &str, c: usize| (n.to_string(), c);
    let r = TaskSummary::from_counts(&[s("merged", 5), s("queued", 7), s("ready", 2)]);
    assert_eq!(r.total, 14);
    assert_eq!(r.merged, 5);
    assert_eq!(r.ready, 2);
    assert_eq!(r.chatting, 0);
    assert_eq!(r.stopped, 0);
}
