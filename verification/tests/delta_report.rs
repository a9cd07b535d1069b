use orchd::delta_report::{
    apply_suppression, build_delta_report, compute_delta, render_delta_report, should_emit,
    DeltaChange, DeltaReport, DeltaReporter, DeltaSummary, ModelHealthState, SuppressionPolicy,
    SystemSnapshot,
};

const SEC: i64 = 1_000_000_000;

fn make_snapshot(tasks: &[(&str, &str)]) -> SystemSnapshot {
    let mut s = SystemSnapshot::empty(0);
    for (id, state) in tasks {
        s.task_states.insert(id.to_string(), state.to_string());
    }
    s
}

#[test]
fn no_changes_yields_empty_delta() {
    let a = make_snapshot(&[("T1", "chatting"), ("T2", "ready")]);
    let b = make_snapshot(&[("T1", "chatting"), ("T2", "ready")]);

    let changes = compute_delta(&a, &b);
    assert!(changes.is_empty());
}

#[test]
fn task_state_change_detected() {
    let a = make_snapshot(&[("T1", "chatting")]);
    let b = make_snapshot(&[("T1", "ready")]);

    let changes = compute_delta(&a, &b);
    assert_eq!(changes.len(), 1);
    assert!(matches!(
        &changes[0],
        DeltaChange::TaskStateChanged { task_id, from, to }
            if task_id == "T1" && from == "chatting" && to == "ready"
    ));
}

#[test]
fn task_added_detected() {
    let a = make_snapshot(&[("T1", "chatting")]);
    let b = make_snapshot(&[("T1", "chatting"), ("T2", "ready")]);

    let changes = compute_delta(&a, &b);
    assert_eq!(changes.len(), 1);
    assert!(matches!(
        &changes[0],
        DeltaChange::TaskAdded { task_id, state } if task_id == "T2" && state == "ready"
    ));
}

#[test]
fn task_removed_detected() {
    let a = make_snapshot(&[("T1", "chatting"), ("T2", "ready")]);
    let b = make_snapshot(&[("T1", "chatting")]);

    let changes = compute_delta(&a, &b);
    assert_eq!(changes.len(), 1);
    assert!(matches!(
        &changes[0],
        DeltaChange::TaskRemoved { task_id, last_state } if task_id == "T2" && last_state == "ready"
    ));
}

#[test]
fn model_health_change_detected() {
    let mut a = SystemSnapshot::empty(0);
    a.model_health.insert("codex".to_string(), ModelHealthState::Healthy);
    let mut b = SystemSnapshot::empty(0);
    b.model_health.insert("codex".to_string(), ModelHealthState::Cooldown);

    let changes = compute_delta(&a, &b);
    assert_eq!(changes.len(), 1);
    assert!(matches!(
        &changes[0],
        DeltaChange::ModelHealthChanged { model, from, to }
            if model == "codex"
                && *from == ModelHealthState::Healthy
                && *to == ModelHealthState::Cooldown
    ));
}

#[test]
fn context_gen_status_change_detected() {
    let mut a = SystemSnapshot::empty(0);
    a.context_gen_status = "idle".to_string();
    let mut b = SystemSnapshot::empty(0);
    b.context_gen_status = "running".to_string();

    let changes = compute_delta(&a, &b);
    assert_eq!(changes.len(), 1);
    assert!(matches!(
        &changes[0],
        DeltaChange::ContextGenStatusChanged { from, to } if from == "idle" && to == "running"
    ));
}

#[test]
fn merge_count_delta() {
    let mut a = SystemSnapshot::empty(0);
    a.merge_count = 2;
    let mut b = SystemSnapshot::empty(0);
    b.merge_count = 5;

    let changes = compute_delta(&a, &b);
    assert_eq!(changes.len(), 1);
    assert!(matches!(&changes[0], DeltaChange::NewMerges { count } if *count == 3));
}

#[test]
fn stop_count_delta() {
    let mut a = SystemSnapshot::empty(0);
    a.stop_count = 1;
    let mut b = SystemSnapshot::empty(0);
    b.stop_count = 3;

    let changes = compute_delta(&a, &b);
    assert_eq!(changes.len(), 1);
    assert!(matches!(&changes[0], DeltaChange::NewStops { count } if *count == 2));
}

#[test]
fn pipeline_started_and_completed() {
    let mut a = SystemSnapshot::empty(0);
    a.active_pipelines = vec!["T1".to_string()];
    let mut b = SystemSnapshot::empty(0);
    b.active_pipelines = vec!["T2".to_string()];

    let changes = compute_delta(&a, &b);
    assert_eq!(changes.len(), 2);
    let has_started = changes
        .iter()
        .any(|c| matches!(c, DeltaChange::PipelineStarted { task_id } if task_id == "T2"));
    let has_completed = changes
        .iter()
        .any(|c| matches!(c, DeltaChange::PipelineCompleted { task_id } if task_id == "T1"));
    assert!(has_started);
    assert!(has_completed);
}

#[test]
fn duplicate_pipelines_reported_once() {
    let a = SystemSnapshot::empty(0);
    let mut b = SystemSnapshot::empty(0);
    b.active_pipelines = vec!["T1".to_string(), "T1".to_string()];
    let changes = compute_delta(&a, &b);
    assert_eq!(changes.len(), 1);
}

#[test]
fn suppression_filters_idle_context_repeat() {
    let changes = vec![DeltaChange::ContextGenStatusChanged {
        from: "idle".to_string(),
        to: "idle".to_string(),
    }];

    let policy = SuppressionPolicy::default();
    let filtered = apply_suppression(&changes, &policy);
    assert!(filtered.is_empty());
}

#[test]
fn suppression_keeps_meaningful_context_change() {
    let changes = vec![DeltaChange::ContextGenStatusChanged {
        from: "idle".to_string(),
        to: "running".to_string(),
    }];

    let policy = SuppressionPolicy::default();
    let filtered = apply_suppression(&changes, &policy);
    assert_eq!(filtered.len(), 1);
}

#[test]
fn suppression_disabled_keeps_idle_repeat() {
    let changes = vec![DeltaChange::ContextGenStatusChanged {
        from: "idle".to_string(),
        to: "idle".to_string(),
    }];
    let policy = SuppressionPolicy { suppress_context_idle_repeat: false, ..SuppressionPolicy::default() };
    assert_eq!(apply_suppression(&changes, &policy).len(), 1);
}

#[test]
fn should_emit_always_for_high_priority() {
    let policy = SuppressionPolicy {
        suppress_empty: true,
        suppress_context_idle_repeat: true,
        min_report_interval_secs: 300,
    };

    let changes = vec![DeltaChange::NewStops { count: 1 }];
    assert!(should_emit(Some(100 * SEC), 100 * SEC, &policy, &changes));
}

#[test]
fn should_emit_suppresses_empty() {
    let policy = SuppressionPolicy::default();
    let changes: Vec<DeltaChange> = vec![];
    assert!(!should_emit(None, 0, &policy, &changes));
}

#[test]
fn should_emit_respects_rate_limit() {
    let policy = SuppressionPolicy { min_report_interval_secs: 60, ..Default::default() };
    let changes = vec![DeltaChange::TaskStateChanged {
        task_id: "T1".to_string(),
        from: "chatting".to_string(),
        to: "ready".to_string(),
    }];
    let now = 1_000 * SEC;
    assert!(!should_emit(Some(now), now, &policy, &changes));
    assert!(should_emit(Some(now - 120 * SEC), now, &policy, &changes));
    // 59.9 seconds count as 59 whole seconds.
    assert!(!should_emit(Some(now - 60 * SEC + 1), now, &policy, &changes));
    assert!(should_emit(Some(now - 60 * SEC), now, &policy, &changes));
}

#[test]
fn build_delta_report_summary() {
    let a = make_snapshot(&[("T1", "chatting")]);
    let mut b = make_snapshot(&[("T1", "ready"), ("T2", "chatting")]);
    b.merge_count = 1;

    let policy = SuppressionPolicy::default();
    let report = build_delta_report(&a, &b, 42, &policy, 7);

    assert_eq!(report.tick_number, 42);
    assert_eq!(report.generated_at, 7);
    assert_eq!(report.summary.total_changes, 3);
    assert_eq!(report.summary.task_changes, 2);
    assert_eq!(report.summary.new_merges, 1);
    assert!(!report.suppressed);
}

#[test]
fn delta_reporter_first_tick_with_tasks() {
    let mut reporter = DeltaReporter::new(SuppressionPolicy::default());
    let snapshot = make_snapshot(&[("T1", "chatting")]);
    let report = reporter.process_tick(snapshot, 0);
    assert!(report.is_some());
    assert_eq!(reporter.total_reports_emitted, 1);
    assert_eq!(report.unwrap().summary.task_changes, 1);
}

#[test]
fn delta_reporter_first_tick_empty_suppressed() {
    let mut reporter = DeltaReporter::new(SuppressionPolicy::default());
    let report = reporter.process_tick(SystemSnapshot::empty(0), 0);
    assert!(report.is_none());
    assert_eq!(reporter.total_reports_suppressed, 1);
}

#[test]
fn delta_reporter_no_change_suppressed() {
    let mut reporter = DeltaReporter::new(SuppressionPolicy {
        suppress_empty: true,
        suppress_context_idle_repeat: true,
        min_report_interval_secs: 0,
    });

    let _ = reporter.process_tick(make_snapshot(&[("T1", "chatting")]), 0);
    let report = reporter.process_tick(make_snapshot(&[("T1", "chatting")]), SEC);
    assert!(report.is_none());
}

#[test]
fn delta_reporter_change_emits() {
    let mut reporter =
        DeltaReporter::new(SuppressionPolicy { min_report_interval_secs: 0, ..Default::default() });

    let _ = reporter.process_tick(make_snapshot(&[("T1", "chatting")]), 0);
    let report = reporter.process_tick(make_snapshot(&[("T1", "ready")]), SEC);
    assert!(report.is_some());
    let r = report.unwrap();
    assert_eq!(r.summary.task_changes, 1);
    assert_eq!(r.tick_number, 2);
}

#[test]
fn delta_reporter_suppression_counts() {
    let mut reporter =
        DeltaReporter::new(SuppressionPolicy { min_report_interval_secs: 0, ..Default::default() });
    let _ = reporter.process_tick(make_snapshot(&[("T1", "chatting")]), 0);
    let _ = reporter.process_tick(make_snapshot(&[("T1", "chatting")]), SEC);
    assert_eq!(reporter.total_reports_emitted, 1);
    assert_eq!(reporter.total_reports_suppressed, 1);
    assert_eq!(reporter.tick_count, 2);
}

fn zero_summary() -> DeltaSummary {
    DeltaSummary { total_changes: 0, task_changes: 0, model_changes: 0, qa_changes: 0, new_merges: 0, new_stops: 0 }
}

#[test]
fn render_delta_report_empty() {
    let report = DeltaReport { generated_at: 0, tick_number: 1, changes: vec![], summary: zero_summary(), suppressed: false };
    let rendered = render_delta_report(&report);
    assert!(rendered.contains("no changes"));
}

#[test]
fn render_delta_report_with_changes() {
    let report = DeltaReport {
        generated_at: 0,
        tick_number: 5,
        changes: vec![
            DeltaChange::TaskStateChanged {
                task_id: "T1".to_string(),
                from: "chatting".to_string(),
                to: "ready".to_string(),
            },
            DeltaChange::NewMerges { count: 2 },
        ],
        summary: DeltaSummary { total_changes: 2, task_changes: 1, model_changes: 0, qa_changes: 0, new_merges: 2, new_stops: 0 },
        suppressed: false,
    };

    let rendered = render_delta_report(&report);
    assert!(rendered.contains("tick #5"));
    assert!(rendered.contains("T1"));
    assert!(rendered.contains("chatting"));
    assert!(rendered.contains("ready"));
    assert!(rendered.contains("2 task(s) merged"));
    assert!(rendered.contains("  2 change(s): 1 task, 0 model, 0 QA, 2 merge(s)\n"));
    assert!(rendered.contains("  \x1b[32m→T1\x1b[0m  chatting → ready\n"));
}

#[test]
fn render_model_health_uses_variant_names() {
    let report = DeltaReport {
        generated_at: 0,
        tick_number: 1,
        changes: vec![DeltaChange::ModelHealthChanged {
            model: "codex".to_string(),
            from: ModelHealthState::Healthy,
            to: ModelHealthState::Disabled,
        }],
        summary: DeltaSummary { total_changes: 1, model_changes: 1, ..zero_summary() },
        suppressed: false,
    };
    let rendered = render_delta_report(&report);
    assert!(rendered.contains("codex\x1b[0m  Healthy → Disabled\n"));
}

#[test]
fn qa_state_change_detected() {
    let mut a = SystemSnapshot::empty(0);
    a.qa_states.insert("T1".to_string(), "pending".to_string());
    let mut b = SystemSnapshot::empty(0);
    b.qa_states.insert("T1".to_string(), "passed".to_string());

    let changes = compute_delta(&a, &b);
    assert_eq!(changes.len(), 1);
    assert!(matches!(
        &changes[0],
        DeltaChange::QAStateChanged { task_id, from, to }
            if task_id == "T1" && from == "pending" && to == "passed"
    ));
}

#[test]
fn multiple_changes_combined() {
    let mut a = make_snapshot(&[("T1", "chatting"), ("T2", "ready")]);
    a.model_health.insert("codex".to_string(), ModelHealthState::Healthy);
    a.merge_count = 0;

    let mut b = make_snapshot(&[("T1", "ready"), ("T3", "chatting")]);
    b.model_health.insert("codex".to_string(), ModelHealthState::Cooldown);
    b.merge_count = 1;

    let changes = compute_delta(&a, &b);
    assert_eq!(changes.len(), 5);
}
