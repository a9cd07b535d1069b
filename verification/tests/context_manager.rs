use orchd::context_manager::{
    AttemptOutcome, AttemptRecord, Blocker, BlockerSeverity, ContextManager, ContextState, Decision,
    HistoryContext, RecoveryContext, RepoContext, RichContext, TaskContext, TaskLineage, TaskSnapshot,
};

const NOW: i64 = 1_700_000_000_000_000_000;

fn s(x: &str) -> String {
    x.to_string()
}

fn make_task(id: &str, title: &str) -> TaskSnapshot {
    TaskSnapshot {
        id: s(id),
        title: s(title),
        repo_id: s("test-repo"),
        depends_on: vec![],
        retry_count: 0,
        max_retries: 3,
        merged: false,
        branch_name: None,
    }
}

fn empty_repo() -> RepoContext {
    RepoContext { repo_id: String::new(), primary_language: None, recent_decisions: vec![], active_branches: vec![] }
}

#[test]
fn context_state_records_errors() {
    let mut state = ContextState::default();
    state.record_error("mismatched types", NOW);
    state.record_error("mismatched types", NOW + 1);
    state.record_error("timeout", NOW + 2);

    assert_eq!(state.error_patterns.len(), 2);
    let p = state.error_patterns.iter().find(|p| p.pattern == "mismatched types").unwrap();
    assert_eq!(p.count, 2);
    assert_eq!(p.last_seen, NOW + 1);
    assert_eq!(state.updated_at, Some(NOW + 2));
}

#[test]
fn context_state_tracks_resolutions() {
    let mut state = ContextState::default();
    state.record_error("compile error", NOW);
    state.record_resolution("compile error", "Fixed the type annotation", NOW);
    let pattern = state.error_patterns.iter().find(|p| p.pattern == "compile error").unwrap();
    assert_eq!(pattern.resolution.as_deref(), Some("Fixed the type annotation"));
    state.record_resolution("unknown", "nothing", NOW);
    assert_eq!(state.error_patterns.len(), 1);
}

#[test]
fn build_context_includes_history() {
    let mut manager = ContextManager::new("/tmp/test-context");
    manager.record_attempt("T1", "codex", AttemptOutcome::Failed, Some("compile error"), NOW);
    manager.record_attempt("T1", "codex", AttemptOutcome::Failed, Some("test failure"), NOW);

    let mut task = make_task("T1", "Fix the bug");
    task.retry_count = 2;
    let ctx = manager.build_context(&task, &vec![], Some("test failure"));

    assert_eq!(ctx.history.attempt_number, 3);
    assert_eq!(ctx.history.prior_models.len(), 2);
    assert_eq!(ctx.history.prior_failures.len(), 2);
    assert!(ctx.recovery.is_some());
    assert_eq!(ctx.recovery.as_ref().unwrap().error_message, "test failure");
    assert_eq!(manager.lineages.get("T1").unwrap().attempts[1].attempt_number, 2);
}

#[test]
fn context_manager_render_context_produces_markdown() {
    let ctx = RichContext {
        task: TaskContext {
            task_id: s("T1"),
            title: s("Fix the bug"),
            current_focus: Some(s("Type errors")),
            blockers: vec![s("Database connection")],
            assumptions: vec![s("Using Postgres")],
            related_tasks: vec![],
        },
        history: HistoryContext {
            attempt_number: 2,
            max_attempts: 3,
            prior_models: vec![s("codex")],
            prior_failures: vec![s("compile error")],
            changes_so_far: vec![],
        },
        recovery: Some(RecoveryContext {
            error_class: s("compile"),
            error_message: s("mismatched types"),
            matched_pattern: None,
            suggested_approach: s("Check the return type"),
            similar_past_errors: vec![],
        }),
        repo: empty_repo(),
    };
    let manager = ContextManager::default();
    let rendered = manager.render_context(&ctx);

    assert!(rendered.contains("## Task Context"));
    assert!(rendered.contains("Fix the bug"));
    assert!(rendered.contains("Type errors"));
    assert!(rendered.contains("Prior Attempts"));
    assert!(rendered.contains("Error Recovery Context"));
    assert_eq!(
        rendered,
        "## Task Context\n\n**Task:** T1 - Fix the bug\n**Current Focus:** Type errors\n\n**Known Blockers:**\n- Database connection\n\n**Working Assumptions:**\n- Using Postgres\n\n## Prior Attempts\n\n**Attempt:** 2/3\n**Models tried:** codex\n\n**What went wrong:**\n- compile error\n\n## Error Recovery Context\n\n**Error Class:** compile\n**Error Message:**\n```\nmismatched types\n```\n\n**Suggested Approach:**\nCheck the return type\n"
    );
}

#[test]
fn task_lineage_tracks_attempts() {
    let mut lineage = TaskLineage::new("T1");
    lineage.attempts.push(AttemptRecord {
        attempt_number: 1,
        model: s("codex"),
        started_at: NOW,
        ended_at: Some(NOW),
        outcome: AttemptOutcome::Failed,
        failure_reason: Some(s("compile error")),
        changes_made: vec![s("src/lib.rs")],
    });
    assert_eq!(lineage.attempts.len(), 1);
    assert_eq!(lineage.attempts[0].outcome, AttemptOutcome::Failed);
    lineage.record_attempt("gemini", AttemptOutcome::Success, None, NOW + 9);
    assert_eq!(lineage.attempts[1].attempt_number, 2);
    assert_eq!(lineage.attempts[1].ended_at, Some(NOW + 9));
}

#[test]
fn active_blockers_filters_resolved() {
    let mut state = ContextState::default();
    state.blockers.push(Blocker {
        id: s("B1"),
        description: s("Active blocker"),
        severity: BlockerSeverity::High,
        created_at: NOW,
        resolved_at: None,
    });
    state.blockers.push(Blocker {
        id: s("B2"),
        description: s("Resolved blocker"),
        severity: BlockerSeverity::Low,
        created_at: NOW,
        resolved_at: Some(NOW),
    });
    let active = state.active_blockers();
    assert_eq!(active.len(), 1);
    assert_eq!(active[0].description, "Active blocker");
}

#[test]
fn build_context_reads_the_repository_state() {
    let mut manager = ContextManager::new("ctx");
    let mut state = ContextState::default();
    state.current_focus = Some(s("Auth"));
    state.assumptions.push(s("Postgres"));
    for i in 0..7 {
        state.decisions.push(Decision { description: format!("D{}", i), reasoning: String::new(), task_id: None, made_at: NOW });
    }
    state.record_error("Type Error", NOW);
    state.record_resolution("Type Error", "annotate", NOW);
    state.record_error("timeout", NOW);
    manager.states.insert(s("test-repo"), state);

    let mut task = make_task("T2", "Add login");
    task.depends_on = vec![s("T1")];
    let mut other = make_task("T3", "x");
    other.branch_name = Some(s("feat/x"));
    let mut merged = make_task("T4", "y");
    merged.branch_name = Some(s("feat/y"));
    merged.merged = true;
    let mut foreign = make_task("T5", "z");
    foreign.repo_id = s("other");
    foreign.branch_name = Some(s("feat/z"));

    let ctx = manager.build_context(&task, &vec![other, merged, foreign], Some("Saw a TYPE ERROR here"));
    assert_eq!(ctx.task.current_focus.as_deref(), Some("Auth"));
    assert_eq!(ctx.task.related_tasks, vec![s("T1")]);
    assert_eq!(ctx.repo.recent_decisions, vec![s("D6"), s("D5"), s("D4"), s("D3"), s("D2")]);
    assert_eq!(ctx.repo.active_branches, vec![s("feat/x")]);
    let rec = ctx.recovery.unwrap();
    assert_eq!(rec.similar_past_errors.len(), 1);
    assert_eq!(rec.similar_past_errors[0].pattern, "Type Error");
    assert_eq!(rec.similar_past_errors[0].resolution, "annotate");
    assert!(rec.similar_past_errors[0].success);
    assert_eq!(ctx.history.attempt_number, 1);
}

#[test]
fn render_cuts_long_failures_and_lists_decisions() {
    let long = "x".repeat(250);
    let ctx = RichContext {
        task: TaskContext {
            task_id: s("T"),
            title: s("t"),
            current_focus: None,
            blockers: vec![],
            assumptions: vec![],
            related_tasks: vec![],
        },
        history: HistoryContext {
            attempt_number: 1,
            max_attempts: 3,
            prior_models: vec![],
            prior_failures: vec![long.clone()],
            changes_so_far: vec![],
        },
        recovery: Some(RecoveryContext {
            error_class: String::new(),
            error_message: "e".repeat(600),
            matched_pattern: None,
            suggested_approach: String::new(),
            similar_past_errors: vec![],
        }),
        repo: RepoContext { repo_id: s("r"), primary_language: None, recent_decisions: vec![s("use sqlx")], active_branches: vec![] },
    };
    let out = ContextManager::default().render_context(&ctx);
    assert!(!out.contains("Prior Attempts"));
    assert!(out.contains(&format!("```\n{}\n```", "e".repeat(500))));
    assert!(!out.contains(&"e".repeat(501)));
    assert!(out.ends_with("\n## Recent Decisions\n\n- use sqlx\n"));

    let mut ctx2 = ctx;
    ctx2.history.attempt_number = 2;
    let out2 = ContextManager::default().render_context(&ctx2);
    assert!(out2.contains(&format!("- {}\n", "x".repeat(200))));
    assert!(!out2.contains(&"x".repeat(201)));
}

#[test]
fn storage_paths() {
    let m = ContextManager::new("/data/ctx");
    assert_eq!(m.state_path("repo"), "/data/ctx/repo/context.json");
    assert_eq!(m.lineage_path("T1"), "/data/ctx/lineages/T1.json");
}
