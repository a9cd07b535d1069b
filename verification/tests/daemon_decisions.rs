use orchd::daemon_decisions::{
    qa_follow_up, regen_trigger, tick_phases,
    apply_retry_transition, is_merged, pipeline_may_advance, plan_baseline_qa, plan_completion,
    plan_spawn, plan_spawns, qa_branch, shutdown_step, AgentOutcome, ChattingTask,
    CompletionAction, HealthUpdate, PromptRole, RetryCounts, RetryEvent, RetryTask, RetryVerdict,
    ShutdownStep, SpawnStep, SpawnTask, TaskPhase,
};
use orchd::agent_dispatch::TaskType;
use orchd::daemon_loop::{DaemonState, RestackRetryState, VerifyAction};

const T0: i64 = 1_700_000_000_000_000_000;
const SEC: i64 = 1_000_000_000;

fn s(x: &str) -> String {
    x.to_string()
}

fn chatting(id: &str) -> ChattingTask {
    ChattingTask {
        id: s(id),
        repo_id: s("example"),
        branch_name: None,
        has_session: false,
        qa_running: false,
        has_baseline_result: false,
    }
}

fn outcome(id: &str, success: bool, patch_ready: bool, needs_human: bool) -> AgentOutcome {
    AgentOutcome { task_id: s(id), model: s("codex"), success, patch_ready, needs_human }
}

fn no_verdict() -> RetryVerdict {
    RetryVerdict { should_retry: false, next_model: None, reason: s("unused") }
}

fn retry_task(count: u32, max: u32, preferred: Option<&str>) -> RetryTask {
    RetryTask {
        id: s("T-R"),
        retry_count: count,
        max_retries: max,
        preferred_model: preferred.map(s),
        failed_models: vec![],
        phase: TaskPhase::Running,
        last_failure_reason: None,
        updated_at: 5,
    }
}

#[test]
fn daemon_state_default() {
    let state = DaemonState::default();
    assert!(state.restack_retries.is_empty());
    assert!(!state.shutdown_requested);
    assert!(state.budget_output_chars_by_task.is_empty());
}

#[test]
fn daemon_tick_produces_spawn_for_chatting_task() {
    let steps = plan_spawns(&vec![chatting("T-1")], true);
    let spawn_count = steps.iter().filter(|a| matches!(a, SpawnStep::Spawn { .. })).count();
    assert_eq!(spawn_count, 1);
}

#[test]
fn spawns_skip_tasks_with_a_session_and_respect_the_budget() {
    let mut busy = chatting("T-2");
    busy.has_session = true;
    let tasks = vec![chatting("T-1"), busy, chatting("T-3")];
    let steps = plan_spawns(&tasks, true);
    assert_eq!(steps.len(), 2);
    assert!(matches!(&steps[0], SpawnStep::Spawn { task_id } if task_id == "T-1"));
    assert!(matches!(&steps[1], SpawnStep::Spawn { task_id } if task_id == "T-3"));

    let refused = plan_spawns(&tasks, false);
    assert_eq!(refused.len(), 2);
    assert!(matches!(&refused[0], SpawnStep::BudgetExceeded { task_id, repo_id } if task_id == "T-1" && repo_id == "example"));
    assert!(plan_spawns(&vec![], true).is_empty());
}

#[test]
fn daemon_tick_spawns_baseline_qa_when_spec_exists_and_no_result() {
    let qa = plan_baseline_qa(&vec![chatting("T-QA-1")], false, true);
    assert_eq!(qa, vec![s("T-QA-1")], "should spawn exactly one baseline QA");
}

#[test]
fn daemon_tick_skips_baseline_qa_when_result_already_exists() {
    let mut task = chatting("T-QA-2");
    task.has_baseline_result = true;
    let qa = plan_baseline_qa(&vec![task], false, true);
    assert!(qa.is_empty(), "should NOT spawn QA when result exists");
}

#[test]
fn daemon_tick_skips_baseline_qa_when_qa_agent_already_running() {
    let mut task = chatting("T-QA-3");
    task.qa_running = true;
    let qa = plan_baseline_qa(&vec![task], false, true);
    assert!(qa.is_empty(), "should NOT spawn QA when one already running");
}

#[test]
fn baseline_qa_needs_a_spec_and_qa_switched_on() {
    assert!(plan_baseline_qa(&vec![chatting("T-1")], false, false).is_empty());
    assert!(plan_baseline_qa(&vec![chatting("T-1")], true, true).is_empty());
}

#[test]
fn qa_branch_defaults_to_task_prefix() {
    assert_eq!(qa_branch("T-QA-1", None), "task/T-QA-1");
    assert_eq!(qa_branch("T-QA-1", Some("feature/x")), "feature/x");
}

#[test]
fn handle_successful_outcome_produces_mark_ready() {
    let plan = plan_completion(&outcome("T-3", true, true, false), true, false, Some(RetryCounts { retry_count: 0, max_retries: 3 }), false, &no_verdict(), None);
    assert!(matches!(plan.action, CompletionAction::MarkReady));
    assert_eq!(plan.stop_reason, "completed");
    assert_eq!(plan.health, HealthUpdate::Success);
}

#[test]
fn handle_successful_outcome_spawns_qa_validation_when_baseline_exists() {
    let plan = plan_completion(&outcome("T-QA-4", true, true, false), false, true, Some(RetryCounts { retry_count: 0, max_retries: 3 }), false, &no_verdict(), None);
    assert!(matches!(plan.action, CompletionAction::SpawnValidationQa));
    assert!(!matches!(plan.action, CompletionAction::MarkReady));
}

#[test]
fn handle_failed_outcome_evaluates_retry() {
    let verdict = RetryVerdict { should_retry: true, next_model: Some(s("gemini")), reason: s("tests failed") };
    let plan = plan_completion(&outcome("T-4", false, false, false), true, false, Some(RetryCounts { retry_count: 0, max_retries: 3 }), false, &verdict, None);
    assert!(matches!(plan.action, CompletionAction::ScheduleRetry { .. } | CompletionAction::TaskFailed { .. }));
    match plan.action {
        CompletionAction::ScheduleRetry { next_model, reason } => {
            assert_eq!(next_model, "gemini");
            assert_eq!(reason, "retrying (attempt 1/3) with gemini");
        }
        _ => panic!("expected a retry"),
    }
    assert_eq!(plan.stop_reason, "failed");
    assert_eq!(plan.health, HealthUpdate::Failure);
}

#[test]
fn failed_outcome_prefers_the_healthy_model_and_fails_without_one() {
    let verdict = RetryVerdict { should_retry: true, next_model: Some(s("gemini")), reason: s("tests failed") };
    let counts = Some(RetryCounts { retry_count: 2, max_retries: 5 });
    let plan = plan_completion(&outcome("T-4", false, false, false), true, false, counts, false, &verdict, Some("codex"));
    assert!(matches!(&plan.action, CompletionAction::ScheduleRetry { next_model, reason } if next_model == "codex" && reason == "retrying (attempt 3/5) with codex"));

    let stuck = RetryVerdict { should_retry: true, next_model: None, reason: s("no model left") };
    let plan = plan_completion(&outcome("T-4", false, false, false), true, false, counts, false, &stuck, None);
    assert!(matches!(&plan.action, CompletionAction::TaskFailed { reason } if reason == "no model left"));

    let give_up = RetryVerdict { should_retry: false, next_model: Some(s("codex")), reason: s("max retries") };
    let plan = plan_completion(&outcome("T-4", false, false, false), true, false, counts, false, &give_up, Some("codex"));
    assert!(matches!(&plan.action, CompletionAction::TaskFailed { reason } if reason == "max retries"));

    let plan = plan_completion(&outcome("T-4", false, false, false), true, false, None, true, &verdict, None);
    assert!(matches!(&plan.action, CompletionAction::TaskFailed { reason } if reason == "task not found for retry evaluation"));
}

#[test]
fn uncommitted_changes_count_as_finished_work() {
    let plan = plan_completion(&outcome("T-5", false, false, false), true, false, Some(RetryCounts { retry_count: 0, max_retries: 3 }), true, &no_verdict(), None);
    assert!(matches!(plan.action, CompletionAction::MarkReady));
    assert_eq!(plan.health, HealthUpdate::Success);
    assert_eq!(plan.stop_reason, "failed");
}

#[test]
fn handle_needs_human_outcome_produces_record_needs_human() {
    let plan = plan_completion(&outcome("T-NH", false, false, true), true, false, Some(RetryCounts { retry_count: 0, max_retries: 3 }), false, &no_verdict(), None);
    assert!(matches!(&plan.action, CompletionAction::RecordNeedsHuman { reason } if reason == "Agent requested human assistance"));
    assert_eq!(plan.stop_reason, "needs_human");
    assert_eq!(plan.health, HealthUpdate::Unchanged);
}

#[test]
fn handle_agent_completion_updates_budget_usage_from_output() {
    let mut daemon_state = DaemonState::new();
    daemon_state.budget_output_chars_by_task.insert(s("T-BUDGET-2"), 80);
    let tokens = daemon_state.settle_run_usage("T-BUDGET-2");
    assert_eq!(tokens, 20);
    assert_eq!(daemon_state.budget_used_today, 20);
    assert_eq!(daemon_state.budget_used_month, 20);
    assert!(!daemon_state.budget_output_chars_by_task.contains_key("T-BUDGET-2"));
}

#[test]
fn settled_usage_saturates_and_unknown_tasks_add_nothing() {
    let mut state = DaemonState::new();
    state.budget_used_today = u64::MAX - 1;
    state.budget_output_chars_by_task.insert(s("T-1"), 9);
    assert_eq!(state.settle_run_usage("T-1"), 3);
    assert_eq!(state.budget_used_today, u64::MAX);
    assert_eq!(state.budget_used_month, 3);
    assert_eq!(state.settle_run_usage("T-1"), 0);
    assert_eq!(state.budget_used_month, 3);
}

#[test]
fn shutdown_complete_when_no_agents_running() {
    assert_eq!(shutdown_step(0, false), ShutdownStep::Complete);
    assert_eq!(shutdown_step(0, true), ShutdownStep::Complete);
}

#[test]
fn shutdown_waits_for_running_agents() {
    assert_eq!(shutdown_step(1, false), ShutdownStep::Wait);
    assert_ne!(shutdown_step(1, false), ShutdownStep::Complete);
}

#[test]
fn drain_timeout_forces_shutdown() {
    assert_eq!(shutdown_step(1, true), ShutdownStep::TerminateAndComplete);
}

#[test]
fn daemon_tick_defers_stack_action_while_restack_backoff_is_pending() {
    let retry = RestackRetryState { attempts: 1, max_retries: 3, last_attempt: T0, backoff_secs: 60 };
    assert!(!pipeline_may_advance(false, true, Some(retry), T0));
    assert!(pipeline_may_advance(false, false, Some(retry), T0));
}

#[test]
fn daemon_tick_releases_stack_action_when_restack_backoff_elapsed() {
    let retry = RestackRetryState { attempts: 1, max_retries: 3, last_attempt: T0 - 10 * SEC, backoff_secs: 5 };
    assert!(pipeline_may_advance(false, true, Some(retry), T0));
    assert!(pipeline_may_advance(false, true, None, T0));
    assert!(!pipeline_may_advance(true, false, None, T0));
}

#[test]
fn restack_retries_of_finished_pipelines_are_dropped() {
    let mut state = DaemonState::new();
    state.schedule_restack_retry("T-1", T0);
    state.schedule_restack_retry("T-2", T0);
    state.keep_restack_retries_of(&vec![s("T-2"), s("T-9")]);
    assert!(state.restack_retries.get("T-1").is_none());
    assert!(state.restack_retries.get("T-2").is_some());
    assert_eq!(state.restack_retries.len(), 1);
}

#[test]
fn merged_by_pull_request_or_graphite_stack() {
    assert!(is_merged(42, "https://example.test/pr/42", true, false, true));
    assert!(!is_merged(42, "https://example.test/pr/42", false, true, false));
    assert!(is_merged(0, "graphite://stack/7", false, true, false));
    assert!(!is_merged(0, "graphite://stack/7", false, true, true));
    assert!(!is_merged(0, "graphite://stack/7", false, false, false));
    assert!(!is_merged(1, "graphite://stack/7", false, true, false));
}

#[test]
fn retry_transition_schedules_and_records_fallback() {
    let mut task = retry_task(0, 3, Some("codex"));
    let t = apply_retry_transition(&mut task, "gemini", "tests failed", T0);
    assert!(t.retried);
    assert!(t.move_to_chatting);
    assert_eq!(task.retry_count, 1);
    assert_eq!(task.preferred_model.as_deref(), Some("gemini"));
    assert_eq!(task.failed_models, vec![s("codex")]);
    assert_eq!(task.last_failure_reason.as_deref(), Some("tests failed"));
    assert_eq!(task.phase, TaskPhase::Running);
    assert_eq!(task.updated_at, 5);
    assert_eq!(t.events.len(), 2);
    assert!(matches!(&t.events[0], RetryEvent::RetryScheduled { attempt: 1, model, reason } if model == "gemini" && reason == "tests failed"));
    assert!(matches!(&t.events[1], RetryEvent::ModelFallback { from_model, to_model, .. } if from_model == "codex" && to_model == "gemini"));
}

#[test]
fn retry_on_the_same_model_records_no_fallback() {
    let mut task = retry_task(1, 3, Some("codex"));
    task.phase = TaskPhase::Chatting;
    let t = apply_retry_transition(&mut task, "codex", "flaky", T0);
    assert!(t.retried);
    assert!(!t.move_to_chatting);
    assert_eq!(task.retry_count, 2);
    assert!(task.failed_models.is_empty());
    assert_eq!(t.events.len(), 1);
}

#[test]
fn failed_models_are_listed_once() {
    let mut task = retry_task(0, 5, Some("codex"));
    task.failed_models = vec![s("codex")];
    let t = apply_retry_transition(&mut task, "gemini", "again", T0);
    assert!(t.retried);
    assert_eq!(task.failed_models, vec![s("codex")]);
}

#[test]
fn exhausted_retries_stop_the_task() {
    let mut task = retry_task(3, 3, Some("codex"));
    let t = apply_retry_transition(&mut task, "gemini", "still failing", T0);
    assert!(!t.retried);
    assert!(!t.move_to_chatting);
    assert_eq!(task.phase, TaskPhase::Stopped);
    assert_eq!(task.retry_count, 3);
    assert_eq!(task.updated_at, T0);
    assert_eq!(task.preferred_model.as_deref(), Some("codex"));
    assert_eq!(task.last_failure_reason.as_deref(), Some("still failing"));
    assert_eq!(t.events.len(), 1);
    assert!(matches!(&t.events[0], RetryEvent::TaskFailed { reason, is_final: true } if reason == "still failing (max retries reached: 3/3)"));
}

#[test]
fn handle_agent_completion_invalidates_verify_cache_entry() {
    let mut daemon_state = DaemonState::new();
    daemon_state.verify_cache.insert(s("T-VC-4"), s("abc123"));
    daemon_state.settle_run_usage("T-VC-4");
    assert!(!daemon_state.verify_cache.contains_key("T-VC-4"));
}

#[test]
fn execute_actions_skips_verify_on_cache_hit() {
    let mut daemon_state = DaemonState::new();
    daemon_state.verify_cache.insert(s("T-VC-1"), s("abc123"));
    assert!(daemon_state.verify_cache_hit("T-VC-1", Some("abc123")));
    assert!(!daemon_state.verify_cache_hit("T-VC-1", Some("def456")));
    assert!(!daemon_state.verify_cache_hit("T-VC-1", None));
    assert!(!daemon_state.verify_cache_hit("T-VC-2", Some("abc123")));
}

#[test]
fn execute_actions_stores_verify_sha_on_success() {
    let mut daemon_state = DaemonState::new();
    daemon_state.record_verify("T-VC-2", true, Some("abc123"));
    assert_eq!(daemon_state.verify_cache.get("T-VC-2"), Some(&s("abc123")));
    daemon_state.record_verify("T-VC-5", true, None);
    assert!(!daemon_state.verify_cache.contains_key("T-VC-5"));
}

#[test]
fn execute_actions_removes_verify_cache_on_failure() {
    let mut daemon_state = DaemonState::new();
    daemon_state.verify_cache.insert(s("T-VC-3"), s("stale-sha"));
    daemon_state.record_verify("T-VC-3", false, Some("stale-sha"));
    assert!(!daemon_state.verify_cache.contains_key("T-VC-3"));
}

#[test]
fn retry_chain_stops_at_the_limit() {
    let mut task = retry_task(0, 2, Some("codex"));
    assert!(apply_retry_transition(&mut task, "gemini", "first", T0).retried);
    assert!(apply_retry_transition(&mut task, "codex", "second", T0).retried);
    assert_eq!(task.retry_count, 2);
    assert!(!apply_retry_transition(&mut task, "gemini", "third", T0).retried);
    assert_eq!(task.retry_count, 2);
    assert_eq!(task.phase, TaskPhase::Stopped);
    assert_eq!(task.failed_models, vec![s("codex"), s("gemini")]);
}

fn spawn_task(retry_count: u32, last_failure: Option<&str>) -> SpawnTask {
    SpawnTask {
        preferred_model: Some(s("codex")),
        task_type: TaskType::Implement,
        retry_count,
        max_retries: 3,
        last_failure_reason: last_failure.map(s),
        failed_models: vec![],
    }
}

#[test]
fn build_spawn_action_injects_qa_failure_context_on_retry() {
    let report = "## QA Failures (from previous attempt)\n\n- startup.banner: PASS\n- tui.create_chat: FAIL \u{2014} branch not created\n\nFix the failing tests before signaling [patch_ready].\n";
    let plan = plan_spawn(&spawn_task(1, Some(report)), "gemini");
    let qa = plan.qa_failure_context.expect("QA failure context");
    assert!(qa.contains("QA Failures"), "prompt should contain QA failure context section");
    assert!(qa.contains("tui.create_chat: FAIL"), "prompt should contain specific failure details");
    let retry = plan.retry.expect("retry context");
    assert_eq!(retry.attempt, 2);
    assert_eq!(retry.max_retries, 3);
    assert_eq!(retry.previous_model, "codex");
}

#[test]
fn build_spawn_action_no_qa_context_for_non_qa_failure() {
    let plan = plan_spawn(&spawn_task(1, Some("cargo test failed: assertion error")), "gemini");
    let retry = plan.retry.expect("retry context");
    assert!(retry.previous_failure.contains("assertion error"), "prompt should contain the failure reason in retry context");
    assert!(plan.qa_failure_context.is_none(), "prompt should not have a standalone QA failure section for non-QA failures");
}

#[test]
fn spawn_uses_default_model_role_and_last_failed_model() {
    let mut task = spawn_task(0, Some("ignored on a first attempt"));
    task.preferred_model = None;
    task.task_type = TaskType::TestValidate;
    let plan = plan_spawn(&task, "gemini");
    assert_eq!(plan.model, "gemini");
    assert_eq!(plan.role, PromptRole::Review);
    assert!(plan.retry.is_none());

    let mut task = spawn_task(2, Some("boom"));
    task.failed_models = vec![s("gemini"), s("codex")];
    task.task_type = TaskType::Orchestrate;
    let plan = plan_spawn(&task, "gemini");
    assert_eq!(plan.role, PromptRole::Implement);
    assert_eq!(plan.retry.unwrap().previous_model, "codex");
}

#[test]
fn verify_step_advances_runs_or_fails() {
    let mut st = DaemonState::new();
    st.verify_cache.insert(s("T-V"), s("abc123"));
    assert_eq!(st.verify_step("T-V", Some("abc123"), None), VerifyAction::Advance);
    assert_eq!(st.verify_step("T-V", Some("def456"), None), VerifyAction::Run);
    assert_eq!(st.verify_step("T-V", None, None), VerifyAction::Run);
    assert_eq!(st.verify_cache.get("T-V"), Some(&s("abc123")));

    assert_eq!(st.verify_step("T-V", Some("def456"), Some(true)), VerifyAction::Advance);
    assert_eq!(st.verify_cache.get("T-V"), Some(&s("def456")));

    st.schedule_restack_retry("T-V", T0);
    assert!(st.restack_retries.contains_key("T-V"));
    assert_eq!(st.verify_step("T-V", Some("def456"), Some(false)), VerifyAction::FailAndRetry);
    assert!(!st.verify_cache.contains_key("T-V"));
    assert!(!st.restack_retries.contains_key("T-V"));
}

#[test]
fn daemon_tick_skips_spawn_during_shutdown() {
    let mut daemon_state = DaemonState::new();
    daemon_state.request_shutdown(30, T0);
    let phases = tick_phases(daemon_state.shutdown_requested, false);
    assert!(!phases.spawn_agents);
    assert!(!phases.baseline_qa);
    assert!(!phases.drive_pipelines);
    assert!(!phases.context_regen);
    assert!(phases.poll_agents);
    assert!(phases.shutdown_check);
    let running = tick_phases(false, true);
    assert!(running.spawn_agents && running.drive_pipelines && running.context_regen && !running.shutdown_check);
    assert!(!running.baseline_qa);
    assert!(tick_phases(false, false).baseline_qa);
}

#[test]
fn qa_validation_pass_produces_completed_and_mark_ready_actions() {
    let f = qa_follow_up(0, true, Some("codex"), "codex", "");
    assert!(f.passed);
    assert!(f.mark_ready);
    assert_eq!(f.retry, None);
    let baseline = qa_follow_up(0, false, None, "codex", "");
    assert!(baseline.passed && !baseline.mark_ready);
}

#[test]
fn qa_validation_fail_produces_failed_and_retry_actions() {
    let ctx = "## QA Failures\n- tui.tui_start: FAIL — timeout after 5s\n";
    let f = qa_follow_up(1, true, None, "codex", ctx);
    assert!(!f.passed);
    assert!(!f.mark_ready);
    let (model, reason) = f.retry.expect("retry");
    assert_eq!(model, "codex");
    assert!(reason.contains("tui.tui_start: FAIL"));
    assert!(reason.contains("timeout after 5s"));
    let kept = qa_follow_up(2, true, Some("gemini"), "codex", ctx);
    assert_eq!(kept.retry.map(|r| r.0), Some("gemini".to_string()));
    assert_eq!(qa_follow_up(1, false, None, "codex", ctx).retry, None);
}

#[test]
fn regen_triggers_on_transitions_or_staleness_when_due() {
    assert!(regen_trigger(false, true, false, true));
    assert!(regen_trigger(false, false, true, true));
    assert!(!regen_trigger(false, false, false, true));
    assert!(!regen_trigger(false, true, true, false));
    assert!(!regen_trigger(true, true, true, true));
}
