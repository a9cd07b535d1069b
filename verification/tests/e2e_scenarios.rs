use orchd::e2e_scenarios::{
    soak_stuck_error, stuck_error_text, ChaosFault, ChaosPolicy, ScenarioMetrics, ScenarioProgress, ScenarioRunner,
    ScenarioStep, SimulatedTask, SoakTally,
};

const NOW: i64 = 1_700_000_000_000_000_000;

fn s(x: &str) -> String {
    x.to_string()
}

fn create(id: &str, desc: &str) -> ScenarioStep {
    ScenarioStep::CreateTask { task_id: s(id), description: s(desc) }
}

fn expect(id: &str, state: &str) -> ScenarioStep {
    ScenarioStep::ExpectState { task_id: s(id), expected_state: s(state), timeout_secs: 5 }
}

fn agent(id: &str, success: bool, model: &str) -> ScenarioStep {
    ScenarioStep::CompleteAgent { task_id: s(id), success, model: s(model) }
}

fn verify(id: &str, success: bool) -> ScenarioStep {
    ScenarioStep::SimulateVerify { task_id: s(id), success }
}

fn merge(id: &str) -> ScenarioStep {
    ScenarioStep::SimulateMerge { task_id: s(id) }
}

/// Runs the steps on a reset runner, as a scenario run does.
fn run(runner: &mut ScenarioRunner, steps: &[ScenarioStep]) -> ScenarioProgress {
    runner.reset();
    let mut progress = ScenarioProgress::new();
    for (i, step) in steps.iter().enumerate() {
        let result = runner.execute_step(i, step, NOW);
        progress.record(result);
    }
    progress
}

struct Soak {
    tally: SoakTally,
    stopped: usize,
    total: usize,
}

/// Runs a soak of `ticks` ticks, as a soak run does.
fn soak(runner: &mut ScenarioRunner, ticks: u64, thr: u64, chaos: bool, interval: u64, tasks: Vec<(String, String)>) -> Soak {
    runner.start_soak(&tasks, NOW);
    let mut tally = SoakTally::new();
    let done = runner.run_soak_ticks(&mut tally, ticks, NOW, thr, chaos, interval);
    assert_eq!(done, ticks);
    Soak { tally, stopped: runner.stopped_count(), total: runner.tasks.len() }
}

fn soak_passes(r: &Soak, max_error_rate_pct: f64) -> bool {
    let rate = if r.total > 0 { r.stopped as f64 / r.total as f64 * 100.0 } else { 0.0 };
    r.tally.stuck_tasks.is_empty() && rate <= max_error_rate_pct
}

#[test]
fn scenario_runner_creates_tasks() {
    let mut runner = ScenarioRunner::new();
    let result = run(&mut runner, &[create("T1", "Test"), ScenarioStep::AssertTaskCount { expected: 1 }]);
    assert!(result.passed);
    assert_eq!(runner.metrics.tasks_created, 1);
}

#[test]
fn happy_path_scenario_passes() {
    let mut runner = ScenarioRunner::new();
    let result = run(
        &mut runner,
        &[
            create("T1", "Implement feature X"),
            expect("T1", "CHATTING"),
            agent("T1", true, "codex"),
            expect("T1", "READY"),
            verify("T1", true),
            expect("T1", "SUBMITTING"),
            merge("T1"),
            expect("T1", "MERGED"),
        ],
    );
    assert!(result.passed, "Happy path failed: {:?}", result.error);
    assert_eq!(runner.metrics.tasks_created, 1);
    assert_eq!(runner.metrics.tasks_merged, 1);
}

#[test]
fn agent_failure_retry_scenario_passes() {
    let mut runner = ScenarioRunner::new();
    let result = run(
        &mut runner,
        &[
            create("T2", "Fix bug Y"),
            agent("T2", false, "codex"),
            expect("T2", "CHATTING"),
            agent("T2", true, "codex"),
            expect("T2", "READY"),
        ],
    );
    assert!(result.passed, "Retry scenario failed: {:?}", result.error);
    assert_eq!(runner.metrics.agent_completions, 2);
}

#[test]
fn chaos_agent_crash_scenario_passes() {
    let mut runner = ScenarioRunner::new();
    let result = run(
        &mut runner,
        &[
            create("T3", "Implement feature Z"),
            ScenarioStep::InjectChaos { fault: ChaosFault::AgentCrash { task_id: s("T3") } },
            agent("T3", true, "codex"),
            expect("T3", "CHATTING"),
            ScenarioStep::ClearChaos,
            agent("T3", true, "codex"),
            expect("T3", "READY"),
        ],
    );
    assert!(result.passed, "Chaos scenario failed: {:?}", result.error);
}

#[test]
fn multi_task_lifecycle_scenario_passes() {
    let mut runner = ScenarioRunner::new();
    let result = run(
        &mut runner,
        &[
            create("M1", "Task M1"),
            create("M2", "Task M2"),
            create("M3", "Task M3"),
            ScenarioStep::AssertTaskCount { expected: 3 },
            agent("M1", true, "codex"),
            agent("M2", true, "codex"),
            agent("M3", true, "gemini"),
            expect("M1", "READY"),
            expect("M2", "READY"),
            expect("M3", "READY"),
            verify("M1", true),
            merge("M1"),
            verify("M2", true),
            merge("M2"),
            verify("M3", true),
            merge("M3"),
        ],
    );
    assert!(result.passed, "Multi-task failed: {:?}", result.error);
    assert_eq!(runner.metrics.tasks_merged, 3);
}

#[test]
fn verify_failure_loop_scenario_passes() {
    let mut runner = ScenarioRunner::new();
    let result = run(
        &mut runner,
        &[
            create("V1", "Fix failing tests"),
            agent("V1", true, "codex"),
            verify("V1", false),
            expect("V1", "CHATTING"),
            agent("V1", true, "codex"),
            verify("V1", true),
            expect("V1", "SUBMITTING"),
        ],
    );
    assert!(result.passed, "Verify loop failed: {:?}", result.error);
    assert_eq!(runner.metrics.verify_runs, 2);
}

#[test]
fn qa_red_to_green_scenario_passes() {
    let mut runner = ScenarioRunner::new();
    let result = run(
        &mut runner,
        &[
            create("Q1", "Add new endpoint"),
            agent("Q1", true, "codex"),
            ScenarioStep::SimulateQA {
                task_id: s("Q1"),
                passed: false,
                failed_tests: vec![s("test_auth"), s("test_validation")],
            },
            expect("Q1", "CHATTING"),
            agent("Q1", true, "codex"),
            ScenarioStep::SimulateQA { task_id: s("Q1"), passed: true, failed_tests: vec![] },
            expect("Q1", "READY"),
        ],
    );
    assert!(result.passed, "QA red→green failed: {:?}", result.error);
    assert_eq!(runner.metrics.qa_runs, 2);
}

#[test]
fn soak_test_no_stuck_tasks() {
    let mut runner = ScenarioRunner::new();
    let tasks = vec![(s("S1"), s("Soak task 1")), (s("S2"), s("Soak task 2")), (s("S3"), s("Soak task 3"))];
    let result = soak(&mut runner, 100, 20, false, 25, tasks);
    assert!(soak_passes(&result, 10.0), "Soak test failed");
    assert_eq!(runner.metrics.total_ticks, 100);
    assert!(result.tally.stuck_tasks.is_empty());
    assert!(result.tally.progress_reports.len() >= 4);
}

#[test]
fn soak_test_with_chaos() {
    let mut runner = ScenarioRunner::new();
    let tasks = vec![(s("C1"), s("Chaos task 1")), (s("C2"), s("Chaos task 2"))];
    let result = soak(&mut runner, 200, 30, true, 50, tasks);
    assert!(soak_passes(&result, 50.0), "Soak+chaos failed");
    assert!(result.tally.chaos_events > 0);
}

#[test]
fn soak_progress_reports_generated() {
    let mut runner = ScenarioRunner::new();
    let result = soak(&mut runner, 100, 50, false, 20, vec![(s("P1"), s("P1"))]);
    assert_eq!(result.tally.progress_reports.len(), 5);
    assert_eq!(result.tally.progress_reports[0].tick, 0);
    assert_eq!(result.tally.progress_reports[1].tick, 20);
}

#[test]
fn chaos_policy_inject_and_clear() {
    let mut chaos = ChaosPolicy::new();
    assert!(chaos.inject(ChaosFault::AgentCrash { task_id: s("T1") }));
    assert!(chaos.has_fault("agent_crash"));
    assert!(chaos.fault_for_task("T1").is_some());
    assert!(chaos.fault_for_task("T2").is_none());
    chaos.clear();
    assert!(!chaos.has_fault("agent_crash"));
}

#[test]
fn chaos_policy_max_concurrent() {
    let mut chaos = ChaosPolicy { max_concurrent_faults: 2, ..ChaosPolicy::new() };
    assert!(chaos.inject(ChaosFault::NetworkOutage));
    assert!(chaos.inject(ChaosFault::DiskFull));
    assert!(!chaos.inject(ChaosFault::ContextGenFailure));
    assert_eq!(chaos.active_faults.len(), 2);
}

#[test]
fn simulated_task_transitions() {
    let mut task = SimulatedTask::new("T1", "Test", NOW);
    assert_eq!(task.state, "CHATTING");
    assert!(!task.is_terminal());

    task.tick();
    assert_eq!(task.ticks_in_state, 1);

    task.transition("READY", 1, "agent done", NOW + 5);
    assert_eq!(task.state, "READY");
    assert_eq!(task.ticks_in_state, 0);
    assert_eq!(task.transitions.len(), 1);
    assert_eq!(task.transitions[0].from, "CHATTING");
    assert_eq!(task.transitions[0].to, "READY");
    assert_eq!(task.updated_at, NOW + 5);
    assert_eq!(task.created_at, NOW);
}

#[test]
fn simulated_task_terminal_states() {
    let mut task = SimulatedTask::new("T1", "Test", NOW);
    assert!(!task.is_terminal());
    task.transition("MERGED", 1, "merged", NOW);
    assert!(task.is_terminal());

    let mut task2 = SimulatedTask::new("T2", "Test", NOW);
    task2.transition("STOPPED", 1, "stopped", NOW);
    assert!(task2.is_terminal());
}

#[test]
fn scenario_metrics_get() {
    let metrics = ScenarioMetrics { total_ticks: 42, tasks_created: 5, tasks_merged: 3, ..ScenarioMetrics::new() };
    assert_eq!(metrics.get("total_ticks"), Some(42));
    assert_eq!(metrics.get("tasks_created"), Some(5));
    assert_eq!(metrics.get("tasks_merged"), Some(3));
    assert_eq!(metrics.get("nonexistent"), None);
}

#[test]
fn scenario_step_log() {
    let mut runner = ScenarioRunner::new();
    let result = run(&mut runner, &[ScenarioStep::Log { message: s("Hello from test") }]);
    assert!(result.passed);
    assert!(runner.log.iter().any(|l| l.contains("Hello from test")));
    assert_eq!(runner.log, vec![s("[tick 0] Hello from test")]);
}

#[test]
fn assert_no_stuck_tasks_passes_when_none_stuck() {
    let mut runner = ScenarioRunner::new();
    let result = run(&mut runner, &[create("NS1", "Test"), ScenarioStep::AssertNoStuckTasks { max_unchanged_ticks: 10 }]);
    assert!(result.passed);
    assert_eq!(result.step_results[1].detail, "No tasks stuck for >= 10 ticks");
}

#[test]
fn assert_no_stuck_tasks_fails_when_stuck() {
    let mut runner = ScenarioRunner::new();
    let result = run(
        &mut runner,
        &[
            create("ST1", "Will get stuck"),
            ScenarioStep::InjectChaos { fault: ChaosFault::AgentHang { task_id: s("ST1") } },
            ScenarioStep::WaitTicks { count: 15 },
            ScenarioStep::AssertNoStuckTasks { max_unchanged_ticks: 10 },
        ],
    );
    assert!(!result.passed);
    let last_step = result.step_results.last().unwrap();
    assert!(!last_step.passed);
    assert!(last_step.detail.contains("ST1"));
    assert_eq!(last_step.detail, "1 task(s) stuck: ST1(CHATTING, 15 ticks)");
    assert_eq!(result.error.as_deref(), Some("Step 3 (assert_no_stuck_tasks) failed: 1 task(s) stuck: ST1(CHATTING, 15 ticks)"));
}

#[test]
fn chaos_fault_labels() {
    assert_eq!(ChaosFault::AgentCrash { task_id: s("T1") }.label(), "agent_crash");
    assert_eq!(ChaosFault::GraphiteFailure { operation: s("submit") }.label(), "graphite_failure");
    assert_eq!(ChaosFault::ContextGenFailure.label(), "context_gen_failure");
    assert_eq!(ChaosFault::ModelHealthDrop { model: s("codex") }.label(), "model_health_drop");
    assert_eq!(ChaosFault::NetworkOutage.label(), "network_outage");
    assert_eq!(ChaosFault::DiskFull.label(), "disk_full");
    assert_eq!(ChaosFault::AgentHang { task_id: s("T1") }.label(), "agent_hang");
}

#[test]
fn step_details_and_actions() {
    let mut runner = ScenarioRunner::new();
    let result = run(
        &mut runner,
        &[
            create("T1", "x"),
            agent("T1", true, "codex"),
            ScenarioStep::SimulateQA { task_id: s("T1"), passed: false, failed_tests: vec![s("a"), s("b")] },
            ScenarioStep::SimulateQA { task_id: s("T1"), passed: true, failed_tests: vec![] },
            verify("T9", true),
            expect("T1", "READY"),
            ScenarioStep::WaitTicks { count: 2 },
            ScenarioStep::AssertTaskCount { expected: 2 },
        ],
    );
    let r = &result.step_results;
    assert_eq!(r[0].action, "create_task");
    assert_eq!(r[0].detail, "Created task T1");
    assert_eq!(r[1].detail, "Agent codex for task T1: success=true");
    assert_eq!(r[2].action, "simulate_qa");
    assert_eq!(r[2].detail, "QA for T1: passed=false, failed_tests=[\"a\", \"b\"]");
    assert_eq!(r[3].detail, "QA for T1: passed=true, failed_tests=[]");
    assert!(!r[4].passed);
    assert_eq!(r[4].detail, "Task T9 not found");
    assert!(!r[5].passed);
    assert_eq!(r[5].detail, "Task T1 expected READY but was CHATTING");
    assert_eq!(r[6].detail, "Waited 2 ticks (now at tick 2)");
    assert_eq!(r[7].detail, "Task count: 1 (expected 2)");
    assert_eq!(result.error.as_deref(), Some("Step 4 (simulate_verify) failed: Task T9 not found"));
    let t = &runner.tasks[0];
    assert_eq!(t.transitions[1].reason, "QA failed: 2 test(s)");
    assert_eq!(runner.log[0], "[tick 0] Created task T1");
    assert_eq!(runner.log[1], "[tick 0] QA passed for T1");
    assert_eq!(runner.metrics.verify_runs, 1);
}

#[test]
fn create_replaces_a_task_with_the_same_id() {
    let mut runner = ScenarioRunner::new();
    let result = run(&mut runner, &[create("T1", "first"), agent("T1", true, "codex"), create("T1", "second")]);
    assert!(result.passed);
    assert_eq!(runner.tasks.len(), 1);
    assert_eq!(runner.tasks[0].description, "second");
    assert_eq!(runner.tasks[0].state, "CHATTING");
    assert_eq!(runner.metrics.tasks_created, 2);
}

#[test]
fn chaos_over_the_limit_is_refused() {
    let mut runner = ScenarioRunner::new();
    let steps: Vec<ScenarioStep> = (0..4).map(|_| ScenarioStep::InjectChaos { fault: ChaosFault::DiskFull }).collect();
    let result = run(&mut runner, &steps);
    assert!(result.step_results[2].passed);
    assert!(!result.step_results[3].passed);
    assert_eq!(result.step_results[3].detail, "Failed to inject chaos: disk_full (max concurrent reached)");
    assert_eq!(runner.chaos.active_faults.len(), 3);
    assert_eq!(runner.metrics.chaos_injections, 4);
    let cleared = runner.execute_step(4, &ScenarioStep::ClearChaos, NOW);
    assert_eq!(cleared.detail, "Cleared 3 active faults");
    assert_eq!(runner.log.last().unwrap(), "[tick 0] Cleared 3 chaos faults");
}

#[test]
fn tasks_progress_by_themselves_unless_targeted() {
    let mut runner = ScenarioRunner::new();
    run(
        &mut runner,
        &[
            create("A", "a"),
            create("B", "b"),
            ScenarioStep::InjectChaos { fault: ChaosFault::AgentHang { task_id: s("B") } },
            ScenarioStep::WaitTicks { count: 5 },
        ],
    );
    assert_eq!(runner.tasks[0].state, "READY");
    assert_eq!(runner.tasks[0].transitions[0].reason, "auto-progress after 5 ticks");
    assert_eq!(runner.tasks[0].transitions[0].at_tick, 5);
    assert_eq!(runner.tasks[0].updated_at, NOW + 5_000_000_000);
    assert_eq!(runner.tasks[1].state, "CHATTING");
    assert_eq!(runner.tasks[1].ticks_in_state, 5);
    // Run on to MERGED: 2 + 3 + 4 more ticks.
    runner.execute_step(4, &ScenarioStep::WaitTicks { count: 9 }, NOW);
    assert_eq!(runner.tasks[0].state, "MERGED");
    assert_eq!(runner.metrics.tasks_merged, 1);
    assert_eq!(runner.metrics.state_transitions, 4);
    // A merged task stays merged.
    runner.execute_step(5, &ScenarioStep::WaitTicks { count: 10 }, NOW);
    assert_eq!(runner.tasks[0].state, "MERGED");
    assert_eq!(runner.tasks[0].transitions.len(), 4);
}

#[test]
fn soak_detects_targeted_tasks_once() {
    let mut runner = ScenarioRunner::new();
    runner.start_soak(&vec![(s("H1"), s("hangs"))], NOW);
    runner.chaos.inject(ChaosFault::AgentHang { task_id: s("H1") });
    let mut tally = SoakTally::new();
    for tick in 0..30 {
        runner.soak_tick(&mut tally, tick, NOW, 10, true, 0);
    }
    assert_eq!(tally.stuck_tasks.len(), 1);
    assert_eq!(tally.stuck_tasks[0].task_id, "H1");
    assert_eq!(tally.stuck_tasks[0].ticks_in_state, 10);
    assert_eq!(tally.stuck_tasks[0].detected_at_tick, 9);
    assert_eq!(runner.metrics.stuck_detections, 1);
    assert_eq!(tally.chaos_events, 2);
    assert!(tally.progress_reports.is_empty());
    assert_eq!(stuck_error_text(tally.stuck_tasks.len()), "1 stuck task(s) detected");
}

#[test]
fn scenario_time_out_is_recorded() {
    let mut p = ScenarioProgress::new();
    p.time_out(31, 30);
    assert!(!p.passed);
    assert_eq!(p.error.as_deref(), Some("Scenario timed out after 31s (limit: 30s)"));
}

#[test]
fn soak_ticks_run_as_single_ticks_do() {
    let tasks = vec![(s("A"), s("a")), (s("B"), s("b"))];
    let mut looped = ScenarioRunner::new();
    looped.start_soak(&tasks, NOW);
    let mut by_loop = SoakTally::new();
    assert_eq!(looped.run_soak_ticks(&mut by_loop, 40, NOW, 5, true, 10), 40);
    let mut stepped = ScenarioRunner::new();
    stepped.start_soak(&tasks, NOW);
    let mut by_step = SoakTally::new();
    for tick in 0..40 {
        stepped.soak_tick(&mut by_step, tick, NOW, 5, true, 10);
    }
    assert_eq!(looped.metrics, stepped.metrics);
    assert_eq!(by_loop.chaos_events, by_step.chaos_events);
    assert_eq!(by_loop.chaos_events, 2);
    assert_eq!(by_loop.progress_reports.len(), 4);
    assert_eq!(by_loop.stuck_tasks.len(), by_step.stuck_tasks.len());
}

#[test]
fn soak_ticks_stop_where_a_counter_is_full() {
    let mut runner = ScenarioRunner::new();
    runner.start_soak(&vec![(s("A"), s("a"))], NOW);
    runner.tasks[0].ticks_in_state = u64::MAX;
    let tally = SoakTally::new();
    assert!(!runner.has_soak_room(&tally, 0, NOW));
    let mut tally = SoakTally::new();
    assert_eq!(runner.run_soak_ticks(&mut tally, 5, NOW, 3, false, 1), 0);
    assert_eq!(runner.metrics.total_ticks, 0);
    assert!(tally.progress_reports.is_empty());
    let fresh = ScenarioRunner::new();
    assert!(fresh.has_soak_room(&tally, 0, NOW));
    assert!(!fresh.has_soak_room(&tally, 1, i64::MAX));
}

#[test]
fn soak_stuck_verdict_counts_stuck_tasks() {
    let tally = SoakTally::new();
    assert_eq!(soak_stuck_error(&tally), None);
    let mut runner = ScenarioRunner::new();
    runner.start_soak(&vec![(s("H1"), s("hangs")), (s("H2"), s("hangs"))], NOW);
    runner.chaos.inject(ChaosFault::AgentHang { task_id: s("H1") });
    runner.chaos.inject(ChaosFault::AgentHang { task_id: s("H2") });
    let mut tally = SoakTally::new();
    runner.run_soak_ticks(&mut tally, 20, NOW, 5, false, 0);
    assert_eq!(tally.stuck_tasks.len(), 2);
    assert_eq!(soak_stuck_error(&tally), Some(s("2 stuck task(s) detected")));
}
