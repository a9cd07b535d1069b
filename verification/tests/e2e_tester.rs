use orchd::e2e_tester::{
    after_stage, evaluate_pass_criteria, failed_stage_names, E2EGate, E2ESpec, E2ETester,
    E2ETesterConfig, PassCriteria, RunProgress, StageOutcome, TestStage,
};
use orchd::e2e_tester::{truncate_output, GateVerdict};

fn outcome(name: &str, passed: bool, skipped: bool) -> StageOutcome {
    StageOutcome { name: name.to_string(), passed, skipped }
}

#[test]
fn default_spec_detects_rust_repo() {
    let spec = E2ESpec::default_for_repo(true, false, false);
    assert!(spec.stages.iter().any(|s| s.name == "compile"));
    assert!(spec.stages.iter().any(|s| s.name == "unit"));
    assert!(spec.stages.iter().any(|s| s.command.contains("cargo")));
    assert!(spec.nix_shell.is_none());
    let nix = E2ESpec::default_for_repo(true, true, false);
    assert_eq!(nix.nix_shell.as_deref(), Some("nix develop"));
}

#[test]
fn default_spec_node_and_plain() {
    let node = E2ESpec::default_for_repo(true, true, true);
    let names: Vec<&str> = node.stages.iter().map(|s| s.name.as_str()).collect();
    assert_eq!(names, vec!["install", "compile", "lint", "test"]);
    let plain = E2ESpec::default_for_repo(false, false, false);
    assert_eq!(plain.stages.len(), 2);
    assert_eq!(plain.stages[1].command, "cargo test");
    assert_eq!(plain.timeout_secs, 1800);
    assert!(plain.required);
}

#[test]
fn load_or_default_prefers_loaded() {
    let mut mine = E2ESpec::default();
    mine.name = "custom".to_string();
    assert_eq!(E2ESpec::load_or_default(Some(mine), true, false, false).name, "custom");
    assert_eq!(E2ESpec::load_or_default(None, true, false, false).stages.len(), 3);
}

#[test]
fn stage_result_tracking() {
    let stages = vec![outcome("compile", true, false), outcome("test", false, false), outcome("x", false, true)];
    assert_eq!(failed_stage_names(&stages), vec!["test".to_string()]);
}

#[test]
fn pass_criteria_evaluation() {
    let criteria = PassCriteria {
        min_stages_passed: Some(2),
        all_required_must_pass: true,
        required_stages: vec!["compile".to_string()],
    };
    let stages = vec![outcome("compile", true, false), outcome("test", true, false)];
    assert!(evaluate_pass_criteria(&criteria, &stages, true));
    assert!(!evaluate_pass_criteria(&criteria, &stages, false));
    assert!(!evaluate_pass_criteria(&criteria, &stages[..1], true));
    let missing = PassCriteria { required_stages: vec!["lint".to_string()], ..PassCriteria::default() };
    assert!(!evaluate_pass_criteria(&missing, &stages, true));
}

#[test]
fn run_progress_stops_on_blocking_failure() {
    let required = TestStage {
        name: "unit".to_string(),
        command: "cargo test".to_string(),
        timeout_secs: 1,
        required: true,
        continue_on_fail: false,
    };
    let p = after_stage(RunProgress { should_continue: true, all_passed: true }, &required, false);
    assert_eq!(p, RunProgress { should_continue: false, all_passed: false });
    let lint = TestStage { required: false, continue_on_fail: true, ..required.clone() };
    let p = after_stage(RunProgress { should_continue: true, all_passed: true }, &lint, false);
    assert_eq!(p, RunProgress { should_continue: true, all_passed: true });
}

#[test]
fn override_detection() {
    let tester = E2ETester::default();
    assert!(tester.override_allowed(&Some("mode = \"merge\"\nprod = false".to_string()), &None));
    assert!(tester.override_allowed(&None, &Some("My-Sandbox".to_string())));
    assert!(!tester.override_allowed(&None, &Some("prod-api".to_string())));
}

#[test]
fn skip_detection() {
    let tester = E2ETester::new(E2ETesterConfig::default());
    assert!(tester.should_skip(true, &None));
    assert!(tester.should_skip(false, &Some("e2e = false".to_string())));
    assert!(!tester.should_skip(false, &Some("e2e = true".to_string())));
    assert_eq!(tester.config.max_output_bytes, 100_000);
}

#[test]
fn gate_decisions() {
    let gate = E2EGate::new(E2ETester::default());
    let spec = E2ESpec::default();
    assert!(gate.would_run(false, &spec));
    assert!(!gate.would_run(true, &spec));
    let stages = vec![outcome("a", false, false), outcome("b", false, false)];
    assert_eq!(gate.failure_reason(false, &stages), "E2E failed. Stages failed: a, b");
    assert_eq!(
        gate.failure_reason(true, &stages),
        "E2E failed but override allowed for non-prod repo. Failed: a, b"
    );
}

#[test]
fn gate_skips_allows_overrides_or_blocks() {
    let gate = E2EGate::default();
    let mut spec = E2ESpec::default();
    assert_eq!(gate.skip_reason(true, &spec).as_deref(), Some("E2E skipped for this repo"));
    assert_eq!(gate.skip_reason(false, &spec), None);
    spec.required = false;
    assert_eq!(gate.skip_reason(false, &spec).as_deref(), Some("E2E not required by spec"));
    let stages = vec![outcome("compile", true, false), outcome("unit", false, false), outcome("lint", false, true)];
    assert_eq!(gate.verdict(true, true, &stages), GateVerdict::Allow);
    assert_eq!(
        gate.verdict(false, true, &stages),
        GateVerdict::AllowOverride { reason: "E2E failed but override allowed for non-prod repo. Failed: unit".to_string() }
    );
    assert_eq!(gate.verdict(false, false, &stages), GateVerdict::Block { reason: "E2E failed. Stages failed: unit".to_string() });
}

#[test]
fn stage_output_is_cut_at_the_limit() {
    assert_eq!(truncate_output("short", 10), "short");
    assert_eq!(truncate_output("exactly10!", 10), "exactly10!");
    assert_eq!(truncate_output("0123456789abc", 10), "0123456789...[truncated]");
    assert_eq!(truncate_output("héllo", 3), "hé...[truncated]");
}
