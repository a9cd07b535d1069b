use orchd::delegation::{
    extract_delegate_json_candidate, extract_first_json_object, format_delegation_prompt,
    parse_delegation_from_agent_output, parse_plan_candidate, plan_from_checkboxes, plan_json_text, DelegationPlan, DelegationStrategy,
    DelegationTracker, SubTaskSpec, SubTaskStatus, UtcTime,
};

fn at(secs: i64) -> UtcTime {
    UtcTime { secs, nanos: 0 }
}

fn subtask(title: &str, depends_on: &[&str]) -> SubTaskSpec {
    SubTaskSpec {
        title: title.to_string(),
        description: format!("Work on {title}"),
        model: None,
        priority: None,
        depends_on: depends_on.iter().map(|d| d.to_string()).collect(),
        files: Vec::new(),
        verify_command: None,
    }
}

#[test]
fn new_plan_has_defaults() {
    let plan = DelegationPlan::new("T-parent", at(0));
    assert_eq!(plan.parent_task_id, "T-parent");
    assert_eq!(plan.strategy, DelegationStrategy::Sequential);
    assert_eq!(plan.max_parallel, 1);
    assert!(plan.fail_fast);
    assert!(plan.timeout_secs.is_none());
    assert!(plan.subtasks.is_empty());
}

#[test]
fn add_subtask_works() {
    let mut plan = DelegationPlan::new("T-parent", at(0));
    plan.add_subtask(subtask("one", &[]));
    assert_eq!(plan.subtasks.len(), 1);
    assert_eq!(plan.subtasks[0].title, "one");
}

#[test]
fn validate_catches_empty_title() {
    let mut plan = DelegationPlan::new("T-parent", at(0));
    plan.add_subtask(subtask("", &[]));

    let errors = plan.validate().expect_err("expected errors");
    assert!(errors.iter().any(|e| e.contains("empty title")));
}

#[test]
fn validate_catches_cyclic_deps() {
    let mut plan = DelegationPlan::new("T-parent", at(0));
    plan.add_subtask(subtask("a", &["b"]));
    plan.add_subtask(subtask("b", &["a"]));

    let errors = plan.validate().expect_err("expected cycle");
    assert!(errors.iter().any(|e| e.contains("cyclic")));
}

#[test]
fn validate_lists_every_error_in_order() {
    let mut plan = DelegationPlan::new("T-parent", at(0));
    plan.add_subtask(subtask(" a ", &[]));
    plan.add_subtask(subtask("a", &["zzz"]));
    plan.add_subtask(subtask("  ", &[]));
    let errors = plan.validate().expect_err("errors");
    assert_eq!(
        errors,
        vec![
            "duplicate subtask title: a".to_string(),
            "subtask 2 has empty title".to_string(),
            "subtask 1 depends on missing subtask title: zzz".to_string(),
        ]
    );
}

#[test]
fn execution_order_sequential() {
    let mut plan = DelegationPlan::new("T-parent", at(0));
    plan.add_subtask(subtask("a", &[]));
    plan.add_subtask(subtask("b", &[]));
    plan.add_subtask(subtask("c", &[]));

    let order = plan.execution_order().expect("order");
    assert_eq!(order, vec![vec![0], vec![1], vec![2]]);
}

#[test]
fn execution_order_with_deps() {
    let mut plan = DelegationPlan::new("T-parent", at(0));
    plan.strategy = DelegationStrategy::Parallel;
    plan.max_parallel = 10;
    plan.add_subtask(subtask("a", &[]));
    plan.add_subtask(subtask("b", &["a"]));
    plan.add_subtask(subtask("c", &["a"]));

    let order = plan.execution_order().expect("order");
    assert_eq!(order, vec![vec![0], vec![1, 2]]);
}

#[test]
fn execution_order_chunks_by_parallel_limit() {
    let mut plan = DelegationPlan::new("T-parent", at(0));
    plan.strategy = DelegationStrategy::Conditional;
    plan.max_parallel = 2;
    for t in ["a", "b", "c", "d", "e"] {
        plan.add_subtask(subtask(t, &[]));
    }
    plan.add_subtask(subtask("f", &["e", "a"]));
    let order = plan.execution_order().expect("order");
    assert_eq!(order, vec![vec![0, 1], vec![2, 3], vec![4], vec![5]]);
}

#[test]
fn execution_order_reports_validation_errors() {
    let mut plan = DelegationPlan::new("T-parent", at(0));
    plan.add_subtask(subtask("a", &["b"]));
    plan.add_subtask(subtask("b", &["a"]));
    assert_eq!(plan.execution_order(), Err("cyclic dependencies detected".to_string()));
}

#[test]
fn tracker_next_runnable() {
    let mut plan = DelegationPlan::new("T-parent", at(0));
    plan.add_subtask(subtask("a", &[]));
    plan.add_subtask(subtask("b", &["a"]));

    let mut tracker = DelegationTracker::new(plan);
    assert_eq!(tracker.next_runnable(), vec![0]);

    tracker.start_subtask(0, "ST-1", 1);
    tracker.complete_subtask(0, 2);
    assert_eq!(tracker.next_runnable(), vec![1]);
}

#[test]
fn tracker_complete_flow() {
    let mut plan = DelegationPlan::new("T-parent", at(0));
    plan.add_subtask(subtask("a", &[]));

    let mut tracker = DelegationTracker::new(plan);
    tracker.start_subtask(0, "ST-1", 5);
    assert!(!tracker.is_complete());
    assert_eq!(tracker.started_at, Some(5));
    tracker.complete_subtask(0, 9);
    assert!(tracker.is_complete());
    assert!(tracker.completed_at.is_some());
    assert_eq!(tracker.completed_at, Some(9));
}

#[test]
fn tracker_fail_fast_behavior() {
    let mut plan = DelegationPlan::new("T-parent", at(0));
    plan.fail_fast = true;
    plan.add_subtask(subtask("a", &[]));
    plan.add_subtask(subtask("b", &[]));

    let mut tracker = DelegationTracker::new(plan);
    tracker.fail_subtask(0, "boom", 1);

    assert!(tracker.is_failed());
    assert!(tracker.next_runnable().is_empty());
    assert_eq!(tracker.statuses[0], SubTaskStatus::Failed("boom".to_string()));
}

#[test]
fn tracker_without_fail_fast_keeps_going() {
    let mut plan = DelegationPlan::new("T-parent", at(0));
    plan.fail_fast = false;
    plan.add_subtask(subtask("a", &[]));
    plan.add_subtask(subtask("b", &[]));
    let mut tracker = DelegationTracker::new(plan);
    tracker.fail_subtask(0, "boom", 1);
    assert_eq!(tracker.next_runnable(), vec![1]);
    tracker.skip_subtask(1, 2);
    assert!(tracker.is_complete());
}

#[test]
fn tracker_ignores_unknown_index() {
    let mut plan = DelegationPlan::new("T-parent", at(0));
    plan.add_subtask(subtask("a", &[]));
    let mut tracker = DelegationTracker::new(plan);
    tracker.start_subtask(7, "ST-9", 1);
    assert_eq!(tracker.started_at, None);
    assert_eq!(tracker.statuses, vec![SubTaskStatus::Pending]);
}

#[test]
fn progress_summary_formatting() {
    let mut plan = DelegationPlan::new("T-parent", at(0));
    plan.add_subtask(subtask("a", &[]));
    plan.add_subtask(subtask("b", &[]));
    plan.add_subtask(subtask("c", &[]));

    let mut tracker = DelegationTracker::new(plan);
    tracker.complete_subtask(0, 1);
    tracker.start_subtask(1, "ST-2", 2);

    assert_eq!(tracker.progress_summary(), "1/3 complete, 1 running, 1 pending");
    tracker.fail_subtask(2, "x", 3);
    assert_eq!(tracker.progress_summary(), "1/3 complete, 1 running, 0 pending, 1 failed");
}

#[test]
fn parse_delegation_from_agent_output_with_json() {
    let output = r#"Agent says:
DELEGATE: {
  "parent_task_id": "T-parent",
  "strategy": "parallel",
  "subtasks": [
    {"title": "a", "description": "A", "depends_on": []},
    {"title": "b", "description": "B", "depends_on": ["a"]}
  ]
}
"#;

    let plan = parse_delegation_from_agent_output(output, at(0)).expect("parsed plan");
    assert_eq!(plan.parent_task_id, "T-parent");
    assert_eq!(plan.strategy, DelegationStrategy::Parallel);
    assert_eq!(plan.subtasks.len(), 2);
}

#[test]
fn parse_delegation_from_agent_output_returns_none_for_no_delegation() {
    assert!(parse_delegation_from_agent_output("No work decomposition provided", at(0)).is_none());
}

#[test]
fn parse_delegation_from_checkboxes() {
    let plan = parse_delegation_from_agent_output("Plan:\n- [ ] write tests\n* [ ]  fix bug \n- [ ]   \n", at(0))
        .expect("checkbox plan");
    assert_eq!(plan.parent_task_id, "parent");
    let titles: Vec<&str> = plan.subtasks.iter().map(|s| s.title.as_str()).collect();
    assert_eq!(titles, vec!["write tests", "fix bug"]);
    assert_eq!(plan.subtasks[1].description, "fix bug");
    assert!(parse_delegation_from_agent_output("- [ ] a\n- [ ] a\n", at(0)).is_none());
}

#[test]
fn extract_first_json_object_skips_braces_in_strings() {
    assert_eq!(
        extract_first_json_object(r#"x {"a": "}{", "b": {"c": 1}} tail"#).as_deref(),
        Some(r#"{"a": "}{", "b": {"c": 1}}"#)
    );
    assert_eq!(extract_first_json_object("no object"), None);
    assert_eq!(extract_first_json_object(r#"{"open": "\"}"#), None);
}

#[test]
fn delegate_candidate_split() {
    let (prefix, cand) = extract_delegate_json_candidate("ab DELEGATE:  {x} ").expect("marker");
    assert_eq!(prefix, "ab ");
    assert_eq!(cand, "{x}");
    assert!(extract_delegate_json_candidate("nothing").is_none());
    assert_eq!(plan_json_text("{x").as_deref(), Some("{x"));
    assert_eq!(plan_json_text("a {\"k\":1} b").as_deref(), Some("{\"k\":1}"));
    assert_eq!(plan_json_text("abc"), None);
}

#[test]
fn all_results_returns_sorted_indices() {
    let mut plan = DelegationPlan::new("T-parent", at(0));
    plan.add_subtask(subtask("a", &[]));
    plan.add_subtask(subtask("b", &[]));
    let mut tracker = DelegationTracker::new(plan);
    tracker.complete_subtask(1, 1);
    tracker.start_subtask(0, "ST-1", 2);

    let results = tracker.all_results();
    assert_eq!(results[0].0, 0);
    assert_eq!(results[1].0, 1);
    assert_eq!(*results[1].1, SubTaskStatus::Completed);
}

#[test]
fn format_delegation_prompt_includes_key_fields() {
    let mut plan = DelegationPlan::new("T-parent", at(0));
    plan.add_subtask(subtask("a", &[]));
    let prompt = format_delegation_prompt(&plan);
    assert!(prompt.contains("Parent Task: T-parent"));
    assert!(prompt.contains("1. a"));
    assert!(prompt.ends_with("   - Description: Work on a"));
}

#[test]
fn plan_summary_lists_subtasks() {
    let mut plan = DelegationPlan::new("T-parent", at(0));
    plan.timeout_secs = Some(60);
    plan.add_subtask(subtask("a", &[]));
    plan.add_subtask(subtask("b", &["a"]));
    assert_eq!(
        plan.summary(),
        "Delegation plan for T-parent: 2 subtask(s), strategy=sequential, max_parallel=1, fail_fast=true, timeout=60s\n0: a (deps: none)\n1: b (deps: a)"
    );
}

#[test]
fn parse_plan_candidate_reads_text() {
    let plan = parse_plan_candidate(
        r#"prefix {"subtasks":[{"title":"a"},{"title":"b","depends_on":["a"]}],"strategy":"parallel","max_parallel":0} tail"#,
        "T-fallback",
        at(7),
    )
    .expect("plan");
    assert_eq!(plan.parent_task_id, "T-fallback");
    assert_eq!(plan.strategy, DelegationStrategy::Parallel);
    assert_eq!(plan.max_parallel, 1);
    assert_eq!(plan.created_at, at(7));
    assert_eq!(plan.subtasks.len(), 2);
    assert!(parse_plan_candidate("{not json", "p", at(0)).is_none());
    assert!(parse_plan_candidate("no object here", "p", at(0)).is_none());
    assert!(parse_plan_candidate(r#"{"subtasks":[]}"#, "p", at(0)).is_none());
}

#[test]
fn parse_plan_candidate_keeps_a_fully_written_plan() {
    let text = r#"{"parent_task_id":"T-9","strategy":"parallel","created_at":"2024-01-02T03:04:05Z",
        "max_parallel":0,"fail_fast":false,"timeout_secs":null,
        "subtasks":[{"title":"a","description":"do a","model":null,"priority":"high",
                     "depends_on":[],"files":["x.rs"],"verify_command":null}]}"#;
    let plan = parse_plan_candidate(text, "fallback", at(7)).expect("typed plan");
    assert_eq!(plan.parent_task_id, "T-9");
    assert_eq!(plan.max_parallel, 0);
    assert!(!plan.fail_fast);
    assert_eq!(plan.created_at, UtcTime { secs: 1_704_164_645, nanos: 0 });
    assert_eq!(plan.subtasks[0].priority.as_deref(), Some("high"));
    // Without a creation time the plan is read field by field instead.
    let loose = r#"{"parent_task_id":"T-9","max_parallel":0,"subtasks":[{"title":"a"}]}"#;
    let plan = parse_plan_candidate(loose, "fallback", at(7)).expect("loose plan");
    assert_eq!(plan.max_parallel, 1);
    assert_eq!(plan.created_at, at(7));
}

#[test]
fn parse_plan_candidate_keeps_times_far_from_now() {
    let text = r#"{"parent_task_id":"T-far","strategy":"sequential","created_at":"2400-05-06T07:08:09.5Z",
        "max_parallel":2,"fail_fast":true,"timeout_secs":30,
        "subtasks":[{"title":"a","description":"","model":null,"priority":null,
                     "depends_on":[],"files":[],"verify_command":null}]}"#;
    let plan = parse_plan_candidate(text, "fallback", at(7)).expect("typed plan");
    assert_eq!(plan.parent_task_id, "T-far");
    assert_eq!(plan.created_at, UtcTime { secs: 13_580_377_689, nanos: 500_000_000 });
    assert_eq!(plan.timeout_secs, Some(30));
    let early = text.replace("2400-05-06T07:08:09.5Z", "1600-01-01T00:00:00Z");
    let plan = parse_plan_candidate(&early, "fallback", at(7)).expect("typed plan");
    assert_eq!(plan.created_at, UtcTime { secs: -11_676_096_000, nanos: 0 });
}

#[test]
fn valid_plans_always_get_an_order() {
    let mut plan = DelegationPlan::new("T-parent", at(0));
    plan.subtasks = vec![subtask("a", &[]), subtask("b", &["a"]), subtask("c", &["a"]), subtask("d", &["b", "c"])];
    assert!(plan.validate().is_ok());
    assert_eq!(plan.execution_order().unwrap(), vec![vec![0], vec![1], vec![2], vec![3]]);
    plan.subtasks = vec![subtask("a", &["b"]), subtask("b", &["a"])];
    assert!(plan.validate().is_err());
    assert!(plan.execution_order().is_err());
}
