use orchd::global_context::{
    build_task_context_prompt, global_context_paths, needs_refresh, render_compartment,
    render_core, render_empty_main_diff, render_main_diff_snapshot, sanitize_for_file_name,
    select_task_compartments, short_sha, summarize_diff_output, ContextCompartment, TaskRole,
    WorkType,
};

#[test]
fn select_compartments_uses_role_type_and_requested_work() {
    let compartments = select_task_compartments(
        TaskRole::Tests,
        &WorkType::Bugfix,
        "fix flaky verify and check recent main diff for regression",
    );
    assert!(compartments.contains(&ContextCompartment::RepoMap));
    assert!(compartments.contains(&ContextCompartment::Quality));
    assert!(compartments.contains(&ContextCompartment::MainDiff));
    assert_eq!(
        compartments,
        vec![ContextCompartment::RepoMap, ContextCompartment::Quality, ContextCompartment::MainDiff]
    );
}

#[test]
fn select_compartments_general_role() {
    let c = select_task_compartments(TaskRole::General, &WorkType::Other("x".to_string()), "nothing");
    assert_eq!(
        c,
        vec![ContextCompartment::RepoMap, ContextCompartment::Architecture, ContextCompartment::Workflows]
    );
    let c = select_task_compartments(TaskRole::Docs, &WorkType::Chore, "Restack the BRANCH");
    assert_eq!(
        c,
        vec![ContextCompartment::RepoMap, ContextCompartment::Architecture, ContextCompartment::Workflows]
    );
}

#[test]
fn ensure_layout_paths() {
    let paths = global_context_paths("/repo", "feature/x y");
    assert_eq!(paths.context_root, "/repo/.orch/context");
    assert_eq!(paths.global_path, "/repo/.orch/context/global.md");
    assert_eq!(paths.core_path, "/repo/.orch/context/core.md");
    assert_eq!(paths.compartments_dir, "/repo/.orch/context/compartments");
    assert_eq!(paths.latest_main_diff_path, "/repo/.orch/context/updates/main-diff-latest.md");
    assert_eq!(paths.branch_head_marker, "/repo/.orch/context/last_feature_x_y_head.txt");
}

#[test]
fn core_and_compartments_mention_layout() {
    let core = render_core("main");
    assert!(core.contains("compartments/repo-map.md"));
    assert!(core.contains("updates/main-diff-latest.md"));
    assert!(core.contains("- tracked branch: `main`\n"));
    assert!(render_compartment(ContextCompartment::Quality).starts_with("# Quality\n\n"));
    assert_eq!(ContextCompartment::all().len(), 5);
    assert_eq!(ContextCompartment::MainDiff.file_name(), "main-diff.md");
    assert_eq!(ContextCompartment::RepoMap.purpose(), "where code and services live");
}

#[test]
fn build_task_prompt_section_includes_core_and_selected_compartments() {
    let paths = global_context_paths("/repo", "main");
    let section = build_task_context_prompt(
        &paths,
        TaskRole::Architecture,
        &WorkType::Feature,
        "update service architecture and module boundaries",
    );
    assert!(section.contains("Core file (legacy alias):"));
    assert!(section.contains("Global file:"));
    assert!(section.contains("global.md"));
    assert!(section.contains("repo-map.md"));
    assert!(section.contains("architecture.md"));
    assert!(section.contains("main-diff-latest.md"));
    assert!(section.contains("- /repo/.orch/context/compartments/architecture.md (system boundaries and ownership)"));
}

#[test]
fn diff_snapshot_rendering() {
    let diff = summarize_diff_output("a..b".to_string(), "M\tREADME.md\n\n  A\tsrc/x.rs  \n", "\n 2 files changed\n");
    assert_eq!(diff.name_status_lines, vec!["M\tREADME.md".to_string(), "A\tsrc/x.rs".to_string()]);
    assert_eq!(diff.shortstat.as_deref(), Some("2 files changed"));
    let text = render_main_diff_snapshot("main", &None, "abc", "2024-01-01T00:00:00+00:00", &diff);
    assert!(text.contains("From: <none>\nTo: abc\nRange: a..b\nSummary: 2 files changed\nChanged files: 2\n"));
    assert!(text.contains("```text\nM\tREADME.md\nA\tsrc/x.rs\n```\n"));
    let empty = render_empty_main_diff("main", "T");
    assert!(empty.contains("Generated at: T\nBranch: main\n"));
}

#[test]
fn refresh_and_short_sha() {
    assert!(needs_refresh(&None, "abc"));
    assert!(!needs_refresh(&Some("abc".to_string()), "abc"));
    assert!(needs_refresh(&Some("abd".to_string()), "abc"));
    assert_eq!(short_sha("  0123456789abcdef  "), "0123456789ab");
    assert_eq!(short_sha("abc"), "abc");
    assert_eq!(sanitize_for_file_name(""), "branch");
}
