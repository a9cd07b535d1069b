use orchd::context_gen::{
    check_context_startup, context_is_current, parse_context_gen_output, parse_progress_line,
    sanitize_path, should_regenerate, ContextGenStatus, ContextStartupStatus,
};
use orchd::context_gen::{
    context_gen_prompt, finish_generation, generation_status, poll_step, render_repo_snapshot, CrateSource, GenFinish,
    GenProcess, RepoEntry,
};

#[test]
fn parse_context_gen_output_basic() {
    let raw = "\
Some preamble text ignored.
<!-- FILE: MAIN.md -->
# Main Context

This is the main file.
<!-- FILE: architecture.md -->
# Architecture

Crate layout here.
";
    let output = parse_context_gen_output(raw);
    assert_eq!(output.files.len(), 2);
    assert_eq!(output.files[0].filename, "MAIN.md");
    assert!(output.files[0].content.contains("main file"));
    assert_eq!(output.files[1].filename, "architecture.md");
    assert!(output.files[1].content.contains("Crate layout"));
}

#[test]
fn parse_context_gen_output_empty() {
    let output = parse_context_gen_output("no file markers here");
    assert!(output.files.is_empty());
}

#[test]
fn parse_context_gen_output_strips_path_traversal() {
    let raw = "<!-- FILE: ../../../etc/passwd -->\nevil content\n";
    let output = parse_context_gen_output(raw);
    assert_eq!(output.files.len(), 1);
    assert!(!output.files[0].filename.contains(".."));
}

#[test]
fn sanitize_path_allows_subdirectories() {
    assert_eq!(sanitize_path("MAIN.md"), "MAIN.md");
    assert_eq!(sanitize_path("crates/orchd/overview.md"), "crates/orchd/overview.md");
    assert_eq!(sanitize_path("architecture/data-flow.md"), "architecture/data-flow.md");
}

#[test]
fn sanitize_path_strips_dangerous_sequences() {
    assert_eq!(sanitize_path("../evil.md"), "evil.md");
    assert_eq!(sanitize_path("../../x"), "x");
    assert_eq!(sanitize_path(".."), "unnamed.md");
    assert_eq!(sanitize_path("foo\\bar.md"), "foobar.md");
    assert_eq!(sanitize_path("/etc/passwd"), "etc/passwd");
}

#[test]
fn sanitize_path_empty_becomes_unnamed() {
    assert_eq!(sanitize_path(""), "unnamed.md");
    assert_eq!(sanitize_path(".."), "unnamed.md");
}

#[test]
fn parse_context_gen_output_nested_paths() {
    let raw = "\
<!-- FILE: MAIN.md -->
# Main
<!-- FILE: architecture/overview.md -->
# Architecture Overview
<!-- FILE: crates/orchd/daemon-loop.md -->
# Daemon Loop
";
    let output = parse_context_gen_output(raw);
    assert_eq!(output.files.len(), 3);
    assert_eq!(output.files[0].filename, "MAIN.md");
    assert_eq!(output.files[1].filename, "architecture/overview.md");
    assert_eq!(output.files[2].filename, "crates/orchd/daemon-loop.md");
}

#[test]
fn parse_output_drops_empty_files_and_trims_content() {
    let raw = "<!-- FILE: a.md -->\n\n   \n<!-- FILE: b.md -->\n  body  \r\n\n";
    let output = parse_context_gen_output(raw);
    assert_eq!(output.files.len(), 1);
    assert_eq!(output.files[0].filename, "b.md");
    assert_eq!(output.files[0].content, "body");
}

#[test]
fn context_currency_decisions() {
    assert!(!context_is_current(false, None, None));
    assert!(context_is_current(true, None, None));
    assert!(context_is_current(true, Some("abc".to_string()), Some("abc".to_string())));
    assert!(!context_is_current(true, Some("abc".to_string()), Some("abd".to_string())));
    assert!(!context_is_current(true, Some("abc".to_string()), None));
    assert_eq!(check_context_startup(true, true), ContextStartupStatus::UpToDate);
    assert_eq!(check_context_startup(false, true), ContextStartupStatus::Stale);
    assert_eq!(check_context_startup(false, false), ContextStartupStatus::Missing);
}

#[test]
fn progress_lines_for_tool_calls() {
    assert_eq!(parse_progress_line("   "), None);
    assert_eq!(parse_progress_line("Read(file=\"src/lib.rs\")"), Some("reading src/lib.rs".to_string()));
    assert_eq!(parse_progress_line("Glob(pattern=\"**/*.rs\")"), Some("searching **/*.rs".to_string()));
    assert_eq!(parse_progress_line("Grep(foo)"), Some("searching for foo".to_string()));
    assert_eq!(parse_progress_line("Write(file=out.md)"), Some("writing out.md".to_string()));
    let long = format!("Bash(command=\"{}\")", "x".repeat(80));
    assert_eq!(parse_progress_line(&long), Some(format!("running {}", "x".repeat(60))));
}

#[test]
fn progress_lines_for_other_output() {
    assert_eq!(parse_progress_line("{\"tool\": \"Read\"}"), Some("reading file...".to_string()));
    assert_eq!(parse_progress_line("tool_use something"), Some("agent working...".to_string()));
    assert_eq!(parse_progress_line("<!-- FILE: MAIN.md -->"), Some("writing MAIN.md".to_string()));
    assert_eq!(parse_progress_line("  analysing crates  "), Some("analysing crates".to_string()));
    assert_eq!(parse_progress_line("[1,2,3]"), Some("agent working...".to_string()));
    assert_eq!(parse_progress_line(&"y".repeat(130)), Some("agent working...".to_string()));
}

#[test]
fn should_regenerate_respects_cooldown() {
    let now: i64 = 1_700_000_000_000_000_000;
    let sec: i64 = 1_000_000_000;
    // Never generated: regenerate.
    assert!(should_regenerate(ContextGenStatus::Idle, None, 300, now));
    // Just generated: wait.
    assert!(!should_regenerate(ContextGenStatus::Idle, Some(now), 300, now));
    // Generated long ago: regenerate.
    assert!(should_regenerate(ContextGenStatus::Completed, Some(now - 600 * sec), 300, now));
    // Exactly at the cooldown, and just before it.
    assert!(should_regenerate(ContextGenStatus::Failed, Some(now - 300 * sec), 300, now));
    assert!(!should_regenerate(ContextGenStatus::Failed, Some(now - 300 * sec + 1), 300, now));
}

#[test]
fn should_regenerate_blocks_while_running() {
    let now: i64 = 1_700_000_000_000_000_000;
    assert!(!should_regenerate(ContextGenStatus::Running, None, 300, now));
    assert!(!should_regenerate(ContextGenStatus::Running, Some(0), 300, now));
}

fn file(name: &str) -> RepoEntry {
    RepoEntry { name: name.to_string(), is_dir: false, children: vec![] }
}

fn dir(name: &str, children: &[&str]) -> RepoEntry {
    RepoEntry { name: name.to_string(), is_dir: true, children: children.iter().map(|c| c.to_string()).collect() }
}

#[test]
fn scan_repo_snapshot_includes_cargo_toml() {
    let cargo = "[workspace]\nmembers = [\"crates/*\"]\n".to_string();
    let snapshot = render_repo_snapshot(Some(cargo), None, Some(vec![file("Cargo.toml")]), None);
    assert!(snapshot.contains("Cargo.toml"));
    assert!(snapshot.contains("members"));
}

#[test]
fn build_context_gen_prompt_includes_snapshot() {
    let snapshot = render_repo_snapshot(Some("[workspace]\n".to_string()), None, Some(vec![file("Cargo.toml")]), None);
    let prompt = context_gen_prompt(None, &snapshot);
    assert!(prompt.contains("Repository Snapshot"));
    assert!(prompt.contains("[workspace]"));
}

#[test]
fn repo_snapshot_lists_the_tree_in_order() {
    let entries = vec![
        dir("src", &["main.rs", ".hidden", "lib.rs"]),
        file(".gitignore"),
        dir(".othala", &["context"]),
        file("README.md"),
    ];
    let snapshot = render_repo_snapshot(None, Some("Hello".to_string()), Some(entries), None);
    assert_eq!(
        snapshot,
        "# Repository Snapshot\n\n## README.md\nHello\n\n## Directory Structure\n```\n  .othala/context\n  src/lib.rs\n  src/main.rs\n.othala\nREADME.md\nsrc\n```\n\n"
    );
    let unread = render_repo_snapshot(None, None, None, None);
    assert_eq!(unread, "# Repository Snapshot\n\n## Directory Structure\n```\n```\n\n");
}

#[test]
fn repo_snapshot_heads_each_crate_lib_in_name_order() {
    let long: String = (1..=100).map(|i| format!("line {i}\n")).collect();
    let crates = vec![
        CrateSource { name: "zeta".to_string(), lib_rs: Some("pub mod z;\n".to_string()) },
        CrateSource { name: "alpha".to_string(), lib_rs: Some(long) },
        CrateSource { name: "mid".to_string(), lib_rs: None },
    ];
    let snapshot = render_repo_snapshot(None, None, Some(vec![]), Some(crates));
    let alpha = snapshot.find("## crates/alpha/src/lib.rs").unwrap();
    let zeta = snapshot.find("## crates/zeta/src/lib.rs").unwrap();
    assert!(alpha < zeta);
    assert!(!snapshot.contains("crates/mid"));
    assert!(snapshot.contains("line 80\n```"));
    assert!(!snapshot.contains("line 81"));
    assert!(snapshot.ends_with("```rust\npub mod z;\n```\n\n"));
}

#[test]
fn context_gen_prompt_puts_template_first() {
    assert_eq!(context_gen_prompt(Some("T"), "S"), "T\n\n---\n\nS");
    assert_eq!(context_gen_prompt(None, "S"), "S");
}

#[test]
fn poll_step_drains_only_an_exited_running_generation() {
    let (idle, running, failed, done) =
        (ContextGenStatus::Idle, ContextGenStatus::Running, ContextGenStatus::Failed, ContextGenStatus::Completed);
    assert_eq!(poll_step(idle, GenProcess::Exited), (idle, false));
    assert_eq!(poll_step(done, GenProcess::Running), (done, false));
    assert_eq!(poll_step(running, GenProcess::Missing), (failed, false));
    assert_eq!(poll_step(running, GenProcess::Running), (running, false));
    assert_eq!(poll_step(running, GenProcess::Exited), (running, true));
}

#[test]
fn finish_generation_writes_adopts_or_fails() {
    let lines = vec!["noise".to_string(), "<!-- FILE: MAIN.md -->".to_string(), "# Main".to_string()];
    match finish_generation(&lines, false) {
        GenFinish::Write(out) => {
            assert_eq!(out.files.len(), 1);
            assert_eq!(out.files[0].filename, "MAIN.md");
            assert_eq!(out.files[0].content, "# Main");
        },
        other => panic!("expected files to write, got {other:?}"),
    }
    let quiet = vec!["working".to_string()];
    let adopted = finish_generation(&quiet, true);
    assert!(matches!(adopted, GenFinish::StampWritten));
    let none = finish_generation(&quiet, false);
    assert!(matches!(none, GenFinish::NoFiles));
    assert_eq!(generation_status(&adopted, false), ContextGenStatus::Completed);
    assert_eq!(generation_status(&none, true), ContextGenStatus::Failed);
    let written = finish_generation(&lines, true);
    assert_eq!(generation_status(&written, true), ContextGenStatus::Completed);
    assert_eq!(generation_status(&written, false), ContextGenStatus::Failed);
}

#[test]
fn parsed_files_have_safe_names_and_trimmed_content() {
    let raw = "<!-- FILE: ../../etc/passwd -->\n  secret  \n<!-- FILE: /a\\b/..//c.md/ -->\n\n<!-- FILE: ok.md -->\n x \n";
    let out = parse_context_gen_output(raw);
    assert_eq!(out.files.len(), 2);
    for f in &out.files {
        assert!(!f.filename.is_empty() && !f.filename.starts_with('/') && !f.filename.ends_with('/'));
        assert!(!f.filename.contains("..") && !f.filename.contains('\\'));
        assert!(!f.content.is_empty() && f.content == f.content.trim());
    }
    assert_eq!(out.files[0].filename, "etc/passwd");
    assert_eq!(out.files[0].content, "secret");
    assert!(parse_context_gen_output("no file markers here").files.is_empty());
}
