use orchd::agent_dispatch::{AgentDispatcher, AgentRole, DispatchConfig, TaskIntent, TaskType};

#[test]
fn task_intent_classification() {
    assert_eq!(TaskIntent::classify("Add feature", TaskType::Implement, false), TaskIntent::Implementation);
    assert_eq!(TaskIntent::classify("Fix bug in login", TaskType::Implement, false), TaskIntent::BugFix);
    assert_eq!(TaskIntent::classify("Document API", TaskType::Implement, false), TaskIntent::Documentation);
    assert_eq!(TaskIntent::classify("Anything", TaskType::Implement, true), TaskIntent::ErrorRecovery);
}

#[test]
fn task_intent_keyword_precedence() {
    assert_eq!(TaskIntent::classify("Fix simple typo in config", TaskType::Implement, false), TaskIntent::QuickFix);
    assert_eq!(TaskIntent::classify("Review PR", TaskType::Implement, false), TaskIntent::Review);
    assert_eq!(TaskIntent::classify("Refactor module", TaskType::Implement, false), TaskIntent::Refactor);
    assert_eq!(TaskIntent::classify("Add tests", TaskType::Implement, false), TaskIntent::Testing);
    assert_eq!(TaskIntent::classify("System DESIGN", TaskType::Implement, false), TaskIntent::Architecture);
    assert_eq!(TaskIntent::classify("Rename field", TaskType::Implement, false), TaskIntent::QuickFix);
    assert_eq!(TaskIntent::classify("Draw a diagram", TaskType::Implement, false), TaskIntent::Visual);
    assert_eq!(TaskIntent::classify("Fix bug", TaskType::TestValidate, false), TaskIntent::Testing);
    assert_eq!(TaskIntent::classify("Fix bug", TaskType::Orchestrate, false), TaskIntent::Architecture);
}

#[test]
fn agent_role_names_and_args() {
    assert_eq!(AgentRole::Hephaestus.name(), "hephaestus");
    assert_eq!(AgentRole::Multimodal.to_string(), "multimodal");
    assert_eq!(AgentRole::Sisyphus.extra_args(), vec!["--model".to_string(), "opus".to_string()]);
    assert_eq!(AgentRole::Explorer.extra_args(), vec!["--model".to_string(), "haiku".to_string()]);
    assert!(AgentRole::Oracle.extra_args().is_empty());
    assert!(AgentRole::Hephaestus.persona().starts_with("You are Hephaestus"));
}


#[test]
fn dispatch_routes_implementation_to_hephaestus() {
    let dispatcher = AgentDispatcher::default();
    let decision = dispatcher.dispatch("Add user authentication endpoint", TaskType::Implement, "test-repo", false, None, false);
    assert_eq!(decision.role, AgentRole::Hephaestus);
    assert!(decision.confidence_pct > 80);
}

#[test]
fn dispatch_routes_error_recovery_to_sisyphus() {
    let dispatcher = AgentDispatcher::default();
    let decision = dispatcher.dispatch("Fix the broken endpoint", TaskType::Implement, "test-repo", true, Some("compile error"), false);
    assert_eq!(decision.role, AgentRole::Sisyphus);
    assert!(decision.context_additions.iter().any(|c| c.contains("retry")));
    assert_eq!(decision.context_additions[1], "Previous failure reason: compile error");
    assert_eq!(decision.fallback, Some(AgentRole::Hephaestus));
    assert_eq!(decision.confidence_pct, 95);
}

#[test]
fn dispatch_routes_docs_to_librarian() {
    let dispatcher = AgentDispatcher::default();
    let decision = dispatcher.dispatch("Document the API endpoints", TaskType::Implement, "test-repo", false, None, false);
    assert_eq!(decision.role, AgentRole::Librarian);
}

#[test]
fn dispatch_routes_quick_fix_to_explorer() {
    let dispatcher = AgentDispatcher::default();
    let decision = dispatcher.dispatch("Fix simple typo in config", TaskType::Implement, "test-repo", false, None, false);
    assert_eq!(decision.role, AgentRole::Explorer);
    assert_eq!(decision.reasoning, "Quick fix → Explorer (fast)");
}

#[test]
fn fallback_escalates_to_sisyphus() {
    let dispatcher = AgentDispatcher::default();
    assert_eq!(dispatcher.get_fallback(AgentRole::Hephaestus, 1), Some(AgentRole::Sisyphus));
    assert_eq!(dispatcher.get_fallback(AgentRole::Explorer, 2), Some(AgentRole::Sisyphus));
    assert_eq!(dispatcher.get_fallback(AgentRole::Sisyphus, 3), None);
    assert_eq!(dispatcher.get_fallback(AgentRole::Oracle, 1), None);
}

#[test]
fn bug_fixes_go_by_complexity_and_overrides_win() {
    let dispatcher = AgentDispatcher::default();
    let simple = dispatcher.dispatch("Fix login bug", TaskType::Implement, "r", false, None, false);
    assert_eq!(simple.role, AgentRole::Hephaestus);
    assert_eq!(simple.fallback, Some(AgentRole::Explorer));
    let complex = dispatcher.dispatch("Fix login bug", TaskType::Implement, "r", false, None, true);
    assert_eq!(complex.role, AgentRole::Sisyphus);
    assert_eq!(complex.confidence_pct, 85);

    let mut config = DispatchConfig::default();
    config.repo_overrides.insert("special".to_string(), AgentRole::Oracle);
    config.explorer_quick_fixes = false;
    let d = AgentDispatcher::new(config);
    let o = d.dispatch("Fix typo", TaskType::Implement, "special", true, None, false);
    assert_eq!(o.role, AgentRole::Oracle);
    assert_eq!(o.confidence_pct, 100);
    assert_eq!(o.reasoning, "Repo override: special → oracle");
    let q = d.dispatch("Fix typo", TaskType::Implement, "other", false, None, false);
    assert_eq!(q.role, AgentRole::Hephaestus);
    assert_eq!(q.reasoning, "Fallback quick fix");
    assert_eq!(q.fallback, None);
}

fn repo_files() -> orchd::agent_dispatch::RepoFiles {
    orchd::agent_dispatch::RepoFiles {
        has_cargo_toml: false,
        cargo_toml: None,
        has_package_json: false,
        has_tsconfig: false,
        has_pyproject: false,
        has_setup_py: false,
        has_requirements: false,
        has_flake: false,
    }
}

#[test]
fn repo_profile_reads_root_files() {
    let p = orchd::agent_dispatch::repo_profile(&repo_files());
    assert_eq!(p.primary_language, None);
    assert_eq!(p.crate_count, 0);
    let rust = orchd::agent_dispatch::RepoFiles {
        has_cargo_toml: true,
        cargo_toml: Some("[workspace]\nmembers = []\n[workspace.package]\n".to_string()),
        has_package_json: true,
        has_flake: true,
        ..repo_files()
    };
    let p = orchd::agent_dispatch::repo_profile(&rust);
    assert_eq!(p.primary_language.as_deref(), Some("rust"));
    assert!(p.is_rust && p.is_typescript && p.is_nix && !p.is_python);
    assert_eq!(p.crate_count, 1);
    let two = orchd::agent_dispatch::RepoFiles { cargo_toml: Some("[workspace][workspace]".to_string()), ..rust.clone() };
    assert_eq!(orchd::agent_dispatch::repo_profile(&two).crate_count, 2);
    let plain = orchd::agent_dispatch::RepoFiles { cargo_toml: Some("[package]".to_string()), ..rust };
    assert_eq!(orchd::agent_dispatch::repo_profile(&plain).crate_count, 1);
    let py = orchd::agent_dispatch::RepoFiles { has_setup_py: true, ..repo_files() };
    assert_eq!(orchd::agent_dispatch::repo_profile(&py).primary_language.as_deref(), Some("python"));
}
