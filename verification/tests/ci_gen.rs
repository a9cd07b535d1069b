use orchd::ci_gen::{
    escape_for_double_quotes, generate_basic_ci, generate_github_actions, generate_nix_ci,
    generate_verify_workflow, render_triggers, validate_workflow, CiConfig,
};

#[test]
fn default_config() {
    let config = CiConfig::default();
    assert!(config.trigger_on_push);
    assert!(config.trigger_on_pr);
    assert_eq!(config.branches, vec!["main".to_string()]);
    assert_eq!(config.verify_command, "cargo test --workspace");
    assert!(config.nix_enabled);
    assert!(!config.graphite_enabled);
    assert!(config.cache_enabled);
}

#[test]
fn generate_github_actions_contains_required_keys() {
    let config = CiConfig::default();
    let workflow = generate_github_actions(&config);
    assert!(workflow.contains("name: Othala CI"));
    assert!(workflow.contains("on:"));
    assert!(workflow.contains("jobs:"));
    assert!(workflow.contains("actions/checkout@v4"));
    assert!(workflow.contains("Build"));
    assert!(workflow.contains("Test"));
    assert!(workflow.contains("Clippy"));
}

#[test]
fn generate_verify_workflow_is_valid() {
    let config = CiConfig::default();
    let workflow = generate_verify_workflow(&config);
    assert!(validate_workflow(&workflow).is_ok());
    assert!(workflow.contains("Verify Only"));
}

#[test]
fn generate_nix_ci_includes_nix_setup() {
    let config = CiConfig::default();
    let workflow = generate_nix_ci(&config);
    assert!(workflow.contains("cachix/install-nix-action"));
    assert!(workflow.contains("nix develop --command"));
}

#[test]
fn generate_basic_ci_excludes_nix() {
    let config = CiConfig { nix_enabled: false, ..CiConfig::default() };
    let workflow = generate_basic_ci(&config);
    assert!(!workflow.contains("install-nix-action"));
    assert!(!workflow.contains("nix develop --command"));
    assert!(workflow.contains("dtolnay/rust-toolchain@stable"));
}

#[test]
fn validate_workflow_catches_missing_fields() {
    let invalid = "name: broken";
    let result = validate_workflow(invalid);
    assert!(result.is_err());
    let errors = result.expect_err("must fail");
    assert!(errors.iter().any(|err| err.contains("missing trigger section")));
    assert!(errors.iter().any(|err| err.contains("missing jobs section")));
}

#[test]
fn cache_enabled_affects_output() {
    let with_cache = generate_nix_ci(&CiConfig { cache_enabled: true, ..CiConfig::default() });
    let without_cache = generate_nix_ci(&CiConfig { cache_enabled: false, ..CiConfig::default() });
    assert!(with_cache.contains("Swatinem/rust-cache@v2"));
    assert!(!without_cache.contains("Swatinem/rust-cache@v2"));
}

#[test]
fn custom_branches_in_config() {
    let config = CiConfig {
        branches: vec!["main".to_string(), "develop".to_string()],
        ..CiConfig::default()
    };
    let workflow = generate_github_actions(&config);
    assert!(workflow.contains("- main"));
    assert!(workflow.contains("- develop"));
}

#[test]
fn triggers_render_exactly() {
    let config = CiConfig { trigger_on_pr: false, ..CiConfig::default() };
    assert_eq!(render_triggers(&config), "on:\n  push:\n    branches:\n      - main\n");
    let none = CiConfig { trigger_on_pr: false, trigger_on_push: false, ..CiConfig::default() };
    assert_eq!(render_triggers(&none), "on:\n  workflow_dispatch:\n");
}

#[test]
fn escape_quotes_in_verify_command() {
    assert_eq!(escape_for_double_quotes("say \"hi\""), "say \\\"hi\\\"");
    let config = CiConfig { verify_command: "echo \"x\"".to_string(), ..CiConfig::default() };
    assert!(generate_nix_ci(&config).contains("bash -c \"echo \\\"x\\\"\"\n"));
}

#[test]
fn validate_workflow_lists_every_missing_part_in_order() {
    assert_eq!(
        validate_workflow(""),
        Err(vec![
            "missing workflow name".to_string(),
            "missing trigger section".to_string(),
            "missing jobs section".to_string(),
            "missing checkout step".to_string(),
            "missing runs-on key".to_string(),
        ])
    );
}

#[test]
fn every_generated_workflow_validates() {
    for nix in [true, false] {
        for push in [true, false] {
            let c = CiConfig { nix_enabled: nix, trigger_on_push: push, trigger_on_pr: false, ..CiConfig::default() };
            assert!(validate_workflow(&generate_github_actions(&c)).is_ok());
            assert!(validate_workflow(&generate_verify_workflow(&c)).is_ok());
        }
    }
}

#[test]
fn every_ci_workflow_has_the_required_keys() {
    for nix in [true, false] {
        for cache in [true, false] {
            let config = CiConfig { nix_enabled: nix, cache_enabled: cache, graphite_enabled: !cache, ..CiConfig::default() };
            let w = generate_github_actions(&config);
            for key in ["name: Othala CI", "on:", "jobs:", "actions/checkout@v4", "Build", "Test", "Clippy"] {
                assert!(w.contains(key), "{key} missing");
            }
        }
    }
}
