use orchd::env_inject::{BuiltinVars, EnvConfig, EnvInjector};
use orchd::str_map::{KeyMap, StrMap};

fn builtins() -> BuiltinVars {
    BuiltinVars {
        repo_root: "/repo".to_string(),
        session_id: "unknown-session".to_string(),
        version: "0.1.0".to_string(),
    }
}

fn vars(pairs: &[(&str, &str)]) -> StrMap {
    let mut m = StrMap::new();
    for (k, v) in pairs {
        m.insert(k.to_string(), v.to_string());
    }
    m
}

fn mk_injector() -> EnvInjector {
    let mut cfg = EnvConfig::default();
    cfg.global_vars.insert("SHARED".to_string(), "global".to_string());
    cfg.global_vars.insert("X".to_string(), "global-x".to_string());
    cfg.per_model_vars.insert("codex".to_string(), vars(&[("MODEL_ONLY", "yes"), ("X", "model-x")]));
    cfg.per_task_vars.insert("task-1".to_string(), vars(&[("TASK_ONLY", "ok"), ("X", "task-x")]));
    cfg.redact_patterns = vec!["API_KEY".to_string(), "SECRET".to_string()];
    EnvInjector::new(cfg)
}

#[test]
fn env_config_defaults() {
    let cfg = EnvConfig::default();
    assert!(cfg.global_vars.is_empty());
    assert!(cfg.per_model_vars.is_empty());
    assert!(cfg.per_task_vars.is_empty());
    assert!(cfg.inherit_env);
    assert!(cfg.redact_patterns.is_empty());
}

#[test]
fn build_env_merges_in_correct_precedence() {
    let injector = mk_injector();
    let env_map = injector.build_env("task-1", "codex", &builtins());
    assert_eq!(env_map.get("SHARED"), Some(&"global".to_string()));
    assert_eq!(env_map.get("MODEL_ONLY"), Some(&"yes".to_string()));
    assert_eq!(env_map.get("TASK_ONLY"), Some(&"ok".to_string()));
    assert_eq!(env_map.get("X"), Some(&"task-x".to_string()));
}

#[test]
fn build_env_with_unknown_task_uses_global_and_model_only() {
    let injector = mk_injector();
    let env_map = injector.build_env("task-unknown", "codex", &builtins());
    assert_eq!(env_map.get("X"), Some(&"model-x".to_string()));
    assert!(!env_map.contains_key("TASK_ONLY"));
}

#[test]
fn build_env_vec_contains_same_items_as_map() {
    let injector = mk_injector();
    let env_map = injector.build_env("task-1", "codex", &builtins());
    let env_vec = injector.build_env_vec("task-1", "codex", &builtins());
    assert_eq!(env_vec.len(), env_map.len());
    for (k, v) in env_vec {
        assert_eq!(env_map.get(&k), Some(&v));
    }
}

#[test]
fn build_env_vec_is_sorted_by_key() {
    let injector = mk_injector();
    let env_vec = injector.build_env_vec("task-1", "codex", &builtins());
    let keys: Vec<String> = env_vec.into_iter().map(|(k, _)| k).collect();
    let sorted = {
        let mut cloned = keys.clone();
        cloned.sort();
        cloned
    };
    assert_eq!(keys, sorted);
}

#[test]
fn redact_value_masks_matching_keys() {
    let injector = mk_injector();
    assert_eq!(injector.redact_value("MY_API_KEY", "abcd"), "***");
    assert_eq!(injector.redact_value("TOP_SECRET_TOKEN", "abcd"), "***");
}

#[test]
fn redact_value_preserves_non_matching_keys() {
    let injector = mk_injector();
    assert_eq!(injector.redact_value("NORMAL_VAR", "value"), "value");
}

#[test]
fn redact_value_ignores_ascii_case() {
    let injector = mk_injector();
    assert_eq!(injector.redact_value("my_secret", "abcd"), "***");
}

#[test]
fn redacted_env_masks_sensitive_values() {
    let mut injector = mk_injector();
    injector.config.global_vars.insert("SERVICE_API_KEY".to_string(), "token-123".to_string());
    let redacted = injector.redacted_env("task-1", "codex", &builtins());
    assert_eq!(redacted.get("SERVICE_API_KEY"), Some(&"***".to_string()));
    assert_eq!(redacted.get("SHARED"), Some(&"global".to_string()));
}

#[test]
fn built_in_othala_vars_are_always_injected() {
    let injector = mk_injector();
    let env_map = injector.build_env("task-1", "codex", &builtins());
    assert_eq!(env_map.get("OTHALA_TASK_ID"), Some(&"task-1".to_string()));
    assert_eq!(env_map.get("OTHALA_MODEL"), Some(&"codex".to_string()));
    assert!(env_map.contains_key("OTHALA_REPO_ROOT"));
    assert!(env_map.contains_key("OTHALA_SESSION_ID"));
    assert!(env_map.contains_key("OTHALA_VERSION"));
}

#[test]
fn merge_with_system_inherits_when_enabled() {
    let injector = EnvInjector::new(EnvConfig { inherit_env: true, ..EnvConfig::default() });
    let custom = vars(&[("A", "B")]);
    let system = vars(&[("PATH", "/bin"), ("A", "old")]);
    let merged = injector.merge_with_system(&system, &custom);
    assert_eq!(merged.get("A"), Some(&"B".to_string()));
    assert_eq!(merged.get("PATH"), Some(&"/bin".to_string()));
}

#[test]
fn merge_with_system_skips_inheritance_when_disabled() {
    let injector = EnvInjector::new(EnvConfig { inherit_env: false, ..EnvConfig::default() });
    let custom = vars(&[("A", "B")]);
    let system = vars(&[("PATH", "/bin")]);
    let merged = injector.merge_with_system(&system, &custom);
    assert_eq!(merged.len(), 1);
    assert_eq!(merged.get("A"), Some(&"B".to_string()));
}

#[test]
fn has_task_env_reflects_presence_of_task_vars() {
    let injector = mk_injector();
    assert!(injector.has_task_env("task-1"));
    assert!(!injector.has_task_env("missing"));
}

#[test]
fn set_task_var_adds_runtime_variable() {
    let mut injector = mk_injector();
    injector.set_task_var("task-runtime", "RUNTIME_KEY", "runtime-value");
    assert!(injector.has_task_env("task-runtime"));
    let env_map = injector.build_env("task-runtime", "codex", &builtins());
    assert_eq!(env_map.get("RUNTIME_KEY"), Some(&"runtime-value".to_string()));
}

#[test]
fn set_task_var_overwrites_existing_value() {
    let mut injector = mk_injector();
    injector.set_task_var("task-1", "X", "runtime-override");
    let env_map = injector.build_env("task-1", "codex", &builtins());
    assert_eq!(env_map.get("X"), Some(&"runtime-override".to_string()));
    assert_eq!(env_map.get("TASK_ONLY"), Some(&"ok".to_string()));
}

#[test]
fn built_ins_override_custom_same_name() {
    let mut cfg = EnvConfig::default();
    cfg.global_vars.insert("OTHALA_TASK_ID".to_string(), "bad".to_string());
    let injector = EnvInjector::new(cfg);
    let env_map = injector.build_env("task-z", "model-z", &builtins());
    assert_eq!(env_map.get("OTHALA_TASK_ID"), Some(&"task-z".to_string()));
}

#[test]
fn key_map_insert_replaces() {
    let mut m: KeyMap<String> = KeyMap::new();
    m.insert("a".to_string(), "1".to_string());
    m.insert("a".to_string(), "2".to_string());
    assert_eq!(m.len(), 1);
    assert_eq!(m.get("a"), Some(&"2".to_string()));
}
