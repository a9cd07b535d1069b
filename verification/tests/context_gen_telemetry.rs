use orchd::context_gen_telemetry::{
    assess_staleness, coverage_from_files, estimate_tokens, format_bytes, render_budget_warning,
    render_report_head, scan_coverage, token_budget, ContextCoverage, ContextFileInfo, StaleSeverity,
    StaleWarning, TokenBudgetInfo,
};

#[test]
fn estimate_tokens_rough() {
    assert_eq!(estimate_tokens(""), 0);
    assert_eq!(estimate_tokens("abcd"), 1);
    assert_eq!(estimate_tokens("abcdefgh"), 2);
    assert!(estimate_tokens("hello world") > 0);
    assert_eq!(estimate_tokens("hello world"), 3);
}

#[test]
fn format_bytes_scales() {
    assert_eq!(format_bytes(500), "500B");
    assert_eq!(format_bytes(1024), "1.0KB");
    assert_eq!(format_bytes(1536), "1.5KB");
    assert_eq!(format_bytes(1048576), "1.0MB");
}

#[test]
fn format_bytes_rounds_to_one_decimal() {
    for bytes in [1023u64, 1100, 2047, 5000, 123_456, 1_048_575, 3_500_000, 999_999_999] {
        let expected = if bytes < 1024 {
            format!("{}B", bytes)
        } else if bytes < 1024 * 1024 {
            format!("{:.1}KB", bytes as f64 / 1024.0)
        } else {
            format!("{:.1}MB", bytes as f64 / (1024.0 * 1024.0))
        };
        assert_eq!(format_bytes(bytes), expected);
    }
}

#[test]
fn stale_warning_severity_order() {
    assert_ne!(StaleSeverity::Fresh, StaleSeverity::Stale);
    assert_ne!(StaleSeverity::Stale, StaleSeverity::Critical);
    assert_ne!(StaleSeverity::Fresh, StaleSeverity::Critical);
}

#[test]
fn assess_staleness_missing_context() {
    let w = assess_staleness(false, &Some("abc".to_string()), &None, Some(5));
    assert_eq!(w.severity, StaleSeverity::Critical);
    assert!(w.message.contains("missing"));
    assert_eq!(w.age_secs, None);
}

#[test]
fn assess_staleness_non_git_is_ok() {
    let w = assess_staleness(true, &None, &Some("old-hash-abc".to_string()), Some(10));
    assert_eq!(w.severity, StaleSeverity::Fresh);
    assert_eq!(w.message, "Context exists (non-git or unreadable HEAD)");
    assert_eq!(w.age_secs, Some(10));
}

#[test]
fn assess_staleness_hash_cases() {
    let h = Some("abc".to_string());
    let w = assess_staleness(true, &h, &Some("def".to_string()), None);
    assert_eq!(w.severity, StaleSeverity::Stale);
    assert_eq!(w.message, "Context hash does not match HEAD — stale");

    let w = assess_staleness(true, &h, &None, Some(3));
    assert_eq!(w.severity, StaleSeverity::Stale);
    assert!(w.message.contains("no stored hash"));

    let w = assess_staleness(true, &h, &h, Some(100));
    assert_eq!(w.severity, StaleSeverity::Fresh);
    assert_eq!(w.message, "Context is current");

    let w = assess_staleness(true, &h, &h, Some(90_000));
    assert_eq!(w.severity, StaleSeverity::Critical);
    assert_eq!(w.message, "Context matches HEAD but is 25h old — consider regenerating");
}

#[test]
fn assess_staleness_old_context_is_critical() {
    let h = Some("abc".to_string());
    let w = assess_staleness(true, &h, &Some("def".to_string()), Some(86_401));
    assert_eq!(w.severity, StaleSeverity::Critical);
    assert_eq!(w.message, "Context is 24h old — consider regenerating");
    assert_eq!(w.age_secs, Some(86_401));
    let w = assess_staleness(true, &None, &None, Some(200_000));
    assert_eq!(w.severity, StaleSeverity::Critical);
    let w = assess_staleness(true, &h, &h, Some(86_400));
    assert_eq!(w.severity, StaleSeverity::Fresh);
}

#[test]
fn scan_coverage_empty() {
    let cov = scan_coverage(Vec::new());
    assert_eq!(cov.file_count, 0);
    assert_eq!(cov.total_bytes, 0);
    assert!(cov.files.is_empty());
}

#[test]
fn scan_coverage_with_files() {
    let files = vec![
        ContextFileInfo { relative_path: "architecture/overview.md".to_string(), bytes: 11 },
        ContextFileInfo { relative_path: ".git-hash".to_string(), bytes: 6 },
        ContextFileInfo { relative_path: "MAIN.md".to_string(), bytes: 15 },
    ];
    let cov = scan_coverage(files);
    assert_eq!(cov.file_count, 2);
    assert_eq!(cov.files.len(), 2);
    assert_eq!(cov.total_bytes, 26);
    assert_eq!(cov.estimated_tokens, 6);
    assert_eq!(cov.files[0].relative_path, "MAIN.md");
    assert_eq!(cov.files[1].relative_path, "architecture/overview.md");
}

#[test]
fn coverage_sort_is_stable_for_equal_paths() {
    let files = vec![
        ContextFileInfo { relative_path: "b.md".to_string(), bytes: 1 },
        ContextFileInfo { relative_path: "a.md".to_string(), bytes: 2 },
        ContextFileInfo { relative_path: "b.md".to_string(), bytes: 3 },
    ];
    let cov = coverage_from_files(files);
    let order: Vec<u64> = cov.files.iter().map(|f| f.bytes).collect();
    assert_eq!(order, vec![2, 1, 3]);
}

#[test]
fn token_budget_warns_over_limit() {
    let cov = ContextCoverage { file_count: 5, total_bytes: 250_000, estimated_tokens: 62_500, files: vec![] };
    let budget = token_budget(&cov, 7);
    assert_eq!(budget.context_tokens, 62_500);
    assert_eq!(budget.generation_prompt_tokens, 7);
    assert_eq!(
        budget.warning.as_deref(),
        Some("Context files contain ~62k tokens — consider trimming to stay under budget")
    );
    let small = ContextCoverage { file_count: 1, total_bytes: 40, estimated_tokens: 10, files: vec![] };
    assert!(token_budget(&small, 0).warning.is_none());
}

#[test]
fn render_report_shows_token_budget_warning() {
    let budget = TokenBudgetInfo {
        context_tokens: 62_500,
        generation_prompt_tokens: 0,
        warning: Some(
            "Context files contain ~62k tokens — consider trimming to stay under budget".to_string(),
        ),
    };
    let rendered = render_budget_warning(&budget);
    assert!(rendered.contains("62k tokens"));
    assert!(rendered.contains("trimming"));
}

#[test]
fn render_report_head_includes_sections() {
    let w = StaleWarning { severity: StaleSeverity::Stale, message: "old".to_string(), age_secs: Some(7_260) };
    let cov = coverage_from_files(vec![ContextFileInfo { relative_path: "MAIN.md".to_string(), bytes: 2048 }]);
    let out = render_report_head(&w, &cov);
    assert!(out.contains("Context Generation Status"));
    assert!(out.contains("Age: 7260s (2h 1m)\n"));
    assert!(out.contains("Files: 1   Bytes: 2.0KB   ~Tokens: 512\n"));
    let line = format!("    {:40} {:>8}\n", "MAIN.md", "2.0KB");
    assert!(out.contains(&line));
}

#[test]
fn scan_coverage_keeps_only_markdown_names() {
    let files = vec![
        ContextFileInfo { relative_path: "a/.md".to_string(), bytes: 1 },
        ContextFileInfo { relative_path: ".md".to_string(), bytes: 1 },
        ContextFileInfo { relative_path: "notes.mdx".to_string(), bytes: 1 },
        ContextFileInfo { relative_path: "x.md".to_string(), bytes: 4 },
        ContextFileInfo { relative_path: "d/y.tar.md".to_string(), bytes: 8 },
    ];
    let cov = scan_coverage(files);
    let paths: Vec<&str> = cov.files.iter().map(|f| f.relative_path.as_str()).collect();
    assert_eq!(paths, vec!["d/y.tar.md", "x.md"]);
    assert_eq!(cov.total_bytes, 12);
    assert_eq!(cov.estimated_tokens, 3);
}
