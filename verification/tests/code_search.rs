use orchd::code_search::{
    default_max_results, default_timeout_secs, CodeSearchClient, CodeSearchConfig,
    CodeSearchQuery, SearchError, SearchProvider,
};

fn base_query() -> CodeSearchQuery {
    CodeSearchQuery {
        query: "ResourceRegistry".to_string(),
        language: None,
        repo_filter: None,
        file_filter: None,
        max_results: None,
    }
}

#[test]
fn config_default_values_match_spec() {
    let config = CodeSearchConfig::default();
    assert_eq!(config.max_results, 20);
    assert_eq!(config.timeout_secs, 30);
    assert!(config.language_filter.is_none());
}

#[test]
fn default_helpers_give_documented_values() {
    assert_eq!(default_max_results(), 20);
    assert_eq!(default_timeout_secs(), 30);
}

#[test]
fn build_sourcegraph_query_applies_all_filters() {
    let client = CodeSearchClient::new(CodeSearchConfig::default());
    let query = CodeSearchQuery {
        query: "fn new".to_string(),
        language: Some("Rust".to_string()),
        repo_filter: Some("0xMugen/Othala".to_string()),
        file_filter: Some("crates/orchd".to_string()),
        max_results: Some(15),
    };

    let built = client.build_sourcegraph_query(&query);
    assert!(built.contains("fn new"));
    assert!(built.contains("repo:0xMugen/Othala"));
    assert!(built.contains("file:crates/orchd"));
    assert!(built.contains("lang:Rust"));
    assert!(built.contains("count:15"));
}

#[test]
fn build_sourcegraph_query_uses_config_defaults() {
    let config = CodeSearchConfig {
        provider: SearchProvider::Sourcegraph {
            endpoint: "https://sg.test".to_string(),
        },
        max_results: 9,
        timeout_secs: 12,
        language_filter: Some("Go".to_string()),
    };
    let client = CodeSearchClient::new(config);
    let built = client.build_sourcegraph_query(&base_query());

    assert!(built.contains("lang:Go"));
    assert!(built.contains("count:9"));
}

#[test]
fn build_sourcegraph_query_exact_text() {
    let client = CodeSearchClient::new(CodeSearchConfig::default());
    let built = client.build_sourcegraph_query(&base_query());
    assert_eq!(built, "ResourceRegistry count:20");
}

#[test]
fn build_github_query_applies_filters() {
    let client = CodeSearchClient::new(CodeSearchConfig::default());
    let query = CodeSearchQuery {
        query: "PromptRunner".to_string(),
        language: Some("Rust".to_string()),
        repo_filter: Some("org/repo".to_string()),
        file_filter: Some("src".to_string()),
        max_results: None,
    };

    let built = client.build_github_query(&query);
    assert!(built.contains("PromptRunner"));
    assert!(built.contains("repo:org/repo"));
    assert!(built.contains("path:src"));
    assert!(built.contains("language:Rust"));
}

#[test]
fn search_error_display_is_readable() {
    assert_eq!(
        SearchError::ProviderUnavailable("down".to_string()).to_string(),
        "provider unavailable: down"
    );
    assert_eq!(SearchError::RateLimited(33).to_string(), "rate limited, retry in 33s");
}

#[test]
fn search_error_other_messages() {
    assert_eq!(SearchError::NetworkError("x".to_string()).to_string(), "network error: x");
    assert_eq!(SearchError::ParseError("y".to_string()).to_string(), "parse error: y");
    assert_eq!(SearchError::AuthenticationRequired.to_string(), "authentication required");
}

#[test]
fn parse_sourcegraph_response_extracts_results() {
    let client = CodeSearchClient::new(CodeSearchConfig::default());
    let payload = r#"{
        "data": {
            "search": {
                "results": {
                    "results": [
                        {
                            "file": { "path": "src/lib.rs" },
                            "repository": { "name": "org/repo" },
                            "lineNumber": 42,
                            "content": "pub fn new() {}",
                            "language": "Rust",
                            "url": "https://example/result"
                        }
                    ]
                }
            }
        }
    }"#;

    let parsed = client
        .parse_sourcegraph_response(payload)
        .expect("sourcegraph response should parse");
    assert_eq!(parsed.len(), 1);
    assert_eq!(parsed[0].file_path, "src/lib.rs");
    assert_eq!(parsed[0].repo, "org/repo");
    assert_eq!(parsed[0].line_number, 42);
    assert_eq!(parsed[0].language.as_deref(), Some("Rust"));
    assert_eq!(parsed[0].content, "pub fn new() {}");
    assert_eq!(parsed[0].url, "https://example/result");
}

#[test]
fn parse_sourcegraph_response_accepts_fallback_fields() {
    let client = CodeSearchClient::new(CodeSearchConfig::default());
    let payload = r#"{
        "data": {
            "search": {
                "results": {
                    "results": [
                        {
                            "path": "src/main.rs",
                            "repo": "org/alt",
                            "preview": "fn main(){}"
                        }
                    ]
                }
            }
        }
    }"#;

    let parsed = client
        .parse_sourcegraph_response(payload)
        .expect("fallback shape should parse");
    assert_eq!(parsed[0].file_path, "src/main.rs");
    assert_eq!(parsed[0].repo, "org/alt");
    assert_eq!(parsed[0].content, "fn main(){}".to_string());
    assert_eq!(parsed[0].line_number, 0);
}

#[test]
fn parse_sourcegraph_response_reports_rate_limit() {
    let client = CodeSearchClient::new(CodeSearchConfig::default());
    let payload = r#"{
        "errors": [
            {
                "message": "rate limited",
                "extensions": { "retryAfterSeconds": 90 }
            }
        ]
    }"#;

    let err = client
        .parse_sourcegraph_response(payload)
        .expect_err("rate limit should return an error");
    assert_eq!(err, SearchError::RateLimited(90));
}

#[test]
fn parse_sourcegraph_response_requires_results_array() {
    let client = CodeSearchClient::new(CodeSearchConfig::default());
    let err = client
        .parse_sourcegraph_response(r#"{"data":{}}"#)
        .expect_err("missing results must fail");
    assert!(matches!(err, SearchError::ParseError(_)));
}

#[test]
fn parse_sourcegraph_response_requires_file_path() {
    let client = CodeSearchClient::new(CodeSearchConfig::default());
    let payload = r#"{"data":{"search":{"results":{"results":[{"repo":"x"}]}}}}"#;
    let err = client.parse_sourcegraph_response(payload).expect_err("no path");
    assert_eq!(err, SearchError::ParseError("missing sourcegraph file path".to_string()));
}

#[test]
fn parse_github_response_extracts_items() {
    let client = CodeSearchClient::new(CodeSearchConfig::default());
    let payload = r#"{
        "items": [
            {
                "path": "src/lib.rs",
                "repository": { "full_name": "org/repo" },
                "line_number": 7,
                "text_matches": [
                    { "fragment": "pub struct X" }
                ],
                "language": "Rust",
                "html_url": "https://github.com/org/repo/blob/main/src/lib.rs"
            }
        ]
    }"#;

    let parsed = client
        .parse_github_response(payload)
        .expect("github response should parse");
    assert_eq!(parsed.len(), 1);
    assert_eq!(parsed[0].repo, "org/repo");
    assert_eq!(parsed[0].file_path, "src/lib.rs");
    assert_eq!(parsed[0].line_number, 7);
    assert_eq!(parsed[0].content, "pub struct X");
}

#[test]
fn parse_github_response_uses_fallback_fields() {
    let client = CodeSearchClient::new(CodeSearchConfig::default());
    let payload = r#"{
        "items": [
            {
                "name": "main.rs",
                "repository": { "name": "repo-only" },
                "url": "https://api.github.com/code"
            }
        ]
    }"#;

    let parsed = client
        .parse_github_response(payload)
        .expect("fallback item shape should parse");
    assert_eq!(parsed[0].file_path, "main.rs");
    assert_eq!(parsed[0].repo, "repo-only");
    assert_eq!(parsed[0].url, "https://api.github.com/code");
}

#[test]
fn parse_github_response_requires_authentication() {
    let client = CodeSearchClient::new(CodeSearchConfig::default());
    let err = client
        .parse_github_response(r#"{"message":"Requires authentication"}"#)
        .expect_err("auth error should be returned");
    assert_eq!(err, SearchError::AuthenticationRequired);
}

#[test]
fn parse_github_response_reports_rate_limit() {
    let client = CodeSearchClient::new(CodeSearchConfig::default());
    let err = client
        .parse_github_response(r#"{"rate_limit_reset":120}"#)
        .expect_err("rate limit should be reported");
    assert_eq!(err, SearchError::RateLimited(120));
}

#[test]
fn parse_github_response_requires_items_array() {
    let client = CodeSearchClient::new(CodeSearchConfig::default());
    let err = client
        .parse_github_response(r#"{"total_count":0}"#)
        .expect_err("missing items must fail");
    assert!(matches!(err, SearchError::ParseError(_)));
}

#[test]
fn parse_responses_reject_invalid_json() {
    let client = CodeSearchClient::new(CodeSearchConfig::default());
    match client.parse_sourcegraph_response("not json") {
        Err(SearchError::ParseError(m)) => assert!(m.starts_with("invalid sourcegraph JSON: "), "{m}"),
        other => panic!("unexpected {:?}", other),
    }
    match client.parse_github_response("{") {
        Err(SearchError::ParseError(m)) => assert!(m.starts_with("invalid github JSON: "), "{m}"),
        other => panic!("unexpected {:?}", other),
    }
}
