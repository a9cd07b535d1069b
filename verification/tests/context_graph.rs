use orchd::context_graph::{
    extract_links, normalise_path, render_context_for_prompt, ContextGraph, ContextLoadConfig,
    ContextNode,
};

#[test]
fn extracts_links_and_source_refs() {
    let content = "See [arch](architecture.md) and [code](../../src/lib.rs).\n";
    let (links, refs) = extract_links(content, ".othala/context/MAIN.md");
    assert_eq!(links, vec![".othala/context/architecture.md".to_string()]);
    assert_eq!(refs, vec!["src/lib.rs".to_string()]);
}

#[test]
fn extracts_single_wiki_link() {
    let (links, refs) = extract_links("See [[architecture]].\n", ".othala/context/MAIN.md");
    assert_eq!(links, vec![".othala/context/architecture.md".to_string()]);
    assert!(refs.is_empty());
}

#[test]
fn extracts_multiple_wiki_links() {
    let (links, refs) = extract_links("See [[architecture]] and [[patterns]].\n", ".othala/context/MAIN.md");
    assert_eq!(
        links,
        vec![
            ".othala/context/architecture.md".to_string(),
            ".othala/context/patterns.md".to_string()
        ]
    );
    assert!(refs.is_empty());
}

#[test]
fn extracts_wiki_links_from_nested_context_directory() {
    let (links, refs) = extract_links("See [[patterns]].\n", ".othala/context/wiki/architecture.md");
    assert_eq!(links, vec![".othala/context/wiki/patterns.md".to_string()]);
    assert!(refs.is_empty());
}

#[test]
fn extracts_file_references() {
    let content = "Read @file:../../src/lib.rs and @file:../mod.rs\n";
    let (links, refs) = extract_links(content, ".othala/context/wiki/architecture.md");
    assert!(links.is_empty());
    assert_eq!(refs, vec![".othala/src/lib.rs".to_string(), ".othala/context/mod.rs".to_string()]);
}

#[test]
fn skips_urls_anchors_and_empty_targets() {
    let content = "[a](http://x) [b](#top) [c]( ) [d](notes.txt)\n";
    let (links, refs) = extract_links(content, ".othala/context/MAIN.md");
    assert!(links.is_empty());
    assert_eq!(refs, vec![".othala/context/notes.txt".to_string()]);
}

#[test]
fn context_graph_render_context_produces_markdown() {
    let graph = ContextGraph {
        nodes: vec![ContextNode {
            path: ".othala/context/MAIN.md".to_string(),
            content: "# Hello\n".to_string(),
            links: vec![],
            source_refs: vec![],
        }],
        total_chars: 9,
    };
    let rendered = render_context_for_prompt(&graph);
    assert!(rendered.contains("# Repository Context"));
    assert!(rendered.contains("## .othala/context/MAIN.md"));
    assert!(rendered.contains("# Hello"));
    assert_eq!(rendered, "# Repository Context\n\n## .othala/context/MAIN.md\n\n# Hello\n\n");
}

#[test]
fn normalise_path_resolves_parent_refs() {
    assert_eq!(normalise_path(".othala/context/../context/foo.md"), ".othala/context/foo.md");
    assert_eq!(normalise_path(".othala/context/../../src/lib.rs"), "src/lib.rs");
    assert_eq!(normalise_path("/a/./b//c/"), "/a/b/c");
    assert_eq!(normalise_path("../x"), "x");
}

#[test]
fn test_default_depth_is_10() {
    assert_eq!(ContextLoadConfig::default().max_depth, 10);
    assert_eq!(ContextLoadConfig::default().max_total_chars, 80_000);
}

#[test]
fn source_refs_are_listed_once_in_order() {
    let node = |p: &str, refs: &[&str]| orchd::context_graph::ContextNode {
        path: p.to_string(),
        content: String::new(),
        links: vec![],
        source_refs: refs.iter().map(|r| r.to_string()).collect(),
    };
    let graph = orchd::context_graph::ContextGraph {
        nodes: vec![node("a.md", &["src/lib.rs", "src/x.rs"]), node("b.md", &["src/x.rs", "Cargo.toml"])],
        total_chars: 0,
    };
    assert_eq!(
        orchd::context_graph::source_refs_in_order(&graph),
        vec!["src/lib.rs".to_string(), "src/x.rs".to_string(), "Cargo.toml".to_string()]
    );
}

#[test]
fn source_sections_inline_and_truncate() {
    let (s, n) = orchd::context_graph::source_section_of("src/lib.rs", "fn main() {}", 100);
    assert_eq!(s, "## src/lib.rs\n\n```rs\nfn main() {}\n```\n\n");
    assert_eq!(n, 12);
    let (s, n) = orchd::context_graph::source_section_of("dir.v1/Makefile", "abcdef\n", 3);
    assert_eq!(s, "## dir.v1/Makefile\n\n```\nabc...(truncated)\n```\n\n");
    assert_eq!(n, 17);
    let (s, _) = orchd::context_graph::source_section_of(".bashrc", "x\n", 10);
    assert_eq!(s, "## .bashrc\n\n```\nx\n```\n\n");
}
