use orchd::context_graph::{ContextGraph, ContextLoadConfig};
use orchd::context_loader::ContextGraphLoader;
use std::collections::HashMap;

/// Runs a load over in-memory files keyed by repository-relative path; the
/// canonical path of a file is its path under `/repo`.
fn load(files: &HashMap<&str, &str>, config: ContextLoadConfig) -> Option<(ContextGraph, Vec<String>)> {
    let entry = ".othala/context/MAIN.md";
    if !files.contains_key(entry) {
        return None;
    }
    let mut loader = ContextGraphLoader::new(config, &format!("/repo/{entry}"));
    while let Some((rel, depth)) = loader.next_file() {
        let content = files.get(rel.as_str()).copied();
        let links = loader.accept(&rel, depth, content);
        if content.is_some() {
            let keys: Vec<String> = links.iter().map(|l| format!("/repo/{l}")).collect();
            loader.commit(&keys);
        }
    }
    Some(loader.finish())
}

fn standard() -> HashMap<&'static str, &'static str> {
    let mut m = HashMap::new();
    m.insert(
        ".othala/context/MAIN.md",
        "# Main Context\n\nSee [architecture](architecture.md) for details.\nAlso references [src/lib.rs](../../src/lib.rs).\n",
    );
    m.insert(
        ".othala/context/architecture.md",
        "# Architecture\n\nCore crates: orchd, orch-core.\nSee [patterns](patterns.md) for coding style.\n",
    );
    m.insert(".othala/context/patterns.md", "# Patterns\n\nUse `thiserror` for errors.\n");
    m
}

fn paths(g: &ContextGraph) -> Vec<String> {
    g.nodes.iter().map(|n| n.path.clone()).collect()
}

#[test]
fn loads_context_graph_bfs() {
    let (graph, _) = load(&standard(), ContextLoadConfig::default()).expect("should load graph");
    assert_eq!(graph.nodes.len(), 3);
    assert_eq!(
        paths(&graph),
        vec![".othala/context/MAIN.md", ".othala/context/architecture.md", ".othala/context/patterns.md"]
    );
    assert!(graph.total_chars > 0);
    let bytes: usize = graph.nodes.iter().map(|n| n.content.len()).sum();
    assert_eq!(graph.total_chars, bytes);
}

#[test]
fn respects_char_budget() {
    let (graph, _) = load(&standard(), ContextLoadConfig { max_depth: 3, max_total_chars: 50 }).expect("should load graph");
    assert!(graph.total_chars <= 50);
    assert_eq!(graph.nodes.len(), 1);
    assert_eq!(graph.nodes[0].content.len(), 50);
}

#[test]
fn respects_max_depth() {
    let (graph, warnings) = load(&standard(), ContextLoadConfig { max_depth: 1, max_total_chars: 50_000 }).expect("should load graph");
    assert_eq!(graph.nodes.len(), 2);
    assert_eq!(
        warnings,
        vec!["warning: context depth limit reached at .othala/context/architecture.md -> .othala/context/patterns.md (max_depth 1)".to_string()]
    );
}

#[test]
fn returns_none_when_no_entry() {
    assert!(load(&HashMap::new(), ContextLoadConfig::default()).is_none());
}

#[test]
fn loads_context_graph_bfs_with_wiki_links() {
    let mut m = HashMap::new();
    m.insert(".othala/context/MAIN.md", "# Main Context\n\nSee [[wiki/architecture]].\n");
    m.insert(".othala/context/wiki/architecture.md", "# Architecture\n\nSee [[patterns]] for coding style.\n");
    m.insert(".othala/context/wiki/patterns.md", "# Patterns\n\nKeep modules small.\n");
    let (graph, _) = load(&m, ContextLoadConfig::default()).expect("should load graph");
    assert_eq!(
        paths(&graph),
        vec![".othala/context/MAIN.md", ".othala/context/wiki/architecture.md", ".othala/context/wiki/patterns.md"]
    );
}

#[test]
fn test_depth_limit_respected() {
    let mut m = HashMap::new();
    m.insert(".othala/context/MAIN.md", "See [B](B.md)\n");
    m.insert(".othala/context/B.md", "See [C](C.md)\n");
    m.insert(".othala/context/C.md", "See [D](D.md)\n");
    m.insert(".othala/context/D.md", "See [E](E.md)\n");
    m.insert(".othala/context/E.md", "End\n");
    let (graph, _) = load(&m, ContextLoadConfig { max_depth: 2, max_total_chars: 80_000 }).expect("should load graph");
    assert_eq!(paths(&graph), vec![".othala/context/MAIN.md", ".othala/context/B.md", ".othala/context/C.md"]);
}

#[test]
fn test_cycle_detection() {
    let mut m = HashMap::new();
    m.insert(".othala/context/MAIN.md", "See [A](A.md)\n");
    m.insert(".othala/context/A.md", "See [B](B.md)\n");
    m.insert(".othala/context/B.md", "See [A](A.md)\n");
    let (graph, warnings) = load(&m, ContextLoadConfig::default()).expect("should load graph");
    assert_eq!(paths(&graph), vec![".othala/context/MAIN.md", ".othala/context/A.md", ".othala/context/B.md"]);
    assert_eq!(
        warnings,
        vec!["warning: cycle detected in context graph: .othala/context/B.md -> .othala/context/A.md".to_string()]
    );
}

#[test]
fn test_cycle_with_source_refs() {
    let mut m = HashMap::new();
    m.insert(".othala/context/MAIN.md", "See [A](A.md) and @file:A.md and @file:MAIN.md\n");
    m.insert(".othala/context/A.md", "See [B](B.md) and @file:MAIN.md and @file:B.md\n");
    m.insert(".othala/context/B.md", "See [A](A.md) and @file:MAIN.md\n");
    let (graph, _) = load(&m, ContextLoadConfig::default()).expect("should load graph");
    assert_eq!(paths(&graph), vec![".othala/context/MAIN.md", ".othala/context/A.md", ".othala/context/B.md"]);
}

#[test]
fn unreadable_files_are_skipped_and_many_cycles_summarised() {
    let mut m = HashMap::new();
    m.insert(".othala/context/MAIN.md", "[a](A.md) [missing](X.md) [a](A.md) [a](A.md) [a](A.md) [a](A.md)\n");
    m.insert(".othala/context/A.md", "x\n");
    let (graph, warnings) = load(&m, ContextLoadConfig::default()).expect("should load graph");
    assert_eq!(paths(&graph), vec![".othala/context/MAIN.md", ".othala/context/A.md"]);
    assert_eq!(warnings.len(), 4);
    assert_eq!(warnings[3], "warning: 1 additional cycle(s) suppressed in context graph");
}

#[test]
fn loads_with_an_unbounded_budget() {
    let (graph, _) =
        load(&standard(), ContextLoadConfig { max_depth: 3, max_total_chars: usize::MAX }).expect("should load graph");
    assert_eq!(graph.nodes.len(), 3);
    let bytes: usize = graph.nodes.iter().map(|n| n.content.len()).sum();
    assert_eq!(graph.total_chars, bytes);
    let (s, n) = orchd::context_graph::source_section_of("a.rs", "fn main() {}", usize::MAX);
    assert_eq!(n, 12);
    assert!(s.contains("fn main() {}"));
}

#[test]
fn files_are_handed_out_breadth_first_within_the_depth_limit() {
    let mut files = HashMap::new();
    files.insert(".othala/context/MAIN.md", "[a](a.md) [b](b.md)");
    files.insert(".othala/context/a.md", "[c](c.md)");
    files.insert(".othala/context/b.md", "[d](d.md) [a](a.md)");
    files.insert(".othala/context/c.md", "[e](e.md)");
    files.insert(".othala/context/d.md", "leaf");
    files.insert(".othala/context/e.md", "deep");
    let config = ContextLoadConfig { max_depth: 2, max_total_chars: 10_000 };
    let mut loader = ContextGraphLoader::new(config, "/repo/.othala/context/MAIN.md");
    let mut seen = Vec::new();
    while let Some((rel, depth)) = loader.next_file() {
        seen.push((rel.clone(), depth));
        let content = files.get(rel.as_str()).copied();
        let links = loader.accept(&rel, depth, content);
        if content.is_some() {
            let keys: Vec<String> = links.iter().map(|l| format!("/repo/{l}")).collect();
            loader.commit(&keys);
        }
    }
    let depths: Vec<usize> = seen.iter().map(|s| s.1).collect();
    assert_eq!(depths, vec![0, 1, 1, 2, 2]);
    assert!(seen.iter().all(|s| !s.0.ends_with("e.md")));
}
