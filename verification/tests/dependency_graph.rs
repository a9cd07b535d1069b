use orchd::dependency_graph::{build_dependency_graph, restack_descendants_for_parent, DependencyGraph, TaskLinks, TaskIdSet};

fn mk_task(id: &str, depends_on: &[&str]) -> TaskLinks {
    TaskLinks { id: id.to_string(), depends_on: depends_on.iter().map(|x| x.to_string()).collect() }
}

fn ids(set: Option<&TaskIdSet>) -> Vec<String> {
    set.map(|s| s.ids().clone()).unwrap_or_default()
}

#[test]
fn builds_graph_from_dependencies() {
    let graph = build_dependency_graph(&vec![mk_task("T1", &[]), mk_task("T2", &["T1"]), mk_task("T3", &["T1"])]);
    assert!(ids(graph.parents_by_child.get("T2")).contains(&"T1".to_string()));
    let t1_children = ids(graph.children_by_parent.get("T1"));
    assert!(t1_children.contains(&"T2".to_string()));
    assert!(t1_children.contains(&"T3".to_string()));
}

#[test]
fn restack_targets_include_descendants_in_bfs_order() {
    let graph = build_dependency_graph(&vec![
        mk_task("T1", &[]),
        mk_task("T2", &["T1"]),
        mk_task("T3", &["T1"]),
        mk_task("T4", &["T2"]),
        mk_task("T5", &["T3"]),
    ]);
    let targets = restack_descendants_for_parent(&graph, "T1");
    assert_eq!(targets, vec!["T2".to_string(), "T3".to_string(), "T4".to_string(), "T5".to_string()]);
}

#[test]
fn ignores_self_and_unknown_dependencies() {
    let graph = build_dependency_graph(&vec![mk_task("T1", &["T1", "T9"]), mk_task("T2", &[])]);
    assert!(ids(graph.parents_by_child.get("T1")).is_empty());
    assert!(graph.children_by_parent.get("T9").is_none());
}

#[test]
fn restack_targets_deduplicate_diamond_descendants() {
    let graph = build_dependency_graph(&vec![
        mk_task("T1", &[]),
        mk_task("T2", &["T1"]),
        mk_task("T3", &["T1"]),
        mk_task("T4", &["T2", "T3"]),
    ]);
    let targets = restack_descendants_for_parent(&graph, "T1");
    assert_eq!(targets, vec!["T2".to_string(), "T3".to_string(), "T4".to_string()]);
}

#[test]
fn restack_targets_empty_for_leaf_or_unknown_parent() {
    let graph = build_dependency_graph(&vec![mk_task("T1", &[]), mk_task("T2", &["T1"])]);
    assert!(restack_descendants_for_parent(&graph, "T2").is_empty());
    assert!(restack_descendants_for_parent(&graph, "T9").is_empty());
}

#[test]
fn children_come_in_id_order_and_cycles_end() {
    let graph = build_dependency_graph(&vec![
        mk_task("A", &["C"]),
        mk_task("C", &["A"]),
        mk_task("B", &["A"]),
    ]);
    assert_eq!(ids(graph.children_by_parent.get("A")), vec!["B".to_string(), "C".to_string()]);
    let targets = restack_descendants_for_parent(&graph, "A");
    assert_eq!(targets, vec!["B".to_string(), "C".to_string(), "A".to_string()]);
    let empty = DependencyGraph::empty();
    assert!(restack_descendants_for_parent(&empty, "A").is_empty());
}

#[test]
fn id_sets_stay_sorted_without_repeats() {
    let mut s = TaskIdSet::new();
    for id in ["b", "a", "c", "a", "ab"] {
        s.insert(id);
    }
    assert_eq!(s.ids(), &vec!["a".to_string(), "ab".to_string(), "b".to_string(), "c".to_string()]);
    assert!(s.contains("ab"));
    assert!(!s.contains("d"));
}
