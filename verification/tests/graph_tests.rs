use oc_diagdoc::graph::DependencyGraph;
use oc_diagdoc::types::DocumentId;

fn id(s: &str) -> DocumentId {
    DocumentId::parse(s).unwrap()
}

fn texts(v: &[DocumentId]) -> Vec<String> {
    v.iter().map(|d| d.to_text()).collect()
}

#[test]
fn test_add_nodes() {
    let mut graph = DependencyGraph::new();
    graph.add_node(id("1"));
    graph.add_node(id("1.1"));
    assert_eq!(graph.node_count(), 2);
}

#[test]
fn test_add_node_twice_is_idempotent() {
    let mut graph = DependencyGraph::new();
    graph.add_node(id("1"));
    graph.add_node(id("1"));
    assert_eq!(graph.node_count(), 1);
}

#[test]
fn test_parent_child_relationship() {
    let mut graph = DependencyGraph::new();
    graph.add_node_with_parent(id("1.1"), Some(id("1")));
    graph.add_node_with_parent(id("1.2"), Some(id("1")));
    let children = graph.get_children(&id("1"));
    assert_eq!(children.len(), 2);
}

#[test]
fn test_descendants() {
    let mut graph = DependencyGraph::new();
    graph.add_node_with_parent(id("1.1"), Some(id("1")));
    graph.add_node_with_parent(id("1.1.1"), Some(id("1.1")));
    graph.add_node_with_parent(id("1.1.2"), Some(id("1.1")));
    let descendants = graph.get_descendants(&id("1"));
    assert_eq!(descendants.len(), 3);
}

#[test]
fn test_ancestors() {
    let mut graph = DependencyGraph::new();
    graph.add_node_with_parent(id("1.1"), Some(id("1")));
    graph.add_node_with_parent(id("1.1.1"), Some(id("1.1")));
    let ancestors = texts(&graph.get_ancestors(&id("1.1.1")));
    assert_eq!(ancestors.len(), 2);
    assert!(ancestors.contains(&"1.1".to_string()));
    assert!(ancestors.contains(&"1".to_string()));
}

#[test]
fn test_detect_cycle() {
    let mut graph = DependencyGraph::new();
    graph.add_link(id("1"), id("2"));
    graph.add_link(id("2"), id("3"));
    graph.add_link(id("3"), id("1"));
    let cycles = graph.detect_cycles();
    assert!(!cycles.is_empty());
}

#[test]
fn test_no_cycle() {
    let mut graph = DependencyGraph::new();
    graph.add_link(id("1"), id("2"));
    graph.add_link(id("2"), id("3"));
    let cycles = graph.detect_cycles();
    assert!(cycles.is_empty());
}

#[test]
fn test_orphans() {
    let mut graph = DependencyGraph::new();
    graph.add_node(id("0"));
    graph.add_node(id("5"));
    graph.add_node_with_parent(id("1.1"), Some(id("1")));
    let orphans = graph.orphans();
    assert_eq!(orphans.len(), 2);
}

#[test]
fn graph_test_to_mermaid() {
    let mut graph = DependencyGraph::new();
    graph.add_node_with_parent(id("1.1"), Some(id("1")));
    graph.add_link(id("1"), id("2"));
    let mermaid = graph.to_mermaid();
    assert!(mermaid.contains("graph TD"));
    assert!(mermaid.contains("1 --> 1.1"));
}

#[test]
fn test_mermaid_exact_text() {
    let mut graph = DependencyGraph::new();
    graph.add_node_with_parent(id("1.1"), Some(id("1")));
    graph.add_link(id("1"), id("2"));
    assert_eq!(graph.to_mermaid(), "graph TD\n    1 --> 1.1\n    1 -.-> 2");
}

#[test]
fn test_link_recorded_on_both_ends() {
    let mut graph = DependencyGraph::new();
    graph.add_link(id("1"), id("2"));
    assert_eq!(texts(&graph.get_backlinks(&id("2"))), vec!["1".to_string()]);
    assert_eq!(graph.edge_count(), 1);
}

#[test]
fn test_roots_and_leaves() {
    let mut graph = DependencyGraph::new();
    graph.add_node_with_parent(id("1.1"), Some(id("1")));
    assert_eq!(texts(&graph.roots()), vec!["1".to_string()]);
    assert_eq!(texts(&graph.leaves()), vec!["1.1".to_string()]);
}

#[test]
fn test_cycle_members() {
    let mut graph = DependencyGraph::new();
    graph.add_link(id("1"), id("2"));
    graph.add_link(id("2"), id("1"));
    let cycles = graph.detect_cycles();
    assert_eq!(cycles.len(), 1);
    assert_eq!(texts(&cycles[0]), vec!["1".to_string(), "2".to_string()]);
}

#[test]
fn test_document_id_parts() {
    let d = id("3.1.2");
    assert_eq!(d.module(), 3);
    assert_eq!(d.depth(), 3);
    assert!(!d.is_master());
    assert!(id("0").is_master());
    assert!(DocumentId::parse("3..1").is_err());
    assert!(DocumentId::parse("a").is_err());
}

#[test]
fn test_detect_cycle_members() {
    let mut graph = DependencyGraph::new();
    graph.add_link(id("1"), id("2"));
    graph.add_link(id("2"), id("3"));
    graph.add_link(id("3"), id("1"));
    let cycles = graph.detect_cycles();
    assert_eq!(cycles.len(), 1);
    assert_eq!(texts(&cycles[0]), vec!["1".to_string(), "2".to_string(), "3".to_string()]);
}
