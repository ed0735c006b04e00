use speki::error::CoreError;
use speki::graph::DependencyGraph;

#[test]
fn edge_to_self_is_refused() {
    let mut g = DependencyGraph::new();
    assert_eq!(g.add_edge(3, 3), Err(CoreError::SelfDependency));
    assert!(g.dependencies_of(3).is_empty());
}

#[test]
fn cycle_is_refused_and_graph_unchanged() {
    let mut g = DependencyGraph::new();
    assert_eq!(g.add_edge(1, 2), Ok(()));
    assert_eq!(g.add_edge(2, 3), Ok(()));
    assert_eq!(g.add_edge(3, 1), Err(CoreError::CycleDetected));
    assert_eq!(g.add_edge(3, 1), Err(CoreError::CycleDetected));
    assert_eq!(g.add_edge(2, 1), Err(CoreError::CycleDetected));
    assert!(g.dependencies_of(3).is_empty());
    assert_eq!(g.dependencies_of(1), vec![2]);
    assert_eq!(g.add_edge(1, 3), Ok(()));
    let mut d = g.dependencies_of(1);
    d.sort();
    assert_eq!(d, vec![2, 3]);
}

#[test]
fn remove_edge_is_idempotent() {
    let mut g = DependencyGraph::new();
    assert_eq!(g.add_edge(1, 2), Ok(()));
    g.remove_edge(1, 2);
    g.remove_edge(1, 2);
    g.remove_edge(7, 8);
    assert!(g.dependencies_of(1).is_empty());
    assert_eq!(g.add_edge(2, 1), Ok(()));
}
