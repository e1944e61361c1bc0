use knowledge_graph::models::{Edge, EdgeType, Node, NodeType};
use knowledge_graph::services::graph::KnowledgeGraph;
use std::collections::HashMap;

fn chain() -> (KnowledgeGraph, u128, u128, u128) {
    let mut graph = KnowledgeGraph::new();
    let a = graph.add_node(Node::new("a".to_string(), NodeType::Function));
    let b = graph.add_node(Node::new("b".to_string(), NodeType::Function));
    let c = graph.add_node(Node::new("c".to_string(), NodeType::Function));
    graph.add_edge(Edge::new(a, b, EdgeType::Calls).with_weight(3)).unwrap();
    graph.add_edge(Edge::new(b, c, EdgeType::Calls).with_weight(2)).unwrap();
    (graph, a, b, c)
}

#[test]
fn trace_follows_fitting_distances_to_the_source() {
    let (graph, a, b, c) = chain();
    let distances: HashMap<u128, u128> = [(a, 0), (b, 3), (c, 5)].into_iter().collect();
    let result = graph.trace_path(&distances, &a, &c).unwrap();
    assert_eq!(result.path, vec![a, b, c]);
    assert_eq!(result.node_names, vec!["a".to_string(), "b".to_string(), "c".to_string()]);
    assert_eq!(result.total_weight, 5);
}

#[test]
fn trace_stops_where_no_distance_fits() {
    let (graph, a, b, c) = chain();
    let distances: HashMap<u128, u128> = [(a, 100), (b, 3), (c, 5)].into_iter().collect();
    let result = graph.trace_path(&distances, &a, &c).unwrap();
    assert_eq!(result.path, vec![b, c]);
    assert_eq!(result.node_names, vec!["b".to_string(), "c".to_string()]);
    assert_eq!(result.total_weight, 5);

    let off_by_one: HashMap<u128, u128> = [(a, 0), (b, 4), (c, 5)].into_iter().collect();
    let result = graph.trace_path(&off_by_one, &a, &c).unwrap();
    assert_eq!(result.path, vec![c]);
    assert_eq!(result.total_weight, 5);
}

#[test]
fn trace_stops_at_a_node_without_distance() {
    let (graph, a, b, c) = chain();
    let distances: HashMap<u128, u128> = [(b, 3), (c, 5)].into_iter().collect();
    let result = graph.trace_path(&distances, &a, &c).unwrap();
    assert_eq!(result.path, vec![b, c]);
}

#[test]
fn trace_does_not_add_past_the_largest_distance() {
    let (graph, a, b, c) = chain();
    let distances: HashMap<u128, u128> =
        [(a, u128::MAX), (b, u128::MAX), (c, 1)].into_iter().collect();
    let result = graph.trace_path(&distances, &a, &c).unwrap();
    assert_eq!(result.path, vec![c]);
    assert_eq!(result.total_weight, 1);
}

#[test]
fn trace_needs_both_ends_and_a_distance_for_the_target() {
    let (graph, a, b, c) = chain();
    let stranger = Node::new("stranger".to_string(), NodeType::File).id;
    let distances: HashMap<u128, u128> =
        [(a, 0), (b, 3), (stranger, 1)].into_iter().collect();
    assert!(graph.trace_path(&distances, &a, &c).is_none());
    assert!(graph.trace_path(&distances, &a, &stranger).is_none());
    assert!(graph.trace_path(&distances, &stranger, &b).is_none());
    let at_source = graph.trace_path(&distances, &a, &a).unwrap();
    assert_eq!(at_source.path, vec![a]);
    assert_eq!(at_source.total_weight, 0);
}

#[test]
fn path_over_a_free_cycle_stops_short_of_the_source() {
    // s -> p costs one unit; p -> c, c -> p and p -> t are free. Tracing
    // back from t comes to p, then to c, and from c only back to p.
    let mut graph = KnowledgeGraph::new();
    let s = graph.add_node(Node::new("s".to_string(), NodeType::Function));
    let p = graph.add_node(Node::new("p".to_string(), NodeType::Function));
    let c = graph.add_node(Node::new("c".to_string(), NodeType::Function));
    let t = graph.add_node(Node::new("t".to_string(), NodeType::Function));
    graph.add_edge(Edge::new(s, p, EdgeType::Calls).with_weight(10_000)).unwrap();
    graph.add_edge(Edge::new(p, c, EdgeType::Calls).with_weight(0)).unwrap();
    graph.add_edge(Edge::new(c, p, EdgeType::Calls).with_weight(0)).unwrap();
    graph.add_edge(Edge::new(p, t, EdgeType::Calls).with_weight(0)).unwrap();

    let result = graph.find_path(&s, &t).unwrap();
    assert_eq!(result.total_weight, 10_000);
    assert_eq!(result.path, vec![c, p, t]);
    assert_eq!(result.node_names, vec!["c".to_string(), "p".to_string(), "t".to_string()]);
}

#[test]
fn path_choice_among_equal_costs_is_repeatable() {
    let mut graph = KnowledgeGraph::new();
    let a = graph.add_node(Node::new("a".to_string(), NodeType::Function));
    let b = graph.add_node(Node::new("b".to_string(), NodeType::Function));
    let c = graph.add_node(Node::new("c".to_string(), NodeType::Function));
    let d = graph.add_node(Node::new("d".to_string(), NodeType::Function));
    graph.add_edge(Edge::new(a, b, EdgeType::Calls)).unwrap();
    graph.add_edge(Edge::new(a, c, EdgeType::Calls)).unwrap();
    graph.add_edge(Edge::new(b, d, EdgeType::Calls)).unwrap();
    graph.add_edge(Edge::new(c, d, EdgeType::Calls)).unwrap();

    let first = graph.find_path(&a, &d).unwrap();
    assert_eq!(first.total_weight, 20_000);
    assert_eq!(first.path.len(), 3);
    assert_eq!(first.path[0], a);
    assert_eq!(first.path[2], d);
    assert!(first.path[1] == b || first.path[1] == c);
    for _ in 0..5 {
        let again = graph.find_path(&a, &d).unwrap();
        assert_eq!(again.path, first.path);
        assert_eq!(again.total_weight, first.total_weight);
    }
}

#[test]
fn cheaper_of_two_parallel_edges_sets_the_weight() {
    let mut graph = KnowledgeGraph::new();
    let a = graph.add_node(Node::new("a".to_string(), NodeType::Function));
    let b = graph.add_node(Node::new("b".to_string(), NodeType::Function));
    graph.add_edge(Edge::new(a, b, EdgeType::Calls).with_weight(7)).unwrap();
    graph.add_edge(Edge::new(a, b, EdgeType::Uses).with_weight(4)).unwrap();
    graph.add_edge(Edge::new(a, b, EdgeType::Imports).with_weight(9)).unwrap();
    let result = graph.find_path(&a, &b).unwrap();
    assert_eq!(result.total_weight, 4);
    assert_eq!(*result.path.last().unwrap(), b);
    assert!(result.path == vec![a, b] || result.path == vec![b]);
}
