use knowledge_graph::models::{Edge, EdgeType, Node, NodeType, FIXED_POINT_UNIT};
use knowledge_graph::services::graph::KnowledgeGraph;
use knowledge_graph::services::stats::average_edges;

#[test]
fn stats_of_an_empty_graph_are_zero() {
    let graph = KnowledgeGraph::new();
    let stats = graph.get_stats();
    assert_eq!(stats.total_nodes, 0);
    assert_eq!(stats.total_nodes, graph.list_nodes().len());
    assert_eq!(stats.total_edges, 0);
    assert_eq!(stats.avg_edges_per_node, 0);
    assert_eq!(stats.nodes_by_type, vec![0usize; 11]);
    assert_eq!(stats.edges_by_type, vec![0usize; 11]);
}

#[test]
fn stats_count_nodes_and_edges_by_kind() {
    let mut graph = KnowledgeGraph::new();
    let a = graph.add_node(Node::new("a".to_string(), NodeType::Function));
    let b = graph.add_node(Node::new("b".to_string(), NodeType::Function));
    let c = graph.add_node(Node::new("c".to_string(), NodeType::File));
    let d = graph.add_node(Node::new("d".to_string(), NodeType::Task));
    graph.add_edge(Edge::new(a, b, EdgeType::Calls)).unwrap();
    graph.add_edge(Edge::new(b, a, EdgeType::Calls)).unwrap();
    graph.add_edge(Edge::new(c, a, EdgeType::Contains)).unwrap();
    graph.add_edge(Edge::new(c, b, EdgeType::Contains)).unwrap();
    graph.add_edge(Edge::new(d, c, EdgeType::DependsOn)).unwrap();
    graph.add_edge(Edge::new(d, d, EdgeType::Delegates)).unwrap();

    let stats = graph.get_stats();
    assert_eq!(stats.total_nodes, 4);
    assert_eq!(stats.total_nodes, graph.list_nodes().len());
    assert_eq!(stats.total_edges, 6);
    assert_eq!(stats.total_edges, graph.list_edges().len());
    assert_eq!(stats.nodes_by_type, vec![0, 1, 2, 0, 0, 0, 0, 0, 0, 0, 1]);
    assert_eq!(stats.edges_by_type, vec![2, 0, 2, 0, 0, 0, 1, 0, 0, 0, 1]);
    assert_eq!(stats.nodes_of(NodeType::Function), 2);
    assert_eq!(stats.nodes_of(NodeType::File), 1);
    assert_eq!(stats.nodes_of(NodeType::Task), 1);
    assert_eq!(stats.nodes_of(NodeType::Class), 0);
    assert_eq!(stats.edges_of(EdgeType::Calls), 2);
    assert_eq!(stats.edges_of(EdgeType::Contains), 2);
    assert_eq!(stats.edges_of(EdgeType::DependsOn), 1);
    assert_eq!(stats.edges_of(EdgeType::Delegates), 1);
    assert_eq!(stats.edges_of(EdgeType::Uses), 0);
    assert_eq!(stats.avg_edges_per_node, 15_000);
}

#[test]
fn stats_follow_removals() {
    let mut graph = KnowledgeGraph::new();
    let a = graph.add_node(Node::new("a".to_string(), NodeType::Function));
    let b = graph.add_node(Node::new("b".to_string(), NodeType::Class));
    graph.add_edge(Edge::new(a, b, EdgeType::Uses)).unwrap();
    graph.remove_node(&a);
    let stats = graph.get_stats();
    assert_eq!(stats.total_nodes, 1);
    assert_eq!(stats.total_edges, 0);
    assert_eq!(stats.nodes_of(NodeType::Function), 0);
    assert_eq!(stats.nodes_of(NodeType::Class), 1);
    assert_eq!(stats.edges_of(EdgeType::Uses), 0);
    assert_eq!(stats.avg_edges_per_node, 0);
    graph.remove_node(&b);
    let stats = graph.get_stats();
    assert_eq!(stats.total_nodes, 0);
    assert_eq!(stats.avg_edges_per_node, 0);
}

#[test]
fn counts_of_short_lists_are_zero() {
    let mut stats = KnowledgeGraph::new().get_stats();
    stats.nodes_by_type = vec![5, 6];
    stats.edges_by_type = Vec::new();
    assert_eq!(stats.nodes_of(NodeType::Repository), 5);
    assert_eq!(stats.nodes_of(NodeType::File), 6);
    assert_eq!(stats.nodes_of(NodeType::Function), 0);
    assert_eq!(stats.edges_of(EdgeType::Contains), 0);
}

#[test]
fn average_is_a_fixed_point_quotient_rounded_down() {
    assert_eq!(average_edges(0, 0), 0);
    assert_eq!(average_edges(0, 17), 0);
    assert_eq!(average_edges(1, 0), 0);
    assert_eq!(average_edges(2, 3), 15_000);
    assert_eq!(average_edges(3, 1), 3_333);
    assert_eq!(average_edges(3, 2), 6_666);
    assert_eq!(average_edges(4, 4), FIXED_POINT_UNIT as u128);
    assert_eq!(average_edges(1, usize::MAX), usize::MAX as u128 * 10_000);
}
