use knowledge_graph::models::{Direction, Edge, EdgeType, Node, NodeType, FIXED_POINT_UNIT};
use knowledge_graph::services::graph::KnowledgeGraph;

#[test]
fn test_add_and_get_node() {
    let mut graph = KnowledgeGraph::new();
    let node = Node::new("test".to_string(), NodeType::Function);
    let id = node.id;
    graph.add_node(node);

    let retrieved = graph.get_node(&id).unwrap();
    assert_eq!(retrieved.name, "test");
}

#[test]
fn test_add_edge() {
    let mut graph = KnowledgeGraph::new();

    let node1 = Node::new("func1".to_string(), NodeType::Function);
    let node2 = Node::new("func2".to_string(), NodeType::Function);
    let id1 = node1.id;
    let id2 = node2.id;

    graph.add_node(node1);
    graph.add_node(node2);

    let edge = Edge::new(id1, id2, EdgeType::Calls);
    let edge_id = graph.add_edge(edge).unwrap();

    let retrieved = graph.get_edge(&edge_id).unwrap();
    assert_eq!(retrieved.source_id, id1);
    assert_eq!(retrieved.target_id, id2);
}

#[test]
fn test_find_neighbors() {
    let mut graph = KnowledgeGraph::new();

    let node1 = Node::new("A".to_string(), NodeType::Function);
    let node2 = Node::new("B".to_string(), NodeType::Function);
    let node3 = Node::new("C".to_string(), NodeType::Function);
    let id1 = node1.id;
    let id2 = node2.id;
    let id3 = node3.id;

    graph.add_node(node1);
    graph.add_node(node2);
    graph.add_node(node3);

    graph.add_edge(Edge::new(id1, id2, EdgeType::Calls));
    graph.add_edge(Edge::new(id2, id3, EdgeType::Calls));

    let neighbors = graph.find_neighbors(&id1, None, &Direction::Outgoing, 1);
    assert_eq!(neighbors.len(), 1);
    assert_eq!(neighbors[0].name, "B");
}

#[test]
fn test_search_nodes() {
    let mut graph = KnowledgeGraph::new();

    let node1 = Node::new("handleAuth".to_string(), NodeType::Function)
        .with_language("typescript".to_string());
    let node2 = Node::new("processPayment".to_string(), NodeType::Function)
        .with_language("typescript".to_string());

    graph.add_node(node1);
    graph.add_node(node2);

    let results = graph.search_nodes("auth", None, None, 10);
    assert_eq!(results.len(), 1);
    assert_eq!(results[0].name, "handleAuth");
}

fn named(graph: &mut KnowledgeGraph, name: &str) -> u128 {
    graph.add_node(Node::new(name.to_string(), NodeType::Function))
}

fn link(graph: &mut KnowledgeGraph, from: u128, to: u128, units: u64) -> u128 {
    let edge = Edge::new(from, to, EdgeType::Calls).with_weight(units * FIXED_POINT_UNIT);
    graph.add_edge(edge).unwrap()
}

fn sorted_ids(nodes: &[&Node]) -> Vec<u128> {
    let mut ids: Vec<u128> = nodes.iter().map(|n| n.id).collect();
    ids.sort();
    ids
}

fn sorted(mut ids: Vec<u128>) -> Vec<u128> {
    ids.sort();
    ids
}

#[test]
fn new_graph_is_empty() {
    let graph = KnowledgeGraph::new();
    assert_eq!(graph.node_count(), 0);
    assert_eq!(graph.edge_count(), 0);
    assert!(graph.list_nodes().is_empty());
    assert!(graph.list_edges().is_empty());
}

#[test]
fn listed_nodes_are_those_added_and_not_removed() {
    let mut graph = KnowledgeGraph::new();
    let mut ids = Vec::new();
    for i in 0..5 {
        ids.push(named(&mut graph, &format!("n{}", i)));
    }
    assert_eq!(graph.list_nodes().len(), 5);
    assert_eq!(sorted_ids(&graph.list_nodes()), sorted(ids.clone()));

    assert!(graph.remove_node(&ids[2]).is_some());
    assert!(graph.remove_node(&ids[2]).is_none());
    ids.remove(2);
    assert_eq!(graph.list_nodes().len(), 4);
    assert_eq!(graph.node_count(), 4);
    let listed = sorted_ids(&graph.list_nodes());
    assert_eq!(listed, sorted(ids));
    let mut unique = listed.clone();
    unique.dedup();
    assert_eq!(unique.len(), listed.len());
}

#[test]
fn adding_a_node_twice_replaces_the_record_and_keeps_its_edges() {
    let mut graph = KnowledgeGraph::new();
    let a = named(&mut graph, "a");
    let b = named(&mut graph, "b");
    link(&mut graph, a, b, 1);

    let mut again = Node::new("renamed".to_string(), NodeType::Class);
    again.id = a;
    assert_eq!(graph.add_node(again), a);

    assert_eq!(graph.node_count(), 2);
    assert_eq!(graph.get_node(&a).unwrap().name, "renamed");
    assert_eq!(graph.get_node(&a).unwrap().node_type, NodeType::Class);
    assert_eq!(graph.edge_count(), 1);
    let path = graph.find_path(&a, &b).unwrap();
    assert_eq!(path.path, vec![a, b]);
    assert_eq!(path.node_names, vec!["renamed".to_string(), "b".to_string()]);
}

#[test]
fn edge_with_unknown_end_is_rejected_without_change() {
    let mut graph = KnowledgeGraph::new();
    let a = named(&mut graph, "a");
    let b = named(&mut graph, "b");
    link(&mut graph, a, b, 1);
    let stranger = Node::new("stranger".to_string(), NodeType::File).id;

    assert_eq!(graph.add_edge(Edge::new(a, stranger, EdgeType::Uses)), None);
    assert_eq!(graph.add_edge(Edge::new(stranger, b, EdgeType::Uses)), None);
    assert_eq!(graph.add_edge(Edge::new(stranger, stranger, EdgeType::Uses)), None);
    assert_eq!(graph.edge_count(), 1);
    assert_eq!(graph.list_edges().len(), 1);
    assert_eq!(graph.node_count(), 2);
    assert!(graph.find_path(&a, &stranger).is_none());
}

#[test]
fn adding_an_edge_twice_replaces_it() {
    let mut graph = KnowledgeGraph::new();
    let a = named(&mut graph, "a");
    let b = named(&mut graph, "b");
    let c = named(&mut graph, "c");
    let first = Edge::new(a, b, EdgeType::Calls).with_weight(7 * FIXED_POINT_UNIT);
    let id = first.id;
    assert_eq!(graph.add_edge(first), Some(id));

    let mut second = Edge::new(a, c, EdgeType::Imports).with_weight(3 * FIXED_POINT_UNIT);
    second.id = id;
    assert_eq!(graph.add_edge(second), Some(id));

    assert_eq!(graph.edge_count(), 1);
    let stored = graph.get_edge(&id).unwrap();
    assert_eq!(stored.target_id, c);
    assert_eq!(stored.edge_type, EdgeType::Imports);
    assert!(graph.find_path(&a, &b).is_none());
    assert_eq!(graph.find_path(&a, &c).unwrap().total_weight, 3 * FIXED_POINT_UNIT as u128);
}

#[test]
fn removing_a_node_leaves_the_others_in_place() {
    let mut graph = KnowledgeGraph::new();
    let a = named(&mut graph, "a");
    let b = named(&mut graph, "b");
    let c = named(&mut graph, "c");
    let d = named(&mut graph, "d");
    let ab = link(&mut graph, a, b, 1);
    let bd = link(&mut graph, b, d, 2);
    let cd = link(&mut graph, c, d, 4);
    let da = link(&mut graph, d, a, 8);

    let removed = graph.remove_node(&a).unwrap();
    assert_eq!(removed.id, a);
    assert_eq!(removed.name, "a");

    assert!(graph.get_node(&a).is_none());
    assert!(graph.get_edges_for_node(&a).is_empty());
    assert!(graph.get_edge(&ab).is_none());
    assert!(graph.get_edge(&da).is_none());
    for (id, name) in [(b, "b"), (c, "c"), (d, "d")] {
        assert_eq!(graph.get_node(&id).unwrap().name, name);
    }
    assert_eq!(graph.get_edge(&bd).unwrap().weight, 2 * FIXED_POINT_UNIT);
    assert_eq!(graph.get_edge(&cd).unwrap().weight, 4 * FIXED_POINT_UNIT);
    assert_eq!(graph.edge_count(), 2);

    // The last node added still answers to its own identifier.
    let path = graph.find_path(&b, &d).unwrap();
    assert_eq!(path.path, vec![b, d]);
    assert_eq!(path.node_names, vec!["b".to_string(), "d".to_string()]);
    assert_eq!(path.total_weight, 2 * FIXED_POINT_UNIT as u128);
    assert!(graph.find_path(&d, &b).is_none());
    let into_d = graph.find_neighbors(&d, None, &Direction::Incoming, 1);
    assert_eq!(sorted_ids(&into_d), sorted(vec![b, c]));

    // A node added after the removal gets along with the rest.
    let e = named(&mut graph, "e");
    link(&mut graph, d, e, 1);
    let path = graph.find_path(&c, &e).unwrap();
    assert_eq!(path.path, vec![c, d, e]);
    assert_eq!(path.total_weight, 5 * FIXED_POINT_UNIT as u128);
}

#[test]
fn edges_for_node_are_those_that_start_or_end_there() {
    let mut graph = KnowledgeGraph::new();
    let a = named(&mut graph, "a");
    let b = named(&mut graph, "b");
    let c = named(&mut graph, "c");
    let ab = link(&mut graph, a, b, 1);
    let ca = link(&mut graph, c, a, 1);
    let bc = link(&mut graph, b, c, 1);
    let aa = link(&mut graph, a, a, 1);

    let at_a: Vec<u128> = graph.get_edges_for_node(&a).iter().map(|e| e.id).collect();
    assert_eq!(sorted(at_a), sorted(vec![ab, ca, aa]));
    let at_b: Vec<u128> = graph.get_edges_for_node(&b).iter().map(|e| e.id).collect();
    assert_eq!(sorted(at_b), sorted(vec![ab, bc]));
    let all: Vec<u128> = graph.list_edges().iter().map(|e| e.id).collect();
    assert_eq!(sorted(all), sorted(vec![ab, ca, bc, aa]));
}

#[test]
fn shortest_path_over_one_edge() {
    let mut graph = KnowledgeGraph::new();
    let a = named(&mut graph, "A");
    let b = named(&mut graph, "B");
    link(&mut graph, a, b, 2);

    let result = graph.find_path(&a, &b).unwrap();
    assert_eq!(result.path, vec![a, b]);
    assert_eq!(result.node_names, vec!["A".to_string(), "B".to_string()]);
    assert_eq!(result.total_weight, 20_000);
}

#[test]
fn no_path_between_unconnected_nodes() {
    let mut graph = KnowledgeGraph::new();
    let c = named(&mut graph, "C");
    let d = named(&mut graph, "D");
    assert!(graph.find_path(&c, &d).is_none());
    assert!(graph.find_path(&d, &c).is_none());
}

#[test]
fn path_from_a_node_to_itself_is_the_node() {
    let mut graph = KnowledgeGraph::new();
    let a = named(&mut graph, "a");
    let b = named(&mut graph, "b");
    link(&mut graph, a, b, 1);
    let result = graph.find_path(&a, &a).unwrap();
    assert_eq!(result.path, vec![a]);
    assert_eq!(result.node_names, vec!["a".to_string()]);
    assert_eq!(result.total_weight, 0);
}

#[test]
fn path_follows_edge_direction() {
    let mut graph = KnowledgeGraph::new();
    let a = named(&mut graph, "a");
    let b = named(&mut graph, "b");
    link(&mut graph, a, b, 1);
    assert!(graph.find_path(&a, &b).is_some());
    assert!(graph.find_path(&b, &a).is_none());
}

#[test]
fn path_weight_is_the_sum_along_the_cheapest_path() {
    let mut graph = KnowledgeGraph::new();
    let a = named(&mut graph, "a");
    let b = named(&mut graph, "b");
    let c = named(&mut graph, "c");
    let d = named(&mut graph, "d");
    link(&mut graph, a, d, 10);
    link(&mut graph, a, b, 2);
    link(&mut graph, b, c, 3);
    link(&mut graph, c, d, 4);
    link(&mut graph, b, d, 9);

    let result = graph.find_path(&a, &d).unwrap();
    assert_eq!(result.path, vec![a, b, c, d]);
    assert_eq!(result.total_weight, 9 * FIXED_POINT_UNIT as u128);
    let mut sum: u128 = 0;
    for pair in result.path.windows(2) {
        let edge = graph
            .list_edges()
            .into_iter()
            .find(|e| e.source_id == pair[0] && e.target_id == pair[1])
            .unwrap();
        sum += edge.weight as u128;
    }
    assert_eq!(sum, result.total_weight);
}

#[test]
fn path_weight_keeps_fractions_of_a_unit() {
    let mut graph = KnowledgeGraph::new();
    let a = named(&mut graph, "a");
    let b = named(&mut graph, "b");
    let c = named(&mut graph, "c");
    graph.add_edge(Edge::new(a, b, EdgeType::Calls).with_weight(2_500)).unwrap();
    graph.add_edge(Edge::new(b, c, EdgeType::Calls).with_weight(1)).unwrap();
    let result = graph.find_path(&a, &c).unwrap();
    assert_eq!(result.path, vec![a, b, c]);
    assert_eq!(result.total_weight, 2_501);
}

#[test]
fn path_with_unknown_end_is_absent() {
    let mut graph = KnowledgeGraph::new();
    let a = named(&mut graph, "a");
    let stranger = Node::new("stranger".to_string(), NodeType::File).id;
    assert!(graph.find_path(&a, &stranger).is_none());
    assert!(graph.find_path(&stranger, &a).is_none());
    assert!(graph.find_path(&stranger, &stranger).is_none());
}

#[test]
fn neighbors_follow_direction() {
    let mut graph = KnowledgeGraph::new();
    let a = named(&mut graph, "A");
    let b = named(&mut graph, "B");
    link(&mut graph, a, b, 1);

    let incoming = graph.find_neighbors(&b, None, &Direction::Incoming, 1);
    assert_eq!(sorted_ids(&incoming), vec![a]);
    let outgoing = graph.find_neighbors(&b, None, &Direction::Outgoing, 1);
    assert!(outgoing.is_empty());
    let both = graph.find_neighbors(&b, None, &Direction::Both, 1);
    assert_eq!(sorted_ids(&both), vec![a]);
}

#[test]
fn neighbors_at_depth_zero_are_none() {
    let mut graph = KnowledgeGraph::new();
    let a = named(&mut graph, "a");
    let b = named(&mut graph, "b");
    link(&mut graph, a, b, 1);
    assert!(graph.find_neighbors(&a, None, &Direction::Both, 0).is_empty());
}

#[test]
fn neighbors_are_listed_once_without_the_origin() {
    let mut graph = KnowledgeGraph::new();
    let a = named(&mut graph, "a");
    let b = named(&mut graph, "b");
    let c = named(&mut graph, "c");
    link(&mut graph, a, b, 1);
    link(&mut graph, a, b, 2);
    link(&mut graph, b, a, 1);
    link(&mut graph, b, c, 1);
    link(&mut graph, c, a, 1);
    link(&mut graph, a, a, 1);

    for direction in [Direction::Incoming, Direction::Outgoing, Direction::Both] {
        for depth in 1..5 {
            let found = graph.find_neighbors(&a, None, &direction, depth);
            let ids = sorted_ids(&found);
            let mut unique = ids.clone();
            unique.dedup();
            assert_eq!(unique.len(), ids.len());
            assert!(!ids.contains(&a));
        }
    }
    let all = graph.find_neighbors(&a, None, &Direction::Outgoing, 4);
    assert_eq!(sorted_ids(&all), sorted(vec![b, c]));
}

#[test]
fn neighbors_come_nearest_first() {
    let mut graph = KnowledgeGraph::new();
    let a = named(&mut graph, "a");
    let b = named(&mut graph, "b");
    let c = named(&mut graph, "c");
    let d = named(&mut graph, "d");
    let e = named(&mut graph, "e");
    link(&mut graph, a, b, 1);
    link(&mut graph, a, c, 1);
    link(&mut graph, b, d, 1);
    link(&mut graph, c, d, 1);
    link(&mut graph, d, e, 1);

    let one: Vec<u128> =
        graph.find_neighbors(&a, None, &Direction::Outgoing, 1).iter().map(|n| n.id).collect();
    assert_eq!(sorted(one), sorted(vec![b, c]));
    let two: Vec<u128> =
        graph.find_neighbors(&a, None, &Direction::Outgoing, 2).iter().map(|n| n.id).collect();
    assert_eq!(two.len(), 3);
    assert_eq!(sorted(two[..2].to_vec()), sorted(vec![b, c]));
    assert_eq!(two[2], d);
    let three: Vec<u128> =
        graph.find_neighbors(&a, None, &Direction::Outgoing, 3).iter().map(|n| n.id).collect();
    assert_eq!(three.len(), 4);
    assert_eq!(three[2], d);
    assert_eq!(three[3], e);
    let back: Vec<u128> =
        graph.find_neighbors(&e, None, &Direction::Incoming, 2).iter().map(|n| n.id).collect();
    assert_eq!(back.len(), 3);
    assert_eq!(back[0], d);
    assert_eq!(sorted(back[1..].to_vec()), sorted(vec![b, c]));
}

#[test]
fn neighbors_respect_the_kind_filter() {
    let mut graph = KnowledgeGraph::new();
    let a = named(&mut graph, "a");
    let b = named(&mut graph, "b");
    let c = named(&mut graph, "c");
    graph.add_edge(Edge::new(a, b, EdgeType::Calls)).unwrap();
    graph.add_edge(Edge::new(a, c, EdgeType::Imports)).unwrap();

    let calls = graph.find_neighbors(&a, Some(&[EdgeType::Calls]), &Direction::Outgoing, 1);
    assert_eq!(sorted_ids(&calls), vec![b]);
    let either = graph.find_neighbors(
        &a,
        Some(&[EdgeType::Imports, EdgeType::Calls]),
        &Direction::Outgoing,
        1,
    );
    assert_eq!(sorted_ids(&either), sorted(vec![b, c]));
    let none = graph.find_neighbors(&a, Some(&[]), &Direction::Outgoing, 1);
    assert!(none.is_empty());
    let other = graph.find_neighbors(&a, Some(&[EdgeType::Uses]), &Direction::Both, 3);
    assert!(other.is_empty());
}

#[test]
fn neighbors_of_an_unknown_node_are_none() {
    let mut graph = KnowledgeGraph::new();
    let a = named(&mut graph, "a");
    let b = named(&mut graph, "b");
    link(&mut graph, a, b, 1);
    let stranger = Node::new("stranger".to_string(), NodeType::File).id;
    assert!(graph.find_neighbors(&stranger, None, &Direction::Both, 3).is_empty());
}

#[test]
fn neighbors_at_any_depth_are_all_that_can_be_reached() {
    let mut graph = KnowledgeGraph::new();
    let a = named(&mut graph, "a");
    let b = named(&mut graph, "b");
    let c = named(&mut graph, "c");
    let d = named(&mut graph, "d");
    let apart = named(&mut graph, "apart");
    link(&mut graph, a, b, 1);
    link(&mut graph, b, c, 1);
    link(&mut graph, c, a, 1);
    link(&mut graph, d, c, 1);

    let out = graph.find_neighbors(&a, None, &Direction::Outgoing, usize::MAX);
    assert_eq!(sorted_ids(&out), sorted(vec![b, c]));
    let both = graph.find_neighbors(&a, None, &Direction::Both, usize::MAX);
    assert_eq!(sorted_ids(&both), sorted(vec![b, c, d]));
    assert!(graph.find_neighbors(&apart, None, &Direction::Both, usize::MAX).is_empty());
}

#[test]
fn default_graph_is_empty() {
    let graph = KnowledgeGraph::default();
    assert_eq!(graph.node_count(), 0);
    assert_eq!(graph.edge_count(), 0);
    assert_eq!(graph.get_stats().total_nodes, 0);
}
