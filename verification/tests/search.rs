use knowledge_graph::models::{Node, NodeType};
use knowledge_graph::services::graph::KnowledgeGraph;
use knowledge_graph::services::search::matches_lowered;

fn names_of(nodes: &[&Node]) -> Vec<String> {
    let mut names: Vec<String> = nodes.iter().map(|n| n.name.clone()).collect();
    names.sort();
    names
}

fn sample() -> KnowledgeGraph {
    let mut graph = KnowledgeGraph::new();
    graph.add_node(
        Node::new("handleAuth".to_string(), NodeType::Function)
            .with_language("typescript".to_string()),
    );
    graph.add_node(
        Node::new("processPayment".to_string(), NodeType::Function)
            .with_language("typescript".to_string())
            .with_description("Charges the card after AUTHORISATION".to_string()),
    );
    graph.add_node(
        Node::new("AuthService".to_string(), NodeType::Class).with_language("rust".to_string()),
    );
    graph.add_node(Node::new("authors.txt".to_string(), NodeType::File));
    graph
}

#[test]
fn search_finds_the_query_in_names_only_where_it_occurs() {
    let mut graph = KnowledgeGraph::new();
    graph.add_node(
        Node::new("handleAuth".to_string(), NodeType::Function)
            .with_language("typescript".to_string()),
    );
    graph.add_node(
        Node::new("processPayment".to_string(), NodeType::Function)
            .with_language("typescript".to_string()),
    );
    let results = graph.search_nodes("auth", None, None, 10);
    assert_eq!(names_of(&results), vec!["handleAuth".to_string()]);
}

#[test]
fn search_ignores_letter_case_in_query_name_and_description() {
    let graph = sample();
    let expected = vec![
        "AuthService".to_string(),
        "authors.txt".to_string(),
        "handleAuth".to_string(),
        "processPayment".to_string(),
    ];
    assert_eq!(names_of(&graph.search_nodes("auth", None, None, 10)), expected);
    assert_eq!(names_of(&graph.search_nodes("AUTH", None, None, 10)), expected);
    assert_eq!(names_of(&graph.search_nodes("aUtH", None, None, 10)), expected);
    assert_eq!(
        names_of(&graph.search_nodes("charges the CARD", None, None, 10)),
        vec!["processPayment".to_string()]
    );
    assert!(graph.search_nodes("nothing like it", None, None, 10).is_empty());
}

#[test]
fn search_with_empty_query_finds_every_node() {
    let graph = sample();
    assert_eq!(graph.search_nodes("", None, None, 10).len(), 4);
}

#[test]
fn search_respects_the_kind_filter() {
    let graph = sample();
    let classes = graph.search_nodes("auth", Some(&[NodeType::Class]), None, 10);
    assert_eq!(names_of(&classes), vec!["AuthService".to_string()]);
    let two = graph.search_nodes("auth", Some(&[NodeType::File, NodeType::Class]), None, 10);
    assert_eq!(names_of(&two), vec!["AuthService".to_string(), "authors.txt".to_string()]);
    assert!(graph.search_nodes("auth", Some(&[]), None, 10).is_empty());
    assert!(graph.search_nodes("auth", Some(&[NodeType::Task]), None, 10).is_empty());
}

#[test]
fn search_language_filter_is_exact() {
    let graph = sample();
    let typescript = graph.search_nodes("auth", None, Some("typescript"), 10);
    assert_eq!(
        names_of(&typescript),
        vec!["handleAuth".to_string(), "processPayment".to_string()]
    );
    assert!(graph.search_nodes("auth", None, Some("TypeScript"), 10).is_empty());
    assert!(graph.search_nodes("auth", None, Some("type"), 10).is_empty());
    let rust = graph.search_nodes("auth", Some(&[NodeType::Class]), Some("rust"), 10);
    assert_eq!(names_of(&rust), vec!["AuthService".to_string()]);
    assert!(graph.search_nodes("auth", Some(&[NodeType::File]), Some("rust"), 10).is_empty());
}

#[test]
fn search_stops_at_the_limit() {
    let graph = sample();
    assert!(graph.search_nodes("auth", None, None, 0).is_empty());
    for limit in 1..4 {
        let results = graph.search_nodes("auth", None, None, limit);
        assert_eq!(results.len(), limit);
        let mut names = names_of(&results);
        names.dedup();
        assert_eq!(names.len(), limit);
        for node in results {
            assert!(node.name.to_lowercase().contains("auth")
                || node.description.as_ref().unwrap().to_lowercase().contains("auth"));
        }
    }
    assert_eq!(graph.search_nodes("auth", None, None, 4).len(), 4);
    assert_eq!(graph.search_nodes("auth", None, None, usize::MAX).len(), 4);
}

#[test]
fn lowered_texts_decide_a_match() {
    let node = Node::new("Anything".to_string(), NodeType::Module).with_language("go".to_string());
    assert!(matches_lowered(&node, "parse_config", None, "config", None, None));
    assert!(!matches_lowered(&node, "parse_config", None, "Config", None, None));
    assert!(matches_lowered(&node, "x", Some("reads the config"), "config", None, None));
    assert!(!matches_lowered(&node, "x", Some("reads it"), "config", None, None));
    assert!(!matches_lowered(&node, "x", None, "config", None, None));
    assert!(matches_lowered(&node, "cfg", None, "", None, None));
    assert!(matches_lowered(&node, "cfg", None, "cfg", Some(&[NodeType::Module]), Some("go")));
    assert!(!matches_lowered(&node, "cfg", None, "cfg", Some(&[NodeType::File]), Some("go")));
    assert!(!matches_lowered(&node, "cfg", None, "cfg", Some(&[NodeType::Module]), Some("Go")));
    let plain = Node::new("Anything".to_string(), NodeType::Module);
    assert!(!matches_lowered(&plain, "cfg", None, "cfg", None, Some("go")));
    assert!(!matches_lowered(&plain, "cfg", None, "cfgs", None, None));
}
