//! Queries and their results.

use super::edge::EdgeType;
use super::node::NodeType;
use vstd::prelude::*;

verus! {

/// A request for the cheapest directed path between two nodes.
#[derive(Debug, Clone, Copy)]
pub struct PathQuery {
    pub source_id: u128,
    pub target_id: u128,
    pub max_depth: Option<usize>,
}

/// A request for the nodes within a number of hops of a node.
#[derive(Debug)]
pub struct NeighborsQuery {
    pub node_id: u128,
    pub edge_types: Option<Vec<EdgeType>>,
    pub direction: Option<Direction>,
    pub depth: Option<usize>,
}

/// Which edges a traversal follows from a node: those that end there, those
/// that start there, or both.
#[derive(Debug, Clone, Copy, PartialEq, Eq, Structural)]
pub enum Direction {
    Incoming,
    Outgoing,
    Both,
}

impl Default for Direction {
    fn default() -> (direction: Self)
        ensures
            direction == Direction::Both,
    {
        Direction::Both
    }
}

/// A request for the nodes whose name or description holds a text.
#[derive(Debug)]
pub struct SearchQuery {
    pub query: String,
    pub node_types: Option<Vec<NodeType>>,
    pub language: Option<String>,
    pub limit: Option<usize>,
}

/// A path from a source to a target: the nodes in order, their names, and
/// the fixed-point cost of the cheapest path between the two.
#[derive(Debug)]
pub struct PathResult {
    pub path: Vec<u128>,
    pub node_names: Vec<String>,
    pub total_weight: u128,
}

/// Counts over a graph. The per-kind counts are indexed by the position of
/// the kind; the average is a fixed-point number, rounded down.
#[derive(Debug)]
pub struct GraphStats {
    pub total_nodes: usize,
    pub total_edges: usize,
    pub nodes_by_type: Vec<usize>,
    pub edges_by_type: Vec<usize>,
    pub avg_edges_per_node: u128,
}

} // verus!
