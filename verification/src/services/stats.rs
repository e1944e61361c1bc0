//! Counts over the store.

use super::graph::KnowledgeGraph;
use super::keys::key_list;
use super::listing::{lemma_listing_len, lemma_push_contains, lists_nodes, node_ids};
use super::view::GraphView;
use crate::models::{Edge, EdgeType, GraphStats, Node, NodeType, FIXED_POINT_UNIT};
use vstd::prelude::*;

verus! {

/// How many items of a list satisfy a predicate.
pub open spec fn count_where<T>(list: Seq<T>, p: spec_fn(T) -> bool) -> nat
    decreases list.len(),
{
    if list.len() == 0 {
        0
    } else {
        count_where(list.drop_last(), p) + if p(list.last()) {
            1nat
        } else {
            0nat
        }
    }
}

/// Counting along a duplicate-free list counts the set of its items.
pub proof fn lemma_count_where<T>(list: Seq<T>, p: spec_fn(T) -> bool)
    requires
        list.no_duplicates(),
    ensures
        list.to_set().filter(p).finite(),
        count_where(list, p) == list.to_set().filter(p).len(),
        count_where(list, p) <= list.len(),
    decreases list.len(),
{
    if list.len() == 0 {
        assert(list.to_set().filter(p) =~= Set::empty());
    } else {
        let rest = list.drop_last();
        let x = list.last();
        lemma_count_where(rest, p);
        assert(list =~= rest.push(x));
        lemma_push_contains(rest, x);
        assert(!rest.contains(x)) by {
            if rest.contains(x) {
                let i = choose|i: int| 0 <= i < rest.len() && rest[i] == x;
                assert(list[i] == list[list.len() - 1]);
            }
        }
        if p(x) {
            assert(list.to_set().filter(p) =~= rest.to_set().filter(p).insert(x));
        } else {
            assert(list.to_set().filter(p) =~= rest.to_set().filter(p));
        }
    }
}

/// The test whether the node filed under an identifier is of a kind.
pub open spec fn node_is(nodes: Map<u128, Node>, kind: NodeType) -> spec_fn(u128) -> bool {
    |id: u128| nodes[id].node_type == kind
}

/// The test whether the edge filed under an identifier is of a kind.
pub open spec fn edge_is(edges: Map<u128, Edge>, kind: EdgeType) -> spec_fn(u128) -> bool {
    |id: u128| edges[id].edge_type == kind
}

impl GraphView {
    /// The identifiers of the nodes of a kind.
    pub open spec fn nodes_of_kind(self, kind: NodeType) -> Set<u128> {
        self.nodes.dom().filter(node_is(self.nodes, kind))
    }

    /// The identifiers of the edges of a kind.
    pub open spec fn edges_of_kind(self, kind: EdgeType) -> Set<u128> {
        self.edges.dom().filter(edge_is(self.edges, kind))
    }

    /// Edges per node as a fixed-point number, rounded down; zero for a
    /// graph without nodes.
    pub open spec fn average_degree(self) -> int {
        if self.nodes.len() == 0 {
            0
        } else {
            (self.edges.len() * FIXED_POINT_UNIT) / (self.nodes.len() as int)
        }
    }

    /// Whether statistics are those of this graph.
    pub open spec fn has_stats(self, stats: GraphStats) -> bool {
        &&& stats.total_nodes == self.nodes.len()
        &&& stats.total_edges == self.edges.len()
        &&& stats.nodes_by_type@.len() == NodeType::COUNT
        &&& stats.edges_by_type@.len() == EdgeType::COUNT
        &&& forall|kind: NodeType|
            stats.nodes_by_type@[#[trigger] kind.spec_index()] == self.nodes_of_kind(kind).len()
        &&& forall|kind: EdgeType|
            stats.edges_by_type@[#[trigger] kind.spec_index()] == self.edges_of_kind(kind).len()
        &&& stats.avg_edges_per_node == self.average_degree()
    }
}

/// Statistics of a graph count as many nodes as a list of all its nodes
/// holds, and give a graph without nodes an average of zero.
pub proof fn lemma_stats_agree_with_listing(graph: GraphView, stats: GraphStats, list: Seq<&Node>)
    requires
        graph.wf(),
        graph.has_stats(stats),
        lists_nodes(list, graph.nodes, graph.nodes.dom()),
    ensures
        stats.total_nodes == list.len(),
        list.len() == 0 ==> stats.avg_edges_per_node == 0,
{
    lemma_listing_len(node_ids(list), graph.nodes.dom());
}

impl GraphStats {
    /// How many nodes of a kind were counted.
    pub fn nodes_of(&self, kind: NodeType) -> (count: usize)
        ensures
            count == (if kind.spec_index() < self.nodes_by_type@.len() {
                self.nodes_by_type@[kind.spec_index()]
            } else {
                0
            }),
    {
        let i = kind.index();
        if i < self.nodes_by_type.len() {
            self.nodes_by_type[i]
        } else {
            0
        }
    }

    /// How many edges of a kind were counted.
    pub fn edges_of(&self, kind: EdgeType) -> (count: usize)
        ensures
            count == (if kind.spec_index() < self.edges_by_type@.len() {
                self.edges_by_type@[kind.spec_index()]
            } else {
                0
            }),
    {
        let i = kind.index();
        if i < self.edges_by_type.len() {
            self.edges_by_type[i]
        } else {
            0
        }
    }
}

/// Edges per node as a fixed-point number, rounded down; zero where there
/// are no nodes.
pub fn average_edges(total_nodes: usize, total_edges: usize) -> (average: u128)
    ensures
        average == (if total_nodes == 0 {
            0
        } else {
            (total_edges * FIXED_POINT_UNIT) / (total_nodes as int)
        }),
{
    if total_nodes > 0 {
        assert(total_edges * FIXED_POINT_UNIT <= u128::MAX) by (nonlinear_arith)
            requires
                total_edges <= u64::MAX,
                FIXED_POINT_UNIT == 10_000,
        ;
        (total_edges as u128 * FIXED_POINT_UNIT as u128) / (total_nodes as u128)
    } else {
        0
    }
}

impl KnowledgeGraph {
    /// How many nodes there are of each kind, by the position of the kind.
    fn count_nodes(&self) -> (counts: Vec<usize>)
        requires
            self.wf(),
        ensures
            counts@.len() == NodeType::COUNT,
            forall|kind: NodeType|
                counts@[#[trigger] kind.spec_index()] == self@.nodes_of_kind(kind).len(),
    {
        proof {
            self.lemma_unfold();
        }
        let ids = key_list(&self.nodes);
        let mut counts: Vec<usize> = vec![0usize; 11];
        let mut i: usize = 0;
        while i < ids.len()
            invariant
                i <= ids.len(),
                self.wf(),
                self@.nodes == self.nodes@,
                ids@.no_duplicates(),
                ids@.to_set() == self@.nodes.dom(),
                counts@.len() == 11,
                forall|kind: NodeType|
                    counts@[#[trigger] kind.spec_index()] == count_where(
                        ids@.take(i as int),
                        node_is(self@.nodes, kind),
                    ),
            decreases ids.len() - i,
        {
            let id = ids[i];
            proof {
                assert(ids@.to_set().contains(id));
                assert(ids@.take(i + 1).drop_last() =~= ids@.take(i as int));
            }
            let node = self.nodes.get(&id).unwrap();
            let kind = node.node_type;
            let k = kind.index();
            proof {
                lemma_count_where(ids@.take(i as int), node_is(self@.nodes, kind));
            }
            let bumped = counts[k] + 1;
            counts.set(k, bumped);
            i += 1;
        }
        proof {
            assert(ids@.take(ids@.len() as int) =~= ids@);
            assert forall|kind: NodeType|
                counts@[#[trigger] kind.spec_index()] == self@.nodes_of_kind(kind).len() by {
                lemma_count_where(ids@, node_is(self@.nodes, kind));
            }
        }
        counts
    }

    /// How many edges there are of each kind, by the position of the kind.
    fn count_edges(&self) -> (counts: Vec<usize>)
        requires
            self.wf(),
        ensures
            counts@.len() == EdgeType::COUNT,
            forall|kind: EdgeType|
                counts@[#[trigger] kind.spec_index()] == self@.edges_of_kind(kind).len(),
    {
        proof {
            self.lemma_unfold();
        }
        let ids = key_list(&self.edges);
        let mut counts: Vec<usize> = vec![0usize; 11];
        let mut i: usize = 0;
        while i < ids.len()
            invariant
                i <= ids.len(),
                self.wf(),
                self@.edges == self.edges@,
                ids@.no_duplicates(),
                ids@.to_set() == self@.edges.dom(),
                counts@.len() == 11,
                forall|kind: EdgeType|
                    counts@[#[trigger] kind.spec_index()] == count_where(
                        ids@.take(i as int),
                        edge_is(self@.edges, kind),
                    ),
            decreases ids.len() - i,
        {
            let id = ids[i];
            proof {
                assert(ids@.to_set().contains(id));
                assert(ids@.take(i + 1).drop_last() =~= ids@.take(i as int));
            }
            let edge = self.edges.get(&id).unwrap();
            let kind = edge.edge_type;
            let k = kind.index();
            proof {
                lemma_count_where(ids@.take(i as int), edge_is(self@.edges, kind));
            }
            let bumped = counts[k] + 1;
            counts.set(k, bumped);
            i += 1;
        }
        proof {
            assert(ids@.take(ids@.len() as int) =~= ids@);
            assert forall|kind: EdgeType|
                counts@[#[trigger] kind.spec_index()] == self@.edges_of_kind(kind).len() by {
                lemma_count_where(ids@, edge_is(self@.edges, kind));
            }
        }
        counts
    }

    /// The number of nodes and of edges, in all and by kind, and the average
    /// number of edges per node.
    pub fn get_stats(&self) -> (stats: GraphStats)
        requires
            self.wf(),
        ensures
            self@.has_stats(stats),
    {
        proof {
            self.lemma_unfold();
        }
        let nodes_by_type = self.count_nodes();
        let edges_by_type = self.count_edges();
        let total_nodes = self.nodes.len();
        let total_edges = self.edges.len();
        let avg_edges_per_node = average_edges(total_nodes, total_edges);
        GraphStats { total_nodes, total_edges, nodes_by_type, edges_by_type, avg_edges_per_node }
    }
}

} // verus!
