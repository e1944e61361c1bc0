//! The mathematical model of a graph: its node records and its edge records,
//! each keyed by identifier.

use super::listing::lemma_push_contains;
use super::route::{
    all_positive, follows, is_cheapest, is_route, is_tight, no_parallel, no_way_back, route_cost,
};
use crate::models::{Edge, Node, PathResult};
use vstd::prelude::*;

verus! {

/// What a graph holds.
pub struct GraphView {
    pub nodes: Map<u128, Node>,
    pub edges: Map<u128, Edge>,
}

impl GraphView {
    /// Records are filed under their own identifiers, there are finitely many
    /// of them, and every edge joins two nodes of the graph.
    pub open spec fn wf(self) -> bool {
        &&& self.nodes.dom().finite()
        &&& self.edges.dom().finite()
        &&& forall|id: u128| #[trigger] self.nodes.contains_key(id) ==> self.nodes[id].id == id
        &&& forall|id: u128| #[trigger]
            self.edges.contains_key(id) ==> {
                &&& self.edges[id].id == id
                &&& self.nodes.contains_key(self.edges[id].source_id)
                &&& self.nodes.contains_key(self.edges[id].target_id)
            }
    }

    /// The graph without nodes or edges.
    pub open spec fn empty() -> GraphView {
        GraphView { nodes: Map::empty(), edges: Map::empty() }
    }

    /// The graph after a node record is stored. A record that was filed under
    /// the same identifier is replaced; edges stay as they are.
    pub open spec fn add_node(self, node: Node) -> GraphView {
        GraphView { nodes: self.nodes.insert(node.id, node), edges: self.edges }
    }

    /// The edges that neither start nor end at a node.
    pub open spec fn edges_clear_of(self, id: u128) -> Map<u128, Edge> {
        Map::new(
            |e: u128| self.edges.contains_key(e) && !self.edges[e].touches(id),
            |e: u128| self.edges[e],
        )
    }

    /// The graph after a node is removed together with every edge that
    /// starts or ends there. Removing an unknown node changes nothing.
    pub open spec fn remove_node(self, id: u128) -> GraphView {
        if self.nodes.contains_key(id) {
            GraphView { nodes: self.nodes.remove(id), edges: self.edges_clear_of(id) }
        } else {
            self
        }
    }

    /// Whether both ends of an edge are nodes of the graph.
    pub open spec fn accepts_edge(self, edge: Edge) -> bool {
        self.nodes.contains_key(edge.source_id) && self.nodes.contains_key(edge.target_id)
    }

    /// The graph after an edge record is offered: stored if the graph accepts
    /// it, replacing a record filed under the same identifier; otherwise the
    /// graph is unchanged.
    pub open spec fn add_edge(self, edge: Edge) -> GraphView {
        if self.accepts_edge(edge) {
            GraphView { nodes: self.nodes, edges: self.edges.insert(edge.id, edge) }
        } else {
            self
        }
    }

    /// The identifiers of the edges that start or end at a node.
    pub open spec fn edges_touching(self, id: u128) -> Set<u128> {
        Set::new(|e: u128| self.edges.contains_key(e) && self.edges[e].touches(id))
    }

    /// The edges as links: (source, target, cost) under the edge's
    /// identifier.
    pub open spec fn links(self) -> Map<u128, (u128, u128, u64)> {
        Map::new(
            |e: u128| self.edges.contains_key(e),
            |e: u128| (self.edges[e].source_id, self.edges[e].target_id, self.edges[e].weight),
        )
    }

    /// A route from a node of the graph ends at a node of the graph.
    pub proof fn lemma_route_stays_inside(self, from: u128, to: u128, route: Seq<u128>)
        requires
            self.wf(),
            self.nodes.contains_key(from),
            is_route(self.links(), from, to, route),
        ensures
            self.nodes.contains_key(to),
        decreases route.len(),
    {
        if route.len() > 0 {
            assert(self.edges.contains_key(route[0]));
            self.lemma_route_stays_inside(self.links()[route[0]].1, to, route.drop_first());
        }
    }

    /// Whether `names` are the names of the nodes of `path`, in order.
    pub open spec fn names_along(self, path: Seq<u128>, names: Seq<String>) -> bool {
        &&& names.len() == path.len()
        &&& forall|i: int| 0 <= i < path.len() ==> #[trigger] names[i] == self.nodes[path[i]].name
    }

    /// Whether `path` is a list of distinct nodes of the graph that ends at
    /// `target` and does not pass through `source`: where `source` is on the
    /// path, the path starts there.
    pub open spec fn path_to(self, path: Seq<u128>, source: u128, target: u128) -> bool {
        &&& path.len() > 0
        &&& path.last() == target
        &&& path.no_duplicates()
        &&& forall|i: int| 0 <= i < path.len() ==> self.nodes.contains_key(#[trigger] path[i])
        &&& forall|i: int| 0 < i < path.len() ==> #[trigger] path[i] != source
    }

    /// What tracing back from `target` over `distances` yields: a path of
    /// distinct nodes that ends at `target`, with a tight route along it. The
    /// path starts at `source`, or else at a node from which no step back
    /// was open, and does not pass through `source`. The weight is the
    /// distance of `target`.
    pub open spec fn is_trace(
        self,
        result: PathResult,
        distances: Map<u128, u128>,
        source: u128,
        target: u128,
    ) -> bool {
        &&& result.total_weight == distances[target]
        &&& self.path_to(result.path@, source, target)
        &&& self.names_along(result.path@, result.node_names@)
        &&& exists|route: Seq<u128>| is_tight(self.links(), distances, result.path@, route)
        &&& result.path@[0] != source ==> no_way_back(
            self.links(),
            result.path@[0],
            result.path@.to_set(),
            distances,
        )
    }

    /// The graph after a list of node records is stored, one after the
    /// other.
    pub open spec fn add_nodes(self, nodes: Seq<Node>) -> GraphView
        decreases nodes.len(),
    {
        if nodes.len() == 0 {
            self
        } else {
            self.add_nodes(nodes.drop_last()).add_node(nodes.last())
        }
    }

    /// Storing a node, removing a node and offering an edge each keep a
    /// well-formed graph well formed.
    pub proof fn lemma_changes_keep_wf(self, node: Node, id: u128, edge: Edge)
        requires
            self.wf(),
        ensures
            self.add_node(node).wf(),
            self.remove_node(id).wf(),
            self.add_edge(edge).wf(),
    {
        if self.nodes.contains_key(id) {
            assert(self.edges_clear_of(id).dom().subset_of(self.edges.dom()));
            vstd::set_lib::lemma_len_subset(self.edges_clear_of(id).dom(), self.edges.dom());
        }
    }

    /// Storing a node under an identifier that is new adds one node; storing
    /// it under a known identifier adds none.
    pub proof fn lemma_add_node_count(self, node: Node)
        requires
            self.wf(),
        ensures
            self.add_node(node).nodes.len() == self.nodes.len() + (if self.nodes.contains_key(
                node.id,
            ) {
                0int
            } else {
                1int
            }),
            self.add_node(node).edges == self.edges,
    {
    }

    /// Removing a node that is there leaves one node fewer, and removing an
    /// unknown node leaves as many.
    pub proof fn lemma_remove_node_count(self, id: u128)
        requires
            self.wf(),
        ensures
            self.remove_node(id).nodes.len() == self.nodes.len() - (if self.nodes.contains_key(id) {
                1int
            } else {
                0int
            }),
    {
    }

    /// After nodes are stored one after the other, the graph holds the nodes
    /// it held and those stored. Where their identifiers are new and differ
    /// from each other, it holds as many more nodes as were stored.
    pub proof fn lemma_add_nodes(self, nodes: Seq<Node>)
        requires
            self.wf(),
        ensures
            self.add_nodes(nodes).wf(),
            self.add_nodes(nodes).edges == self.edges,
            self.add_nodes(nodes).nodes.dom() == self.nodes.dom().union(
                Seq::new(nodes.len(), |i: int| nodes[i].id).to_set(),
            ),
            Seq::new(nodes.len(), |i: int| nodes[i].id).no_duplicates() && (forall|i: int|
                0 <= i < nodes.len() ==> !self.nodes.contains_key(#[trigger] nodes[i].id))
                ==> self.add_nodes(nodes).nodes.len() == self.nodes.len() + nodes.len(),
        decreases nodes.len(),
    {
        let ids = Seq::new(nodes.len(), |i: int| nodes[i].id);
        if nodes.len() == 0 {
            assert(self.nodes.dom().union(ids.to_set()) =~= self.nodes.dom());
        } else {
            let rest = nodes.drop_last();
            let rest_ids = Seq::new(rest.len(), |i: int| rest[i].id);
            let last = nodes.last();
            self.lemma_add_nodes(rest);
            let before = self.add_nodes(rest);
            assert(ids =~= rest_ids.push(last.id));
            lemma_push_contains(rest_ids, last.id);
            assert(before.add_node(last).nodes.dom() =~= self.nodes.dom().union(ids.to_set()));
            if ids.no_duplicates() && (forall|i: int|
                0 <= i < nodes.len() ==> !self.nodes.contains_key(#[trigger] nodes[i].id)) {
                assert(rest_ids.no_duplicates()) by {
                    assert forall|i: int, j: int|
                        0 <= i < rest_ids.len() && 0 <= j < rest_ids.len() && i
                            != j implies rest_ids[i] != rest_ids[j] by {
                        assert(ids[i] == rest_ids[i] && ids[j] == rest_ids[j]);
                    }
                }
                assert forall|i: int| 0 <= i < rest.len() implies !self.nodes.contains_key(
                    #[trigger] rest[i].id,
                ) by {
                    assert(rest[i] == nodes[i]);
                }
                assert(!rest_ids.contains(last.id)) by {
                    if rest_ids.contains(last.id) {
                        let i = choose|i: int| 0 <= i < rest_ids.len() && rest_ids[i] == last.id;
                        assert(ids[i] == ids[nodes.len() - 1]);
                    }
                }
                assert(!self.nodes.contains_key(nodes[nodes.len() - 1].id));
                assert(!before.nodes.contains_key(last.id));
            }
        }
    }

    /// What a shortest-path query yields where a path leads from `source` to
    /// `target`. The weight is the cost of a cheapest route. The path is a
    /// list of distinct nodes that ends at `target`, with their names; a
    /// route leads along it whose cost is the weight where the path starts
    /// at `source`, and no more than the weight where it starts later. It
    /// does start at `source` where every edge costs something and no two
    /// edges join the same nodes in the same direction.
    pub open spec fn is_cheapest_path(self, result: PathResult, source: u128, target: u128) -> bool {
        &&& is_cheapest(self.links(), source, target, result.total_weight as int)
        &&& self.path_to(result.path@, source, target)
        &&& self.names_along(result.path@, result.node_names@)
        &&& exists|route: Seq<u128>|
            {
                &&& follows(self.links(), result.path@, route)
                &&& route_cost(self.links(), route) <= result.total_weight
                &&& result.path@[0] == source ==> route_cost(self.links(), route)
                    == result.total_weight
            }
        &&& all_positive(self.links()) && no_parallel(self.links()) ==> result.path@[0] == source
    }

    /// An edge with an end that is not a node of the graph changes nothing.
    pub proof fn lemma_rejected_edge(self, edge: Edge)
        requires
            !self.nodes.contains_key(edge.source_id) || !self.nodes.contains_key(edge.target_id),
        ensures
            self.add_edge(edge) == self,
            self.add_edge(edge).edges.len() == self.edges.len(),
    {
    }

    /// After a node is removed it is gone, no edge touches it, every other
    /// node is there with its record unchanged, and so is every edge that
    /// did not touch it.
    pub proof fn lemma_removed_node(self, id: u128)
        requires
            self.wf(),
            self.nodes.contains_key(id),
        ensures
            !self.remove_node(id).nodes.contains_key(id),
            self.remove_node(id).edges_touching(id) == Set::<u128>::empty(),
            forall|other: u128|
                other != id && #[trigger] self.nodes.contains_key(other) ==> self.remove_node(
                    id,
                ).nodes.contains_key(other) && self.remove_node(id).nodes[other]
                    == self.nodes[other],
            forall|e: u128|
                #[trigger] self.edges.contains_key(e) && !self.edges[e].touches(id)
                    ==> self.remove_node(id).edges.contains_key(e) && self.remove_node(id).edges[e]
                    == self.edges[e],
            forall|e: u128| #[trigger]
                self.remove_node(id).edges.contains_key(e) ==> self.edges.contains_key(e)
                    && !self.edges[e].touches(id),
    {
        assert(self.remove_node(id).edges_touching(id) =~= Set::<u128>::empty());
    }
}

} // verus!
