//! The graph engine: the store of node and edge records and the adjacency
//! structure that mirrors it.

use super::adjacency::{
    adjacency_add_edge, adjacency_add_node, adjacency_edges, adjacency_new, adjacency_nodes,
    adjacency_remove_edge, adjacency_remove_node,
};
use super::keys::key_list;
use super::listing::{
    edge_ids, lemma_listing_len, lemma_push_contains, lemma_push_no_duplicates, lemma_take_next,
    lists_edges, lists_nodes, node_ids,
};
use super::route::links_clear_of;
use super::view::GraphView;
use crate::models::{Edge, Node};
use petgraph::stable_graph::StableGraph;
use petgraph::Directed;
use std::collections::HashMap;
use vstd::prelude::*;
use vstd::set_lib::{lemma_int_range, lemma_len_subset, lemma_map_size, set_int_range};

verus! {

/// A mutable store of nodes and edges. Positions in the adjacency structure
/// are stable: removing a node never moves another.
pub struct KnowledgeGraph {
    pub(crate) graph: StableGraph<u128, u64, Directed, u32>,
    pub(crate) nodes: HashMap<u128, Node>,
    pub(crate) edges: HashMap<u128, Edge>,
    pub(crate) node_indices: HashMap<u128, u32>,
    pub(crate) edge_indices: HashMap<u128, u32>,
    /// The edge identifier behind each occupied edge slot.
    pub(crate) edge_ids: Ghost<Map<int, u128>>,
}

impl View for KnowledgeGraph {
    type V = GraphView;

    closed spec fn view(&self) -> GraphView {
        GraphView { nodes: self.nodes@, edges: self.edges@ }
    }
}

impl Default for KnowledgeGraph {
    fn default() -> (graph: Self)
        ensures
            graph.wf(),
            graph@ == GraphView::empty(),
    {
        KnowledgeGraph::new()
    }
}

impl KnowledgeGraph {
    /// Node identifiers and occupied node slots correspond one to one.
    pub(crate) open spec fn slots_match(&self) -> bool {
        let an = adjacency_nodes(self.graph);
        let ni = self.node_indices@;
        &&& ni.dom() == self.nodes@.dom()
        &&& forall|id: u128| #[trigger]
            ni.contains_key(id) ==> an.contains_key(ni[id] as int) && an[ni[id] as int] == id
        &&& forall|s: int| #[trigger]
            an.contains_key(s) ==> ni.contains_key(an[s]) && ni[an[s]] as int == s
    }

    /// Edge records and occupied edge slots correspond one to one, and each
    /// slot holds its record's ends and cost.
    pub(crate) open spec fn links_match(&self) -> bool {
        let ae = adjacency_edges(self.graph);
        let ni = self.node_indices@;
        let ei = self.edge_indices@;
        let ids = self.edge_ids@;
        &&& ei.dom() == self.edges@.dom()
        &&& forall|id: u128| #[trigger]
            ei.contains_key(id) ==> {
                &&& ae.contains_key(ei[id] as int)
                &&& ids[ei[id] as int] == id
                &&& ae[ei[id] as int] == (
                    ni[self.edges@[id].source_id] as int,
                    ni[self.edges@[id].target_id] as int,
                    self.edges@[id].weight,
                )
            }
        &&& forall|e: int| #[trigger]
            ae.contains_key(e) ==> ei.contains_key(ids[e]) && ei[ids[e]] as int == e && e
                < u32::MAX
    }

    /// The invariant of the store: its records are well formed and the
    /// adjacency structure mirrors them.
    pub closed spec fn wf(&self) -> bool {
        &&& self@.wf()
        &&& self.slots_match()
        &&& self.links_match()
    }

    /// What the invariant and the model are made of, for the other files of
    /// the engine.
    pub(crate) proof fn lemma_unfold(&self)
        ensures
            self@.nodes == self.nodes@,
            self@.edges == self.edges@,
            self.wf() ==> self@.wf() && self.slots_match() && self.links_match(),
    {
    }

    /// A well-formed store has a well-formed model.
    pub proof fn lemma_wf_view(&self)
        requires
            self.wf(),
        ensures
            self@.wf(),
    {
    }

    /// The adjacency structure has as many occupied slots as the store has
    /// records.
    pub(crate) proof fn lemma_counts(&self)
        requires
            self.wf(),
        ensures
            adjacency_nodes(self.graph).dom().finite(),
            adjacency_nodes(self.graph).len() == self.nodes@.len(),
            adjacency_edges(self.graph).dom().finite(),
            adjacency_edges(self.graph).len() == self.edges@.len(),
            self.edges@.len() <= u32::MAX,
    {
        let ni = self.node_indices@;
        let ei = self.edge_indices@;
        let an = adjacency_nodes(self.graph);
        let ae = adjacency_edges(self.graph);
        let f = |id: u128| ni[id] as int;
        let h = |id: u128| ei[id] as int;
        assert(ni.dom().map(f) =~= an.dom()) by {
            assert forall|s: int| an.dom().contains(s) implies ni.dom().map(f).contains(s) by {
                assert(ni.dom().contains(an[s]) && f(an[s]) == s);
            }
        }
        assert(ei.dom().map(h) =~= ae.dom()) by {
            assert forall|e: int| ae.dom().contains(e) implies ei.dom().map(h).contains(e) by {
                assert(ei.dom().contains(self.edge_ids@[e]) && h(self.edge_ids@[e]) == e);
            }
        }
        lemma_map_size(ni.dom(), an.dom(), f);
        lemma_map_size(ei.dom(), ae.dom(), h);
        assert(ae.dom().subset_of(set_int_range(0, u32::MAX as int)));
        lemma_int_range(0, u32::MAX as int);
        lemma_len_subset(ae.dom(), set_int_range(0, u32::MAX as int));
    }

    /// An empty store.
    pub fn new() -> (graph: Self)
        ensures
            graph.wf(),
            graph@ == GraphView::empty(),
    {
        let graph = KnowledgeGraph {
            graph: adjacency_new(),
            nodes: HashMap::new(),
            edges: HashMap::new(),
            node_indices: HashMap::new(),
            edge_indices: HashMap::new(),
            edge_ids: Ghost(Map::empty()),
        };
        proof {
            let an = adjacency_nodes(graph.graph);
            let ae = adjacency_edges(graph.graph);
            assert forall|s: int| !an.contains_key(s) by {
                assert(!an.dom().contains(s));
            }
            assert forall|e: int| !ae.contains_key(e) by {
                assert(!ae.dom().contains(e));
            }
            assert(graph.node_indices@.dom() =~= graph.nodes@.dom());
            assert(graph.edge_indices@.dom() =~= graph.edges@.dom());
        }
        graph
    }

    /// Stores a node and returns its identifier. A node that is filed under
    /// the same identifier is replaced and keeps its edges.
    pub fn add_node(&mut self, node: Node) -> (id: u128)
        requires
            old(self).wf(),
            old(self)@.nodes.contains_key(node.id) || old(self)@.nodes.len() < u32::MAX,
        ensures
            final(self).wf(),
            final(self)@ == old(self)@.add_node(node),
            id == node.id,
    {
        let id = node.id;
        if !self.node_indices.contains_key(&id) {
            proof {
                self.lemma_counts();
            }
            let slot = adjacency_add_node(&mut self.graph, id);
            self.node_indices.insert(id, slot);
        }
        self.nodes.insert(id, node);
        proof {
            assert(self.node_indices@.dom() =~= self.nodes@.dom());
        }
        id
    }

    /// The node filed under an identifier, if there is one.
    pub fn get_node(&self, id: &u128) -> (node: Option<&Node>)
        requires
            self.wf(),
        ensures
            match node {
                Some(n) => self@.nodes.contains_key(*id) && *n == self@.nodes[*id],
                None => !self@.nodes.contains_key(*id),
            },
    {
        self.nodes.get(id)
    }

    /// The edge filed under an identifier, if there is one.
    pub fn get_edge(&self, id: &u128) -> (edge: Option<&Edge>)
        requires
            self.wf(),
        ensures
            match edge {
                Some(e) => self@.edges.contains_key(*id) && *e == self@.edges[*id],
                None => !self@.edges.contains_key(*id),
            },
    {
        self.edges.get(id)
    }

    /// The identifiers of the edges that start or end at a node, each once.
    pub(crate) fn touching_ids(&self, node_id: u128) -> (ids: Vec<u128>)
        requires
            self.wf(),
        ensures
            ids@.no_duplicates(),
            ids@.to_set() == self@.edges_touching(node_id),
    {
        let all = key_list(&self.edges);
        let mut ids: Vec<u128> = Vec::new();
        let mut i: usize = 0;
        while i < all.len()
            invariant
                i <= all.len(),
                all@.no_duplicates(),
                all@.to_set() == self.edges@.dom(),
                ids@.no_duplicates(),
                forall|y: u128| #[trigger]
                    ids@.contains(y) <==> all@.take(i as int).contains(y) && self.edges@[y].touches(
                        node_id,
                    ),
            decreases all.len() - i,
        {
            let id = all[i];
            proof {
                lemma_take_next(all@, i as int);
                assert(all@.to_set().contains(id));
            }
            let edge = self.edges.get(&id).unwrap();
            if edge.source_id == node_id || edge.target_id == node_id {
                proof {
                    lemma_push_contains(ids@, id);
                    lemma_push_no_duplicates(ids@, id);
                }
                ids.push(id);
            }
            i += 1;
        }
        proof {
            assert(all@.take(all.len() as int) =~= all@);
            assert forall|y: u128| ids@.to_set().contains(y) <==> self@.edges_touching(
                node_id,
            ).contains(y) by {
                assert(all@.contains(y) <==> all@.to_set().contains(y));
            }
            assert(ids@.to_set() =~= self@.edges_touching(node_id));
        }
        ids
    }

    /// Takes one edge out of the store and of the adjacency structure.
    fn drop_edge(&mut self, id: u128)
        requires
            old(self).wf(),
            old(self)@.edges.contains_key(id),
        ensures
            final(self).wf(),
            final(self)@.nodes == old(self)@.nodes,
            final(self)@.edges == old(self)@.edges.remove(id),
            final(self).node_indices == old(self).node_indices,
    {
        let slot = *self.edge_indices.get(&id).unwrap();
        adjacency_remove_edge(&mut self.graph, slot);
        self.edge_indices.remove(&id);
        self.edges.remove(&id);
        proof {
            assert(self.edge_indices@.dom() =~= self.edges@.dom());
        }
    }

    /// Stores an edge if both its ends are nodes of the store, and returns
    /// its identifier; otherwise changes nothing and returns `None`. An edge
    /// that is filed under the same identifier is replaced.
    pub fn add_edge(&mut self, edge: Edge) -> (id: Option<u128>)
        requires
            old(self).wf(),
            old(self)@.edges.contains_key(edge.id) || old(self)@.edges.len() < u32::MAX,
        ensures
            final(self).wf(),
            final(self)@ == old(self)@.add_edge(edge),
            id == (if old(self)@.accepts_edge(edge) {
                Some(edge.id)
            } else {
                None
            }),
            id is None ==> final(self)@ == old(self)@,
    {
        let from = match self.node_indices.get(&edge.source_id) {
            Some(slot) => *slot,
            None => return None,
        };
        let to = match self.node_indices.get(&edge.target_id) {
            Some(slot) => *slot,
            None => return None,
        };
        let id = edge.id;
        if self.edge_indices.contains_key(&id) {
            proof {
                self.lemma_counts();
            }
            self.drop_edge(id);
        }
        proof {
            self.lemma_counts();
        }
        let slot = adjacency_add_edge(&mut self.graph, from, to, edge.weight);
        self.edge_indices.insert(id, slot);
        self.edges.insert(id, edge);
        proof {
            self.edge_ids@ = self.edge_ids@.insert(slot as int, id);
            assert(self.edge_indices@.dom() =~= self.edges@.dom());
            assert(self@.edges =~= old(self)@.edges.insert(id, edge));
        }
        Some(id)
    }

    /// Removes a node and every edge that starts or ends there, and returns
    /// the node; `None`, and no change, if the node is unknown. No other
    /// node changes its position in the adjacency structure.
    pub fn remove_node(&mut self, id: &u128) -> (removed: Option<Node>)
        requires
            old(self).wf(),
        ensures
            final(self).wf(),
            final(self)@ == old(self)@.remove_node(*id),
            removed == (if old(self)@.nodes.contains_key(*id) {
                Some(old(self)@.nodes[*id])
            } else {
                None
            }),
    {
        let slot = match self.node_indices.get(id) {
            Some(slot) => *slot,
            None => return None,
        };
        let touching = self.touching_ids(*id);
        let ghost pre = *self;
        adjacency_remove_node(&mut self.graph, slot);
        self.node_indices.remove(id);
        let mut i: usize = 0;
        while i < touching.len()
            invariant
                i <= touching.len(),
                pre.wf(),
                pre.node_indices@.contains_key(*id),
                pre.node_indices@[*id] == slot,
                touching@.to_set() == pre@.edges_touching(*id),
                self.nodes == pre.nodes,
                self.node_indices@ == pre.node_indices@.remove(*id),
                self.edge_ids == pre.edge_ids,
                adjacency_nodes(self.graph) == adjacency_nodes(pre.graph).remove(slot as int),
                adjacency_edges(self.graph) == links_clear_of(
                    adjacency_edges(pre.graph),
                    slot as int,
                ),
                self.edge_indices@.dom() == self.edges@.dom(),
                forall|j: int| 0 <= j < i ==> !self.edges@.contains_key(#[trigger] touching@[j]),
                forall|e: u128|
                    pre.edges@.contains_key(e) && !pre.edges@[e].touches(*id)
                        ==> #[trigger] self.edges@.contains_key(e),
                forall|e: u128| #[trigger]
                    self.edges@.contains_key(e) ==> pre.edges@.contains_key(e) && self.edges@[e]
                        == pre.edges@[e] && self.edge_indices@[e] == pre.edge_indices@[e],
            decreases touching.len() - i,
        {
            let e = touching[i];
            proof {
                assert(touching@.to_set().contains(e));
            }
            self.edges.remove(&e);
            self.edge_indices.remove(&e);
            proof {
                assert(self.edge_indices@.dom() =~= self.edges@.dom());
            }
            i += 1;
        }
        let removed = self.nodes.remove(id);
        proof {
            assert(self.node_indices@.dom() =~= self.nodes@.dom());
            assert forall|e: u128| self.edges@.contains_key(e) implies !pre.edges@[e].touches(
                *id,
            ) by {
                if pre.edges@[e].touches(*id) {
                    assert(pre@.edges_touching(*id).contains(e));
                    assert(touching@.to_set().contains(e));
                    let j = choose|j: int| 0 <= j < touching@.len() && touching@[j] == e;
                    assert(!self.edges@.contains_key(touching@[j]));
                }
            }
            assert(self@.edges =~= pre@.edges_clear_of(*id));
            assert(self@.nodes =~= pre@.nodes.remove(*id));
            let ni = pre.node_indices@;
            assert forall|e: u128| #[trigger] self.edge_indices@.contains_key(e) implies ni[
                pre.edges@[e].source_id
            ] != slot && ni[pre.edges@[e].target_id] != slot by {
                assert(pre.edge_indices@.contains_key(e));
                assert(ni.contains_key(pre.edges@[e].source_id));
                assert(ni.contains_key(pre.edges@[e].target_id));
            }
            assert(self.links_match());
        }
        removed
    }

    /// Every node, each once, in no particular order.
    pub fn list_nodes(&self) -> (list: Vec<&Node>)
        requires
            self.wf(),
        ensures
            lists_nodes(list@, self@.nodes, self@.nodes.dom()),
            list@.len() == self@.nodes.len(),
    {
        let all = key_list(&self.nodes);
        let mut list: Vec<&Node> = Vec::new();
        let mut i: usize = 0;
        while i < all.len()
            invariant
                i <= all.len(),
                self.wf(),
                all@.to_set() == self.nodes@.dom(),
                list@.len() == i,
                forall|j: int|
                    0 <= j < i ==> (#[trigger] list@[j]).id == all@[j] && *list@[j]
                        == self.nodes@[all@[j]],
            decreases all.len() - i,
        {
            let id = all[i];
            proof {
                assert(all@.to_set().contains(id));
            }
            let node = self.nodes.get(&id).unwrap();
            list.push(node);
            i += 1;
        }
        proof {
            assert(node_ids(list@) =~= all@);
            assert forall|j: int| 0 <= j < list@.len() implies self@.nodes.contains_key(
                #[trigger] list@[j].id,
            ) by {
                assert(all@.to_set().contains(all@[j]));
            }
        }
        list
    }

    /// Every edge, each once, in no particular order.
    pub fn list_edges(&self) -> (list: Vec<&Edge>)
        requires
            self.wf(),
        ensures
            lists_edges(list@, self@.edges, self@.edges.dom()),
            list@.len() == self@.edges.len(),
    {
        let all = key_list(&self.edges);
        self.edges_by_id(&all)
    }

    /// The edges that start or end at a node, each once, in no particular
    /// order.
    pub fn get_edges_for_node(&self, node_id: &u128) -> (list: Vec<&Edge>)
        requires
            self.wf(),
        ensures
            lists_edges(list@, self@.edges, self@.edges_touching(*node_id)),
            list@.len() == self@.edges_touching(*node_id).len(),
    {
        let ids = self.touching_ids(*node_id);
        proof {
            assert forall|j: int| 0 <= j < ids@.len() implies self@.edges.contains_key(
                #[trigger] ids@[j],
            ) by {
                assert(ids@.to_set().contains(ids@[j]));
            }
        }
        self.edges_by_id(&ids)
    }

    /// The edge records filed under a list of distinct identifiers, in the
    /// order of the list.
    fn edges_by_id(&self, ids: &Vec<u128>) -> (list: Vec<&Edge>)
        requires
            self.wf(),
            ids@.no_duplicates(),
            forall|j: int| 0 <= j < ids@.len() ==> self@.edges.contains_key(#[trigger] ids@[j]),
        ensures
            lists_edges(list@, self@.edges, ids@.to_set()),
            edge_ids(list@) == ids@,
            list@.len() == ids@.to_set().len(),
    {
        let mut list: Vec<&Edge> = Vec::new();
        let mut i: usize = 0;
        while i < ids.len()
            invariant
                i <= ids.len(),
                self.wf(),
                forall|j: int| 0 <= j < ids@.len() ==> self@.edges.contains_key(#[trigger] ids@[j]),
                list@.len() == i,
                forall|j: int|
                    0 <= j < i ==> (#[trigger] list@[j]).id == ids@[j] && *list@[j]
                        == self.edges@[ids@[j]],
            decreases ids.len() - i,
        {
            let id = ids[i];
            proof {
                assert(self@.edges.contains_key(ids@[i as int]));
            }
            let edge = self.edges.get(&id).unwrap();
            list.push(edge);
            i += 1;
        }
        proof {
            assert(edge_ids(list@) =~= ids@);
            lemma_listing_len(ids@, ids@.to_set());
        }
        list
    }

    /// How many nodes the store holds.
    pub fn node_count(&self) -> (count: usize)
        requires
            self.wf(),
        ensures
            count == self@.nodes.len(),
    {
        self.nodes.len()
    }

    /// How many edges the store holds.
    pub fn edge_count(&self) -> (count: usize)
        requires
            self.wf(),
        ensures
            count == self@.edges.len(),
    {
        self.edges.len()
    }
}

} // verus!
