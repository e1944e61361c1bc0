//! What each operation of the service computes, from a request that has been
//! decoded to a result that is ready to be encoded. Locking, transport and
//! encoding are the caller's.

use crate::models::{
    is_empty_object, CreateEdgeRequest, CreateNodeRequest, Direction, Edge, EdgeWithNodes,
    GraphStats, NeighborsQuery, Node, NodeResponse, PathQuery, PathResult, SearchQuery, Timestamp,
};
use crate::services::graph::KnowledgeGraph;
use crate::services::listing::{edge_ids, lists_edges, lists_nodes, node_ids};
use crate::services::route::reachable;
use serde_json::Value;
use vstd::prelude::*;

verus! {

/// The depth of a neighbour query that names none.
pub const DEFAULT_DEPTH: usize = 1;

/// The limit of a search that names none.
pub const DEFAULT_LIMIT: usize = 20;

/// Every node of the store.
pub fn list_nodes(graph: &KnowledgeGraph) -> (nodes: Vec<&Node>)
    requires
        graph.wf(),
    ensures
        lists_nodes(nodes@, graph@.nodes, graph@.nodes.dom()),
        nodes@.len() == graph@.nodes.len(),
{
    graph.list_nodes()
}

/// Creates the node that a request asks for and returns its identifier and
/// a copy of the record.
pub fn create_node(graph: &mut KnowledgeGraph, req: CreateNodeRequest) -> (created: (u128, Node))
    requires
        old(graph).wf(),
        old(graph)@.nodes.len() < u32::MAX,
    ensures
        final(graph).wf(),
        created.0 == created.1.id,
        final(graph)@ == old(graph)@.add_node(created.1),
        exists|id: u128, now: Timestamp, default_metadata: Value|
            created.1 == #[trigger] req.applied_to(id, now, default_metadata) && is_empty_object(
                default_metadata,
            ),
{
    let node = Node::from(req);
    let id = graph.add_node(node.clone());
    (id, node)
}

/// A node and the number of edges that touch it; `None` for an unknown
/// node.
pub fn get_node(graph: &KnowledgeGraph, id: u128) -> (found: Option<NodeResponse>)
    requires
        graph.wf(),
    ensures
        match found {
            Some(response) => {
                &&& graph@.nodes.contains_key(id)
                &&& response.node == graph@.nodes[id]
                &&& response.edge_count == graph@.edges_touching(id).len()
            },
            None => !graph@.nodes.contains_key(id),
        },
{
    match graph.get_node(&id) {
        Some(node) => {
            let edge_count = graph.get_edges_for_node(&id).len();
            Some(NodeResponse { node: node.clone(), edge_count })
        },
        None => None,
    }
}

/// Removes a node with the edges that touch it; says whether there was such
/// a node.
pub fn delete_node(graph: &mut KnowledgeGraph, id: u128) -> (deleted: bool)
    requires
        old(graph).wf(),
    ensures
        final(graph).wf(),
        deleted == old(graph)@.nodes.contains_key(id),
        final(graph)@ == old(graph)@.remove_node(id),
{
    graph.remove_node(&id).is_some()
}

/// Every edge of the store with the names of the two nodes it joins.
pub fn list_edges(graph: &KnowledgeGraph) -> (edges: Vec<EdgeWithNodes>)
    requires
        graph.wf(),
    ensures
        edges@.len() == graph@.edges.len(),
        Seq::new(edges@.len(), |i: int| edges@[i].edge.id).no_duplicates(),
        Seq::new(edges@.len(), |i: int| edges@[i].edge.id).to_set() == graph@.edges.dom(),
        forall|i: int|
            0 <= i < edges@.len() ==> {
                let item = #[trigger] edges@[i];
                &&& graph@.edges.contains_key(item.edge.id)
                &&& item.edge == graph@.edges[item.edge.id]
                &&& item.source_name == graph@.nodes[item.edge.source_id].name
                &&& item.target_name == graph@.nodes[item.edge.target_id].name
            },
{
    proof {
        graph.lemma_wf_view();
    }
    let records = graph.list_edges();
    let mut edges: Vec<EdgeWithNodes> = Vec::new();
    let mut i: usize = 0;
    while i < records.len()
        invariant
            i <= records.len(),
            graph.wf(),
            graph@.wf(),
            lists_edges(records@, graph@.edges, graph@.edges.dom()),
            edges@.len() == i,
            forall|j: int|
                0 <= j < i ==> {
                    let item = #[trigger] edges@[j];
                    &&& item.edge == *records@[j]
                    &&& item.source_name == graph@.nodes[item.edge.source_id].name
                    &&& item.target_name == graph@.nodes[item.edge.target_id].name
                },
        decreases records.len() - i,
    {
        let edge = records[i];
        proof {
            assert(graph@.edges.contains_key(records@[i as int].id));
        }
        let source = graph.get_node(&edge.source_id);
        let target = graph.get_node(&edge.target_id);
        if let Some(source) = source {
            if let Some(target) = target {
                edges.push(
                    EdgeWithNodes {
                        edge: edge.clone(),
                        source_name: source.name.clone(),
                        target_name: target.name.clone(),
                    },
                );
            }
        }
        i += 1;
    }
    proof {
        assert(Seq::new(edges@.len(), |i: int| edges@[i].edge.id) =~= edge_ids(records@));
        assert forall|i: int| 0 <= i < edges@.len() implies graph@.edges.contains_key(
            (#[trigger] edges@[i]).edge.id,
        ) && edges@[i].edge == graph@.edges[edges@[i].edge.id] by {
            assert(graph@.edges.contains_key(records@[i].id));
        }
    }
    edges
}

/// Creates the edge that a request asks for and returns its identifier and
/// a copy of the record; `None`, and no change, where an end of the edge is
/// not a node of the store.
pub fn create_edge(graph: &mut KnowledgeGraph, req: CreateEdgeRequest) -> (created: Option<
    (u128, Edge),
>)
    requires
        old(graph).wf(),
        old(graph)@.edges.len() < u32::MAX,
    ensures
        final(graph).wf(),
        created is Some <==> old(graph)@.nodes.contains_key(req.source_id) && old(
            graph,
        )@.nodes.contains_key(req.target_id),
        created is None ==> final(graph)@ == old(graph)@,
        created matches Some(c) ==> {
            &&& c.0 == c.1.id
            &&& final(graph)@ == old(graph)@.add_edge(c.1)
            &&& exists|id: u128, now: Timestamp, default_metadata: Value|
                c.1 == #[trigger] req.applied_to(id, now, default_metadata) && is_empty_object(
                    default_metadata,
                )
        },
{
    let edge = Edge::from(req);
    match graph.add_edge(edge.clone()) {
        Some(id) => Some((id, edge)),
        None => None,
    }
}

/// The cheapest path that a query asks for.
pub fn find_path(graph: &KnowledgeGraph, query: &PathQuery) -> (result: Option<PathResult>)
    requires
        graph.wf(),
    ensures
        result is Some <==> graph@.nodes.contains_key(query.source_id)
            && graph@.nodes.contains_key(query.target_id) && reachable(
            graph@.links(),
            query.source_id,
            query.target_id,
        ),
        result matches Some(r) ==> graph@.is_cheapest_path(r, query.source_id, query.target_id),
{
    graph.find_path(&query.source_id, &query.target_id)
}

impl NeighborsQuery {
    /// The direction that the query asks for: both, where it names none.
    pub open spec fn spec_direction(&self) -> Direction {
        match self.direction {
            Some(d) => d,
            None => Direction::Both,
        }
    }

    /// The depth that the query asks for: one, where it names none.
    pub open spec fn spec_depth(&self) -> usize {
        match self.depth {
            Some(d) => d,
            None => DEFAULT_DEPTH,
        }
    }

    /// The edge kinds that the query is restricted to, if any.
    pub open spec fn spec_kinds(&self) -> Option<Seq<crate::models::EdgeType>> {
        match self.edge_types {
            Some(listed) => Some(listed@),
            None => None,
        }
    }
}

/// The neighbours that a query asks for.
pub fn find_neighbors<'a>(graph: &'a KnowledgeGraph, query: &NeighborsQuery) -> (neighbors: Vec<
    &'a Node,
>)
    requires
        graph.wf(),
    ensures
        lists_nodes(
            neighbors@,
            graph@.nodes,
            graph@.within(
                query.node_id,
                query.spec_kinds(),
                query.spec_direction(),
                query.spec_depth() as nat,
            ).remove(query.node_id),
        ),
        graph@.nearest_first(
            node_ids(neighbors@),
            query.node_id,
            query.spec_kinds(),
            query.spec_direction(),
        ),
{
    let direction = match query.direction {
        Some(d) => d,
        None => Direction::default(),
    };
    let depth = match query.depth {
        Some(d) => d,
        None => DEFAULT_DEPTH,
    };
    match &query.edge_types {
        Some(listed) => graph.find_neighbors(
            &query.node_id,
            Some(listed.as_slice()),
            &direction,
            depth,
        ),
        None => graph.find_neighbors(&query.node_id, None, &direction, depth),
    }
}

impl SearchQuery {
    /// The limit that the query asks for: twenty, where it names none.
    pub open spec fn spec_limit(&self) -> usize {
        match self.limit {
            Some(l) => l,
            None => DEFAULT_LIMIT,
        }
    }

    /// The node kinds that the query is restricted to, if any.
    pub open spec fn spec_kinds(&self) -> Option<Seq<crate::models::NodeType>> {
        match self.node_types {
            Some(listed) => Some(listed@),
            None => None,
        }
    }

    /// The language that the query is restricted to, if any.
    pub open spec fn spec_language(&self) -> Option<Seq<char>> {
        match self.language {
            Some(l) => Some(l@),
            None => None,
        }
    }
}

/// The nodes that a search query finds.
pub fn search_nodes<'a>(graph: &'a KnowledgeGraph, query: &SearchQuery) -> (results: Vec<&'a Node>)
    requires
        graph.wf(),
    ensures
        lists_nodes(results@, graph@.nodes, node_ids(results@).to_set()),
        node_ids(results@).to_set().subset_of(
            graph@.search_hits(query.query@, query.spec_kinds(), query.spec_language()),
        ),
        results@.len() == vstd::math::min(
            query.spec_limit() as int,
            graph@.search_hits(
                query.query@,
                query.spec_kinds(),
                query.spec_language(),
            ).len() as int,
        ),
{
    let limit = match query.limit {
        Some(l) => l,
        None => DEFAULT_LIMIT,
    };
    let node_types = match &query.node_types {
        Some(listed) => Some(listed.as_slice()),
        None => None,
    };
    let language = match &query.language {
        Some(l) => Some(l.as_str()),
        None => None,
    };
    graph.search_nodes(query.query.as_str(), node_types, language, limit)
}

/// The statistics of the store.
pub fn get_stats(graph: &KnowledgeGraph) -> (stats: GraphStats)
    requires
        graph.wf(),
    ensures
        graph@.has_stats(stats),
{
    graph.get_stats()
}

} // verus!
