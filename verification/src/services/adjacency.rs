//! The adjacency structure: a `petgraph` stable graph whose node weights are
//! node identifiers and whose edge weights are fixed-point costs.
//!
//! Every function in this file makes one call into `petgraph`, and its
//! contract is a statement about `petgraph` that is taken on trust.

use super::route::{has_link, links_clear_of, reachable, settled_up_to};
use petgraph::graph::{EdgeIndex, NodeIndex};
use petgraph::stable_graph::StableGraph;
use petgraph::Directed;
use std::collections::HashMap;
use vstd::prelude::*;

verus! {

/// `petgraph::stable_graph::StableGraph`, as a value that the verifier
/// cannot look into.
#[verifier::external_type_specification]
#[verifier::external_body]
#[verifier::reject_recursive_types(N)]
#[verifier::reject_recursive_types(E)]
#[verifier::reject_recursive_types(Ty)]
#[verifier::reject_recursive_types(Ix)]
pub struct ExStableGraph<N, E, Ty, Ix>(StableGraph<N, E, Ty, Ix>);

/// `petgraph::Directed`, the marker of graphs with directed edges.
#[verifier::external_type_specification]
#[verifier::external_body]
pub struct ExDirected(Directed);

/// The occupied node slots of an adjacency structure: slot index to the
/// identifier stored there.
pub uninterp spec fn adjacency_nodes(g: StableGraph<u128, u64, Directed, u32>) -> Map<int, u128>;

/// The occupied edge slots of an adjacency structure: slot index to
/// (source node slot, target node slot, cost).
pub uninterp spec fn adjacency_edges(g: StableGraph<u128, u64, Directed, u32>) -> Map<
    int,
    (int, int, u64),
>;

/// `StableGraph::new`: a graph without nodes or edges.
#[verifier::external_body]
pub(crate) fn adjacency_new() -> (g: StableGraph<u128, u64, Directed, u32>)
    ensures
        adjacency_nodes(g).dom() == Set::<int>::empty(),
        adjacency_edges(g).dom() == Set::<int>::empty(),
{
    StableGraph::new()
}

/// `StableGraph::add_node`: stores `id` in a node slot that was vacant and
/// returns the slot; no other slot and no edge changes. The outside function
/// panics when all indices below `u32::MAX` are taken.
#[verifier::external_body]
pub(crate) fn adjacency_add_node(g: &mut StableGraph<u128, u64, Directed, u32>, id: u128) -> (slot:
    u32)
    requires
        adjacency_nodes(*old(g)).dom().finite(),
        adjacency_nodes(*old(g)).len() < u32::MAX,
    ensures
        !adjacency_nodes(*old(g)).contains_key(slot as int),
        adjacency_nodes(*final(g)) == adjacency_nodes(*old(g)).insert(slot as int, id),
        adjacency_edges(*final(g)) == adjacency_edges(*old(g)),
{
    g.add_node(id).index() as u32
}

/// `StableGraph::remove_node`: vacates a node slot and every edge slot whose
/// edge starts or ends there, and returns the identifier that the slot held;
/// on a vacant slot it changes nothing.
#[verifier::external_body]
pub(crate) fn adjacency_remove_node(
    g: &mut StableGraph<u128, u64, Directed, u32>,
    slot: u32,
) -> (removed: Option<u128>)
    ensures
        removed == (if adjacency_nodes(*old(g)).contains_key(slot as int) {
            Some(adjacency_nodes(*old(g))[slot as int])
        } else {
            None
        }),
        adjacency_nodes(*final(g)) == adjacency_nodes(*old(g)).remove(slot as int),
        adjacency_edges(*final(g)) == (if removed is Some {
            links_clear_of(adjacency_edges(*old(g)), slot as int)
        } else {
            adjacency_edges(*old(g))
        }),
{
    g.remove_node(NodeIndex::new(slot as usize))
}

/// `StableGraph::add_edge`: stores an edge between two occupied node slots in
/// an edge slot that was vacant and returns that slot, which is below
/// `u32::MAX`; parallel edges are kept. The outside function panics on a vacant node slot and when all
/// indices below `u32::MAX` are taken.
#[verifier::external_body]
pub(crate) fn adjacency_add_edge(
    g: &mut StableGraph<u128, u64, Directed, u32>,
    from: u32,
    to: u32,
    cost: u64,
) -> (slot: u32)
    requires
        adjacency_nodes(*old(g)).contains_key(from as int),
        adjacency_nodes(*old(g)).contains_key(to as int),
        adjacency_edges(*old(g)).dom().finite(),
        adjacency_edges(*old(g)).len() < u32::MAX,
    ensures
        slot < u32::MAX,
        !adjacency_edges(*old(g)).contains_key(slot as int),
        adjacency_edges(*final(g)) == adjacency_edges(*old(g)).insert(
            slot as int,
            (from as int, to as int, cost),
        ),
        adjacency_nodes(*final(g)) == adjacency_nodes(*old(g)),
{
    g.add_edge(NodeIndex::new(from as usize), NodeIndex::new(to as usize), cost).index() as u32
}

/// `StableGraph::remove_edge`: vacates an edge slot and returns the cost it
/// held; on a vacant slot it changes nothing.
#[verifier::external_body]
pub(crate) fn adjacency_remove_edge(
    g: &mut StableGraph<u128, u64, Directed, u32>,
    slot: u32,
) -> (removed: Option<u64>)
    ensures
        removed == (if adjacency_edges(*old(g)).contains_key(slot as int) {
            Some(adjacency_edges(*old(g))[slot as int].2)
        } else {
            None
        }),
        adjacency_edges(*final(g)) == adjacency_edges(*old(g)).remove(slot as int),
        adjacency_nodes(*final(g)) == adjacency_nodes(*old(g)),
{
    g.remove_edge(EdgeIndex::new(slot as usize))
}

/// Indexing a `StableGraph` by a node index: the identifier in an occupied
/// node slot. The outside function panics on a vacant slot.
#[verifier::external_body]
pub(crate) fn adjacency_node_id(g: &StableGraph<u128, u64, Directed, u32>, slot: u32) -> (id: u128)
    requires
        adjacency_nodes(*g).contains_key(slot as int),
    ensures
        id == adjacency_nodes(*g)[slot as int],
{
    g[NodeIndex::new(slot as usize)]
}

/// `StableGraph::neighbors_directed` with `Incoming`: the node slots from
/// which an edge leads to `to`, in the order in which the graph lists them;
/// a slot occurs once for each such edge.
#[verifier::external_body]
pub(crate) fn adjacency_sources(g: &StableGraph<u128, u64, Directed, u32>, to: u32) -> (sources:
    Vec<u32>)
    ensures
        forall|from: u32|
            sources@.contains(from) <==> has_link(adjacency_edges(*g), from as int, to as int),
{
    g.neighbors_directed(NodeIndex::new(to as usize), petgraph::Incoming).map(
        |n| n.index() as u32,
    ).collect()
}

/// `StableGraph::find_edge`: the slot of an edge from `from` to `to`, if
/// there is one. Which of several parallel edges is found is left open.
#[verifier::external_body]
pub(crate) fn adjacency_find_edge(
    g: &StableGraph<u128, u64, Directed, u32>,
    from: u32,
    to: u32,
) -> (found: Option<u32>)
    ensures
        match found {
            Some(slot) => {
                &&& adjacency_edges(*g).contains_key(slot as int)
                &&& adjacency_edges(*g)[slot as int].0 == from
                &&& adjacency_edges(*g)[slot as int].1 == to
            },
            None => !has_link(adjacency_edges(*g), from as int, to as int),
        },
{
    g.find_edge(NodeIndex::new(from as usize), NodeIndex::new(to as usize)).map(
        |e| e.index() as u32,
    )
}

/// `StableGraph::edge_weight`: the cost in an edge slot, if it is occupied.
#[verifier::external_body]
pub(crate) fn adjacency_edge_cost(g: &StableGraph<u128, u64, Directed, u32>, slot: u32) -> (cost:
    Option<u64>)
    ensures
        cost == (if adjacency_edges(*g).contains_key(slot as int) {
            Some(adjacency_edges(*g)[slot as int].2)
        } else {
            None
        }),
{
    g.edge_weight(EdgeIndex::new(slot as usize)).copied()
}

/// A cost in 128 bits, in which sums of costs do not overflow.
pub(crate) fn wide(cost: &u64) -> (sum: u128)
    ensures
        sum == *cost,
{
    *cost as u128
}

/// Distances by node slot, read with slots as integers.
pub open spec fn slot_distances(distances: Map<u32, u128>) -> Map<int, u128> {
    Map::new(
        |slot: int| 0 <= slot <= u32::MAX && distances.contains_key(slot as u32),
        |slot: int| distances[slot as u32],
    )
}

/// `petgraph::algo::dijkstra` from `start` with goal `goal`, costs summed in
/// 128 bits: a distance for `start`, which is zero, and for the node slots
/// that the search came to before it settled the goal, all of them
/// occupied. The goal has a distance exactly when a route leads to it. Then
/// its distance is the cost of a cheapest route, every distance is the cost
/// of some route from `start`, and every node slot that is nearer than the
/// goal has the cost of its cheapest route as its distance: the search
/// settles nodes in the order of their distance and stops at the goal. The
/// outside function panics on a vacant `start`.
#[verifier::external_body]
pub(crate) fn adjacency_distances(
    g: &StableGraph<u128, u64, Directed, u32>,
    start: u32,
    goal: u32,
) -> (distances: HashMap<u32, u128>)
    requires
        adjacency_nodes(*g).contains_key(start as int),
    ensures
        distances@.contains_key(start) && distances@[start] == 0,
        forall|slot: u32| #[trigger]
            distances@.contains_key(slot) ==> adjacency_nodes(*g).contains_key(slot as int),
        distances@.contains_key(goal) <==> reachable(
            adjacency_edges(*g),
            start as int,
            goal as int,
        ),
        distances@.contains_key(goal) ==> settled_up_to(
            adjacency_edges(*g),
            slot_distances(distances@),
            start as int,
            goal as int,
        ),
{
    let scores = petgraph::algo::dijkstra(
        g,
        NodeIndex::new(start as usize),
        Some(NodeIndex::new(goal as usize)),
        |e| wide(e.weight()),
    );
    scores.into_iter().map(|(n, d)| (n.index() as u32, d)).collect()
}

} // verus!
