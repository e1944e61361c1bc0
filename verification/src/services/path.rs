//! Shortest paths: distances from the adjacency structure, and the walk back
//! from the target that turns them into a path.

use super::adjacency::{
    adjacency_distances, adjacency_edge_cost, adjacency_edges, adjacency_find_edge,
    adjacency_node_id, adjacency_nodes, adjacency_sources, slot_distances,
};
use super::graph::KnowledgeGraph;
use super::keys::{key_list, reversed};
use super::listing::{lemma_listing_len, lemma_push_contains, lemma_take_next};
use super::route::{
    all_positive, has_link, is_cheapest, is_route, is_tight, lemma_route_transfer,
    lemma_tight_cost, lemma_trace_reaches_source, link_fits, link_misfits, no_parallel,
    no_way_back, reachable, route_cost, settled_up_to,
};
use crate::models::PathResult;
use std::collections::{HashMap, HashSet};
use vstd::prelude::*;
use vstd::set_lib::lemma_len_subset;

verus! {

impl KnowledgeGraph {
    /// A route through the store is, slot for identifier, a route through
    /// the adjacency structure, at the same cost.
    proof fn lemma_route_down(&self, from: u128, to: u128, route: Seq<u128>)
        requires
            self.wf(),
            is_route(self@.links(), from, to, route),
        ensures
            is_route(
                adjacency_edges(self.graph),
                self.node_indices@[from] as int,
                self.node_indices@[to] as int,
                route.map_values(|e: u128| self.edge_indices@[e] as int),
            ),
            route_cost(
                adjacency_edges(self.graph),
                route.map_values(|e: u128| self.edge_indices@[e] as int),
            ) == route_cost(self@.links(), route),
    {
        self.lemma_unfold();
        let key = |e: u128| self.edge_indices@[e] as int;
        let node = |id: u128| self.node_indices@[id] as int;
        assert forall|k: u128| #[trigger] self@.links().contains_key(k) implies adjacency_edges(
            self.graph,
        ).contains_key(key(k)) && adjacency_edges(self.graph)[key(k)] == (
            node(self@.links()[k].0),
            node(self@.links()[k].1),
            self@.links()[k].2,
        ) by {
            assert(self.edge_indices@.contains_key(k));
        }
        lemma_route_transfer(
            self@.links(),
            adjacency_edges(self.graph),
            key,
            node,
            from,
            to,
            route,
        );
    }

    /// A route through the adjacency structure is, identifier for slot, a
    /// route through the store, at the same cost.
    proof fn lemma_route_up(&self, from: int, to: int, route: Seq<int>)
        requires
            self.wf(),
            is_route(adjacency_edges(self.graph), from, to, route),
        ensures
            is_route(
                self@.links(),
                adjacency_nodes(self.graph)[from],
                adjacency_nodes(self.graph)[to],
                route.map_values(|e: int| self.edge_ids@[e]),
            ),
            route_cost(self@.links(), route.map_values(|e: int| self.edge_ids@[e])) == route_cost(
                adjacency_edges(self.graph),
                route,
            ),
    {
        self.lemma_unfold();
        let key = |e: int| self.edge_ids@[e];
        let node = |s: int| adjacency_nodes(self.graph)[s];
        let ae = adjacency_edges(self.graph);
        assert forall|k: int| #[trigger] ae.contains_key(k) implies self@.links().contains_key(
            key(k),
        ) && self@.links()[key(k)] == (node(ae[k].0), node(ae[k].1), ae[k].2) by {
            let id = self.edge_ids@[k];
            assert(self.edge_indices@.contains_key(id));
            assert(self@.edges.contains_key(id));
            assert(self.node_indices@.contains_key(self@.edges[id].source_id));
            assert(self.node_indices@.contains_key(self@.edges[id].target_id));
        }
        lemma_route_transfer(ae, self@.links(), key, node, from, to, route);
    }

    /// Reachability and cheapest cost in the adjacency structure are those of
    /// the store.
    proof fn lemma_same_routes(&self, from: u128, to: u128)
        requires
            self.wf(),
            self@.nodes.contains_key(from),
            self@.nodes.contains_key(to),
        ensures
            reachable(self@.links(), from, to) <==> reachable(
                adjacency_edges(self.graph),
                self.node_indices@[from] as int,
                self.node_indices@[to] as int,
            ),
            forall|cost: int|
                is_cheapest(
                    adjacency_edges(self.graph),
                    self.node_indices@[from] as int,
                    self.node_indices@[to] as int,
                    cost,
                ) <==> #[trigger] is_cheapest(self@.links(), from, to, cost),
    {
        self.lemma_unfold();
        let ae = adjacency_edges(self.graph);
        let s = self.node_indices@[from] as int;
        let t = self.node_indices@[to] as int;
        assert(self.node_indices@.contains_key(from));
        assert(self.node_indices@.contains_key(to));
        assert(adjacency_nodes(self.graph)[s] == from);
        assert(adjacency_nodes(self.graph)[t] == to);
        if reachable(self@.links(), from, to) {
            let route = choose|route: Seq<u128>| is_route(self@.links(), from, to, route);
            self.lemma_route_down(from, to, route);
        }
        if reachable(ae, s, t) {
            let route = choose|route: Seq<int>| is_route(ae, s, t, route);
            self.lemma_route_up(s, t, route);
        }
        assert forall|cost: int| is_cheapest(ae, s, t, cost) implies #[trigger] is_cheapest(
            self@.links(),
            from,
            to,
            cost,
        ) by {
            let route = choose|route: Seq<int>|
                is_route(ae, s, t, route) && route_cost(ae, route) == cost;
            self.lemma_route_up(s, t, route);
            assert forall|r: Seq<u128>| is_route(self@.links(), from, to, r) implies cost
                <= route_cost(self@.links(), r) by {
                self.lemma_route_down(from, to, r);
            }
        }
        assert forall|cost: int| #[trigger]
            is_cheapest(self@.links(), from, to, cost) implies is_cheapest(ae, s, t, cost) by {
            let route = choose|route: Seq<u128>|
                is_route(self@.links(), from, to, route) && route_cost(self@.links(), route)
                    == cost;
            self.lemma_route_down(from, to, route);
            assert forall|r: Seq<int>| is_route(ae, s, t, r) implies cost <= route_cost(ae, r) by {
                self.lemma_route_up(s, t, r);
            }
        }
    }

    /// What the distances by slot of a search that has settled the target
    /// say of the adjacency structure, the distances by identifier say of
    /// the store.
    proof fn lemma_settled(
        &self,
        by_slot: Map<u32, u128>,
        distances: Map<u128, u128>,
        source: u128,
        target: u128,
    )
        requires
            self.wf(),
            self@.nodes.contains_key(source),
            self@.nodes.contains_key(target),
            settled_up_to(
                adjacency_edges(self.graph),
                slot_distances(by_slot),
                self.node_indices@[source] as int,
                self.node_indices@[target] as int,
            ),
            forall|id: u128| #[trigger]
                distances.contains_key(id) <==> self.node_indices@.contains_key(id)
                    && by_slot.contains_key(self.node_indices@[id]),
            forall|id: u128| #[trigger]
                distances.contains_key(id) ==> distances[id] == by_slot[self.node_indices@[id]],
        ensures
            settled_up_to(self@.links(), distances, source, target),
    {
        self.lemma_unfold();
        let ae = adjacency_edges(self.graph);
        let an = adjacency_nodes(self.graph);
        let ni = self.node_indices@;
        let below = slot_distances(by_slot);
        let s = ni[source] as int;
        let t = ni[target] as int;
        assert(ni.contains_key(source) && ni.contains_key(target));
        assert(below.contains_key(t));
        assert(distances.contains_key(target));
        self.lemma_same_routes(source, target);
        assert forall|n: u128| #[trigger] distances.contains_key(n) implies exists|
            route: Seq<u128>,
        |
            is_route(self@.links(), source, n, route) && route_cost(self@.links(), route)
                == distances[n] by {
            let slot = ni[n] as int;
            assert(below.contains_key(slot));
            let route = choose|route: Seq<int>|
                is_route(ae, s, slot, route) && route_cost(ae, route) == below[slot];
            self.lemma_route_up(s, slot, route);
            assert(an[s] == source && an[slot] == n);
        }
        assert forall|n: u128, cost: int|
            #[trigger] is_cheapest(self@.links(), source, n, cost) && cost
                < distances[target] implies distances.contains_key(n) && distances[n] == cost by {
            let route = choose|route: Seq<u128>|
                is_route(self@.links(), source, n, route) && route_cost(self@.links(), route)
                    == cost;
            self@.lemma_route_stays_inside(source, n, route);
            self.lemma_same_routes(source, n);
            assert(ni.contains_key(n));
            let slot = ni[n] as int;
            assert(is_cheapest(ae, s, slot, cost));
            assert(below.contains_key(slot) && below[slot] == cost);
        }
    }

    /// Distances by node identifier, from distances by node slot.
    fn distances_by_id(&self, by_slot: &HashMap<u32, u128>) -> (distances: HashMap<u128, u128>)
        requires
            self.wf(),
            forall|slot: u32| #[trigger]
                by_slot@.contains_key(slot) ==> adjacency_nodes(self.graph).contains_key(
                    slot as int,
                ),
        ensures
            forall|id: u128| #[trigger]
                distances@.contains_key(id) <==> self.node_indices@.contains_key(id)
                    && by_slot@.contains_key(self.node_indices@[id]),
            forall|id: u128| #[trigger]
                distances@.contains_key(id) ==> distances@[id] == by_slot@[self.node_indices@[id]],
    {
        proof {
            self.lemma_unfold();
        }
        let slots = key_list(by_slot);
        let mut distances: HashMap<u128, u128> = HashMap::new();
        let mut i: usize = 0;
        while i < slots.len()
            invariant
                i <= slots.len(),
                self.wf(),
                self.slots_match(),
                slots@.to_set() == by_slot@.dom(),
                forall|slot: u32| #[trigger]
                    by_slot@.contains_key(slot) ==> adjacency_nodes(self.graph).contains_key(
                        slot as int,
                    ),
                forall|id: u128| #[trigger]
                    distances@.contains_key(id) <==> self.node_indices@.contains_key(id)
                        && slots@.take(i as int).contains(self.node_indices@[id]),
                forall|id: u128| #[trigger]
                    distances@.contains_key(id) ==> distances@[id]
                        == by_slot@[self.node_indices@[id]],
            decreases slots.len() - i,
        {
            let slot = slots[i];
            proof {
                lemma_take_next(slots@, i as int);
                assert(slots@.to_set().contains(slot));
            }
            let id = adjacency_node_id(&self.graph, slot);
            let distance = *by_slot.get(&slot).unwrap();
            distances.insert(id, distance);
            i += 1;
        }
        proof {
            assert(slots@.take(slots@.len() as int) =~= slots@);
            assert forall|id: u128| #[trigger]
                distances@.contains_key(id) <==> self.node_indices@.contains_key(id)
                    && by_slot@.contains_key(self.node_indices@[id]) by {
                if self.node_indices@.contains_key(id) {
                    assert(slots@.contains(self.node_indices@[id]) <==> slots@.to_set().contains(
                        self.node_indices@[id],
                    ));
                }
            }
        }
        distances
    }

    /// A node from which to step to `current` on the way back: the first, in
    /// the order in which the adjacency structure lists the sources of edges
    /// into `current`, that is not among `visited`, has a distance, and
    /// whose edge to `current`, as the adjacency structure finds it, fits
    /// the distances.
    fn predecessor(
        &self,
        distances: &HashMap<u128, u128>,
        current: u128,
        visited: &HashSet<u128>,
    ) -> (found: Option<u128>)
        requires
            self.wf(),
            self@.nodes.contains_key(current),
            distances@.contains_key(current),
        ensures
            match found {
                Some(p) => {
                    &&& self@.nodes.contains_key(p)
                    &&& !visited@.contains(p)
                    &&& distances@.contains_key(p)
                    &&& exists|e: u128| link_fits(self@.links(), e, p, current, distances@)
                },
                None => no_way_back(self@.links(), current, visited@, distances@),
            },
    {
        proof {
            self.lemma_unfold();
        }
        let ghost ae = adjacency_edges(self.graph);
        let ghost an = adjacency_nodes(self.graph);
        let at = *self.node_indices.get(&current).unwrap();
        let current_distance = *distances.get(&current).unwrap();
        let sources = adjacency_sources(&self.graph, at);
        let mut k: usize = 0;
        while k < sources.len()
            invariant
                k <= sources.len(),
                self.wf(),
                self.slots_match(),
                self.links_match(),
                self@.wf(),
                self@.nodes == self.nodes@,
                self@.edges == self.edges@,
                ae == adjacency_edges(self.graph),
                an == adjacency_nodes(self.graph),
                self.node_indices@.contains_key(current),
                self.node_indices@[current] == at,
                distances@.contains_key(current),
                distances@[current] == current_distance,
                forall|from: u32| sources@.contains(from) <==> has_link(ae, from as int, at as int),
                forall|j: int|
                    0 <= j < k ==> {
                        let p = an[(#[trigger] sources@[j]) as int];
                        visited@.contains(p) || !distances@.contains_key(p) || exists|e: u128|
                            link_misfits(self@.links(), e, p, current, distances@)
                    },
            decreases sources.len() - k,
        {
            let from = sources[k];
            proof {
                assert(sources@.contains(from));
                let slot = choose|slot: int| #[trigger]
                    ae.contains_key(slot) && ae[slot].0 == from as int && ae[slot].1 == at as int;
                let e = self.edge_ids@[slot];
                assert(self.edge_indices@.contains_key(e));
                assert(self@.edges.contains_key(e));
                assert(self.node_indices@.contains_key(self@.edges[e].source_id));
            }
            let p = adjacency_node_id(&self.graph, from);
            if !visited.contains(&p) {
                if let Some(distance) = distances.get(&p) {
                    if let Some(slot) = adjacency_find_edge(&self.graph, from, at) {
                        if let Some(weight) = adjacency_edge_cost(&self.graph, slot) {
                            let ghost e = self.edge_ids@[slot as int];
                            proof {
                                assert(self.edge_indices@.contains_key(e));
                                assert(self@.edges.contains_key(e));
                                assert(self.node_indices@.contains_key(self@.edges[e].source_id));
                                assert(self.node_indices@.contains_key(self@.edges[e].target_id));
                                assert(self@.edges[e].source_id == p);
                                assert(self@.edges[e].target_id == current);
                                assert(self@.edges[e].weight == weight);
                            }
                            if *distance <= current_distance && current_distance - *distance
                                == weight as u128 {
                                proof {
                                    assert(link_fits(self@.links(), e, p, current, distances@));
                                }
                                return Some(p);
                            }
                            proof {
                                assert(link_misfits(self@.links(), e, p, current, distances@));
                            }
                        }
                    }
                }
            }
            k += 1;
        }
        proof {
            assert forall|p: u128|
                !visited@.contains(p) && #[trigger] distances@.contains_key(p) && has_link(
                    self@.links(),
                    p,
                    current,
                ) implies exists|e: u128| link_misfits(self@.links(), e, p, current, distances@) by {
                let e = choose|e: u128| #[trigger]
                    self@.links().contains_key(e) && self@.links()[e].0 == p
                        && self@.links()[e].1 == current;
                assert(self.edge_indices@.contains_key(e));
                assert(self.node_indices@.contains_key(p));
                let from = self.node_indices@[p];
                assert(ae.contains_key(self.edge_indices@[e] as int));
                assert(has_link(ae, from as int, at as int));
                assert(sources@.contains(from));
                let j = choose|j: int| 0 <= j < sources@.len() && sources@[j] == from;
                assert(an[sources@[j] as int] == p);
            }
        }
        None
    }

    /// The path that distances give: from `target` back along edges whose
    /// cost is the difference of the distances of their ends, to `source` or
    /// to a node from which no such step is open. `None` if an end is
    /// unknown or `target` has no distance.
    pub fn trace_path(
        &self,
        distances: &HashMap<u128, u128>,
        source_id: &u128,
        target_id: &u128,
    ) -> (result: Option<PathResult>)
        requires
            self.wf(),
        ensures
            result is Some <==> self@.nodes.contains_key(*source_id) && self@.nodes.contains_key(
                *target_id,
            ) && distances@.contains_key(*target_id),
            result matches Some(r) ==> self@.is_trace(r, distances@, *source_id, *target_id),
    {
        proof {
            self.lemma_unfold();
        }
        if !self.nodes.contains_key(source_id) || !self.nodes.contains_key(target_id) {
            return None;
        }
        let total_weight = match distances.get(target_id) {
            Some(d) => *d,
            None => return None,
        };
        let mut backwards: Vec<u128> = Vec::new();
        backwards.push(*target_id);
        let mut visited: HashSet<u128> = HashSet::new();
        visited.insert(*target_id);
        let mut current = *target_id;
        let mut stuck = false;
        let ghost mut hops: Seq<u128> = Seq::empty();
        proof {
            assert(backwards@[0] == *target_id);
            assert(backwards@.contains(*target_id));
            assert(visited@ =~= backwards@.to_set());
            lemma_listing_len(backwards@, backwards@.to_set());
            assert(backwards@.to_set().subset_of(self@.nodes.dom()));
            lemma_len_subset(backwards@.to_set(), self@.nodes.dom());
        }
        while current != *source_id && !stuck
            invariant
                self.wf(),
                self@.wf(),
                backwards@.len() >= 1,
                backwards@[0] == *target_id,
                backwards@.last() == current,
                forall|i: int|
                    0 <= i < backwards@.len() - 1 ==> #[trigger] backwards@[i] != *source_id,
                backwards@.no_duplicates(),
                visited@ == backwards@.to_set(),
                forall|i: int|
                    0 <= i < backwards@.len() ==> self@.nodes.contains_key(
                        #[trigger] backwards@[i],
                    ) && distances@.contains_key(backwards@[i]),
                hops.len() + 1 == backwards@.len(),
                forall|i: int|
                    0 <= i < hops.len() ==> link_fits(
                        self@.links(),
                        #[trigger] hops[i],
                        backwards@[i + 1],
                        backwards@[i],
                        distances@,
                    ),
                stuck ==> no_way_back(self@.links(), current, visited@, distances@),
                backwards@.len() <= self@.nodes.len(),
            decreases self@.nodes.len() - backwards@.len() + (if stuck { 0int } else { 1int }),
        {
            match self.predecessor(distances, current, &visited) {
                Some(p) => {
                    proof {
                        let e = choose|e: u128| link_fits(self@.links(), e, p, current, distances@);
                        hops = hops.push(e);
                        lemma_push_contains(backwards@, p);
                        assert(!backwards@.contains(p));
                    }
                    backwards.push(p);
                    visited.insert(p);
                    current = p;
                    proof {
                        assert(visited@ =~= backwards@.to_set());
                        lemma_listing_len(backwards@, backwards@.to_set());
                        assert(backwards@.to_set().subset_of(self@.nodes.dom())) by {
                            assert forall|id: u128|
                                backwards@.to_set().contains(id) implies self@.nodes.dom().contains(
                                id,
                            ) by {
                                let i = choose|i: int|
                                    0 <= i < backwards@.len() && backwards@[i] == id;
                                assert(self@.nodes.contains_key(backwards@[i]));
                            }
                        }
                        lemma_len_subset(backwards@.to_set(), self@.nodes.dom());
                    }
                },
                None => {
                    stuck = true;
                },
            }
        }
        let path = reversed(&backwards);
        let ghost route = Seq::new(hops.len(), |i: int| hops[hops.len() - 1 - i]);
        let mut node_names: Vec<String> = Vec::new();
        let mut i: usize = 0;
        while i < path.len()
            invariant
                i <= path.len(),
                self.wf(),
                self@.nodes == self.nodes@,
                node_names@.len() == i,
                forall|j: int| 0 <= j < path@.len() ==> self@.nodes.contains_key(#[trigger] path@[j]),
                forall|j: int| 0 <= j < i ==> #[trigger] node_names@[j] == self@.nodes[path@[j]].name,
            decreases path.len() - i,
        {
            proof {
                assert(self@.nodes.contains_key(path@[i as int]));
            }
            let node = self.nodes.get(&path[i]).unwrap();
            node_names.push(node.name.clone());
            i += 1;
        }
        proof {
            let n = backwards@.len() as int;
            assert(path@.last() == *target_id);
            assert(path@[0] == current);
            assert forall|a: int| 0 < a < path@.len() implies #[trigger] path@[a] != *source_id by {
                assert(backwards@[n - 1 - a] != *source_id);
            }
            assert forall|a: int, b: int| 0 <= a < b < path@.len() implies path@[a] != path@[b] by {
                assert(backwards@[n - 1 - a] != backwards@[n - 1 - b]);
            }
            assert(path@.to_set() =~= backwards@.to_set()) by {
                assert forall|id: u128| path@.to_set().contains(id) <==> backwards@.to_set().contains(
                    id,
                ) by {
                    if path@.contains(id) {
                        let a = choose|a: int| 0 <= a < path@.len() && path@[a] == id;
                        assert(backwards@[n - 1 - a] == id);
                    }
                    if backwards@.contains(id) {
                        let a = choose|a: int| 0 <= a < backwards@.len() && backwards@[a] == id;
                        assert(path@[n - 1 - a] == id);
                    }
                }
            }
            assert(is_tight(self@.links(), distances@, path@, route)) by {
                assert forall|j: int| 0 <= j < route.len() implies self@.links().contains_key(
                    #[trigger] route[j],
                ) && self@.links()[route[j]].0 == path@[j] && self@.links()[route[j]].1 == path@[j
                    + 1] && distances@[path@[j]] + self@.links()[route[j]].2 == distances@[path@[j
                    + 1]] by {
                    let h = hops.len() - 1 - j;
                    assert(link_fits(
                        self@.links(),
                        hops[h],
                        backwards@[h + 1],
                        backwards@[h],
                        distances@,
                    ));
                }
            }
        }
        Some(PathResult { path, node_names, total_weight })
    }

    /// The cheapest directed path from one node to another. `None` if either
    /// node is unknown or no path leads from the first to the second. The
    /// weight is the cost of a cheapest path. The nodes are those that
    /// tracing back from the target found. Where edges cost nothing or run
    /// in parallel the trace may stop short of the source: the path then
    /// starts at the node where it stopped.
    pub fn find_path(&self, source_id: &u128, target_id: &u128) -> (result: Option<PathResult>)
        requires
            self.wf(),
        ensures
            result is Some <==> self@.nodes.contains_key(*source_id) && self@.nodes.contains_key(
                *target_id,
            ) && reachable(self@.links(), *source_id, *target_id),
            result matches Some(r) ==> self@.is_cheapest_path(r, *source_id, *target_id),
    {
        proof {
            self.lemma_unfold();
        }
        let source = match self.node_indices.get(source_id) {
            Some(slot) => *slot,
            None => return None,
        };
        let target = match self.node_indices.get(target_id) {
            Some(slot) => *slot,
            None => return None,
        };
        let by_slot = adjacency_distances(&self.graph, source, target);
        let distances = self.distances_by_id(&by_slot);
        let result = self.trace_path(&distances, source_id, target_id);
        proof {
            self.lemma_same_routes(*source_id, *target_id);
            assert(distances@.contains_key(*source_id));
            if result is Some {
                let r = result->0;
                let route = choose|route: Seq<u128>|
                    is_tight(self@.links(), distances@, r.path@, route);
                lemma_tight_cost(self@.links(), distances@, r.path@, route);
                assert(distances@.contains_key(r.path@[0]));
                if all_positive(self@.links()) && no_parallel(self@.links()) {
                    self.lemma_settled(by_slot@, distances@, *source_id, *target_id);
                    lemma_trace_reaches_source(
                        self@.links(),
                        distances@,
                        *source_id,
                        *target_id,
                        r.path@,
                        route,
                    );
                }
            }
        }
        result
    }
}

} // verus!
