//! Breadth-first traversal to a bounded depth.

use super::graph::KnowledgeGraph;
use super::keys::key_list;
use super::listing::{lemma_push_contains, lemma_push_no_duplicates, lists_nodes, node_ids};
use super::view::GraphView;
use crate::models::{Direction, Edge, EdgeType, Node};
use std::collections::HashSet;
use vstd::prelude::*;

verus! {

/// Whether a traversal in `direction` follows `edge` from the node `at`.
pub open spec fn leads_from(edge: Edge, at: u128, direction: Direction) -> bool {
    match direction {
        Direction::Outgoing => edge.source_id == at,
        Direction::Incoming => edge.target_id == at,
        Direction::Both => edge.source_id == at || edge.target_id == at,
    }
}

/// The node that following `edge` from `at` leads to.
pub open spec fn other_end(edge: Edge, at: u128) -> u128 {
    if edge.source_id == at {
        edge.target_id
    } else {
        edge.source_id
    }
}

/// Whether a filter lets an edge kind pass: no filter lets every kind pass.
pub open spec fn kind_passes(kinds: Option<Seq<EdgeType>>, kind: EdgeType) -> bool {
    match kinds {
        None => true,
        Some(listed) => listed.contains(kind),
    }
}

impl GraphView {
    /// Whether edge `e` takes a traversal from `at` to `to`.
    pub open spec fn edge_steps(
        self,
        e: u128,
        at: u128,
        to: u128,
        kinds: Option<Seq<EdgeType>>,
        direction: Direction,
    ) -> bool {
        &&& self.edges.contains_key(e)
        &&& leads_from(self.edges[e], at, direction)
        &&& kind_passes(kinds, self.edges[e].edge_type)
        &&& other_end(self.edges[e], at) == to
    }

    /// Whether some edge takes a traversal from `at` to `to`.
    pub open spec fn steps_to(
        self,
        at: u128,
        to: u128,
        kinds: Option<Seq<EdgeType>>,
        direction: Direction,
    ) -> bool {
        exists|e: u128| self.edge_steps(e, at, to, kinds, direction)
    }

    /// The nodes that a traversal reaches from `origin` in at most `depth`
    /// steps, `origin` among them.
    pub open spec fn within(
        self,
        origin: u128,
        kinds: Option<Seq<EdgeType>>,
        direction: Direction,
        depth: nat,
    ) -> Set<u128>
        decreases depth,
    {
        if depth == 0 {
            set![origin]
        } else {
            let nearer = self.within(origin, kinds, direction, (depth - 1) as nat);
            Set::new(
                |n: u128|
                    nearer.contains(n) || exists|m: u128|
                        nearer.contains(m) && self.steps_to(m, n, kinds, direction),
            )
        }
    }

    /// What is within a depth is within every greater depth.
    pub proof fn lemma_within_grows(
        self,
        origin: u128,
        kinds: Option<Seq<EdgeType>>,
        direction: Direction,
        nearer: nat,
        farther: nat,
    )
        requires
            nearer <= farther,
        ensures
            self.within(origin, kinds, direction, nearer).subset_of(
                self.within(origin, kinds, direction, farther),
            ),
        decreases farther,
    {
        if nearer < farther {
            self.lemma_within_grows(origin, kinds, direction, nearer, (farther - 1) as nat);
        }
    }

    /// What is within one more step: what was within, and what one step
    /// leads to from there.
    pub proof fn lemma_within_next(
        self,
        origin: u128,
        kinds: Option<Seq<EdgeType>>,
        direction: Direction,
        depth: nat,
    )
        ensures
            forall|n: u128| #[trigger]
                self.within(origin, kinds, direction, depth + 1).contains(n) <==> self.within(
                    origin,
                    kinds,
                    direction,
                    depth,
                ).contains(n) || exists|m: u128|
                    self.within(origin, kinds, direction, depth).contains(m) && self.steps_to(
                        m,
                        n,
                        kinds,
                        direction,
                    ),
    {
    }

    /// Once a step reaches nothing new, no number of steps does.
    pub proof fn lemma_within_settles(
        self,
        origin: u128,
        kinds: Option<Seq<EdgeType>>,
        direction: Direction,
        depth: nat,
        farther: nat,
    )
        requires
            depth >= 1,
            depth <= farther,
            self.within(origin, kinds, direction, depth) == self.within(
                origin,
                kinds,
                direction,
                (depth - 1) as nat,
            ),
        ensures
            self.within(origin, kinds, direction, farther) == self.within(
                origin,
                kinds,
                direction,
                depth,
            ),
        decreases farther,
    {
        if farther > depth {
            self.lemma_within_settles(origin, kinds, direction, depth, (farther - 1) as nat);
            self.lemma_within_next(origin, kinds, direction, (farther - 1) as nat);
            self.lemma_within_next(origin, kinds, direction, (depth - 1) as nat);
            assert(self.within(origin, kinds, direction, farther) =~= self.within(
                origin,
                kinds,
                direction,
                depth,
            ));
        }
    }

    /// Whether a list names nearer nodes before farther ones: whatever depth
    /// a node of the list is within, the nodes before it are within too.
    pub open spec fn nearest_first(
        self,
        order: Seq<u128>,
        origin: u128,
        kinds: Option<Seq<EdgeType>>,
        direction: Direction,
    ) -> bool {
        forall|i: int, j: int, depth: nat|
            #![trigger self.within(origin, kinds, direction, depth).contains(order[j]), order[i]]
            0 <= i < j < order.len() && self.within(origin, kinds, direction, depth).contains(
                order[j],
            ) ==> self.within(origin, kinds, direction, depth).contains(order[i])
    }

    /// A list of nodes within a depth, nearest first, stays so when nodes
    /// that are one step farther are added at its end.
    pub proof fn lemma_nearest_first_grows(
        self,
        order: Seq<u128>,
        next: Seq<u128>,
        origin: u128,
        kinds: Option<Seq<EdgeType>>,
        direction: Direction,
        depth: nat,
    )
        requires
            self.nearest_first(order, origin, kinds, direction),
            forall|i: int|
                0 <= i < order.len() ==> self.within(origin, kinds, direction, depth).contains(
                    #[trigger] order[i],
                ),
            forall|k: int|
                0 <= k < next.len() ==> !self.within(origin, kinds, direction, depth).contains(
                    #[trigger] next[k],
                ) && self.within(origin, kinds, direction, depth + 1).contains(next[k]),
        ensures
            self.nearest_first(order + next, origin, kinds, direction),
    {
        let all = order + next;
        assert forall|i: int, j: int, d: nat|
            #![trigger self.within(origin, kinds, direction, d).contains(all[j]), all[i]]
            0 <= i < j < all.len() && self.within(origin, kinds, direction, d).contains(
                all[j],
            ) implies self.within(origin, kinds, direction, d).contains(all[i]) by {
            if j < order.len() {
                assert(all[j] == order[j] && all[i] == order[i]);
            } else {
                let x = next[j - order.len()];
                assert(all[j] == x);
                if d <= depth {
                    self.lemma_within_grows(origin, kinds, direction, d, depth);
                    assert(false);
                }
                self.lemma_within_grows(origin, kinds, direction, depth + 1, d);
                self.lemma_within_grows(origin, kinds, direction, depth, depth + 1);
                if i < order.len() {
                    assert(all[i] == order[i]);
                } else {
                    assert(all[i] == next[i - order.len()]);
                }
            }
        }
    }

    /// Every node within a depth other than the origin is a node of the
    /// graph.
    pub proof fn lemma_within_nodes(
        self,
        origin: u128,
        kinds: Option<Seq<EdgeType>>,
        direction: Direction,
        depth: nat,
    )
        requires
            self.wf(),
        ensures
            forall|n: u128| #[trigger]
                self.within(origin, kinds, direction, depth).contains(n) && n != origin
                    ==> self.nodes.contains_key(n),
        decreases depth,
    {
        if depth > 0 {
            let nearer = self.within(origin, kinds, direction, (depth - 1) as nat);
            self.lemma_within_nodes(origin, kinds, direction, (depth - 1) as nat);
            assert forall|n: u128| #[trigger]
                self.within(origin, kinds, direction, depth).contains(n) && n
                    != origin implies self.nodes.contains_key(n) by {
                if !nearer.contains(n) {
                    let m = choose|m: u128|
                        nearer.contains(m) && self.steps_to(m, n, kinds, direction);
                    let e = choose|e: u128| self.edge_steps(e, m, n, kinds, direction);
                    assert(self.edges.contains_key(e));
                }
            }
        }
    }
}

/// Whether a kind is in a list.
fn kind_listed(listed: &[EdgeType], kind: EdgeType) -> (found: bool)
    ensures
        found == listed@.contains(kind),
{
    let mut i: usize = 0;
    while i < listed.len()
        invariant
            i <= listed.len(),
            forall|j: int| 0 <= j < i ==> listed@[j] != kind,
        decreases listed.len() - i,
    {
        if listed[i] == kind {
            return true;
        }
        i += 1;
    }
    false
}

/// Adds a list of identifiers at the end of another.
fn append_ids(list: &mut Vec<u128>, more: &Vec<u128>)
    ensures
        final(list)@ == old(list)@ + more@,
{
    let mut i: usize = 0;
    while i < more.len()
        invariant
            i <= more.len(),
            list@ == old(list)@ + more@.take(i as int),
        decreases more.len() - i,
    {
        list.push(more[i]);
        proof {
            assert(more@.take(i + 1) =~= more@.take(i as int).push(more@[i as int]));
            assert(list@ =~= old(list)@ + more@.take(i + 1));
        }
        i += 1;
    }
    proof {
        assert(more@.take(more@.len() as int) =~= more@);
    }
}

/// The filter that a list of kinds is, if one is given.
pub open spec fn kinds_of(edge_types: Option<&[EdgeType]>) -> Option<Seq<EdgeType>> {
    match edge_types {
        None => None,
        Some(listed) => Some(listed@),
    }
}

impl KnowledgeGraph {
    /// Follows every edge that leads on from `at`: each node that it comes
    /// to for the first time joins `visited` and `next`.
    fn expand(
        &self,
        at: u128,
        edge_list: &Vec<u128>,
        edge_types: Option<&[EdgeType]>,
        direction: &Direction,
        visited: &mut HashSet<u128>,
        next: &mut Vec<u128>,
    )
        requires
            self.wf(),
            edge_list@.to_set() == self@.edges.dom(),
            old(next)@.no_duplicates(),
            old(next)@.to_set().subset_of(old(visited)@),
        ensures
            final(next)@.len() >= old(next)@.len(),
            final(next)@.take(old(next)@.len() as int) == old(next)@,
            final(next)@.no_duplicates(),
            final(visited)@ == old(visited)@.union(final(next)@.to_set()),
            forall|k: int|
                old(next)@.len() <= k < final(next)@.len() ==> !old(visited)@.contains(
                    #[trigger] final(next)@[k],
                ) && self@.steps_to(at, final(next)@[k], kinds_of(edge_types), *direction),
            forall|n: u128|
                self@.steps_to(at, n, kinds_of(edge_types), *direction)
                    ==> final(visited)@.contains(n),
    {
        proof {
            self.lemma_unfold();
        }
        let ghost kinds = kinds_of(edge_types);
        let ghost before = next@;
        let ghost seen = visited@;
        let mut i: usize = 0;
        while i < edge_list.len()
            invariant
                i <= edge_list.len(),
                self.wf(),
                self@.edges == self.edges@,
                kinds == kinds_of(edge_types),
                edge_list@.to_set() == self@.edges.dom(),
                before.to_set().subset_of(seen),
                next@.len() >= before.len(),
                next@.take(before.len() as int) == before,
                next@.no_duplicates(),
                visited@ == seen.union(next@.to_set()),
                forall|k: int|
                    before.len() <= k < next@.len() ==> !seen.contains(#[trigger] next@[k])
                        && self@.steps_to(at, next@[k], kinds, *direction),
                forall|j: int, n: u128|
                    0 <= j < i && self@.edge_steps(#[trigger] edge_list@[j], at, n, kinds, *direction)
                        ==> #[trigger] visited@.contains(n),
            decreases edge_list.len() - i,
        {
            let e = edge_list[i];
            proof {
                assert(edge_list@.to_set().contains(e));
            }
            let edge = self.edges.get(&e).unwrap();
            let leads = match direction {
                Direction::Outgoing => edge.source_id == at,
                Direction::Incoming => edge.target_id == at,
                Direction::Both => edge.source_id == at || edge.target_id == at,
            };
            let passes = match edge_types {
                Some(listed) => kind_listed(listed, edge.edge_type),
                None => true,
            };
            if leads && passes {
                let neighbor = if edge.source_id == at {
                    edge.target_id
                } else {
                    edge.source_id
                };
                proof {
                    assert(self@.edge_steps(e, at, neighbor, kinds, *direction));
                }
                if visited.insert(neighbor) {
                    proof {
                        lemma_push_contains(next@, neighbor);
                        lemma_push_no_duplicates(next@, neighbor);
                        assert(next@.push(neighbor).take(before.len() as int) =~= next@.take(
                            before.len() as int,
                        ));
                    }
                    next.push(neighbor);
                    proof {
                        assert(visited@ =~= seen.union(next@.to_set()));
                    }
                }
            }
            i += 1;
        }
        proof {
            assert forall|n: u128| self@.steps_to(at, n, kinds, *direction) implies visited@.contains(
                n,
            ) by {
                let e = choose|e: u128| self@.edge_steps(e, at, n, kinds, *direction);
                assert(edge_list@.to_set().contains(e));
                let j = choose|j: int| 0 <= j < edge_list@.len() && edge_list@[j] == e;
                assert(self@.edge_steps(edge_list@[j], at, n, kinds, *direction));
            }
        }
    }

    /// The node records filed under a list of distinct identifiers, in the
    /// order of the list.
    pub(crate) fn nodes_by_id(&self, ids: &Vec<u128>) -> (list: Vec<&Node>)
        requires
            self.wf(),
            ids@.no_duplicates(),
            forall|j: int| 0 <= j < ids@.len() ==> self@.nodes.contains_key(#[trigger] ids@[j]),
        ensures
            lists_nodes(list@, self@.nodes, ids@.to_set()),
            node_ids(list@) == ids@,
    {
        proof {
            self.lemma_unfold();
        }
        let mut list: Vec<&Node> = Vec::new();
        let mut i: usize = 0;
        while i < ids.len()
            invariant
                i <= ids.len(),
                self.wf(),
                self@.wf(),
                self@.nodes == self.nodes@,
                forall|j: int| 0 <= j < ids@.len() ==> self@.nodes.contains_key(#[trigger] ids@[j]),
                list@.len() == i,
                forall|j: int|
                    0 <= j < i ==> (#[trigger] list@[j]).id == ids@[j] && *list@[j]
                        == self.nodes@[ids@[j]],
            decreases ids.len() - i,
        {
            let id = ids[i];
            proof {
                assert(self@.nodes.contains_key(ids@[i as int]));
            }
            let node = self.nodes.get(&id).unwrap();
            list.push(node);
            i += 1;
        }
        proof {
            assert(node_ids(list@) =~= ids@);
        }
        list
    }

    /// The nodes within `depth` steps of a node, the node itself left out,
    /// each once, nearer nodes before farther ones. A step follows an edge
    /// in `direction` whose kind is among `edge_types`, or of any kind where
    /// no kinds are given. The traversal ends as soon as a step reaches
    /// nothing new, however large `depth` is.
    pub fn find_neighbors(
        &self,
        node_id: &u128,
        edge_types: Option<&[EdgeType]>,
        direction: &Direction,
        depth: usize,
    ) -> (list: Vec<&Node>)
        requires
            self.wf(),
        ensures
            lists_nodes(
                list@,
                self@.nodes,
                self@.within(*node_id, kinds_of(edge_types), *direction, depth as nat).remove(
                    *node_id,
                ),
            ),
            self@.nearest_first(node_ids(list@), *node_id, kinds_of(edge_types), *direction),
            node_ids(list@).no_duplicates(),
            !node_ids(list@).contains(*node_id),
    {
        proof {
            self.lemma_unfold();
        }
        let ghost origin = *node_id;
        let ghost kinds = kinds_of(edge_types);
        let ghost dir = *direction;
        let edge_list = key_list(&self.edges);
        let mut visited: HashSet<u128> = HashSet::new();
        visited.insert(*node_id);
        let mut frontier: Vec<u128> = Vec::new();
        frontier.push(*node_id);
        let mut order: Vec<u128> = Vec::new();
        let mut level: usize = 0;
        proof {
            assert(visited@ =~= self@.within(origin, kinds, dir, 0));
            assert(frontier@[0] == origin);
            assert(order@.to_set() =~= self@.within(origin, kinds, dir, 0).remove(origin));
        }
        while level < depth && frontier.len() > 0
            invariant
                level <= depth,
                self.wf(),
                self@.wf(),
                origin == *node_id,
                kinds == kinds_of(edge_types),
                dir == *direction,
                edge_list@.to_set() == self@.edges.dom(),
                visited@ == self@.within(origin, kinds, dir, level as nat),
                forall|m: u128| #[trigger]
                    frontier@.contains(m) ==> self@.within(origin, kinds, dir, level as nat).contains(
                        m,
                    ),
                forall|m: u128|
                    #[trigger] self@.within(origin, kinds, dir, level as nat).contains(m)
                        && !frontier@.contains(m) ==> level >= 1 && self@.within(
                        origin,
                        kinds,
                        dir,
                        (level - 1) as nat,
                    ).contains(m),
                order@.no_duplicates(),
                order@.to_set() == self@.within(origin, kinds, dir, level as nat).remove(origin),
                self@.nearest_first(order@, origin, kinds, dir),
            decreases depth - level,
        {
            let ghost here = self@.within(origin, kinds, dir, level as nat);
            let ghost there = self@.within(origin, kinds, dir, (level + 1) as nat);
            proof {
                self@.lemma_within_next(origin, kinds, dir, level as nat);
                self@.lemma_within_grows(origin, kinds, dir, 0, level as nat);
                assert(self@.within(origin, kinds, dir, 0).contains(origin));
                assert(here.contains(origin));
            }
            let mut next: Vec<u128> = Vec::new();
            let mut a: usize = 0;
            while a < frontier.len()
                invariant
                    a <= frontier.len(),
                    self.wf(),
                    kinds == kinds_of(edge_types),
                    dir == *direction,
                    edge_list@.to_set() == self@.edges.dom(),
                    here == self@.within(origin, kinds, dir, level as nat),
                    there == self@.within(origin, kinds, dir, (level + 1) as nat),
                    forall|n: u128| #[trigger]
                        there.contains(n) <==> here.contains(n) || exists|m: u128|
                            here.contains(m) && self@.steps_to(m, n, kinds, dir),
                    forall|m: u128| #[trigger] frontier@.contains(m) ==> here.contains(m),
                    next@.no_duplicates(),
                    visited@ == here.union(next@.to_set()),
                    forall|k: int|
                        0 <= k < next@.len() ==> !here.contains(#[trigger] next@[k])
                            && there.contains(next@[k]),
                    forall|b: int, n: u128|
                        0 <= b < a && self@.steps_to(#[trigger] frontier@[b], n, kinds, dir)
                            ==> #[trigger] visited@.contains(n),
                decreases frontier.len() - a,
            {
                let ghost seen = visited@;
                let ghost before = next@;
                let at = frontier[a];
                proof {
                    assert(frontier@.contains(at));
                }
                self.expand(at, &edge_list, edge_types, direction, &mut visited, &mut next);
                proof {
                    assert forall|k: int| 0 <= k < next@.len() implies !here.contains(
                        #[trigger] next@[k],
                    ) && there.contains(next@[k]) by {
                        if k < before.len() {
                            assert(next@.take(before.len() as int)[k] == before[k]);
                        } else {
                            assert(here.contains(at) && self@.steps_to(at, next@[k], kinds, dir));
                        }
                    }
                    assert(visited@ =~= here.union(next@.to_set())) by {
                        assert forall|x: u128| before.to_set().contains(x) implies next@.to_set().contains(
                            x,
                        ) by {
                            let k = choose|k: int| 0 <= k < before.len() && before[k] == x;
                            assert(next@.take(before.len() as int)[k] == x);
                            assert(next@[k] == x);
                        }
                    }
                }
                a += 1;
            }
            proof {
                assert(visited@ =~= there) by {
                    assert forall|n: u128| there.contains(n) implies visited@.contains(n) by {
                        if !here.contains(n) {
                            let m = choose|m: u128|
                                here.contains(m) && self@.steps_to(m, n, kinds, dir);
                            if frontier@.contains(m) {
                                let b = choose|b: int| 0 <= b < frontier@.len() && frontier@[b] == m;
                                assert(self@.steps_to(frontier@[b], n, kinds, dir));
                            } else {
                                self@.lemma_within_next(origin, kinds, dir, (level - 1) as nat);
                                assert(self@.within(origin, kinds, dir, (level - 1) as nat).contains(
                                    m,
                                ));
                            }
                        }
                    }
                    assert forall|n: u128| visited@.contains(n) implies there.contains(n) by {
                        if !here.contains(n) {
                            let k = choose|k: int| 0 <= k < next@.len() && next@[k] == n;
                            assert(there.contains(next@[k]));
                        }
                    }
                }
                self@.lemma_nearest_first_grows(order@, next@, origin, kinds, dir, level as nat);
            }
            let ghost listed = order@;
            append_ids(&mut order, &next);
            proof {
                assert forall|i: int, j: int| 0 <= i < j < order@.len() implies order@[i]
                    != order@[j] by {
                    if i < listed.len() && j >= listed.len() {
                        assert(listed.to_set().contains(listed[i]));
                        assert(!here.contains(next@[j - listed.len()]));
                    }
                }
                assert(order@.to_set() =~= there.remove(origin)) by {
                    assert forall|x: u128| order@.to_set().contains(x) implies there.remove(
                        origin,
                    ).contains(x) by {
                        let k = choose|k: int| 0 <= k < order@.len() && order@[k] == x;
                        if k < listed.len() {
                            assert(listed.to_set().contains(listed[k]));
                        } else {
                            assert(there.contains(next@[k - listed.len()]));
                        }
                    }
                    assert forall|x: u128| there.remove(origin).contains(x) implies order@.to_set().contains(
                        x,
                    ) by {
                        if here.contains(x) {
                            assert(listed.to_set().contains(x));
                            let k = choose|k: int| 0 <= k < listed.len() && listed[k] == x;
                            assert(order@[k] == x);
                        } else {
                            assert(next@.to_set().contains(x));
                            let k = choose|k: int| 0 <= k < next@.len() && next@[k] == x;
                            assert(order@[listed.len() + k] == x);
                        }
                    }
                }
                assert forall|m: u128|
                    #[trigger] there.contains(m) && !next@.contains(m) implies here.contains(m) by {
                    assert(visited@.contains(m));
                }
            }
            frontier = next;
            level += 1;
        }
        proof {
            if level < depth {
                // The last step reached nothing new.
                let here = self@.within(origin, kinds, dir, level as nat);
                self@.lemma_within_grows(origin, kinds, dir, 0, level as nat);
                assert(self@.within(origin, kinds, dir, 0).contains(origin));
                assert(here.contains(origin) && !frontier@.contains(origin));
                self@.lemma_within_grows(origin, kinds, dir, (level - 1) as nat, level as nat);
                assert(here =~= self@.within(origin, kinds, dir, (level - 1) as nat));
                self@.lemma_within_settles(origin, kinds, dir, level as nat, depth as nat);
            }
            self@.lemma_within_nodes(origin, kinds, dir, depth as nat);
            assert forall|j: int| 0 <= j < order@.len() implies self@.nodes.contains_key(
                #[trigger] order@[j],
            ) by {
                assert(order@.to_set().contains(order@[j]));
            }
            assert(order@.contains(origin) <==> order@.to_set().contains(origin));
        }
        self.nodes_by_id(&order)
    }
}

} // verus!
