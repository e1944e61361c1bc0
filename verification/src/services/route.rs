//! Routes through a set of directed, weighted links.
//!
//! Links are a map from a link's key to (source, target, cost). A route is a
//! sequence of link keys, each link starting where the one before it ended.

use vstd::prelude::*;

verus! {

/// Whether `route` leads from `from` to `to`, link by link.
pub open spec fn is_route<K, N>(
    links: Map<K, (N, N, u64)>,
    from: N,
    to: N,
    route: Seq<K>,
) -> bool
    decreases route.len(),
{
    if route.len() == 0 {
        from == to
    } else {
        &&& links.contains_key(route[0])
        &&& links[route[0]].0 == from
        &&& is_route(links, links[route[0]].1, to, route.drop_first())
    }
}

/// The sum of the costs of the links of a route.
pub open spec fn route_cost<K, N>(links: Map<K, (N, N, u64)>, route: Seq<K>) -> int
    decreases route.len(),
{
    if route.len() == 0 {
        0
    } else {
        links[route[0]].2 + route_cost(links, route.drop_first())
    }
}

/// Whether some route leads from `from` to `to`.
pub open spec fn reachable<K, N>(links: Map<K, (N, N, u64)>, from: N, to: N) -> bool {
    exists|route: Seq<K>| is_route(links, from, to, route)
}

/// Whether `cost` is the cost of a route from `from` to `to` and no route
/// between the two costs less.
pub open spec fn is_cheapest<K, N>(links: Map<K, (N, N, u64)>, from: N, to: N, cost: int) -> bool {
    &&& exists|route: Seq<K>| is_route(links, from, to, route) && route_cost(links, route) == cost
    &&& forall|route: Seq<K>| is_route(links, from, to, route) ==> cost <= route_cost(links, route)
}

/// Whether some link leads from `from` straight to `to`.
pub open spec fn has_link<K, N>(links: Map<K, (N, N, u64)>, from: N, to: N) -> bool {
    exists|k: K| #[trigger] links.contains_key(k) && links[k].0 == from && links[k].1 == to
}

/// The links that neither start nor end at `node`.
pub open spec fn links_clear_of<K, N>(links: Map<K, (N, N, u64)>, node: N) -> Map<K, (N, N, u64)> {
    Map::new(
        |k: K| links.contains_key(k) && links[k].0 != node && links[k].1 != node,
        |k: K| links[k],
    )
}

/// Whether `route` leads along `path`: its link `i` goes from `path[i]` to
/// `path[i + 1]`.
pub open spec fn follows<K, N>(links: Map<K, (N, N, u64)>, path: Seq<N>, route: Seq<K>) -> bool {
    &&& path.len() == route.len() + 1
    &&& forall|i: int|
        0 <= i < route.len() ==> {
            &&& links.contains_key(#[trigger] route[i])
            &&& links[route[i]].0 == path[i]
            &&& links[route[i]].1 == path[i + 1]
        }
}

/// Whether `route` leads along `path` and each of its links accounts exactly
/// for the difference between the distances of its two ends.
pub open spec fn is_tight<K, N>(
    links: Map<K, (N, N, u64)>,
    distances: Map<N, u128>,
    path: Seq<N>,
    route: Seq<K>,
) -> bool {
    &&& follows(links, path, route)
    &&& forall|i: int| 0 <= i < path.len() ==> distances.contains_key(#[trigger] path[i])
    &&& forall|i: int|
        0 <= i < route.len() ==> distances[path[i]] + links[#[trigger] route[i]].2
            == distances[path[i + 1]]
}

/// A route that leads along a path is a route from the path's first node to
/// its last.
pub proof fn lemma_follows_is_route<K, N>(links: Map<K, (N, N, u64)>, path: Seq<N>, route: Seq<K>)
    requires
        follows(links, path, route),
    ensures
        is_route(links, path[0], path.last(), route),
    decreases route.len(),
{
    if route.len() > 0 {
        let rest_path = path.drop_first();
        let rest = route.drop_first();
        assert forall|i: int| 0 <= i < rest.len() implies links.contains_key(#[trigger] rest[i])
            && links[rest[i]].0 == rest_path[i] && links[rest[i]].1 == rest_path[i + 1] by {
            assert(rest[i] == route[i + 1]);
        }
        lemma_follows_is_route(links, rest_path, rest);
        assert(rest_path[0] == path[1]);
        assert(rest_path.last() == path.last());
    }
}

/// Along a tight route the costs add up to the difference between the
/// distances of the last node and the first.
pub proof fn lemma_tight_cost<K, N>(
    links: Map<K, (N, N, u64)>,
    distances: Map<N, u128>,
    path: Seq<N>,
    route: Seq<K>,
)
    requires
        is_tight(links, distances, path, route),
    ensures
        route_cost(links, route) + distances[path[0]] == distances[path.last()],
    decreases route.len(),
{
    if route.len() > 0 {
        let rest_path = path.drop_first();
        let rest = route.drop_first();
        assert forall|i: int| 0 <= i < rest.len() implies links.contains_key(#[trigger] rest[i])
            && links[rest[i]].0 == rest_path[i] && links[rest[i]].1 == rest_path[i + 1]
            && distances[rest_path[i]] + links[rest[i]].2 == distances[rest_path[i + 1]] by {
            assert(rest[i] == route[i + 1]);
        }
        assert forall|i: int| 0 <= i < rest_path.len() implies distances.contains_key(
            #[trigger] rest_path[i],
        ) by {
            assert(rest_path[i] == path[i + 1]);
        }
        lemma_tight_cost(links, distances, rest_path, rest);
        assert(rest_path[0] == path[1]);
        assert(rest_path.last() == path.last());
        assert(distances[path[0]] + links[route[0]].2 == distances[path[1]]);
    }
}

/// Where one set of links is the image of another under a renaming of keys
/// and nodes, the image of a route is a route of the same cost.
pub proof fn lemma_route_transfer<KA, NA, KB, NB>(
    a: Map<KA, (NA, NA, u64)>,
    b: Map<KB, (NB, NB, u64)>,
    key: spec_fn(KA) -> KB,
    node: spec_fn(NA) -> NB,
    from: NA,
    to: NA,
    route: Seq<KA>,
)
    requires
        forall|k: KA| #[trigger]
            a.contains_key(k) ==> b.contains_key(key(k)) && b[key(k)] == (
                node(a[k].0),
                node(a[k].1),
                a[k].2,
            ),
        is_route(a, from, to, route),
    ensures
        is_route(b, node(from), node(to), route.map_values(key)),
        route_cost(b, route.map_values(key)) == route_cost(a, route),
    decreases route.len(),
{
    if route.len() > 0 {
        lemma_route_transfer(a, b, key, node, a[route[0]].1, to, route.drop_first());
        assert(route.map_values(key).drop_first() =~= route.drop_first().map_values(key));
    }
}

/// Whether link `e` leads from `from` to `to` and its cost is exactly the
/// difference between their distances.
pub open spec fn link_fits<K, N>(
    links: Map<K, (N, N, u64)>,
    e: K,
    from: N,
    to: N,
    distances: Map<N, u128>,
) -> bool {
    &&& links.contains_key(e)
    &&& links[e].0 == from
    &&& links[e].1 == to
    &&& distances[from] + links[e].2 == distances[to]
}

/// Whether link `e` leads from `from` to `to` and its cost is not the
/// difference between their distances.
pub open spec fn link_misfits<K, N>(
    links: Map<K, (N, N, u64)>,
    e: K,
    from: N,
    to: N,
    distances: Map<N, u128>,
) -> bool {
    &&& links.contains_key(e)
    &&& links[e].0 == from
    &&& links[e].1 == to
    &&& distances[from] + links[e].2 != distances[to]
}

/// Whether no step back from `at` is open: from every node that has a
/// distance, is not among `seen` and has a link to `at`, some link to `at`
/// does not fit the distances.
pub open spec fn no_way_back<K, N>(
    links: Map<K, (N, N, u64)>,
    at: N,
    seen: Set<N>,
    distances: Map<N, u128>,
) -> bool {
    forall|p: N|
        !seen.contains(p) && #[trigger] distances.contains_key(p) && has_link(links, p, at)
            ==> exists|e: K| link_misfits(links, e, p, at, distances)
}

/// Whether every link has a cost above zero.
pub open spec fn all_positive<K, N>(links: Map<K, (N, N, u64)>) -> bool {
    forall|k: K| #[trigger] links.contains_key(k) ==> links[k].2 > 0
}

/// Whether no two links lead from the same node to the same node.
pub open spec fn no_parallel<K, N>(links: Map<K, (N, N, u64)>) -> bool {
    forall|j: K, k: K|
        #[trigger] links.contains_key(j) && #[trigger] links.contains_key(k) && links[j].0
            == links[k].0 && links[j].1 == links[k].1 ==> j == k
}

/// Whether distances are what a search from `source` knows when it has just
/// settled `target`: the distance of `target` is the cost of a cheapest
/// route, every distance is the cost of some route, and every node that is
/// nearer than `target` has the cost of its cheapest route as its distance.
pub open spec fn settled_up_to<K, N>(
    links: Map<K, (N, N, u64)>,
    distances: Map<N, u128>,
    source: N,
    target: N,
) -> bool {
    &&& distances.contains_key(target)
    &&& is_cheapest(links, source, target, distances[target] as int)
    &&& forall|n: N| #[trigger]
        distances.contains_key(n) ==> exists|route: Seq<K>|
            is_route(links, source, n, route) && route_cost(links, route) == distances[n]
    &&& forall|n: N, cost: int|
        #[trigger] is_cheapest(links, source, n, cost) && cost < distances[target]
            ==> distances.contains_key(n) && distances[n] == cost
}

/// One route after another is a route, and the costs add up.
pub proof fn lemma_route_concat<K, N>(
    links: Map<K, (N, N, u64)>,
    a: N,
    b: N,
    c: N,
    first: Seq<K>,
    second: Seq<K>,
)
    requires
        is_route(links, a, b, first),
        is_route(links, b, c, second),
    ensures
        is_route(links, a, c, first + second),
        route_cost(links, first + second) == route_cost(links, first) + route_cost(links, second),
    decreases first.len(),
{
    if first.len() == 0 {
        assert(first + second =~= second);
    } else {
        lemma_route_concat(links, links[first[0]].1, b, c, first.drop_first(), second);
        assert((first + second).drop_first() =~= first.drop_first() + second);
    }
}

/// A route that is not empty is a route to the source of its last link,
/// and that link.
pub proof fn lemma_route_last<K, N>(links: Map<K, (N, N, u64)>, a: N, c: N, route: Seq<K>)
    requires
        route.len() > 0,
        is_route(links, a, c, route),
    ensures
        links.contains_key(route.last()),
        links[route.last()].1 == c,
        is_route(links, a, links[route.last()].0, route.drop_last()),
        route_cost(links, route) == route_cost(links, route.drop_last()) + links[route.last()].2,
    decreases route.len(),
{
    let rest = route.drop_first();
    let next = links[route[0]].1;
    assert(is_route(links, next, c, rest));
    if route.len() == 1 {
        assert(rest.len() == 0);
        assert(route.drop_last().len() == 0);
        assert(route_cost(links, rest) == 0);
        assert(route.last() == route[0]);
    } else {
        lemma_route_last(links, next, c, rest);
        assert(rest.last() == route.last());
        assert(route.drop_last().drop_first() =~= rest.drop_last());
        assert(route.drop_last()[0] == route[0]);
        assert(is_route(links, next, links[route.last()].0, route.drop_last().drop_first()));
    }
}

/// A link alone is a route from its source to its target, at its cost.
pub proof fn lemma_single_link<K, N>(links: Map<K, (N, N, u64)>, e: K)
    requires
        links.contains_key(e),
    ensures
        is_route(links, links[e].0, links[e].1, seq![e]),
        route_cost(links, seq![e]) == links[e].2,
{
    let rest = seq![e].drop_first();
    assert(rest.len() == 0);
    assert(is_route(links, links[e].1, links[e].1, rest));
    assert(route_cost(links, rest) == 0);
    assert(seq![e][0] == e);
}

/// No route costs less than nothing.
pub proof fn lemma_route_cost_not_negative<K, N>(links: Map<K, (N, N, u64)>, route: Seq<K>)
    ensures
        route_cost(links, route) >= 0,
    decreases route.len(),
{
    if route.len() > 0 {
        lemma_route_cost_not_negative(links, route.drop_first());
    }
}

/// Where every link costs something and no two links join the same nodes in
/// the same direction, a trace back over the distances of a search that has
/// settled the target does not stop before the source.
pub proof fn lemma_trace_reaches_source<K, N>(
    links: Map<K, (N, N, u64)>,
    distances: Map<N, u128>,
    source: N,
    target: N,
    path: Seq<N>,
    route: Seq<K>,
)
    requires
        all_positive(links),
        no_parallel(links),
        settled_up_to(links, distances, source, target),
        is_tight(links, distances, path, route),
        path.last() == target,
        path[0] != source ==> no_way_back(links, path[0], path.to_set(), distances),
    ensures
        path[0] == source,
{
    if path[0] != source {
        let at = path[0];
        let here = distances[at] as int;
        // The way on from `at` to the target.
        lemma_follows_is_route(links, path, route);
        lemma_tight_cost(links, distances, path, route);
        lemma_route_cost_not_negative(links, route);
        // The distance of `at` is the cost of a cheapest route to it.
        assert(distances.contains_key(path[0]));
        let to_here = choose|r: Seq<K>|
            is_route(links, source, at, r) && route_cost(links, r) == distances[at];
        assert forall|r: Seq<K>| is_route(links, source, at, r) implies here <= route_cost(
            links,
            r,
        ) by {
            lemma_route_concat(links, source, at, target, r, route);
        }
        // Its last link comes from a node that is nearer.
        lemma_route_last(links, source, at, to_here);
        let e = to_here.last();
        let p = links[e].0;
        let before = to_here.drop_last();
        let there = route_cost(links, before);
        assert forall|r: Seq<K>| is_route(links, source, p, r) implies there <= route_cost(
            links,
            r,
        ) by {
            lemma_single_link(links, e);
            lemma_route_concat(links, source, p, at, r, seq![e]);
        }
        assert(is_cheapest(links, source, p, there));
        assert(distances.contains_key(p) && distances[p] == there);
        // That node is not on the path: the distances along it do not fall.
        assert(!path.to_set().contains(p)) by {
            if path.contains(p) {
                let i = choose|i: int| 0 <= i < path.len() && path[i] == p;
                lemma_tight_cost(links, distances, path.take(i + 1), route.take(i));
                lemma_route_cost_not_negative(links, route.take(i));
            }
        }
        assert(has_link(links, p, at));
        let misfit = choose|m: K| link_misfits(links, m, p, at, distances);
        assert(misfit == e);
    }
}

} // verus!
