//! Lists of records: what it means for a list to hold exactly the records
//! filed under a set of identifiers, and the steps by which a loop builds
//! such a list.

use crate::models::{Edge, Node};
use vstd::prelude::*;

verus! {

/// The identifiers of a list of nodes, in order.
pub open spec fn node_ids(list: Seq<&Node>) -> Seq<u128> {
    Seq::new(list.len(), |i: int| list[i].id)
}

/// The identifiers of a list of edges, in order.
pub open spec fn edge_ids(list: Seq<&Edge>) -> Seq<u128> {
    Seq::new(list.len(), |i: int| list[i].id)
}

/// Whether a list holds, each once and in any order, the node records that
/// `nodes` files under the identifiers in `ids`.
pub open spec fn lists_nodes(list: Seq<&Node>, nodes: Map<u128, Node>, ids: Set<u128>) -> bool {
    &&& node_ids(list).no_duplicates()
    &&& node_ids(list).to_set() == ids
    &&& forall|i: int|
        0 <= i < list.len() ==> nodes.contains_key(#[trigger] list[i].id) && *list[i]
            == nodes[list[i].id]
}

/// Whether a list holds, each once and in any order, the edge records that
/// `edges` files under the identifiers in `ids`.
pub open spec fn lists_edges(list: Seq<&Edge>, edges: Map<u128, Edge>, ids: Set<u128>) -> bool {
    &&& edge_ids(list).no_duplicates()
    &&& edge_ids(list).to_set() == ids
    &&& forall|i: int|
        0 <= i < list.len() ==> edges.contains_key(#[trigger] list[i].id) && *list[i]
            == edges[list[i].id]
}

/// A list with one more item holds what it held before, and the item.
pub proof fn lemma_push_contains<T>(s: Seq<T>, x: T)
    ensures
        forall|y: T| #[trigger] s.push(x).contains(y) <==> (s.contains(y) || y == x),
{
    assert forall|y: T| #[trigger] s.push(x).contains(y) <==> (s.contains(y) || y == x) by {
        if s.contains(y) {
            let i = choose|i: int| 0 <= i < s.len() && s[i] == y;
            assert(s.push(x)[i] == y);
        }
        if y == x {
            assert(s.push(x)[s.len() as int] == y);
        }
    }
}

/// Adding an item that a duplicate-free list lacks keeps it duplicate-free.
pub proof fn lemma_push_no_duplicates<T>(s: Seq<T>, x: T)
    requires
        s.no_duplicates(),
        !s.contains(x),
    ensures
        s.push(x).no_duplicates(),
{
}

/// The first `i + 1` items are the first `i` items and the next one.
pub proof fn lemma_take_next<T>(s: Seq<T>, i: int)
    requires
        0 <= i < s.len(),
    ensures
        s.take(i + 1) == s.take(i).push(s[i]),
        forall|y: T| #[trigger] s.take(i + 1).contains(y) <==> (s.take(i).contains(y) || y == s[i]),
        s.no_duplicates() ==> !s.take(i).contains(s[i]),
{
    assert(s.take(i + 1) =~= s.take(i).push(s[i]));
    lemma_push_contains(s.take(i), s[i]);
}

/// A duplicate-free list is as long as the set of its items is large.
pub proof fn lemma_listing_len<T>(s: Seq<T>, set: Set<T>)
    requires
        s.no_duplicates(),
        s.to_set() == set,
    ensures
        set.finite(),
        s.len() == set.len(),
{
    s.unique_seq_to_set();
    vstd::seq_lib::seq_to_set_is_finite(s);
}

} // verus!
