//! Walking a hash map in a fixed order: its keys as a list.

use std::collections::HashMap;
use vstd::prelude::*;
use vstd::std_specs::hash::{obeys_key_model, spec_keys_iter};
use vstd::std_specs::iter::IteratorSpec;

verus! {

/// The keys of a map, each once, in the order in which the map yields them.
pub(crate) fn key_list<K: Copy, V>(m: &HashMap<K, V>) -> (keys: Vec<K>)
    requires
        obeys_key_model::<K>(),
    ensures
        keys@.no_duplicates(),
        keys@.to_set() == m@.dom(),
        keys@.len() == m@.len(),
{
    let mut keys: Vec<K> = Vec::new();
    let ghost all = spec_keys_iter(m).remaining();
    for k in it: m.keys()
        invariant
            it.seq() == all,
            keys@.len() == it.index(),
            forall|i: int| 0 <= i < keys@.len() ==> keys@[i] == *all[i],
    {
        keys.push(*k);
    }
    proof {
        assert(keys@ =~= all.unref());
        assert forall|i: int, j: int| 0 <= i < j < keys@.len() implies keys@[i] != keys@[j] by {
            assert(all[i] != all[j]);
        }
    }
    keys
}

/// A list in the opposite order.
pub(crate) fn reversed(list: &Vec<u128>) -> (turned: Vec<u128>)
    ensures
        turned@.len() == list@.len(),
        forall|i: int| 0 <= i < list@.len() ==> turned@[i] == list@[list@.len() - 1 - i],
{
    let mut turned: Vec<u128> = Vec::new();
    let mut i: usize = list.len();
    while i > 0
        invariant
            i <= list@.len(),
            turned@.len() == list@.len() - i,
            forall|j: int| 0 <= j < turned@.len() ==> turned@[j] == list@[list@.len() - 1 - j],
        decreases i,
    {
        i -= 1;
        turned.push(list[i]);
    }
    turned
}

} // verus!
