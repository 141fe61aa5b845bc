//! The keys of maps that are keyed by container.

use std::collections::HashMap;
use vstd::prelude::*;

verus! {

broadcast use vstd::std_specs::hash::group_hash_axioms;

/// The keys of a map, each once, in no particular order.
pub(crate) fn ids_of<V>(map: &HashMap<u128, V>) -> (ids: Vec<u128>)
    ensures
        ids@.no_duplicates(),
        ids@.to_set() == map@.dom(),
{
    let mut ids: Vec<u128> = Vec::new();
    for id in iter: map.keys()
        invariant
            ids@.len() == iter.index(),
            iter.seq().unref().to_set() == map@.dom(),
            iter.seq().no_duplicates(),
            forall|i: int| 0 <= i < ids@.len() ==> ids@[i] == *iter.seq()[i],
    {
        ids.push(*id);
    }
    proof {
        let keys = vstd::std_specs::iter::IteratorSpec::remaining(&map.keys());
        assert(ids@ =~= keys.unref());
    }
    ids
}

} // verus!
