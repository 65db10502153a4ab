//! Helpers over std's collections.

use std::collections::HashMap;

use vstd::prelude::*;

verus! {

broadcast use vstd::std_specs::hash::group_hash_axioms;

/// The keys of a map, each once, in some order.
pub fn keys_of<V>(m: &HashMap<u32, V>) -> (r: Vec<u32>)
    ensures
        r@.no_duplicates(),
        r@.to_set() == m@.dom(),
{
    let mut r: Vec<u32> = Vec::new();
    for k in it: m.keys()
        invariant
            it.seq().no_duplicates(),
            it.seq().unref().to_set() == m@.dom(),
            r@ == it.seq().unref().take(it.index()),
            r@.no_duplicates(),
            it.index() == it.seq().len() ==> r@ =~= it.seq().unref(),
    {
        assert(!r@.contains(*k)) by {
            if r@.contains(*k) {
                let i = choose|i: int| 0 <= i < r@.len() && r@[i] == *k;
                assert(it.seq()[i] == it.seq()[it.index()]);
            }
        }
        r.push(*k);
        assert(r@ =~= it.seq().unref().take(it.index() + 1));
    }
    r
}

} // verus!
