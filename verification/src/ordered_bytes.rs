//! Reading an address-ordered byte map in address order.
use std::collections::BTreeMap;

use vstd::prelude::*;
use vstd::std_specs::btree::increasing_seq;
use vstd::std_specs::cmp::OrdSpec;
use vstd::std_specs::iter::IteratorSpec;

use crate::chunks::pairs_sorted;

verus! {

broadcast use vstd::std_specs::btree::group_btree_axioms;

/// The entries of `bytes` as `(address, byte)` pairs in increasing address order.
pub fn entries(bytes: &BTreeMap<u32, u8>) -> (pairs: Vec<(u32, u8)>)
    ensures
        pairs_sorted(pairs@),
        forall|i: int|
            0 <= i < pairs@.len() ==> bytes@.contains_key(#[trigger] pairs@[i].0) && bytes@[pairs@[i].0] == pairs@[i].1,
        forall|k: u32| #[trigger] bytes@.contains_key(k) ==> exists|i: int| 0 <= i < pairs@.len() && pairs@[i].0 == k,
{
    let mut pairs: Vec<(u32, u8)> = Vec::new();
    let all = bytes.iter();
    let ghost s = all.remaining();
    proof {
        assert(increasing_seq(s.map_values(|kv: (&u32, &u8)| *kv.0)));
        broadcast use vstd::std_specs::btree::axiom_increasing_seq_meaning;

    }
    for kv in it: all
        invariant
            s == it.seq(),
            pairs@.len() == it.index(),
            forall|j: int| 0 <= j < it.index() ==> #[trigger] pairs@[j] == (*it.seq()[j].0, *it.seq()[j].1),
    {
        pairs.push((*kv.0, *kv.1));
    }
    proof {
        let keys = s.map_values(|kv: (&u32, &u8)| *kv.0);
        assert forall|i: int, j: int| 0 <= i < j < pairs@.len() implies #[trigger] pairs@[i].0
            < #[trigger] pairs@[j].0 by {
            assert(keys[i] == pairs@[i].0);
            assert(keys[j] == pairs@[j].0);
            assert(keys[i].cmp_spec(&keys[j]) is Less);
        }
        assert forall|k: u32| #[trigger] bytes@.contains_key(k) implies exists|i: int|
            0 <= i < pairs@.len() && pairs@[i].0 == k by {
            assert(s.contains((&k, &bytes@[k])));
            let i = choose|i: int| 0 <= i < s.len() && s[i] == (&k, &bytes@[k]);
            assert(pairs@[i].0 == k);
        }
    }
    pairs
}

/// Whether `bytes` maps some address at or above `bound`.
pub fn has_address_from(bytes: &BTreeMap<u32, u8>, bound: u32) -> (r: bool)
    ensures
        r == exists|k: u32| #[trigger] bytes@.contains_key(k) && k >= bound,
{
    let all = bytes.iter();
    let ghost s = all.remaining();
    proof {
        assert(increasing_seq(s.map_values(|kv: (&u32, &u8)| *kv.0)));
    }
    for kv in it: all
        invariant
            s == it.seq(),
            s.len() == bytes@.dom().len(),
            forall|j: int| 0 <= j < s.len() ==> #[trigger] bytes@.contains_key(*s[j].0),
            forall|j: int| 0 <= j < it.index() ==> *(#[trigger] it.seq()[j]).0 < bound,
    {
        if *kv.0 >= bound {
            proof {
                assert(bytes@.contains_key(*s[it.index() as int].0));
            }
            return true;
        }
    }
    proof {
        assert forall|k: u32| #[trigger] bytes@.contains_key(k) implies k < bound by {
            assert(s.contains((&k, &bytes@[k])));
            let i = choose|i: int| 0 <= i < s.len() && s[i] == (&k, &bytes@[k]);
            assert(*s[i].0 < bound);
        }
    }
    false
}

} // verus!
