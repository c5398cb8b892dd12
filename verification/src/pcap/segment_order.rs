//! The sequence numbers of a flow's segments, in increasing order, read
//! from the flow's `BTreeMap`.

use std::collections::BTreeMap;
use vstd::prelude::*;
use vstd::std_specs::cmp::OrdSpec;
use vstd::std_specs::iter::IteratorSpec;
use crate::pcap::reassembly::strictly_sorted;

verus! {

broadcast use vstd::std_specs::btree::group_btree_axioms;

/// A `BTreeMap` walks its keys in increasing order, each key once.
proof fn lemma_keys_iter_sorted(m: &BTreeMap<u32, Vec<u8>>)
    ensures
        forall|i: int, j: int|
            0 <= i < j < vstd::std_specs::btree::spec_keys_iter(m).remaining().len() ==> *vstd::std_specs::btree::spec_keys_iter(m).remaining()[i]
                < *vstd::std_specs::btree::spec_keys_iter(m).remaining()[j],
        vstd::std_specs::btree::spec_keys_iter(m).remaining().unref().to_set() == m@.dom(),
{
    let r = vstd::std_specs::btree::spec_keys_iter(m).remaining();
    vstd::std_specs::btree::axiom_spec_keys_iter(m);
    assert(vstd::std_specs::btree::increasing_seq(r));
    assert(vstd::laws_cmp::obeys_cmp::<&u32>());
    vstd::std_specs::btree::axiom_increasing_seq_meaning::<&u32>(r);
    assert forall|i: int, j: int| 0 <= i < j < r.len() implies *r[i] < *r[j] by {
        assert(OrdSpec::cmp_spec(&r[i], &r[j]) is Less);
    }
}

/// The sequence numbers held in `m`, in increasing order.
pub fn sorted_seg_keys(m: &BTreeMap<u32, Vec<u8>>) -> (ks: Vec<u32>)
    ensures
        strictly_sorted(ks@),
        forall|k: u32| ks@.contains(k) <==> m@.contains_key(k),
{
    let ghost r = vstd::std_specs::btree::spec_keys_iter(m).remaining();
    let mut ks: Vec<u32> = Vec::new();
    for k in it: m.keys()
        invariant
            it.seq() == r,
            ks@ == it.seq().take(it.index() as int).map_values(|x: &u32| *x),
        ensures
            ks@ == r.map_values(|x: &u32| *x),
    {
        ks.push(*k);
        assert(ks@ =~= it.seq().take(it.index() + 1).map_values(|x: &u32| *x));
    }
    proof {
        lemma_keys_iter_sorted(m);
        assert(ks@ =~= r.unref());
        assert forall|k: u32| ks@.contains(k) <==> m@.contains_key(k) by {
            assert(r.unref().to_set().contains(k) <==> r.unref().contains(k));
        }
    }
    ks
}

} // verus!
