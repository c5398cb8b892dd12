//! Ascending sort of `u16` lists.

use vstd::prelude::*;
use vstd::relations::{sorted_by, total_ordering};

verus! {

broadcast use vstd::seq_lib::group_to_multiset_ensures;

/// Numeric order on `u16`.
pub open spec fn u16_leq() -> spec_fn(u16, u16) -> bool {
    |a: u16, b: u16| a <= b
}

/// `s` in ascending order.
pub open spec fn sorted_u16(s: Seq<u16>) -> Seq<u16> {
    s.sort_by(u16_leq())
}

proof fn lemma_u16_leq_total()
    ensures
        total_ordering(u16_leq()),
{
}

/// Sorting ascending keeps the elements and orders them.
pub proof fn lemma_sorted_u16(s: Seq<u16>)
    ensures
        sorted_by(sorted_u16(s), u16_leq()),
        sorted_u16(s).to_multiset() == s.to_multiset(),
        sorted_u16(s).len() == s.len(),
{
    lemma_u16_leq_total();
    s.lemma_sort_by_ensures(u16_leq());
    vstd::seq_lib::to_multiset_len(s);
    vstd::seq_lib::to_multiset_len(sorted_u16(s));
}

/// Sorting ascending depends only on which values occur how often: two
/// lists with the same elements sort to the same list.
pub proof fn lemma_sorted_u16_by_multiset(a: Seq<u16>, b: Seq<u16>)
    requires
        a.to_multiset() == b.to_multiset(),
    ensures
        sorted_u16(a) == sorted_u16(b),
{
    lemma_sorted_u16(a);
    lemma_sorted_u16(b);
    lemma_u16_leq_total();
    vstd::seq_lib::lemma_sorted_unique(sorted_u16(a), sorted_u16(b), u16_leq());
}

/// The values of `v` in ascending order.
pub fn sort_u16(v: &Vec<u16>) -> (res: Vec<u16>)
    ensures
        res@ == sorted_u16(v@),
{
    let mut out: Vec<u16> = Vec::new();
    let mut i: usize = 0;
    while i < v.len()
        invariant
            i <= v@.len(),
            sorted_by(out@, u16_leq()),
            out@.to_multiset() == v@.take(i as int).to_multiset(),
        decreases v.len() - i,
    {
        let x = v[i];
        let mut pos: usize = 0;
        while pos < out.len() && out[pos] <= x
            invariant
                pos <= out@.len(),
                forall|k: int| 0 <= k < pos ==> out@[k] <= x,
            decreases out.len() - pos,
        {
            pos += 1;
        }
        let ghost before = out@;
        out.insert(pos, x);
        proof {
            assert(out@ == before.insert(pos as int, x));
            vstd::seq_lib::to_multiset_insert(before, pos as int, x);
            assert(v@.take(i + 1) =~= v@.take(i as int).push(x));
            assert forall|a: int, b: int| 0 <= a < b < out@.len() implies #[trigger] (u16_leq())(out@[a], out@[b]) by {
                if b < pos {
                } else if b == pos {
                } else if a < pos {
                    assert(out@[a] <= x);
                    if pos < before.len() {
                        assert((u16_leq())(before[a], before[pos as int]));
                    }
                } else if a == pos {
                    assert(!(before[pos as int] <= x) || pos == before.len());
                    assert((u16_leq())(before[pos as int], before[b - 1]) || b - 1 == pos);
                } else {
                    assert((u16_leq())(before[a - 1], before[b - 1]));
                }
            }
        }
        i += 1;
    }
    proof {
        assert(v@.take(v@.len() as int) =~= v@);
        lemma_sorted_u16(v@);
        lemma_u16_leq_total();
        vstd::seq_lib::lemma_sorted_unique(out@, sorted_u16(v@), u16_leq());
    }
    out
}

} // verus!
