//! Ordering items by integer keys that carry each item's position.

use vstd::prelude::*;
use crate::trusted::{key_le, sort_keys};

verus! {

broadcast use vstd::seq_lib::group_to_multiset_ensures;

/// A sort key: three ordering components and, last, the position of the item it stands for.
pub type SortKey = (u64, i64, u64, u64);

/// `a` comes strictly before `b`.
pub open spec fn key_lt(a: SortKey, b: SortKey) -> bool {
    key_le(a, b) && a != b
}

/// The keys carry their own positions as last component.
pub open spec fn indexed(keys: Seq<SortKey>) -> bool {
    forall|i: int| 0 <= i < keys.len() ==> #[trigger] keys[i].3 == i
}

/// `order` lists every key of `keys` once, in strictly ascending order.
pub open spec fn sorted_order_of(order: Seq<SortKey>, keys: Seq<SortKey>) -> bool {
    &&& order.len() == keys.len()
    &&& forall|p: int|
        0 <= p < order.len() ==> (#[trigger] order[p]).3 < keys.len() && keys[order[p].3 as int]
            == order[p]
    &&& forall|p: int, q: int| 0 <= p < q < order.len() ==> key_lt(#[trigger] order[p], #[trigger] order[q])
    &&& forall|i: int| 0 <= i < keys.len() ==> order.contains(#[trigger] keys[i])
}

proof fn lemma_sorted_indexed(orig: Seq<SortKey>, sorted: Seq<SortKey>)
    requires
        indexed(orig),
        sorted.to_multiset() == orig.to_multiset(),
        forall|i: int, j: int| 0 <= i < j < sorted.len() ==> key_le(#[trigger] sorted[i], #[trigger] sorted[j]),
    ensures
        sorted_order_of(sorted, orig),
{
    assert(orig.no_duplicates()) by {
        assert forall|i: int, j: int| 0 <= i < orig.len() && 0 <= j < orig.len() && i != j
            implies orig[i] != orig[j] by {
            assert(orig[i].3 == i);
            assert(orig[j].3 == j);
        }
    }
    orig.lemma_multiset_has_no_duplicates();
    assert(sorted.len() == orig.len()) by {
        assert(sorted.len() == sorted.to_multiset().len());
        assert(orig.len() == orig.to_multiset().len());
    }
    assert forall|p: int| 0 <= p < sorted.len() implies (#[trigger] sorted[p]).3 < orig.len()
        && orig[sorted[p].3 as int] == sorted[p] by {
        let x = sorted[p];
        assert(sorted.contains(x));
        assert(sorted.to_multiset().count(x) > 0);
        assert(orig.to_multiset().count(x) > 0);
        assert(orig.contains(x));
        let i = choose|i: int| 0 <= i < orig.len() && orig[i] == x;
        assert(orig[i].3 == i);
    }
    assert(sorted.no_duplicates()) by {
        assert forall|x: SortKey| sorted.to_multiset().contains(x) implies sorted.to_multiset().count(x)
            == 1 by {
            assert(orig.to_multiset().contains(x));
        }
        sorted.lemma_multiset_has_no_duplicates_conv();
    }
    assert forall|p: int, q: int| 0 <= p < q < sorted.len() implies key_lt(
        #[trigger] sorted[p],
        #[trigger] sorted[q],
    ) by {
        assert(key_le(sorted[p], sorted[q]));
    }
    assert forall|i: int| 0 <= i < orig.len() implies sorted.contains(#[trigger] orig[i]) by {
        let x = orig[i];
        assert(orig.contains(x));
        assert(orig.to_multiset().count(x) > 0);
        assert(sorted.to_multiset().count(x) > 0);
    }
}

/// Sorts keys that carry their positions: the result lists each key once, ascending.
pub fn sort_indexed(keys: Vec<SortKey>) -> (r: Vec<SortKey>)
    requires
        indexed(keys@),
    ensures
        sorted_order_of(r@, keys@),
{
    let ghost orig = keys@;
    let mut v = keys;
    sort_keys(&mut v);
    proof {
        lemma_sorted_indexed(orig, v@);
    }
    v
}

} // verus!
