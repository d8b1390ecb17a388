//! Putting things in order.

use vstd::prelude::*;

verus! {

/// Something that is ordered by a whole number.
pub trait Keyed: Sized {
    /// The number.
    spec fn key_of(&self) -> int;

    /// The number.
    fn key(&self) -> (key: i64)
        ensures
            key == self.key_of(),
    ;
}

/// Every key is no greater than those after it.
pub open spec fn in_order<T: Keyed>(items: Seq<T>) -> bool {
    forall|i: int, j: int|
        0 <= i < j < items.len() ==> (#[trigger] items[i]).key_of() <= (
        #[trigger] items[j]).key_of()
}

/// Puts items in order of their keys. Which of two items with one key comes first is not said.
pub fn sort_by_key<T: Keyed>(items: &mut Vec<T>)
    ensures
        in_order(final(items)@),
        final(items)@.to_multiset() == old(items)@.to_multiset(),
        final(items)@.len() == old(items)@.len(),
{
    let mut sorted: usize = 0;
    while sorted < items.len()
        invariant
            sorted <= items@.len(),
            items@.len() == old(items)@.len(),
            items@.to_multiset() == old(items)@.to_multiset(),
            in_order(items@.take(sorted as int)),
        decreases items@.len() - sorted,
    {
        let ghost before = items@;
        let item: T = items.remove(sorted);
        let ghost without = items@;
        let key: i64 = item.key();
        let mut at: usize = 0;
        while at < sorted && items[at].key() <= key
            invariant
                at <= sorted <= items@.len(),
                items@ == without,
                key == item.key_of(),
                forall|j: int| 0 <= j < at ==> (#[trigger] items@[j]).key_of() <= key,
            decreases sorted - at,
        {
            at += 1;
        }
        items.insert(at, item);
        proof {
            broadcast use vstd::seq_lib::group_to_multiset_ensures;

            assert(without == before.remove(sorted as int));
            assert(items@ == without.insert(at as int, item));
            assert(items@.to_multiset() =~= before.to_multiset());
            let head = before.take(sorted as int);
            let next = items@.take(sorted + 1);
            assert forall|i: int, j: int| 0 <= i < j < next.len() implies (
            #[trigger] next[i]).key_of() <= (#[trigger] next[j]).key_of() by {
                assert(forall|k: int| 0 <= k < sorted ==> without[k] == head[k]);
                let oi = if i < at { i } else { i - 1 };
                let oj = if j < at { j } else { j - 1 };
                if i == at {
                    assert(next[j] == head[j - 1]);
                    if at < sorted {
                        assert(head[at as int] == without[at as int]);
                        assert(head[at as int].key_of() <= head[j - 1].key_of());
                    }
                } else if j == at {
                    assert(next[i] == without[i]);
                } else {
                    assert(next[i] == head[oi]);
                    assert(next[j] == head[oj]);
                }
            }
        }
        sorted += 1;
    }
    assert(items@.take(items@.len() as int) =~= items@);
}

} // verus!
