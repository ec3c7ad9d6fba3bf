//! Sums over lists, in which the order does not matter.

use vstd::prelude::*;

verus! {

/// The sum of the weights of items.
pub open spec fn weight_sum<T>(items: Seq<T>, weight: spec_fn(T) -> int) -> int
    decreases items.len(),
{
    if items.len() == 0 {
        0
    } else {
        weight_sum(items.drop_last(), weight) + weight(items.last())
    }
}

/// An item adds its weight, wherever it stands.
pub proof fn weight_of_one<T>(items: Seq<T>, i: int, weight: spec_fn(T) -> int)
    requires
        0 <= i < items.len(),
    ensures
        weight_sum(items, weight) == weight_sum(items.remove(i), weight) + weight(items[i]),
    decreases items.len(),
{
    if i == items.len() - 1 {
        assert(items.remove(i) =~= items.drop_last());
    } else {
        assert(items.remove(i).drop_last() =~= items.drop_last().remove(i));
        assert(items.remove(i).last() == items.last());
        weight_of_one(items.drop_last(), i, weight);
    }
}

/// Items weigh the same in any order.
pub proof fn order_does_not_matter<T>(a: Seq<T>, b: Seq<T>, weight: spec_fn(T) -> int)
    requires
        a.to_multiset() == b.to_multiset(),
    ensures
        weight_sum(a, weight) == weight_sum(b, weight),
    decreases a.len(),
{
    broadcast use vstd::seq_lib::group_to_multiset_ensures;

    a.to_multiset_ensures();
    b.to_multiset_ensures();
    if a.len() > 0 {
        let x = a.last();
        assert(a.contains(x));
        assert(a.to_multiset().count(x) > 0);
        assert(b.contains(x));
        let i = choose|i: int| 0 <= i < b.len() && b[i] == x;
        weight_of_one(b, i, weight);
        assert(a.drop_last().push(x) =~= a);
        assert(a.drop_last().to_multiset() =~= a.to_multiset().remove(x));
        assert(b.remove(i).to_multiset() =~= b.to_multiset().remove(x));
        order_does_not_matter(a.drop_last(), b.remove(i), weight);
    }
}

} // verus!
