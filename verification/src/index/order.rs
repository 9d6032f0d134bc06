//! Stable ordering.
use vstd::prelude::*;

verus! {

/// A list with one more item, put behind the last item that is not greater.
pub open spec fn placed<T>(list: Seq<T>, item: T, less: spec_fn(T, T) -> bool) -> Seq<T>
    decreases list.len(),
{
    if list.len() > 0 && less(item, list.last()) {
        placed(list.drop_last(), item, less).push(list.last())
    } else {
        list.push(item)
    }
}

/// The items in order; items of which neither is less keep their places.
pub open spec fn in_order<T>(items: Seq<T>, less: spec_fn(T, T) -> bool) -> Seq<T>
    decreases items.len(),
{
    if items.len() == 0 {
        Seq::empty()
    } else {
        placed(in_order(items.drop_last(), less), items.last(), less)
    }
}

/// Placing an item is inserting it behind the last item that is not greater.
pub proof fn lemma_placed_at<T>(list: Seq<T>, item: T, less: spec_fn(T, T) -> bool, at: int)
    requires
        0 <= at <= list.len(),
        at > 0 ==> !less(item, list[at - 1]),
        forall|k: int| at <= k < list.len() ==> less(item, #[trigger] list[k]),
    ensures
        placed(list, item, less) == list.insert(at, item),
    decreases list.len(),
{
    if at < list.len() {
        assert(less(item, list[list.len() - 1]));
        lemma_placed_at(list.drop_last(), item, less, at);
        assert(list.drop_last().insert(at, item).push(list.last()) =~= list.insert(at, item));
    } else {
        assert(list.insert(at, item) =~= list.push(item));
    }
}

/// Whether no item is less than one before it.
pub open spec fn ascending<T>(list: Seq<T>, less: spec_fn(T, T) -> bool) -> bool {
    forall|i: int, j: int| 0 <= i < j < list.len() ==> !less(#[trigger] list[j], #[trigger] list[i])
}

/// Whether a relation orders items: it is transitive, no two items are each
/// less than the other, and being neither less nor greater is transitive too.
pub open spec fn orders<T>(less: spec_fn(T, T) -> bool) -> bool {
    &&& forall|a: T, b: T| #[trigger] less(a, b) ==> !less(b, a)
    &&& forall|a: T, b: T, c: T|
        !(#[trigger] less(b, a)) && !(#[trigger] less(c, b)) ==> !less(c, a)
}

/// Placing an item keeps a list ascending and adds just that item.
pub proof fn lemma_placed<T>(list: Seq<T>, item: T, less: spec_fn(T, T) -> bool)
    requires
        orders(less),
        ascending(list, less),
    ensures
        ascending(placed(list, item, less), less),
        placed(list, item, less).to_multiset() == list.to_multiset().insert(item),
    decreases list.len(),
{
    broadcast use vstd::seq_lib::group_to_multiset_ensures;

    if list.len() > 0 && less(item, list.last()) {
        let short = list.drop_last();
        let shorter = placed(short, item, less);
        assert(ascending(short, less));
        lemma_placed(short, item, less);
        let r = shorter.push(list.last());
        assert(list =~= short.push(list.last()));
        assert(r.to_multiset() =~= list.to_multiset().insert(item));
        assert forall|i: int, j: int| 0 <= i < j < r.len() implies !less(
            #[trigger] r[j],
            #[trigger] r[i],
        ) by {
            if j < shorter.len() {
                assert(r[i] == shorter[i] && r[j] == shorter[j]);
            } else {
                assert(r[i] == shorter[i]);
                assert(shorter.to_multiset().count(shorter[i]) > 0) by {
                    assert(shorter.contains(shorter[i]));
                }
                if shorter[i] != item {
                    assert(short.to_multiset().count(shorter[i]) > 0);
                    assert(short.contains(shorter[i]));
                    let k = choose|k: int| 0 <= k < short.len() && short[k] == shorter[i];
                    assert(list[k] == shorter[i] && list[list.len() - 1] == list.last());
                }
            }
        }
    } else {
        let r = list.push(item);
        assert forall|i: int, j: int| 0 <= i < j < r.len() implies !less(
            #[trigger] r[j],
            #[trigger] r[i],
        ) by {
            if j == list.len() && i < list.len() - 1 {
                assert(!less(list[list.len() - 1], list[i]));
                assert(!less(item, list.last()));
            }
        }
    }
}

/// Ordering gives an ascending list of the same items.
pub proof fn lemma_in_order<T>(items: Seq<T>, less: spec_fn(T, T) -> bool)
    requires
        orders(less),
    ensures
        ascending(in_order(items, less), less),
        in_order(items, less).to_multiset() == items.to_multiset(),
    decreases items.len(),
{
    broadcast use vstd::seq_lib::group_to_multiset_ensures;

    if items.len() > 0 {
        lemma_in_order(items.drop_last(), less);
        lemma_placed(in_order(items.drop_last(), less), items.last(), less);
        assert(items =~= items.drop_last().push(items.last()));
    }
}

} // verus!
