//! Stable sorting by insertion, as a definition.

use vstd::prelude::*;

verus! {

/// `x` put behind every trailing run of items that must come after it.
pub open spec fn inserted<T>(sorted: Seq<T>, x: T, le: spec_fn(T, T) -> bool) -> Seq<T>
    decreases sorted.len(),
{
    if sorted.len() == 0 || le(sorted.last(), x) {
        sorted.push(x)
    } else {
        inserted(sorted.drop_last(), x, le).push(sorted.last())
    }
}

/// The items in order; items that compare alike keep their order.
pub open spec fn stably_sorted<T>(items: Seq<T>, le: spec_fn(T, T) -> bool) -> Seq<T>
    decreases items.len(),
{
    if items.len() == 0 {
        items
    } else {
        inserted(stably_sorted(items.drop_last(), le), items.last(), le)
    }
}

/// Each item may stand before every later one.
pub open spec fn in_order<T>(items: Seq<T>, le: spec_fn(T, T) -> bool) -> bool {
    forall|i: int, j: int| 0 <= i < j < items.len() ==> le(#[trigger] items[i], #[trigger] items[j])
}

/// Any two items can be ordered, and order carries over.
pub open spec fn total_order<T>(le: spec_fn(T, T) -> bool) -> bool {
    &&& forall|a: T, b: T| #[trigger] le(a, b) || le(b, a)
    &&& forall|a: T, b: T, c: T| #[trigger] le(a, b) && #[trigger] le(b, c) ==> le(a, c)
}

/// Where the insertion puts the item: the position with nothing behind it that
/// may stand before it.
pub proof fn lemma_inserted_at<T>(sorted: Seq<T>, x: T, le: spec_fn(T, T) -> bool, at: int)
    requires
        0 <= at <= sorted.len(),
        at > 0 ==> le(sorted[at - 1], x),
        forall|i: int| at <= i < sorted.len() ==> !le(#[trigger] sorted[i], x),
    ensures
        inserted(sorted, x, le) == sorted.insert(at, x),
    decreases sorted.len(),
{
    if at == sorted.len() {
        assert(sorted.insert(at, x) =~= sorted.push(x));
    } else {
        let init = sorted.drop_last();
        assert forall|i: int| at <= i < init.len() implies !le(#[trigger] init[i], x) by {
            assert(init[i] == sorted[i]);
        }
        assert(!le(sorted[sorted.len() - 1], x));
        lemma_inserted_at(init, x, le, at);
        assert(sorted.insert(at, x) =~= init.insert(at, x).push(sorted.last()));
    }
}

/// Sorting leaves sorted items as they are.
pub proof fn lemma_sorted_stays<T>(items: Seq<T>, le: spec_fn(T, T) -> bool)
    requires
        in_order(items, le),
    ensures
        stably_sorted(items, le) == items,
    decreases items.len(),
{
    if items.len() > 0 {
        let init = items.drop_last();
        assert forall|i: int, j: int| 0 <= i < j < init.len() implies le(
            #[trigger] init[i],
            #[trigger] init[j],
        ) by {
            assert(init[i] == items[i] && init[j] == items[j]);
        }
        lemma_sorted_stays(init, le);
        if init.len() > 0 {
            assert(le(items[items.len() - 2], items[items.len() - 1]));
        }
        assert(init.push(items.last()) =~= items);
    }
}

/// Insertion keeps the items and adds the new one.
pub proof fn lemma_inserted_items<T>(sorted: Seq<T>, x: T, le: spec_fn(T, T) -> bool)
    ensures
        inserted(sorted, x, le).to_multiset() == sorted.to_multiset().insert(x),
        inserted(sorted, x, le).len() == sorted.len() + 1,
    decreases sorted.len(),
{
    broadcast use vstd::seq_lib::group_to_multiset_ensures;

    if sorted.len() == 0 || le(sorted.last(), x) {
    } else {
        lemma_inserted_items(sorted.drop_last(), x, le);
        assert(sorted =~= sorted.drop_last().push(sorted.last()));
        assert(inserted(sorted, x, le).to_multiset() =~= sorted.to_multiset().insert(x));
    }
}

/// Sorting keeps the items, each as often as it occurs.
pub proof fn law_sort_keeps_items<T>(items: Seq<T>, le: spec_fn(T, T) -> bool)
    ensures
        stably_sorted(items, le).to_multiset() == items.to_multiset(),
        stably_sorted(items, le).len() == items.len(),
    decreases items.len(),
{
    broadcast use vstd::seq_lib::group_to_multiset_ensures;

    if items.len() > 0 {
        law_sort_keeps_items(items.drop_last(), le);
        lemma_inserted_items(stably_sorted(items.drop_last(), le), items.last(), le);
        assert(items =~= items.drop_last().push(items.last()));
    }
}

/// Insertion into a sorted list leaves it sorted.
proof fn lemma_inserted_in_order<T>(sorted: Seq<T>, x: T, le: spec_fn(T, T) -> bool)
    requires
        total_order(le),
        in_order(sorted, le),
    ensures
        in_order(inserted(sorted, x, le), le),
        forall|i: int|
            0 <= i < inserted(sorted, x, le).len() ==> (#[trigger] inserted(sorted, x, le)[i] == x)
                || sorted.contains(inserted(sorted, x, le)[i]),
    decreases sorted.len(),
{
    let out = inserted(sorted, x, le);
    if sorted.len() == 0 || le(sorted.last(), x) {
        assert forall|i: int, j: int| 0 <= i < j < out.len() implies le(
            #[trigger] out[i],
            #[trigger] out[j],
        ) by {
            if j == sorted.len() && i < sorted.len() - 1 {
                assert(le(sorted[i], sorted[sorted.len() - 1]));
            }
        }
        assert forall|i: int| 0 <= i < out.len() implies (#[trigger] out[i] == x)
            || sorted.contains(out[i]) by {
            if i < sorted.len() {
                assert(out[i] == sorted[i]);
            }
        }
    } else {
        let init = sorted.drop_last();
        lemma_inserted_in_order(init, x, le);
        let rest = inserted(init, x, le);
        assert forall|i: int, j: int| 0 <= i < j < out.len() implies le(
            #[trigger] out[i],
            #[trigger] out[j],
        ) by {
            if j == rest.len() {
                assert(out[i] == rest[i]);
                if rest[i] != x {
                    assert(init.contains(rest[i]));
                    let k = choose|k: int| 0 <= k < init.len() && init[k] == rest[i];
                    assert(le(sorted[k], sorted[sorted.len() - 1]));
                } else {
                    assert(le(sorted.last(), x) || le(x, sorted.last()));
                }
            } else {
                assert(out[i] == rest[i] && out[j] == rest[j]);
            }
        }
        assert forall|i: int| 0 <= i < out.len() implies (#[trigger] out[i] == x)
            || sorted.contains(out[i]) by {
            if i < rest.len() {
                assert(out[i] == rest[i]);
                if rest[i] != x {
                    let k = choose|k: int| 0 <= k < init.len() && init[k] == rest[i];
                    assert(sorted[k] == rest[i]);
                }
            } else {
                assert(out[i] == sorted[sorted.len() - 1]);
            }
        }
    }
}

/// Sorting sorts.
pub proof fn law_sort_is_in_order<T>(items: Seq<T>, le: spec_fn(T, T) -> bool)
    requires
        total_order(le),
    ensures
        in_order(stably_sorted(items, le), le),
    decreases items.len(),
{
    if items.len() > 0 {
        law_sort_is_in_order(items.drop_last(), le);
        lemma_inserted_in_order(stably_sorted(items.drop_last(), le), items.last(), le);
    }
}

/// Sorting is stable: of the items that compare alike with any one, the order is
/// that in which they came.
pub proof fn law_sort_is_stable<T>(items: Seq<T>, le: spec_fn(T, T) -> bool, pivot: T)
    requires
        total_order(le),
    ensures
        stably_sorted(items, le).filter(|y: T| le(pivot, y) && le(y, pivot)) == items.filter(
            |y: T| le(pivot, y) && le(y, pivot),
        ),
    decreases items.len(),
{
    let alike = |y: T| le(pivot, y) && le(y, pivot);
    reveal(Seq::filter);
    if items.len() > 0 {
        law_sort_is_stable(items.drop_last(), le, pivot);
        lemma_inserted_filter(stably_sorted(items.drop_last(), le), items.last(), le, pivot);
    }
}

proof fn lemma_inserted_filter<T>(sorted: Seq<T>, x: T, le: spec_fn(T, T) -> bool, pivot: T)
    requires
        total_order(le),
    ensures
        inserted(sorted, x, le).filter(|y: T| le(pivot, y) && le(y, pivot)) == if le(pivot, x)
            && le(x, pivot) {
            sorted.filter(|y: T| le(pivot, y) && le(y, pivot)).push(x)
        } else {
            sorted.filter(|y: T| le(pivot, y) && le(y, pivot))
        },
    decreases sorted.len(),
{
    let alike = |y: T| le(pivot, y) && le(y, pivot);
    reveal(Seq::filter);
    if sorted.len() == 0 || le(sorted.last(), x) {
        assert(sorted.push(x).drop_last() =~= sorted);
    } else {
        let init = sorted.drop_last();
        let rest = inserted(init, x, le);
        lemma_inserted_filter(init, x, le, pivot);
        assert(rest.push(sorted.last()).drop_last() =~= rest);
        if alike(x) && alike(sorted.last()) {
            assert(le(sorted.last(), pivot) && le(pivot, x));
        }
    }
}

} // verus!
