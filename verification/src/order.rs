//! Stable sorting.

use vstd::prelude::*;

verus! {

/// A way to put items in order.
pub trait Order<T> {
    /// `left` may stand before `right`.
    spec fn precedes(&self, left: &T, right: &T) -> bool;

    fn stands_before(&self, left: &T, right: &T) -> (result: bool)
        ensures
            result == self.precedes(left, right),
    ;
}

/// The items with one more, behind all that may stand before it at the end.
pub open spec fn inserted<V>(items: Seq<V>, item: V, precedes: spec_fn(V, V) -> bool) -> Seq<V>
    decreases items.len(),
{
    if items.len() == 0 || precedes(items.last(), item) {
        items.push(item)
    } else {
        inserted(items.drop_last(), item, precedes).push(items.last())
    }
}

/// The items in order; those that may stand either way keep their order.
pub open spec fn sorted_by<V>(items: Seq<V>, precedes: spec_fn(V, V) -> bool) -> Seq<V>
    decreases items.len(),
{
    if items.len() == 0 {
        items
    } else {
        inserted(sorted_by(items.drop_last(), precedes), items.last(), precedes)
    }
}

/// Each item may stand before every later one.
pub open spec fn in_order<V>(items: Seq<V>, precedes: spec_fn(V, V) -> bool) -> bool {
    forall|i: int, j: int| 0 <= i < j < items.len() ==> #[trigger] precedes(items[i], items[j])
}

/// Any two items can be put in order, and the order carries over.
pub open spec fn total_order<V>(precedes: spec_fn(V, V) -> bool) -> bool {
    &&& forall|a: V, b: V| #[trigger] precedes(a, b) || precedes(b, a)
    &&& forall|a: V, b: V, c: V|
        #[trigger] precedes(a, b) && #[trigger] precedes(b, c) ==> precedes(a, c)
}

pub proof fn lemma_inserted<V>(items: Seq<V>, item: V, precedes: spec_fn(V, V) -> bool)
    ensures
        inserted(items, item, precedes).len() == items.len() + 1,
        inserted(items, item, precedes).to_multiset() == items.to_multiset().insert(item),
        total_order(precedes) && in_order(items, precedes) ==> in_order(
            inserted(items, item, precedes),
            precedes,
        ),
        forall|i: int|
            0 <= i <= items.len() ==> (#[trigger] inserted(items, item, precedes)[i] == item
                || items.contains(inserted(items, item, precedes)[i])),
    decreases items.len(),
{
    broadcast use vstd::seq_lib::group_to_multiset_ensures;

    if items.len() == 0 || precedes(items.last(), item) {
        let after = items.push(item);
        assert forall|i: int| 0 <= i <= items.len() implies (#[trigger] after[i] == item
            || items.contains(after[i])) by {
            if i < items.len() {
                assert(items.contains(items[i]));
            }
        }
        if total_order(precedes) && in_order(items, precedes) {
            assert forall|i: int, j: int| 0 <= i < j < after.len() implies #[trigger] precedes(
                after[i],
                after[j],
            ) by {
                if j == items.len() && i < items.len() - 1 {
                    assert(precedes(items[i], items[items.len() - 1]));
                    assert(precedes(items.last(), item));
                }
            }
        }
    } else {
        let shorter = items.drop_last();
        lemma_inserted(shorter, item, precedes);
        let inner = inserted(shorter, item, precedes);
        let after = inner.push(items.last());
        assert(items =~= shorter.push(items.last()));
        assert(after.to_multiset() =~= items.to_multiset().insert(item));
        assert forall|i: int| 0 <= i <= items.len() implies (#[trigger] after[i] == item
            || items.contains(after[i])) by {
            if i < shorter.len() + 1 {
                assert(inner[i] == item || shorter.contains(inner[i]));
                if shorter.contains(inner[i]) {
                    let k = choose|k: int| 0 <= k < shorter.len() && shorter[k] == inner[i];
                    assert(items[k] == inner[i]);
                }
            } else {
                assert(items[items.len() - 1] == after[i]);
            }
        }
        if total_order(precedes) && in_order(items, precedes) {
            assert(in_order(shorter, precedes)) by {
                assert forall|i: int, j: int| 0 <= i < j < shorter.len() implies #[trigger] precedes(
                    shorter[i],
                    shorter[j],
                ) by {
                    assert(precedes(items[i], items[j]));
                }
            }
            assert(precedes(item, items.last()));
            assert forall|i: int, j: int| 0 <= i < j < after.len() implies #[trigger] precedes(
                after[i],
                after[j],
            ) by {
                if j < inner.len() {
                    assert(precedes(inner[i], inner[j]));
                } else {
                    assert(inner[i] == item || shorter.contains(inner[i]));
                    if shorter.contains(inner[i]) {
                        let k = choose|k: int| 0 <= k < shorter.len() && shorter[k] == inner[i];
                        assert(precedes(items[k], items[items.len() - 1]));
                    }
                }
            }
        }
    }
}

/// Sorting keeps the items, with their counts, and puts them in order.
pub proof fn law_sorting<V>(items: Seq<V>, precedes: spec_fn(V, V) -> bool)
    ensures
        sorted_by(items, precedes).len() == items.len(),
        sorted_by(items, precedes).to_multiset() == items.to_multiset(),
        total_order(precedes) ==> in_order(sorted_by(items, precedes), precedes),
    decreases items.len(),
{
    broadcast use vstd::seq_lib::group_to_multiset_ensures;

    if items.len() > 0 {
        let before = items.drop_last();
        law_sorting(before, precedes);
        lemma_inserted(sorted_by(before, precedes), items.last(), precedes);
        assert(items =~= before.push(items.last()));
    }
}

/// Sorting neither adds nor removes an item.
pub proof fn lemma_sorting_keeps_items<V>(items: Seq<V>, precedes: spec_fn(V, V) -> bool)
    ensures
        sorted_by(items, precedes).len() == items.len(),
        forall|item: V|
            items.contains(item) == #[trigger] sorted_by(items, precedes).contains(item),
{
    broadcast use vstd::seq_lib::group_to_multiset_ensures;

    law_sorting(items, precedes);
    let sorted = sorted_by(items, precedes);
    assert forall|item: V| items.contains(item) == #[trigger] sorted.contains(item) by {
        assert(items.contains(item) == (items.to_multiset().count(item) > 0));
        assert(sorted.contains(item) == (sorted.to_multiset().count(item) > 0));
    }
}

/// Sorting leaves items that are in order as they are.
pub proof fn lemma_sorted_stays<V>(items: Seq<V>, precedes: spec_fn(V, V) -> bool)
    requires
        in_order(items, precedes),
    ensures
        sorted_by(items, precedes) == items,
    decreases items.len(),
{
    if items.len() > 0 {
        let before = items.drop_last();
        assert forall|i: int, j: int| 0 <= i < j < before.len() implies #[trigger] precedes(
            before[i],
            before[j],
        ) by {
            assert(precedes(items[i], items[j]));
        }
        lemma_sorted_stays(before, precedes);
        if before.len() > 0 {
            assert(precedes(items[before.len() - 1], items[items.len() - 1]));
        }
        assert(before.push(items.last()) =~= items);
    }
}

/// Sorting what the items show is what the sorted items show, where the order
/// goes by what they show.
pub proof fn lemma_sorting_views<T, V>(
    items: Seq<T>,
    precedes: spec_fn(T, T) -> bool,
    view: spec_fn(T) -> V,
    shown: spec_fn(V, V) -> bool,
)
    requires
        forall|a: T, b: T| #[trigger] precedes(a, b) == shown(view(a), view(b)),
    ensures
        sorted_by(items, precedes).map_values(view) == sorted_by(items.map_values(view), shown),
    decreases items.len(),
{
    if items.len() > 0 {
        let before = items.drop_last();
        lemma_sorting_views(before, precedes, view, shown);
        lemma_inserting_views(
            sorted_by(before, precedes),
            items.last(),
            precedes,
            view,
            shown,
        );
        assert(items.map_values(view).drop_last() =~= before.map_values(view));
    } else {
        assert(items.map_values(view) =~= Seq::<V>::empty());
        assert(sorted_by(items, precedes).map_values(view) =~= Seq::<V>::empty());
    }
}

proof fn lemma_inserting_views<T, V>(
    items: Seq<T>,
    item: T,
    precedes: spec_fn(T, T) -> bool,
    view: spec_fn(T) -> V,
    shown: spec_fn(V, V) -> bool,
)
    requires
        forall|a: T, b: T| #[trigger] precedes(a, b) == shown(view(a), view(b)),
    ensures
        inserted(items, item, precedes).map_values(view) == inserted(
            items.map_values(view),
            view(item),
            shown,
        ),
    decreases items.len(),
{
    if items.len() == 0 || precedes(items.last(), item) {
        assert(items.push(item).map_values(view) =~= items.map_values(view).push(view(item)));
    } else {
        lemma_inserting_views(items.drop_last(), item, precedes, view, shown);
        let inner = inserted(items.drop_last(), item, precedes);
        assert(items.map_values(view).drop_last() =~= items.drop_last().map_values(view));
        assert(inner.push(items.last()).map_values(view) =~= inner.map_values(view).push(
            view(items.last()),
        ));
    }
}

/// An order as a function.
pub open spec fn order_of<T, O: Order<T>>(order: &O) -> spec_fn(T, T) -> bool {
    |a: T, b: T| order.precedes(&a, &b)
}

proof fn lemma_inserted_at<V>(
    items: Seq<V>,
    item: V,
    precedes: spec_fn(V, V) -> bool,
    position: int,
)
    requires
        0 <= position <= items.len(),
        position == 0 || precedes(items[position - 1], item),
        forall|i: int| position <= i < items.len() ==> !#[trigger] precedes(items[i], item),
    ensures
        inserted(items, item, precedes) == items.insert(position, item),
    decreases items.len(),
{
    if items.len() == 0 || precedes(items.last(), item) {
        if position < items.len() {
            assert(!precedes(items[items.len() - 1], item));
        }
        assert(items.insert(position, item) =~= items.push(item));
    } else {
        lemma_inserted_at(items.drop_last(), item, precedes, position);
        assert(items.insert(position, item) =~= items.drop_last().insert(position, item).push(
            items.last(),
        ));
    }
}

/// Puts items in order; those that may stand either way keep their order.
pub fn stable_sort<T, O: Order<T>>(items: Vec<T>, order: &O) -> (result: Vec<T>)
    ensures
        result@ == sorted_by(items@, order_of::<T, O>(order)),
{
    let mut rest = items;
    let mut reversed: Vec<T> = Vec::new();
    let ghost all = rest@;
    while rest.len() > 0
        invariant
            rest@ == all.take(rest@.len() as int),
            rest@.len() <= all.len(),
            reversed@ == all.skip(rest@.len() as int).reverse(),
        decreases rest@.len(),
    {
        let ghost before = rest@;
        let item = rest.pop().unwrap();
        reversed.push(item);
        assert(rest@ =~= all.take(rest@.len() as int));
        assert(reversed@ =~= all.skip(rest@.len() as int).reverse());
    }
    assert(reversed@ =~= all.reverse());
    let mut sorted: Vec<T> = Vec::new();
    let ghost mut done: int = 0;
    assert(all.take(0) =~= Seq::<T>::empty());
    while reversed.len() > 0
        invariant
            0 <= done <= all.len(),
            reversed@ == all.skip(done).reverse(),
            sorted@ == sorted_by(all.take(done), order_of::<T, O>(order)),
            sorted@.len() == done,
        decreases reversed@.len(),
    {
        let item = reversed.pop().unwrap();
        let ghost before = sorted@;
        assert(item == all[done]);
        let mut position: usize = sorted.len();
        let mut searching = true;
        while searching && position > 0
            invariant
                position <= sorted@.len(),
                forall|i: int|
                    position <= i < sorted@.len() ==> !#[trigger] order_of::<T, O>(order)(
                        sorted@[i],
                        item,
                    ),
                !searching ==> position > 0 && order_of::<T, O>(order)(sorted@[position - 1], item),
            decreases position, searching as int,
        {
            if order.stands_before(&sorted[position - 1], &item) {
                searching = false;
            } else {
                position -= 1;
            }
        }
        proof {
            lemma_inserted_at(sorted@, item, order_of::<T, O>(order), position as int);
            assert(all.take(done + 1).drop_last() =~= all.take(done));
            lemma_inserted(before, item, order_of::<T, O>(order));
        }
        sorted.insert(position, item);
        proof {
            done = done + 1;
            assert(reversed@ =~= all.skip(done).reverse());
        }
    }
    assert(done == all.len()) by {
        assert(all.skip(done).reverse().len() == all.len() - done);
    }
    assert(all.take(done) =~= all);
    sorted
}

proof fn lemma_inserted_keeps_ties<V>(
    items: Seq<V>,
    item: V,
    precedes: spec_fn(V, V) -> bool,
    tied: spec_fn(V) -> bool,
)
    requires
        forall|a: V, b: V| tied(a) && tied(b) ==> #[trigger] precedes(a, b),
    ensures
        inserted(items, item, precedes).filter(tied) == items.push(item).filter(tied),
    decreases items.len(),
{
    reveal(Seq::filter);
    if items.len() == 0 || precedes(items.last(), item) {
    } else {
        let shorter = items.drop_last();
        lemma_inserted_keeps_ties(shorter, item, precedes, tied);
        let inner = inserted(shorter, item, precedes);
        assert(inner.push(items.last()).drop_last() =~= inner);
        assert(items.push(item).drop_last() =~= items);
        assert(shorter.push(item).drop_last() =~= shorter);
        assert(!(tied(items.last()) && tied(item)));
        let kept = shorter.filter(tied);
        assert(items.filter(tied) == if tied(items.last()) {
            kept.push(items.last())
        } else {
            kept
        });
        assert(shorter.push(item).filter(tied) == if tied(item) {
            kept.push(item)
        } else {
            kept
        });
    }
}

/// Items that may stand either way keep their order.
pub proof fn law_sorting_is_stable<V>(
    items: Seq<V>,
    precedes: spec_fn(V, V) -> bool,
    tied: spec_fn(V) -> bool,
)
    requires
        forall|a: V, b: V| tied(a) && tied(b) ==> #[trigger] precedes(a, b),
    ensures
        sorted_by(items, precedes).filter(tied) == items.filter(tied),
    decreases items.len(),
{
    reveal(Seq::filter);
    if items.len() > 0 {
        let before = items.drop_last();
        law_sorting_is_stable(before, precedes, tied);
        let sorted = sorted_by(before, precedes);
        lemma_inserted_keeps_ties(sorted, items.last(), precedes, tied);
        assert(sorted.push(items.last()).drop_last() =~= sorted);
    }
}

} // verus!
