//! Facts about sequences that are read from front to back.

use vstd::prelude::*;

verus! {

/// One more item is one more item of the filtered sequence if it satisfies the
/// condition.
pub proof fn lemma_filter_step<A>(items: Seq<A>, i: int, condition: spec_fn(A) -> bool)
    requires
        0 <= i < items.len(),
    ensures
        items.take(i + 1).filter(condition) == if condition(items[i]) {
            items.take(i).filter(condition).push(items[i])
        } else {
            items.take(i).filter(condition)
        },
{
    reveal(Seq::filter);
    assert(items.take(i + 1).drop_last() =~= items.take(i));
}

/// Nothing is filtered out of nothing.
pub proof fn lemma_filter_none<A>(items: Seq<A>, condition: spec_fn(A) -> bool)
    ensures
        items.take(0).filter(condition) == Seq::<A>::empty(),
{
    reveal(Seq::filter);
}

/// Filtering keeps exactly the items that satisfy the condition.
pub proof fn lemma_filter_members<A>(items: Seq<A>, condition: spec_fn(A) -> bool)
    ensures
        forall|item: A|
            #![trigger items.filter(condition).contains(item)]
            #![trigger items.contains(item)]
            items.filter(condition).contains(item) <==> items.contains(item) && condition(item),
        items.filter(condition).len() <= items.len(),
    decreases items.len(),
{
    reveal(Seq::filter);
    if items.len() > 0 {
        let before = items.drop_last();
        let kept = before.filter(condition);
        let all = items.filter(condition);
        lemma_filter_members(before, condition);
        assert forall|item: A|
            #![trigger all.contains(item)]
            #![trigger items.contains(item)]
            all.contains(item) <==> items.contains(item) && condition(item) by {
            if items.contains(item) {
                let i = choose|i: int| 0 <= i < items.len() && items[i] == item;
                if i < before.len() {
                    assert(before[i] == item);
                    assert(before.contains(item));
                    if condition(item) {
                        let k = choose|k: int| 0 <= k < kept.len() && kept[k] == item;
                        assert(all[k] == item);
                    }
                } else if condition(item) {
                    assert(all[kept.len() as int] == item);
                }
            }
            if all.contains(item) {
                let k = choose|k: int| 0 <= k < all.len() && all[k] == item;
                if k < kept.len() {
                    assert(kept[k] == item);
                    assert(kept.contains(item));
                    let i = choose|i: int| 0 <= i < before.len() && before[i] == item;
                    assert(items[i] == item);
                } else {
                    assert(items[items.len() - 1] == item);
                }
            }
        }
    }
}

/// Filtering by a condition that all items satisfy keeps them all.
pub proof fn lemma_filter_all<A>(items: Seq<A>, condition: spec_fn(A) -> bool)
    requires
        forall|i: int| 0 <= i < items.len() ==> condition(#[trigger] items[i]),
    ensures
        items.filter(condition) == items,
    decreases items.len(),
{
    reveal(Seq::filter);
    if items.len() > 0 {
        let before = items.drop_last();
        assert forall|i: int| 0 <= i < before.len() implies condition(#[trigger] before[i]) by {
            assert(before[i] == items[i]);
        }
        lemma_filter_all(before, condition);
        assert(items =~= before.push(items.last()));
    } else {
        assert(items.filter(condition) =~= items);
    }
}

/// Filtering by a condition that no item satisfies keeps none.
pub proof fn lemma_filter_no<A>(items: Seq<A>, condition: spec_fn(A) -> bool)
    requires
        forall|i: int| 0 <= i < items.len() ==> !condition(#[trigger] items[i]),
    ensures
        items.filter(condition) == Seq::<A>::empty(),
    decreases items.len(),
{
    reveal(Seq::filter);
    if items.len() > 0 {
        let before = items.drop_last();
        assert forall|i: int| 0 <= i < before.len() implies !condition(#[trigger] before[i]) by {
            assert(before[i] == items[i]);
        }
        lemma_filter_no(before, condition);
    } else {
        assert(items.filter(condition) =~= Seq::empty());
    }
}

/// Filtering by one condition and then by another.
pub proof fn lemma_filter_twice<A>(
    items: Seq<A>,
    first: spec_fn(A) -> bool,
    second: spec_fn(A) -> bool,
    both: spec_fn(A) -> bool,
)
    requires
        forall|item: A| #[trigger] both(item) <==> first(item) && second(item),
    ensures
        items.filter(first).filter(second) == items.filter(both),
    decreases items.len(),
{
    reveal(Seq::filter);
    if items.len() > 0 {
        let before = items.drop_last();
        lemma_filter_twice(before, first, second, both);
        if first(items.last()) {
            assert(items.filter(first).drop_last() =~= before.filter(first));
        }
    } else {
        assert(items.filter(first) =~= Seq::empty());
    }
}

/// The position of the first item that satisfies the condition; the number of items
/// where there is none.
pub open spec fn first_index<A>(items: Seq<A>, condition: spec_fn(A) -> bool) -> int
    decreases items.len(),
{
    if items.len() == 0 || condition(items[0]) {
        0
    } else {
        1 + first_index(items.skip(1), condition)
    }
}

/// The first item that satisfies the condition.
pub open spec fn first_that<A>(items: Seq<A>, condition: spec_fn(A) -> bool) -> Option<A> {
    let index = first_index(items, condition);
    if index < items.len() {
        Some(items[index])
    } else {
        None
    }
}

/// `first_index` is the least position of an item that satisfies the condition.
pub proof fn lemma_first_index<A>(items: Seq<A>, condition: spec_fn(A) -> bool)
    ensures
        0 <= first_index(items, condition) <= items.len(),
        first_index(items, condition) < items.len() ==> condition(
            items[first_index(items, condition)],
        ),
        forall|i: int|
            0 <= i < first_index(items, condition) ==> !condition(#[trigger] items[i]),
    decreases items.len(),
{
    if items.len() == 0 || condition(items[0]) {
    } else {
        let rest = items.skip(1);
        lemma_first_index(rest, condition);
        assert forall|i: int| 0 <= i < first_index(items, condition) implies !condition(
            #[trigger] items[i],
        ) by {
            if i > 0 {
                assert(rest[i - 1] == items[i]);
            }
        }
    }
}

/// An item that satisfies the condition and before which none does is the first.
pub proof fn lemma_is_first<A>(items: Seq<A>, condition: spec_fn(A) -> bool, at: int)
    requires
        0 <= at <= items.len(),
        forall|i: int| 0 <= i < at ==> !condition(#[trigger] items[i]),
        at < items.len() ==> condition(items[at]),
    ensures
        first_index(items, condition) == at,
{
    lemma_first_index(items, condition);
}

/// Some item satisfies the condition exactly where there is a first one.
pub proof fn lemma_first_exists<A>(items: Seq<A>, condition: spec_fn(A) -> bool)
    ensures
        first_that(items, condition) is Some <==> exists|i: int|
            0 <= i < items.len() && condition(#[trigger] items[i]),
        first_that(items, condition) matches Some(item) ==> condition(item) && items.contains(item),
{
    lemma_first_index(items, condition);
}

/// Each item comes before the items behind it.
pub open spec fn strictly_sorted<A>(items: Seq<A>, before: spec_fn(A, A) -> bool) -> bool {
    forall|i: int, j: int|
        0 <= i < j < items.len() ==> before(#[trigger] items[i], #[trigger] items[j])
}

/// Two sorted lists of the same items are the same list.
pub proof fn lemma_sorted_once<A>(left: Seq<A>, right: Seq<A>, before: spec_fn(A, A) -> bool)
    requires
        strictly_sorted(left, before),
        strictly_sorted(right, before),
        forall|x: A, y: A| #[trigger] before(x, y) ==> !before(y, x),
        forall|x: A| #[trigger] left.contains(x) <==> right.contains(x),
    ensures
        left == right,
    decreases left.len(),
{
    if left.len() == 0 {
        if right.len() > 0 {
            assert(right.contains(right[0]));
            assert(left.contains(right[0]));
        }
        assert(left =~= right);
    } else {
        assert(left.contains(left.last()));
        let r = choose|r: int| 0 <= r < right.len() && right[r] == left.last();
        assert(right.contains(right.last()));
        assert(left.contains(right.last()));
        let l = choose|l: int| 0 <= l < left.len() && left[l] == right.last();
        assert(left.last() == right.last()) by {
            if l < left.len() - 1 && r < right.len() - 1 {
                assert(before(left[l], left[left.len() - 1]));
                assert(before(right[r], right[right.len() - 1]));
            }
        }
        let less_left = left.drop_last();
        let less_right = right.drop_last();
        assert forall|x: A| #[trigger] less_left.contains(x) <==> less_right.contains(x) by {
            if less_left.contains(x) {
                let i = choose|i: int| 0 <= i < less_left.len() && less_left[i] == x;
                assert(left[i] == x);
                assert(left.contains(x));
                assert(before(left[i], left[left.len() - 1]));
                let k = choose|k: int| 0 <= k < right.len() && right[k] == x;
                assert(less_right[k] == x);
            }
            if less_right.contains(x) {
                let i = choose|i: int| 0 <= i < less_right.len() && less_right[i] == x;
                assert(right[i] == x);
                assert(right.contains(x));
                assert(left.contains(x));
                assert(before(right[i], right[right.len() - 1]));
                let k = choose|k: int| 0 <= k < left.len() && left[k] == x;
                assert(less_left[k] == x);
            }
        }
        lemma_sorted_once(less_left, less_right, before);
        assert(left =~= less_left.push(left.last()));
        assert(right =~= less_right.push(right.last()));
    }
}

}
