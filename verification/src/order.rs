//! Stable sorting by insertion, for any order that ranks every two items:
//! what the sorted list is, and why it is ordered, complete and stable.

use vstd::prelude::*;

verus! {

/// Whether `leq` ranks any two items and does so transitively.
pub open spec fn ranks<T>(leq: spec_fn(T, T) -> bool) -> bool {
    &&& forall|a: T, b: T| #[trigger] leq(a, b) || #[trigger] leq(b, a)
    &&& forall|a: T, b: T, c: T| #[trigger] leq(a, b) && #[trigger] leq(b, c) ==> leq(a, c)
}

/// No item ranks strictly before one that precedes it.
pub open spec fn ordered<T>(items: Seq<T>, leq: spec_fn(T, T) -> bool) -> bool {
    forall|i: int, j: int| 0 <= i < j < items.len() ==> leq(#[trigger] items[i], #[trigger] items[j])
}

/// `sorted` with `item` put in behind every item that does not rank after it.
pub open spec fn insert_ordered<T>(sorted: Seq<T>, item: T, leq: spec_fn(T, T) -> bool) -> Seq<T>
    decreases sorted.len(),
{
    if sorted.len() == 0 {
        seq![item]
    } else if leq(sorted.last(), item) {
        sorted.push(item)
    } else {
        insert_ordered(sorted.drop_last(), item, leq).push(sorted.last())
    }
}

/// The items in ascending order of rank; items of equal rank keep their
/// order.
pub open spec fn sorted<T>(items: Seq<T>, leq: spec_fn(T, T) -> bool) -> Seq<T>
    decreases items.len(),
{
    if items.len() == 0 {
        Seq::empty()
    } else {
        insert_ordered(sorted(items.drop_last(), leq), items.last(), leq)
    }
}

/// The items of the same rank as `like`, in their order.
pub open spec fn peers<T>(items: Seq<T>, like: T, leq: spec_fn(T, T) -> bool) -> Seq<T>
    decreases items.len(),
{
    if items.len() == 0 {
        Seq::empty()
    } else if leq(items.last(), like) && leq(like, items.last()) {
        peers(items.drop_last(), like, leq).push(items.last())
    } else {
        peers(items.drop_last(), like, leq)
    }
}

/// Putting an item in at index `p` is what `insert_ordered` does, where
/// every item from `p` on ranks strictly after it and the item before `p`
/// does not.
pub(crate) proof fn lemma_insert_at<T>(sorted: Seq<T>, item: T, leq: spec_fn(T, T) -> bool, p: int)
    requires
        0 <= p <= sorted.len(),
        forall|k: int| p <= k < sorted.len() ==> !leq(#[trigger] sorted[k], item),
        p == 0 || leq(sorted[p - 1], item),
    ensures
        insert_ordered(sorted, item, leq) == sorted.insert(p, item),
    decreases sorted.len(),
{
    if sorted.len() == 0 {
        assert(seq![item] =~= sorted.insert(p, item));
    } else if p == sorted.len() {
        assert(sorted.push(item) =~= sorted.insert(p, item));
    } else {
        assert(!leq(sorted[sorted.len() - 1], item));
        lemma_insert_at(sorted.drop_last(), item, leq, p);
        assert(sorted.drop_last().insert(p, item).push(sorted.last()) =~= sorted.insert(p, item));
    }
}

proof fn lemma_insert_shape<T>(sorted: Seq<T>, item: T, leq: spec_fn(T, T) -> bool)
    ensures
        insert_ordered(sorted, item, leq).len() == sorted.len() + 1,
        insert_ordered(sorted, item, leq).to_multiset() == sorted.to_multiset().insert(item),
    decreases sorted.len(),
{
    broadcast use vstd::seq_lib::group_to_multiset_ensures;

    if sorted.len() == 0 {
        assert(seq![item] =~= sorted.push(item));
    } else if leq(sorted.last(), item) {
    } else {
        lemma_insert_shape(sorted.drop_last(), item, leq);
        assert(sorted =~= sorted.drop_last().push(sorted.last()));
        assert(sorted.drop_last().to_multiset().insert(item).insert(sorted.last())
            =~= sorted.drop_last().to_multiset().insert(sorted.last()).insert(item));
    }
}

/// Whatever ranks behind a list and behind the item put into it ranks
/// behind the result.
proof fn lemma_insert_bounded<T>(sorted: Seq<T>, item: T, leq: spec_fn(T, T) -> bool, bound: T)
    requires
        forall|k: int| 0 <= k < sorted.len() ==> leq(#[trigger] sorted[k], bound),
        leq(item, bound),
    ensures
        forall|k: int|
            0 <= k < insert_ordered(sorted, item, leq).len() ==> leq(
                #[trigger] insert_ordered(sorted, item, leq)[k],
                bound,
            ),
    decreases sorted.len(),
{
    if sorted.len() == 0 {
    } else if leq(sorted.last(), item) {
    } else {
        let shorter = sorted.drop_last();
        assert forall|k: int| 0 <= k < shorter.len() implies leq(#[trigger] shorter[k], bound) by {
            assert(shorter[k] == sorted[k]);
        }
        lemma_insert_bounded(shorter, item, leq, bound);
        lemma_insert_shape(shorter, item, leq);
        assert(leq(sorted[sorted.len() - 1], bound));
    }
}

proof fn lemma_insert_keeps_order<T>(sorted: Seq<T>, item: T, leq: spec_fn(T, T) -> bool)
    requires
        ranks(leq),
        ordered(sorted, leq),
    ensures
        ordered(insert_ordered(sorted, item, leq), leq),
    decreases sorted.len(),
{
    let out = insert_ordered(sorted, item, leq);
    if sorted.len() == 0 {
    } else if leq(sorted.last(), item) {
        assert forall|i: int, j: int| 0 <= i < j < out.len() implies leq(
            #[trigger] out[i],
            #[trigger] out[j],
        ) by {
            if j == sorted.len() {
                if i < sorted.len() - 1 {
                    assert(leq(sorted[i], sorted[sorted.len() - 1]));
                    assert(leq(sorted[sorted.len() - 1], item));
                }
            } else {
                assert(leq(sorted[i], sorted[j]));
            }
        }
    } else {
        let shorter = sorted.drop_last();
        assert forall|i: int, j: int| 0 <= i < j < shorter.len() implies leq(
            #[trigger] shorter[i],
            #[trigger] shorter[j],
        ) by {
            assert(leq(sorted[i], sorted[j]));
        }
        assert forall|k: int| 0 <= k < shorter.len() implies leq(
            #[trigger] shorter[k],
            sorted.last(),
        ) by {
            assert(leq(sorted[k], sorted[sorted.len() - 1]));
        }
        assert(leq(item, sorted.last()) || leq(sorted.last(), item));
        lemma_insert_keeps_order(shorter, item, leq);
        lemma_insert_shape(shorter, item, leq);
        lemma_insert_bounded(shorter, item, leq, sorted.last());
        let inner = insert_ordered(shorter, item, leq);
        assert forall|i: int, j: int| 0 <= i < j < out.len() implies leq(
            #[trigger] out[i],
            #[trigger] out[j],
        ) by {
            if j < inner.len() {
                assert(leq(inner[i], inner[j]));
            } else {
                assert(out[j] == sorted.last());
                assert(out[i] == inner[i]);
            }
        }
    }
}

/// Putting an item in adds it behind its peers, and changes nothing for
/// the items of any other rank.
proof fn lemma_insert_stable<T>(sorted: Seq<T>, item: T, leq: spec_fn(T, T) -> bool, like: T)
    requires
        ranks(leq),
    ensures
        peers(insert_ordered(sorted, item, leq), like, leq) == if leq(item, like) && leq(
            like,
            item,
        ) {
            peers(sorted, like, leq).push(item)
        } else {
            peers(sorted, like, leq)
        },
    decreases sorted.len(),
{
    if sorted.len() == 0 {
        assert(seq![item].drop_last() =~= Seq::<T>::empty());
        assert(peers(Seq::<T>::empty(), like, leq) =~= Seq::<T>::empty());
    } else if leq(sorted.last(), item) {
        assert(sorted.push(item).drop_last() =~= sorted);
    } else {
        let shorter = sorted.drop_last();
        lemma_insert_stable(shorter, item, leq, like);
        let inner = insert_ordered(shorter, item, leq);
        assert(inner.push(sorted.last()).drop_last() =~= inner);
        if leq(sorted.last(), like) && leq(like, sorted.last()) && leq(item, like) && leq(
            like,
            item,
        ) {
            assert(leq(sorted.last(), item));
        }
    }
}

/// Sorting yields an ordered list.
pub proof fn lemma_sorted_is_ordered<T>(items: Seq<T>, leq: spec_fn(T, T) -> bool)
    requires
        ranks(leq),
    ensures
        ordered(sorted(items, leq), leq),
    decreases items.len(),
{
    if items.len() > 0 {
        lemma_sorted_is_ordered(items.drop_last(), leq);
        lemma_insert_keeps_order(sorted(items.drop_last(), leq), items.last(), leq);
    }
}

/// Sorting neither drops an item nor adds one.
pub proof fn lemma_sorted_is_permutation<T>(items: Seq<T>, leq: spec_fn(T, T) -> bool)
    ensures
        sorted(items, leq).len() == items.len(),
        sorted(items, leq).to_multiset() == items.to_multiset(),
    decreases items.len(),
{
    broadcast use vstd::seq_lib::group_to_multiset_ensures;

    if items.len() > 0 {
        lemma_sorted_is_permutation(items.drop_last(), leq);
        lemma_insert_shape(sorted(items.drop_last(), leq), items.last(), leq);
        assert(items =~= items.drop_last().push(items.last()));
    } else {
        assert(sorted(items, leq) =~= items);
    }
}

/// Sorting keeps the order of the items of one rank.
pub proof fn lemma_sorted_is_stable<T>(items: Seq<T>, leq: spec_fn(T, T) -> bool, like: T)
    requires
        ranks(leq),
    ensures
        peers(sorted(items, leq), like, leq) == peers(items, like, leq),
    decreases items.len(),
{
    if items.len() > 0 {
        lemma_sorted_is_stable(items.drop_last(), leq, like);
        lemma_insert_stable(sorted(items.drop_last(), leq), items.last(), leq, like);
    }
}

} // verus!
