//! Abstract transitions of the container, stated over plain sequences.
//!
//! The executable operations promise, in their contracts, to follow these
//! transitions on the views of their state; the lemmas here then state the
//! container's laws — saturation at capacity, conservation of items, and
//! occupancy kept by a refilling release — purely over the model.

use vstd::prelude::*;

verus! {

/// The store after one admission: the item is appended while the store is
/// below capacity, and the store is untouched otherwise.
pub open spec fn admit_items<T>(items: Seq<T>, cap: int, item: T) -> Seq<T> {
    if items.len() < cap {
        items.push(item)
    } else {
        items
    }
}

/// The queue after one admission: untouched while the store is below
/// capacity, and extended at the back otherwise.
pub open spec fn admit_queued<T>(items: Seq<T>, queued: Seq<T>, cap: int, item: T) -> Seq<T> {
    if items.len() < cap {
        queued
    } else {
        queued.push(item)
    }
}

/// Store and queue after admitting `vals`, in order, into an empty container
/// of capacity `cap`.
pub open spec fn admit_all<T>(cap: int, vals: Seq<T>) -> (Seq<T>, Seq<T>)
    decreases vals.len(),
{
    if vals.len() == 0 {
        (Seq::<T>::empty(), Seq::<T>::empty())
    } else {
        let prev = admit_all(cap, vals.drop_last());
        (
            admit_items(prev.0, cap, vals.last()),
            admit_queued(prev.0, prev.1, cap, vals.last()),
        )
    }
}

/// The store after releasing the item at block `k`: the block is deleted and
/// the remaining blocks compacted; if anything waits in the queue, its front
/// item is admitted into the slot just freed.
pub open spec fn release_items<T>(items: Seq<T>, queued: Seq<T>, k: int) -> Seq<T> {
    if queued.len() > 0 {
        items.remove(k).push(queued[0])
    } else {
        items.remove(k)
    }
}

/// The queue after a release: its front item moves into the store if there is
/// one, and an empty queue stays empty.
pub open spec fn release_queued<T>(queued: Seq<T>) -> Seq<T> {
    if queued.len() > 0 {
        queued.drop_first()
    } else {
        queued
    }
}

/// Folding one more admission: admitting `vals` and then `v` leaves the same
/// state as one admission step after admitting `vals`. This is the shape of
/// the admission contract, so a chain of admissions folds into `admit_all`.
pub proof fn lemma_admit_all_step<T>(cap: int, vals: Seq<T>, v: T)
    ensures
        admit_all(cap, vals.push(v)).0 == admit_items(admit_all(cap, vals).0, cap, v),
        admit_all(cap, vals.push(v)).1 == admit_queued(
            admit_all(cap, vals).0,
            admit_all(cap, vals).1,
            cap,
            v,
        ),
{
    assert(vals.push(v).drop_last() =~= vals);
}

/// Capacity saturation: admitting a sequence of values in arrival order into
/// an empty container fills the store with the first `cap` of them and
/// queues the rest, still in arrival order. In particular, after admitting
/// at least `cap` values the store holds exactly `cap` items.
pub proof fn lemma_admit_all_saturates<T>(cap: int, vals: Seq<T>)
    requires
        cap >= 0,
    ensures
        ({
            let m = if vals.len() <= cap {
                vals.len() as int
            } else {
                cap
            };
            &&& admit_all(cap, vals).0 == vals.take(m)
            &&& admit_all(cap, vals).1 == vals.skip(m)
            &&& admit_all(cap, vals).0.len() == m
            &&& admit_all(cap, vals).1.len() == vals.len() - m
        }),
    decreases vals.len(),
{
    let m: int = if vals.len() <= cap {
        vals.len() as int
    } else {
        cap
    };
    if vals.len() == 0 {
        assert(admit_all(cap, vals).0 =~= vals.take(m));
        assert(admit_all(cap, vals).1 =~= vals.skip(m));
    } else {
        let butlast = vals.drop_last();
        lemma_admit_all_saturates(cap, butlast);
        assert(admit_all(cap, vals).0 =~= vals.take(m));
        assert(admit_all(cap, vals).1 =~= vals.skip(m));
    }
}

/// No loss or duplication across a whole admission phase: the store and the
/// queue together hold exactly the admitted values.
pub proof fn lemma_admit_all_conserves<T>(cap: int, vals: Seq<T>)
    requires
        cap >= 0,
    ensures
        admit_all(cap, vals).0.to_multiset().add(admit_all(cap, vals).1.to_multiset())
            == vals.to_multiset(),
{
    lemma_admit_all_saturates(cap, vals);
    let m: int = if vals.len() <= cap {
        vals.len() as int
    } else {
        cap
    };
    assert(vals =~= vals.take(m) + vals.skip(m));
    vstd::seq_lib::lemma_multiset_commutative(vals.take(m), vals.skip(m));
}

/// One admission neither loses nor duplicates: afterwards, the store and the
/// queue together hold exactly the old contents plus the admitted item.
pub proof fn lemma_admit_conserves<T>(items: Seq<T>, queued: Seq<T>, cap: int, item: T)
    ensures
        admit_items(items, cap, item).to_multiset().add(
            admit_queued(items, queued, cap, item).to_multiset(),
        ) == items.to_multiset().add(queued.to_multiset()).insert(item),
{
    broadcast use vstd::seq_lib::group_to_multiset_ensures;

    if items.len() < cap {
        assert(items.push(item).to_multiset().add(queued.to_multiset())
            =~= items.to_multiset().add(queued.to_multiset()).insert(item));
    } else {
        assert(items.to_multiset().add(queued.push(item).to_multiset())
            =~= items.to_multiset().add(queued.to_multiset()).insert(item));
    }
}

/// One release neither loses nor duplicates: putting the released item back
/// beside the new store and queue contents restores exactly the old ones.
pub proof fn lemma_release_conserves<T>(items: Seq<T>, queued: Seq<T>, k: int)
    requires
        0 <= k < items.len(),
    ensures
        release_items(items, queued, k).to_multiset().add(
            release_queued(queued).to_multiset(),
        ).insert(items[k]) == items.to_multiset().add(queued.to_multiset()),
{
    broadcast use vstd::seq_lib::group_to_multiset_ensures;

    assert(items.contains(items[k]));
    if queued.len() > 0 {
        assert(queued.drop_first() =~= queued.remove(0));
        assert(queued.contains(queued[0]));
        assert(items.remove(k).push(queued[0]).to_multiset().add(
            queued.remove(0).to_multiset(),
        ).insert(items[k]) =~= items.to_multiset().add(queued.to_multiset()));
    } else {
        assert(items.remove(k).to_multiset().add(queued.to_multiset()).insert(items[k])
            =~= items.to_multiset().add(queued.to_multiset()));
    }
}

/// A refilling release keeps the store saturated: releasing any block while
/// the queue is non-empty leaves the store's count unchanged and shortens
/// the queue by exactly one.
pub proof fn lemma_release_refills<T>(items: Seq<T>, queued: Seq<T>, k: int)
    requires
        0 <= k < items.len(),
        queued.len() > 0,
    ensures
        release_items(items, queued, k).len() == items.len(),
        release_queued(queued).len() == queued.len() - 1,
{
}

} // verus!
