//! One-in, one-out (OIOO): a bounded container that accepts items in arrival
//! order and releases them in uniformly random order, as an alternative to
//! FIFO or LIFO. Every item admitted into the primary store is padded with a
//! fixed run of empty slots (its "social distance"); the store's capacity is
//! derived once, at construction, from a [`Phase`]. Items arriving while the
//! store is full wait in a FIFO overflow queue and are moved into the store,
//! in arrival order, as releases free space.

use vstd::prelude::*;

pub mod model;

verus! {

/// Number of empty padding slots kept after every occupied slot in the store.
pub const SOCIAL_DISTANCE: usize = 6;

/// Width of one store block: an occupied slot plus its `SOCIAL_DISTANCE`
/// padding slots.
#[verifier::inline]
pub open spec fn stride() -> int {
    7
}

/// A multiple of the stride leaves no remainder.
proof fn lemma_multiple_mod(x: int)
    ensures
        (x * stride()) % stride() == 0,
{
    assert((x * 7) % 7 == 0) by (nonlinear_arith);
}

/// Within one block that starts at a stride boundary `l`, the position `j`
/// sits `j - l` slots past the boundary.
proof fn lemma_offset_mod(l: int, j: int)
    requires
        l % stride() == 0,
        l <= j < l + stride(),
    ensures
        j % stride() == j - l,
{
    assert(j % 7 == j - l) by (nonlinear_arith)
        requires
            l % 7 == 0 && l <= j < l + 7,
    ;
}

/// Shifting a position by one whole stride leaves its offset in the block
/// unchanged.
proof fn lemma_shift_mod(j: int)
    ensures
        (j + stride()) % stride() == j % stride(),
{
    assert((j + 7) % 7 == j % 7) by (nonlinear_arith);
}

/// Relies on rand::random_range with the half-open range `0..n`: the
/// thread-local generator returns a value inside the range, and panics only
/// when the range is empty, which the precondition rules out.
#[verifier::external_body]
fn random_below(n: usize) -> (r: usize)
    requires
        n > 0,
    ensures
        r < n,
{
    rand::random_range(0..n)
}

/// Dictates the current Phase, which limits the capabilities of an OIOO instance.
pub enum Phase {
    One { occupancy: usize, is_essential: bool },
    Two { occupancy: usize },
}

/// Store capacity derived from a phase: a quarter of the occupancy in Phase
/// One (and none at all when not essential), half of it in Phase Two.
pub open spec fn phase_capacity(phase: Phase) -> int {
    match phase {
        Phase::One { occupancy, is_essential } => if is_essential {
            occupancy as int / 4
        } else {
            0
        },
        Phase::Two { occupancy } => occupancy as int / 2,
    }
}

/// A data structure intended as an alternative to FIFO or LIFO: One-in,
/// One-out. Items are pushed into the data structure and are retrieved
/// randomly. Each item is padded with a number of empty slots; the capacity
/// is set upon creation, and any excess items are kept in a queue that is
/// automatically used to refill the main store when space becomes available.
pub struct OIOO<T> {
    /// Primary storage: occupied slots, each followed by padding, up to capacity.
    store: Vec<Option<T>>,
    /// Overflow for items that cannot fit in the store due to the capacity limit.
    queue: Vec<T>,
    /// Number of empty slots kept after each item.
    social_distance: usize,
    /// Maximum number of occupied slots the store may hold, fixed by the Phase.
    capacity: usize,
}

impl<T> OIOO<T> {
    /// Number of occupied slots the store currently holds.
    pub closed spec fn occupied(self) -> int {
        self.store@.len() as int / stride()
    }

    /// The items currently in the store, in block order: the arrival order of
    /// the items still held, after compaction of earlier removals.
    pub closed spec fn items(self) -> Seq<T> {
        Seq::new(self.occupied() as nat, |i: int| self.store@[stride() * i]->0)
    }

    /// The overflow queue's items, front first.
    pub closed spec fn queued(self) -> Seq<T> {
        self.queue@
    }

    /// The store's capacity in occupied slots, fixed at construction.
    pub closed spec fn cap(self) -> int {
        self.capacity as int
    }

    /// Structural invariant: the padding width is `SOCIAL_DISTANCE`, the store
    /// is made of whole blocks whose first slot is occupied and whose other
    /// slots are padding, and the block count never exceeds the capacity.
    pub closed spec fn wf(self) -> bool {
        &&& self.social_distance == SOCIAL_DISTANCE
        &&& self.store@.len() == self.occupied() * stride()
        &&& forall|j: int|
            0 <= j < self.store@.len() ==> ((#[trigger] self.store@[j]) is Some <==> j % stride()
                == 0)
        &&& self.occupied() <= self.cap()
    }

    /// The store never idles below capacity while items wait in the queue.
    /// Restored (not necessarily held transiently) by every operation.
    pub closed spec fn balanced(self) -> bool {
        self.queued().len() > 0 ==> self.occupied() == self.cap()
    }

    /// Creates a new instance of an OIOO based on the selected Phase: empty,
    /// with its capacity derived once from the phase and frozen thereafter.
    pub fn new(phase: Phase) -> (r: OIOO<T>)
        ensures
            r.wf(),
            r.balanced(),
            r.cap() == phase_capacity(phase),
            r.items() == Seq::<T>::empty(),
            r.queued() == Seq::<T>::empty(),
    {
        let r = OIOO {
            store: Vec::<Option<T>>::new(),
            queue: Vec::<T>::new(),
            social_distance: SOCIAL_DISTANCE,
            capacity: match phase {
                // Phase One: 25% occupancy for essentials
                Phase::One { occupancy, is_essential } => if is_essential {
                    occupancy / 4
                } else {
                    0
                },
                // Phase Two: 50% occupancy regardless of essentiality
                Phase::Two { occupancy } => occupancy / 2,
            },
        };
        proof {
            assert(r.items() =~= Seq::<T>::empty());
        }
        r
    }

    /// Pushes an item into the store if there is space. If the store is at
    /// capacity, the item is kept "outside" in the queue, which is pulled
    /// from once space becomes available. Each item added into the store has
    /// the social-distance run of empty slots appended after it.
    pub fn one_in(&mut self, item: T)
        requires
            old(self).wf(),
        ensures
            final(self).wf(),
            final(self).cap() == old(self).cap(),
            old(self).balanced() ==> final(self).balanced(),
            final(self).items() == model::admit_items(old(self).items(), old(self).cap(), item),
            final(self).queued() == model::admit_queued(
                old(self).items(),
                old(self).queued(),
                old(self).cap(),
                item,
            ),
    {
        if !self.at_capacity() {
            self.store.push(Some(item));
            self.add_social_distance();
            proof {
                let pre = *old(self);
                let l: int = pre.store@.len() as int;
                assert(self.store@.len() == l + stride());
                assert(self.occupied() == pre.occupied() + 1);
                assert forall|j: int| 0 <= j < self.store@.len() implies ((
                #[trigger] self.store@[j]) is Some <==> j % stride() == 0) by {
                    if j < l {
                        assert(self.store@[j] == pre.store@[j]);
                    } else {
                        lemma_multiple_mod(pre.occupied());
                        lemma_offset_mod(l, j);
                        if j > l {
                            assert(self.store@[j] is None);
                        }
                    }
                }
                assert(self.items() =~= pre.items().push(item)) by {
                    assert forall|i: int| 0 <= i < pre.occupied() implies self.items()[i]
                        == pre.items()[i] by {
                        assert(self.store@[stride() * i] == pre.store@[stride() * i]);
                    }
                    assert(self.store@[l] == Some(item));
                    assert(stride() * pre.occupied() == l);
                }
            }
        } else {
            self.queue.push(item);
            proof {
                assert(self.items() =~= old(self).items());
            }
        }
    }

    /// Returns a random item from the store if one exists: the target block
    /// is chosen uniformly among the occupied slots, removed whole (item and
    /// padding), and the remaining blocks are compacted. If items wait in the
    /// queue, the front one is admitted into the slot just freed before this
    /// returns.
    pub fn one_out(&mut self) -> (r: Option<T>)
        requires
            old(self).wf(),
        ensures
            final(self).wf(),
            final(self).cap() == old(self).cap(),
            old(self).balanced() ==> final(self).balanced(),
            old(self).occupied() == 0 ==> r is None && *final(self) == *old(self),
            old(self).occupied() > 0 ==> r is Some && (exists|k: int|
                #![auto]
                {
                    &&& 0 <= k < old(self).items().len()
                    &&& r == Some(old(self).items()[k])
                    &&& final(self).items() == model::release_items(
                        old(self).items(),
                        old(self).queued(),
                        k,
                    )
                    &&& final(self).queued() == model::release_queued(old(self).queued())
                }),
    {
        if self.store.len() == 0 {
            return None;
        }
        let ghost pre = *old(self);
        let n: usize = self.store.len() / (self.social_distance + 1);
        let k: usize = random_below(n);
        let out_index: usize = k * (self.social_distance + 1);
        proof {
            assert(n == pre.occupied());
            assert(out_index == stride() * k);
            assert(out_index + stride() <= pre.store@.len());
            lemma_multiple_mod(k as int);
        }
        let slot = self.store.remove(out_index);
        let item = slot.unwrap();
        let mut j: usize = 0;
        while j < self.social_distance
            invariant
                j <= SOCIAL_DISTANCE,
                self.social_distance == SOCIAL_DISTANCE,
                self.capacity == pre.capacity,
                self.queue == pre.queue,
                out_index + stride() <= pre.store@.len(),
                self.store@ == pre.store@.subrange(0, out_index as int) + pre.store@.subrange(
                    out_index + 1 + j,
                    pre.store@.len() as int,
                ),
            decreases SOCIAL_DISTANCE - j,
        {
            self.store.remove(out_index);
            proof {
                assert(self.store@ =~= pre.store@.subrange(0, out_index as int)
                    + pre.store@.subrange(out_index + 2 + j, pre.store@.len() as int));
            }
            j = j + 1;
        }
        proof {
            let out: int = out_index as int;
            let l: int = pre.store@.len() as int;
            assert(self.store@.len() == l - stride());
            assert(self.occupied() == pre.occupied() - 1);
            assert forall|p: int| 0 <= p < self.store@.len() implies ((#[trigger] self.store@[p])
                is Some <==> p % stride() == 0) by {
                if p < out {
                    assert(self.store@[p] == pre.store@[p]);
                } else {
                    assert(self.store@[p] == pre.store@[p + stride()]);
                    lemma_shift_mod(p);
                }
            }
            assert(item == pre.items()[k as int]);
            assert(self.items() =~= pre.items().remove(k as int)) by {
                assert forall|i: int| 0 <= i < self.occupied() implies self.items()[i]
                    == pre.items().remove(k as int)[i] by {
                    if i < k as int {
                        assert(self.store@[stride() * i] == pre.store@[stride() * i]);
                    } else {
                        assert(stride() * i + stride() == stride() * (i + 1));
                        assert(self.store@[stride() * i] == pre.store@[stride() * (i + 1)]);
                    }
                }
            }
            assert(self.wf());
        }
        if self.queue.len() > 0 {
            let first_in_queue = self.queue.remove(0);
            proof {
                assert(self.queued() =~= pre.queued().drop_first());
                assert(self.occupied() < self.cap());
            }
            self.one_in(first_in_queue);
            proof {
                assert(self.items() =~= model::release_items(
                    pre.items(),
                    pre.queued(),
                    k as int,
                ));
                assert(self.queued() =~= model::release_queued(pre.queued()));
            }
        }
        proof {
            let kk: int = k as int;
            assert(0 <= kk < pre.items().len());
            assert(Some(item) == Some(pre.items()[kk]));
            assert(self.items() == model::release_items(pre.items(), pre.queued(), kk));
            assert(self.queued() == model::release_queued(pre.queued()));
        }
        Some(item)
    }

    /// Length of the primary store in slots, padding included: one stride
    /// per item held.
    pub fn store_len(&self) -> (r: usize)
        requires
            self.wf(),
        ensures
            r == self.items().len() * stride(),
    {
        self.store.len()
    }

    /// Number of items the store currently holds.
    pub fn number_in_store(&self) -> (r: usize)
        requires
            self.wf(),
        ensures
            r == self.items().len(),
    {
        self.store.len() / (self.social_distance + 1)
    }

    /// Number of items waiting in the overflow queue.
    pub fn queue_len(&self) -> (r: usize)
        ensures
            r == self.queued().len(),
    {
        self.queue.len()
    }

    fn at_capacity(&self) -> (r: bool)
        requires
            self.wf(),
        ensures
            r == (self.occupied() >= self.cap()),
    {
        (self.store.len() / (self.social_distance + 1)) >= self.capacity
    }

    fn add_social_distance(&mut self)
        requires
            old(self).social_distance == SOCIAL_DISTANCE,
        ensures
            final(self).social_distance == old(self).social_distance,
            final(self).capacity == old(self).capacity,
            final(self).queue == old(self).queue,
            final(self).store@.len() == old(self).store@.len() + SOCIAL_DISTANCE,
            forall|j: int|
                0 <= j < old(self).store@.len() ==> final(self).store@[j] == old(self).store@[j],
            forall|j: int|
                old(self).store@.len() <= j < final(self).store@.len() ==> (
                #[trigger] final(self).store@[j]) is None,
    {
        let ghost pre = *old(self);
        let mut k: usize = 0;
        while k < self.social_distance
            invariant
                k <= SOCIAL_DISTANCE,
                self.social_distance == SOCIAL_DISTANCE,
                self.capacity == pre.capacity,
                self.queue == pre.queue,
                self.store@.len() == pre.store@.len() + k,
                forall|j: int| 0 <= j < pre.store@.len() ==> self.store@[j] == pre.store@[j],
                forall|j: int|
                    pre.store@.len() <= j < self.store@.len() ==> (#[trigger] self.store@[j])
                        is None,
            decreases SOCIAL_DISTANCE - k,
        {
            self.store.push(None);
            k = k + 1;
        }
    }
}

} // verus!
