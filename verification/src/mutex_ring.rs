//! The queue: a `Mutex` around a ring of slots, and two `Condvar`s that
//! producers and consumers sleep on while the ring is full or empty.

use std::sync::{Condvar, Mutex};
use vstd::prelude::*;
use vstd::arithmetic::div_mod::{lemma_mod_add_multiples_vanish, lemma_small_mod};

use crate::sync::{
    lock, new_condvar, new_mutex, notify_one, recover, ring, wait_not_empty, wait_not_full, Locked,
    Poisoned,
};

verus! {

/// The ring that the mutex protects: a fixed row of slots, the slot that
/// holds the oldest item, and the number of items held.
///
/// The item at position `i` from the front lives in slot
/// `(head + i) % capacity`, and every other slot is empty (`laid_out`); the
/// capacity is the number of slots, which never changes. Items still held
/// are dropped together with the ring, in the order of their slots.
pub struct Inner<T> {
    buffer: Vec<Option<T>>,
    head: usize,
    len: usize,
}

/// The slot that holds the item at position `i` from the front of a ring of
/// `cap` slots whose oldest item is in slot `head`.
pub open spec fn slot_of(head: int, i: int, cap: int) -> int {
    (head + i) % cap
}

/// `slot_of` for the positions a ring has, without the division: `head + i`,
/// wrapped back to the start past the last slot.
spec fn ring_slot(head: int, i: int, cap: int) -> int {
    if head + i < cap {
        head + i
    } else {
        head + i - cap
    }
}

proof fn lemma_ring_slot(head: int, i: int, cap: int)
    requires
        0 <= head < cap,
        0 <= i <= cap,
    ensures
        ring_slot(head, i, cap) == slot_of(head, i, cap),
        0 <= ring_slot(head, i, cap) < cap,
{
    if head + i < cap {
        lemma_small_mod((head + i) as nat, cap as nat);
    } else {
        lemma_mod_add_multiples_vanish(head + i - cap, cap);
        lemma_small_mod((head + i - cap) as nat, cap as nat);
    }
}

impl<T> Inner<T> {
    /// The number of slots.
    pub closed spec fn spec_capacity(&self) -> nat {
        self.buffer@.len()
    }

    /// The slot that holds the oldest item (the slot the next item goes
    /// into, when the ring is empty).
    pub closed spec fn spec_head(&self) -> nat {
        self.head as nat
    }

    /// What each slot holds: an item, or nothing.
    pub closed spec fn slots(&self) -> Seq<Option<T>> {
        self.buffer@
    }

    /// How the items lie in the slots: as many slots as the capacity, at
    /// least one; the front slot is one of them; no more items than slots;
    /// the item at position `i` from the front is in slot
    /// `(head + i) % capacity`, and every other slot holds nothing.
    pub open spec fn laid_out(&self) -> bool {
        let cap = self.spec_capacity() as int;
        &&& self.slots().len() == cap
        &&& cap > 0
        &&& self.spec_head() < cap
        &&& self@.len() <= cap
        &&& forall|i: int|
            0 <= i < self@.len() ==> #[trigger] self.slots()[slot_of(self.spec_head() as int, i, cap)]
                == Some(self@[i])
        &&& forall|i: int|
            self@.len() <= i < cap ==> #[trigger] self.slots()[slot_of(
                self.spec_head() as int,
                i,
                cap,
            )] is None
    }

    spec fn slot(&self, i: int) -> int {
        ring_slot(self.head as int, i, self.buffer@.len() as int)
    }

    proof fn lemma_laid_out(&self)
        requires
            self.well_formed(),
        ensures
            self.laid_out(),
    {
        let cap = self.buffer@.len() as int;
        assert forall|i: int| 0 <= i < self.len implies #[trigger] self.slots()[slot_of(
            self.head as int,
            i,
            cap,
        )] == Some(self@[i]) by {
            lemma_ring_slot(self.head as int, i, cap);
        }
        assert forall|i: int| self.len <= i < cap implies #[trigger] self.slots()[slot_of(
            self.head as int,
            i,
            cap,
        )] is None by {
            lemma_ring_slot(self.head as int, i, cap);
        }
    }

    /// At least one slot; `head` names a slot; no more items than slots;
    /// the slot of every item holds it.
    #[verifier::type_invariant]
    closed spec fn well_formed(&self) -> bool {
        &&& self.buffer@.len() > 0
        &&& self.head < self.buffer@.len()
        &&& self.len <= self.buffer@.len()
        &&& forall|i: int|
            0 <= i < self.len ==> #[trigger] self.buffer@[ring_slot(
                self.head as int,
                i,
                self.buffer@.len() as int,
            )] is Some
        &&& forall|i: int|
            self.len <= i < self.buffer@.len() ==> #[trigger] self.buffer@[ring_slot(
                self.head as int,
                i,
                self.buffer@.len() as int,
            )] is None
    }
}

/// Puts `value` into slot `idx` and hands back what the slot held.
fn exchange_slot<T>(buffer: &mut Vec<Option<T>>, idx: usize, value: Option<T>) -> (previous: Option<T>)
    requires
        idx < old(buffer)@.len(),
    ensures
        previous == old(buffer)@[idx as int],
        final(buffer)@ == old(buffer)@.update(idx as int, value),
    no_unwind
{
    let mut value = value;
    std::mem::swap(&mut buffer[idx], &mut value);
    value
}

/// Puts `value` into slot `idx`, hands back what the slot held, and sets the
/// ring's front slot and item count to `new_head` and `new_len`, all in one
/// step.
fn rewrite_ring<T>(
    buffer: &mut Vec<Option<T>>,
    head: &mut usize,
    len: &mut usize,
    idx: usize,
    value: Option<T>,
    new_head: usize,
    new_len: usize,
) -> (previous: Option<T>)
    requires
        idx < old(buffer)@.len(),
    ensures
        previous == old(buffer)@[idx as int],
        final(buffer)@ == old(buffer)@.update(idx as int, value),
        *final(head) == new_head,
        *final(len) == new_len,
    no_unwind
{
    *head = new_head;
    *len = new_len;
    exchange_slot(buffer, idx, value)
}

impl<T> View for Inner<T> {
    type V = Seq<T>;

    /// The items, oldest first.
    closed spec fn view(&self) -> Seq<T> {
        Seq::new(self.len as nat, |i: int| self.buffer@[self.slot(i)]->0)
    }
}

impl<T> Inner<T> {
    /// An empty ring of `capacity` slots.
    pub fn new(capacity: usize) -> (ring: Self)
        requires
            capacity > 0,
        ensures
            ring@ == Seq::<T>::empty(),
            ring.spec_capacity() == capacity,
            ring.spec_head() == 0,
            ring.slots() == Seq::new(capacity as nat, |i: int| None::<T>),
            ring.laid_out(),
    {
        let mut buffer: Vec<Option<T>> = Vec::new();
        while buffer.len() < capacity
            invariant
                buffer@.len() <= capacity,
                forall|j: int| 0 <= j < buffer@.len() ==> (#[trigger] buffer@[j]) is None,
            decreases capacity - buffer@.len(),
        {
            buffer.push(None);
        }
        assert forall|i: int| 0 <= i < capacity implies #[trigger] buffer@[ring_slot(
            0,
            i,
            capacity as int,
        )] is None by {
            assert(ring_slot(0, i, capacity as int) == i);
        }
        let ring = Inner { buffer, head: 0, len: 0 };
        assert(ring@ =~= Seq::<T>::empty());
        assert(ring.slots() =~= Seq::new(capacity as nat, |i: int| None::<T>));
        proof {
            ring.lemma_laid_out();
        }
        ring
    }

    /// The number of slots, which bounds the number of items.
    pub fn capacity(&self) -> (n: usize)
        ensures
            n == self.spec_capacity(),
            n > 0,
            self@.len() <= n,
            self.laid_out(),
    {
        proof {
            use_type_invariant(self);
            self.lemma_laid_out();
        }
        self.buffer.len()
    }

    /// Whether every slot holds an item.
    pub fn is_full(&self) -> (full: bool)
        ensures
            full == (self@.len() == self.spec_capacity()),
            self@.len() <= self.spec_capacity(),
    {
        self.len == self.capacity()
    }

    /// Takes the oldest item out of its slot, which is left empty, and makes
    /// the next slot the front.
    fn take_front(&mut self) -> (taken: Option<T>)
        requires
            old(self)@.len() > 0,
        ensures
            taken == Some(old(self)@[0]),
            final(self)@ == old(self)@.drop_first(),
            final(self).spec_capacity() == old(self).spec_capacity(),
            final(self).spec_head() == slot_of(
                old(self).spec_head() as int,
                1,
                old(self).spec_capacity() as int,
            ),
            final(self).slots() == old(self).slots().update(old(self).spec_head() as int, None),
            final(self).laid_out(),
        no_unwind
    {
        proof {
            use_type_invariant(&*self);
        }
        let ghost before = self@;
        let ghost before_buf = self.buffer@;
        let cap = self.buffer.len();
        let idx = self.head;
        let next = if idx + 1 == cap {
            0
        } else {
            idx + 1
        };
        let ghost n = self.len as int;
        assert(before_buf[idx as int] is Some) by {
            assert(idx == ring_slot(idx as int, 0, cap as int));
        }
        assert forall|i: int| 0 <= i < n - 1 implies #[trigger] before_buf[ring_slot(
            next as int,
            i,
            cap as int,
        )] is Some by {
            assert(ring_slot(next as int, i, cap as int) == ring_slot(idx as int, i + 1, cap as int));
        }
        assert forall|i: int| n - 1 <= i < cap implies #[trigger] before_buf.update(
            idx as int,
            None,
        )[ring_slot(next as int, i, cap as int)] is None by {
            if i < cap - 1 {
                assert(ring_slot(next as int, i, cap as int) == ring_slot(idx as int, i + 1, cap as int));
            } else {
                assert(ring_slot(next as int, i, cap as int) == idx);
            }
        }
        let new_len = self.len - 1;
        let taken = rewrite_ring(&mut self.buffer, &mut self.head, &mut self.len, idx, None, next, new_len);
        assert(self@ =~= before.drop_first());
        proof {
            lemma_ring_slot(idx as int, 1, cap as int);
            use_type_invariant(&*self);
            self.lemma_laid_out();
        }
        taken
    }

    /// Whether the ring holds no item.
    pub fn is_empty(&self) -> (empty: bool)
        ensures
            empty == (self@.len() == 0),
    {
        self.len == 0
    }
}

/// The lock that `lock` or a wait gives, also when another thread panicked
/// while it held the lock: every step this queue takes under the lock keeps
/// the ring well formed, so the ring is sound to use either way.
fn unpoisoned<'a, T>(locked: Result<Locked<'a, T>, Poisoned<'a, T>>) -> (held: Locked<'a, T>) {
    match locked {
        Ok(held) => held,
        Err(poisoned) => recover(poisoned),
    }
}

/// A bounded queue that any number of threads may push to and pop from.
///
/// One mutex guards the ring; producers sleep on `not_full` while the ring is
/// full and consumers on `not_empty` while it is empty. Each push wakes one
/// sleeping consumer and each pop one sleeping producer.
#[verifier::reject_recursive_types(T)]
pub struct MutexRingQueue<T> {
    pub(crate) state: Mutex<Inner<T>>,
    capacity: Ghost<nat>,
    pub(crate) not_full: Condvar,
    pub(crate) not_empty: Condvar,
}

impl<T> MutexRingQueue<T> {
    /// The number of items the queue was made to hold: the number of slots
    /// of the ring it put behind its mutex. No function changes it.
    pub closed spec fn spec_capacity(&self) -> nat {
        self.capacity@
    }

    /// An empty queue with room for `capacity` items.
    ///
    /// A queue with no room at all cannot be made: `capacity` is positive.
    pub fn new(capacity: usize) -> (q: Self)
        requires
            capacity > 0,
        ensures
            q.spec_capacity() == capacity,
    {
        MutexRingQueue {
            state: new_mutex(Inner::new(capacity)),
            capacity: Ghost(capacity as nat),
            not_full: new_condvar(),
            not_empty: new_condvar(),
        }
    }

    /// What `try_push` does once it holds the lock: puts `item` behind the
    /// items of `inner` when there is a free slot, and hands it back,
    /// leaving `inner` as it was, when there is none.
    pub fn try_push_locked(&self, inner: &mut Inner<T>, item: T) -> (r: Result<(), T>)
        ensures
            final(inner).spec_capacity() == old(inner).spec_capacity(),
            old(inner)@.len() < old(inner).spec_capacity() ==> r == Ok::<(), T>(())
                && final(inner)@ == old(inner)@.push(item) && final(inner).spec_head()
                == old(inner).spec_head() && final(inner).slots() == old(inner).slots().update(
                slot_of(
                    old(inner).spec_head() as int,
                    old(inner)@.len() as int,
                    old(inner).spec_capacity() as int,
                ),
                Some(item),
            ),
            old(inner)@.len() >= old(inner).spec_capacity() ==> r == Err::<(), T>(item)
                && final(inner)@ == old(inner)@ && final(inner).spec_head()
                == old(inner).spec_head() && final(inner).slots() == old(inner).slots(),
            final(inner).laid_out(),
    {
        proof {
            use_type_invariant(&*inner);
            inner.lemma_laid_out();
        }
        if inner.is_full() {
            return Err(item);
        }
        self.push_inner(inner, item);
        Ok(())
    }

    /// What `try_pop` does once it holds the lock: takes the oldest item out
    /// of `inner`, or gives `None` when `inner` is empty.
    pub fn try_pop_locked(&self, inner: &mut Inner<T>) -> (r: Option<T>)
        ensures
            final(inner).spec_capacity() == old(inner).spec_capacity(),
            old(inner)@.len() > 0 ==> r == Some(old(inner)@[0]) && final(inner)@
                == old(inner)@.drop_first() && final(inner).spec_head() == slot_of(
                old(inner).spec_head() as int,
                1,
                old(inner).spec_capacity() as int,
            ) && final(inner).slots() == old(inner).slots().update(
                old(inner).spec_head() as int,
                None,
            ),
            old(inner)@.len() == 0 ==> r == None::<T> && final(inner)@ == old(inner)@
                && final(inner).spec_head() == old(inner).spec_head() && final(inner).slots()
                == old(inner).slots(),
            final(inner).laid_out(),
    {
        proof {
            use_type_invariant(&*inner);
            inner.lemma_laid_out();
        }
        if inner.is_empty() {
            return None;
        }
        Some(self.pop_inner(inner))
    }

    /// Puts `item` at the back of the queue if there is room for it now,
    /// and otherwise hands it back at once.
    ///
    /// Which of the two happens depends on what other threads have done to
    /// the queue; that an item that comes back is `item` itself holds either
    /// way.
    pub fn try_push(&self, item: T) -> (r: Result<(), T>)
        ensures
            r matches Err(back) ==> back == item,
    {
        let mut held = unpoisoned(lock(self));
        let inner = ring(&mut held);
        self.try_push_locked(inner, item)
    }

    /// Takes the item at the front of the queue if there is one now, and
    /// otherwise gives `None` at once.
    pub fn try_pop(&self) -> (r: Option<T>) {
        let mut held = unpoisoned(lock(self));
        let inner = ring(&mut held);
        self.try_pop_locked(inner)
    }

    /// One round of a blocking push: puts `item` at the back of the queue if
    /// there is room; if there is none, sleeps until a consumer signals that
    /// it took an item (or the thread wakes spuriously) and tries once more.
    /// `item` comes back when there is still no room; a blocking push calls
    /// this until it succeeds.
    pub fn push_or_wait(&self, item: T) -> (r: Result<(), T>)
        ensures
            r matches Err(back) ==> back == item,
    {
        let mut held = unpoisoned(lock(self));
        let inner = ring(&mut held);
        if !inner.is_full() {
            self.push_inner(inner, item);
            return Ok(());
        }
        let mut held = unpoisoned(wait_not_full(held));
        let inner = ring(&mut held);
        self.try_push_locked(inner, item)
    }

    /// One round of a blocking pop: takes the item at the front of the
    /// queue if there is one; if there is none, sleeps until a producer
    /// signals that it added one (or the thread wakes spuriously) and tries
    /// once more. `None` when the queue is still empty; a blocking pop calls
    /// this until it gets an item.
    pub fn pop_or_wait(&self) -> (r: Option<T>) {
        let mut held = unpoisoned(lock(self));
        let inner = ring(&mut held);
        if !inner.is_empty() {
            return Some(self.pop_inner(inner));
        }
        let mut held = unpoisoned(wait_not_empty(held));
        let inner = ring(&mut held);
        self.try_pop_locked(inner)
    }

    /// Puts `item` behind the items of `inner`, which has a free slot, and
    /// wakes one consumer.
    pub fn push_inner(&self, inner: &mut Inner<T>, item: T)
        requires
            old(inner)@.len() < old(inner).spec_capacity(),
        ensures
            final(inner)@ == old(inner)@.push(item),
            final(inner).spec_capacity() == old(inner).spec_capacity(),
            final(inner).spec_head() == old(inner).spec_head(),
            final(inner).slots() == old(inner).slots().update(
                slot_of(
                    old(inner).spec_head() as int,
                    old(inner)@.len() as int,
                    old(inner).spec_capacity() as int,
                ),
                Some(item),
            ),
            final(inner).laid_out(),
    {
        proof {
            use_type_invariant(&*inner);
        }
        let ghost before = inner@;
        let cap = inner.buffer.len();
        let idx = if inner.head < cap - inner.len {
            inner.head + inner.len
        } else {
            inner.head - (cap - inner.len)
        };
        assert(idx == inner.slot(inner.len as int));
        let new_len = inner.len + 1;
        let head = inner.head;
        rewrite_ring(&mut inner.buffer, &mut inner.head, &mut inner.len, idx, Some(item), head, new_len);
        assert(inner@ =~= before.push(item));
        proof {
            lemma_ring_slot(head as int, new_len - 1, cap as int);
            use_type_invariant(&*inner);
            inner.lemma_laid_out();
        }
        notify_one(&self.not_empty);
    }

    /// Takes the oldest item out of `inner`, which holds one, and wakes one
    /// producer.
    pub fn pop_inner(&self, inner: &mut Inner<T>) -> (item: T)
        requires
            old(inner)@.len() > 0,
        ensures
            item == old(inner)@[0],
            final(inner)@ == old(inner)@.drop_first(),
            final(inner).spec_capacity() == old(inner).spec_capacity(),
            final(inner).spec_head() == slot_of(
                old(inner).spec_head() as int,
                1,
                old(inner).spec_capacity() as int,
            ),
            final(inner).slots() == old(inner).slots().update(old(inner).spec_head() as int, None),
            final(inner).laid_out(),
    {
        let taken = inner.take_front();
        notify_one(&self.not_full);
        taken.unwrap()
    }
}

} // verus!
