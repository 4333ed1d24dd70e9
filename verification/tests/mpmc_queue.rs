use std::sync::atomic::{AtomicUsize, Ordering};
use std::sync::Arc;

use bounded_mpmc_queue::MutexRingQueue;

// A blocking push or pop is a loop over one round of waiting, as a caller
// of the queue writes it.

fn push<T>(q: &MutexRingQueue<T>, item: T) {
    let mut item = item;
    loop {
        match q.push_or_wait(item) {
            Ok(()) => return,
            Err(back) => item = back,
        }
    }
}

fn pop<T>(q: &MutexRingQueue<T>) -> T {
    loop {
        if let Some(v) = q.pop_or_wait() {
            return v;
        }
    }
}

#[test]
fn single_thread_try_semantics() {
    let q = MutexRingQueue::<u32>::new(2);

    assert_eq!(q.try_pop(), None);
    assert_eq!(q.try_push(1), Ok(()));
    assert_eq!(q.try_push(2), Ok(()));
    assert_eq!(q.try_push(3), Err(3)); // full

    assert_eq!(q.try_pop(), Some(1));
    assert_eq!(q.try_pop(), Some(2));
    assert_eq!(q.try_pop(), None); // empty
}

// ---------------------------------------------------------------------------
// Capacity-1 edge case
// ---------------------------------------------------------------------------

#[test]
fn capacity_one_single_thread() {
    let q = MutexRingQueue::<i32>::new(1);
    assert_eq!(q.try_push(42), Ok(()));
    assert_eq!(q.try_push(99), Err(99));
    assert_eq!(q.try_pop(), Some(42));
    assert_eq!(q.try_pop(), None);
}

// ---------------------------------------------------------------------------
// Fill then drain (single thread, ring wrapping)
// ---------------------------------------------------------------------------

#[test]
fn fill_drain_single_thread() {
    let cap = 16;
    let q = MutexRingQueue::<usize>::new(cap);

    for i in 0..cap {
        assert_eq!(q.try_push(i), Ok(()));
    }
    assert_eq!(q.try_push(999), Err(999));

    for i in 0..cap {
        assert_eq!(q.try_pop(), Some(i));
    }
    assert_eq!(q.try_pop(), None);
}

// ---------------------------------------------------------------------------
// Multiple fill/drain cycles (head and tail wrap around)
// ---------------------------------------------------------------------------

#[test]
fn multiple_fill_drain_cycles() {
    let cap = 8;
    let q = MutexRingQueue::<usize>::new(cap);

    for cycle in 0..10 {
        let base = cycle * cap;
        for i in 0..cap {
            push(&q, base + i);
        }
        for i in 0..cap {
            assert_eq!(pop(&q), base + i);
        }
    }
    assert_eq!(q.try_pop(), None);
}

// ---------------------------------------------------------------------------
// Drop correctness: every pushed item is dropped exactly once
// ---------------------------------------------------------------------------

fn make_tracked(counter: &Arc<AtomicUsize>, val: u32) -> TrackedItem {
    TrackedItem {
        _val: val,
        counter: counter.clone(),
    }
}

struct TrackedItem {
    #[allow(dead_code)]
    _val: u32,
    counter: Arc<AtomicUsize>,
}

impl Drop for TrackedItem {
    fn drop(&mut self) {
        self.counter.fetch_add(1, Ordering::Relaxed);
    }
}

#[test]
fn drop_correctness_items_dropped_on_queue_drop() {
    let counter = Arc::new(AtomicUsize::new(0));
    {
        let q = MutexRingQueue::<TrackedItem>::new(8);
        for i in 0..5u32 {
            push(&q, make_tracked(&counter, i));
        }
        // pop 2, leaving 3 inside when queue drops
        let _ = pop(&q);
        let _ = pop(&q);
    }
    // 2 popped (dropped after pop) + 3 dropped with the queue = 5
    assert_eq!(counter.load(Ordering::SeqCst), 5);
}

#[test]
fn drop_correctness_full_pop() {
    let counter = Arc::new(AtomicUsize::new(0));
    {
        let q = MutexRingQueue::<TrackedItem>::new(4);
        for i in 0..4u32 {
            push(&q, make_tracked(&counter, i));
        }
        for _ in 0..4 {
            let _ = pop(&q);
        }
    }
    assert_eq!(counter.load(Ordering::SeqCst), 4);
}

// ---------------------------------------------------------------------------
// try_push returns the original item back on failure
// ---------------------------------------------------------------------------

#[test]
fn try_push_returns_original_item() {
    let q = MutexRingQueue::<String>::new(1);
    push(&q, "first".to_string());
    let result = q.try_push("second".to_string());
    assert_eq!(result, Err("second".to_string()));
}

// ---------------------------------------------------------------------------
// Zero-sized type (ZST)
// ---------------------------------------------------------------------------

#[test]
fn zero_sized_type() {
    let q = MutexRingQueue::<()>::new(8);
    for _ in 0..8 {
        push(&q, ());
    }
    assert_eq!(q.try_push(()), Err(()));
    for _ in 0..8 {
        assert_eq!(q.try_pop(), Some(()));
    }
    assert_eq!(q.try_pop(), None);
}
