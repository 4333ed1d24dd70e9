use bounded_mpmc_queue::mutex_ring::{Inner, MutexRingQueue};

#[test]
fn new_ring_is_empty_with_its_capacity() {
    let ring = Inner::<u8>::new(3);
    assert_eq!(ring.capacity(), 3);
    assert!(ring.is_empty());
    assert!(!ring.is_full());
}

#[test]
fn ring_of_one_slot_is_full_after_one_push() {
    let q = MutexRingQueue::<u8>::new(1);
    let mut ring = Inner::new(1);
    q.push_inner(&mut ring, 7);
    assert!(ring.is_full());
    assert!(!ring.is_empty());
    assert_eq!(ring.capacity(), 1);
    assert_eq!(q.pop_inner(&mut ring), 7);
    assert!(ring.is_empty());
}

#[test]
fn items_wrap_around_the_end_of_the_ring_in_order() {
    let q = MutexRingQueue::<u32>::new(1);
    let mut ring = Inner::new(3);
    q.push_inner(&mut ring, 1);
    q.push_inner(&mut ring, 2);
    q.push_inner(&mut ring, 3);
    assert!(ring.is_full());
    assert_eq!(q.pop_inner(&mut ring), 1);
    q.push_inner(&mut ring, 4); // goes into the first slot again
    assert!(ring.is_full());
    assert_eq!(q.pop_inner(&mut ring), 2);
    assert_eq!(q.pop_inner(&mut ring), 3);
    q.push_inner(&mut ring, 5);
    assert_eq!(q.pop_inner(&mut ring), 4);
    assert_eq!(q.pop_inner(&mut ring), 5);
    assert!(ring.is_empty());
    assert_eq!(ring.capacity(), 3);
}

#[test]
fn full_ring_refuses_and_keeps_its_items() {
    let q = MutexRingQueue::<u32>::new(1);
    let mut ring = Inner::new(2);
    assert_eq!(q.try_push_locked(&mut ring, 10), Ok(()));
    assert_eq!(q.try_push_locked(&mut ring, 20), Ok(()));
    assert_eq!(q.try_push_locked(&mut ring, 30), Err(30));
    assert_eq!(q.try_pop_locked(&mut ring), Some(10));
    assert_eq!(q.try_pop_locked(&mut ring), Some(20));
    assert_eq!(q.try_pop_locked(&mut ring), None);
    assert_eq!(q.try_pop_locked(&mut ring), None);
    assert!(ring.is_empty());
}

#[test]
fn items_come_out_in_the_order_they_went_in() {
    // held [1, 2], then 10 and 20 pushed: four pops give 1, 2, 10, 20
    let q = MutexRingQueue::<u32>::new(1);
    let mut ring = Inner::new(4);
    q.push_inner(&mut ring, 1);
    q.push_inner(&mut ring, 2);
    q.push_inner(&mut ring, 10);
    q.push_inner(&mut ring, 20);
    let mut out = Vec::new();
    for _ in 0..4 {
        out.push(q.pop_inner(&mut ring));
    }
    assert_eq!(out, vec![1, 2, 10, 20]);
}

#[test]
fn every_item_pushed_comes_out_once() {
    let q = MutexRingQueue::<u32>::new(1);
    let mut ring = Inner::new(3);
    let mut out = Vec::new();
    for x in [5u32, 5, 6, 7, 5, 8] {
        if ring.is_full() {
            out.push(q.pop_inner(&mut ring));
        }
        q.push_inner(&mut ring, x);
    }
    while let Some(v) = q.try_pop_locked(&mut ring) {
        out.push(v);
    }
    assert_eq!(out, vec![5, 5, 6, 7, 5, 8]);
}

#[test]
fn one_round_of_a_blocking_push_or_pop_needs_no_wait_when_it_can_go_ahead() {
    let q = MutexRingQueue::<u32>::new(2);
    assert_eq!(q.push_or_wait(1), Ok(()));
    assert_eq!(q.push_or_wait(2), Ok(()));
    assert_eq!(q.pop_or_wait(), Some(1));
    assert_eq!(q.try_push(3), Ok(()));
    assert_eq!(q.pop_or_wait(), Some(2));
    assert_eq!(q.pop_or_wait(), Some(3));
    assert_eq!(q.try_pop(), None);
}
