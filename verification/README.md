# bounded_mpmc_queue

A bounded multi-producer multi-consumer queue: a ring of slots behind a
`std::sync::Mutex`, with one `Condvar` for producers waiting on a full queue
and one for consumers waiting on an empty one.

- `src/mutex_ring.rs`: the ring (`Inner`), whose items are modelled as a
  sequence, oldest first, and the queue (`MutexRingQueue`). Every step taken
  under the lock is verified against that model.
- `src/laws.rs`: what follows over many steps, for any mix of pushes and
  pops: first in, first out, every item out exactly once, and a slot count
  fixed for the ring's whole life.
- `src/sync.rs`: the declarations of `Mutex`, `MutexGuard`, `PoisonError`
  and `Condvar`, the trusted wrappers of the calls made into them, and
  `Locked`, which keeps a guard with the queue whose mutex it locked, so a
  wait always pairs a queue's condition variable with that queue's mutex.
- `app/lib.rs`: the `BoundedQueue` trait, whose blocking `push` and `pop`
  repeat one verified round of waiting until it succeeds.
