//! The parts of `std::sync` that the queue is built on.
//!
//! `std::sync::Mutex`, `MutexGuard`, `PoisonError` and `Condvar` are declared
//! here as opaque types, and each call into them goes through one small
//! function whose contract is taken on trust. None of them claims anything
//! about the value that the mutex protects: what the queue knows of that value
//! comes from the type invariant of the value itself.
//!
//! A queue's mutex is held through a `Locked`, which only `lock` makes, from
//! the queue's own mutex, and only `recover` and the two waits pass on. It
//! keeps the guard together with the queue it came from, so a wait always
//! pairs the queue's condition variable with that queue's own mutex, as
//! `Condvar::wait` asks: no guard of another mutex can reach it.

use std::sync::{Condvar, Mutex, MutexGuard, PoisonError};
use vstd::prelude::*;

use crate::mutex_ring::{Inner, MutexRingQueue};

verus! {

#[verifier::external_type_specification]
#[verifier::external_body]
#[verifier::reject_recursive_types(T)]
pub struct ExMutex<T: ?Sized>(Mutex<T>);

#[verifier::external_type_specification]
#[verifier::external_body]
#[verifier::reject_recursive_types(T)]
pub struct ExMutexGuard<'a, T: ?Sized + 'a>(MutexGuard<'a, T>);

#[verifier::external_type_specification]
#[verifier::external_body]
#[verifier::reject_recursive_types(T)]
pub struct ExPoisonError<T>(PoisonError<T>);

#[verifier::external_type_specification]
#[verifier::external_body]
pub struct ExCondvar(Condvar);

/// Calls `Mutex::new`: a mutex, unlocked, that owns `value`.
/// Nothing is claimed of the result.
#[verifier::external_body]
pub(crate) fn new_mutex<T>(value: T) -> (m: Mutex<T>) {
    Mutex::new(value)
}

/// A queue's mutex, held by this thread: the guard, and the queue whose
/// mutex it locked. Its fields are private to this module, where only the
/// functions below make one.
#[verifier::reject_recursive_types(T)]
pub struct Locked<'a, T> {
    queue: &'a MutexRingQueue<T>,
    guard: MutexGuard<'a, Inner<T>>,
}

/// A queue's mutex, held by this thread after another thread panicked while
/// it held it: the error that carries the guard, and the queue whose mutex it
/// locked. Made only by the functions below.
#[verifier::reject_recursive_types(T)]
pub struct Poisoned<'a, T> {
    queue: &'a MutexRingQueue<T>,
    error: PoisonError<MutexGuard<'a, Inner<T>>>,
}

/// Calls `Mutex::lock` on the mutex of `queue`: blocks until this thread
/// holds it, and gives it as a `Locked`, or as a `Poisoned` when a thread
/// panicked while it held the lock. Nothing is claimed of the result.
///
/// The standard library documents that a thread which locks a mutex it
/// already holds may deadlock or panic. No clause here rules that out:
/// whether the calling thread holds the lock cannot be stated. Each function
/// of the queue locks once and lets the lock go before it returns.
#[verifier::external_body]
pub(crate) fn lock<'a, T>(queue: &'a MutexRingQueue<T>) -> (locked: Result<Locked<'a, T>, Poisoned<'a, T>>) {
    match queue.state.lock() {
        Ok(guard) => Ok(Locked { queue, guard }),
        Err(error) => Err(Poisoned { queue, error }),
    }
}

/// Calls `PoisonError::into_inner`: the guard that a poisoned lock still
/// hands out, kept with its queue. Nothing is claimed of the result.
#[verifier::external_body]
pub(crate) fn recover<'a, T>(poisoned: Poisoned<'a, T>) -> (locked: Locked<'a, T>) {
    Locked { queue: poisoned.queue, guard: poisoned.error.into_inner() }
}

/// Calls `Condvar::wait` on `not_full` of the queue that `locked` holds,
/// with that queue's own guard: lets the lock go, sleeps until a consumer
/// signals (or the thread wakes spuriously), and locks again; the result is
/// as for `lock`. Nothing is claimed of the result.
#[verifier::external_body]
pub(crate) fn wait_not_full<'a, T>(locked: Locked<'a, T>) -> (relocked: Result<Locked<'a, T>, Poisoned<'a, T>>) {
    let Locked { queue, guard } = locked;
    match queue.not_full.wait(guard) {
        Ok(guard) => Ok(Locked { queue, guard }),
        Err(error) => Err(Poisoned { queue, error }),
    }
}

/// Calls `Condvar::wait` on `not_empty` of the queue that `locked` holds,
/// with that queue's own guard: lets the lock go, sleeps until a producer
/// signals (or the thread wakes spuriously), and locks again; the result is
/// as for `lock`. Nothing is claimed of the result.
#[verifier::external_body]
pub(crate) fn wait_not_empty<'a, T>(locked: Locked<'a, T>) -> (relocked: Result<Locked<'a, T>, Poisoned<'a, T>>) {
    let Locked { queue, guard } = locked;
    match queue.not_empty.wait(guard) {
        Ok(guard) => Ok(Locked { queue, guard }),
        Err(error) => Err(Poisoned { queue, error }),
    }
}

/// Calls `DerefMut::deref_mut` on the guard that `locked` holds: the ring
/// its queue's mutex owns. Nothing is claimed of the result.
#[verifier::external_body]
pub(crate) fn ring<'g, 'a, T>(locked: &'g mut Locked<'a, T>) -> (inner: &'g mut Inner<T>) {
    &mut *locked.guard
}

/// Calls `Condvar::new`. Nothing is claimed of the result.
#[verifier::external_body]
pub(crate) fn new_condvar() -> (c: Condvar) {
    Condvar::new()
}

/// Calls `Condvar::notify_one`: wakes one thread that waits on `c`, if any.
#[verifier::external_body]
pub(crate) fn notify_one(c: &Condvar) {
    c.notify_one()
}

} // verus!
