//! A bounded multi-producer multi-consumer queue: a fixed ring of slots
//! behind a mutex, with one condition variable for "not full" and one for
//! "not empty".

pub mod laws;
pub mod mutex_ring;
pub mod sync;

pub use mutex_ring::MutexRingQueue;
