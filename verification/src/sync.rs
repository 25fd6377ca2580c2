//! Synchronization primitives: their states and the rules by which they change.

pub mod atomic_waker;
pub mod error;
pub mod mpsc;
pub mod mutex;
pub mod oneshot;
pub mod rwlock;
pub mod semaphore;
pub mod semaphore_inner;
pub mod waiter;
pub mod wake_list;
