//! Compact synchronization primitives built on a parking lot: a hash table that maps lock
//! addresses to queues of sleeping threads.
//!
//! What the primitives decide is here, as functions with contracts. What only the operating system
//! can do, such as putting a thread to sleep, is asked of the caller: a call that may block hands
//! out one operation after the other and is told what came of each.

pub mod condvar;
pub mod deadlock;
pub mod guard;
pub mod lot;
pub mod once;
pub mod recursive_rwlock;
pub mod remutex;
pub mod thread_parker;
pub mod util;

pub use condvar::{Condvar, RawCondvar, RawCondvarTimed, WaitTimeoutResult};
pub use lot::types::{
    FilterOp, ParkResult, ParkToken, RequeueOp, UnparkResult, UnparkToken,
};
pub use once::{Once, OnceState};
pub use recursive_rwlock::RecursiveRwLock;
pub use remutex::{RawThreadId, ReentrantMutex, ThreadId};
