//! Putting a thread to sleep until some other thread wakes it up.
//!
//! How that is done depends on the platform, but it is always a flag that is set before the
//! thread goes to sleep and cleared by whoever wakes it up. What a parker decides is here; what
//! it asks the operating system to do is returned, as a value, to be done by the caller.

pub mod generic;
pub mod laws;
pub mod linux;
pub mod windows;

use std::time::Instant;
use vstd::prelude::*;

verus! {

/// What a thread that is parking has to do.
#[derive(Eq, PartialEq, Debug, Structural)]
pub enum ParkStep<W> {
    /// Stop: it has been unparked.
    Unparked,
    /// Stop: the timeout is reached.
    TimedOut,
    /// Sleep as it is told, and then ask again.
    Wait(W),
}

/// A change of the flag of a parker.
pub enum FlagOp {
    /// A thread prepares to park.
    PreparePark,
    /// A thread is about to be unparked.
    UnparkLock,
}

/// Trait for the platform thread parker implementation.
///
/// The protocol transfers ownership of the surrounding thread data between the parked thread and
/// the parking lot. Writes performed by an unparker before `unpark_lock` must be visible after
/// `park` or `park_until` has said `Unparked`.
pub trait ThreadParkerT: Sized {
    /// What the parker is made for.
    type Backend;

    /// How the operating system is asked to put a thread to sleep.
    type Wait;

    /// A thread that is about to be unparked.
    type UnparkHandle<'a>: UnparkHandleT where Self: 'a;

    /// Whether a parker is cheap to construct.
    fn is_cheap_to_construct() -> bool;

    /// Creates a parker.
    fn new(backend: Self::Backend) -> Self;

    /// Prepares the parker. This must be called while the local thread still owns the thread
    /// data, before adding it to the queue.
    fn prepare_park(&self);

    /// Checks if the park timed out. This should be called while holding the queue lock after
    /// `park_until` has said `TimedOut`.
    fn timed_out(&self) -> bool;

    /// Parks the thread until it is unparked. This must be called after the thread data has been
    /// added to the queue and the queue has been unlocked.
    fn park(&self) -> ParkStep<Self::Wait>;

    /// Parks the thread until it is unparked or the timeout is reached. If the latter, the caller
    /// must resolve the timeout while holding the queue lock.
    fn park_until(&self, timeout: Instant) -> ParkStep<Self::Wait>;

    /// Prepares to unpark a thread after removing its thread data from the queue and writing its
    /// result fields. This must be called while holding the queue lock.
    fn unpark_lock<'a>(&'a self) -> Self::UnparkHandle<'a>;
}

/// Handle for a thread that is about to be unparked. We mark the thread as unparked while holding
/// the queue lock, but delay any potentially expensive wake operation until after the queue lock
/// is released.
pub trait UnparkHandleT: Sized {
    /// How the operating system is asked to wake up a thread.
    type Wake;

    /// Wakes up the parked thread. This should be called after the queue lock is released to
    /// avoid blocking the queue for too long.
    fn unpark(self) -> Self::Wake;
}

} // verus!
