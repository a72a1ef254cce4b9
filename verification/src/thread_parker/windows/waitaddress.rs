//! Parking by waiting on the address of a key.

use crate::thread_parker::{FlagOp, ParkStep};
use crate::util::{is_left, Remaining};
use std::sync::atomic::{AtomicUsize, Ordering};
use std::time::Instant;
use vstd::prelude::*;

verus! {

/// The number of milliseconds that stands for no timeout.
pub const INFINITE: u32 = 0xffff_ffff;

/// The functions to wait on an address with, and to wake up threads that do, by their addresses.
#[derive(Copy, Clone, Eq, PartialEq, Debug, Structural)]
pub struct WaitAddress {
    /// The function that waits.
    pub wait_on_address: usize,
    /// The function that wakes up a thread.
    pub wake_by_address_single: usize,
}

/// Wait while the key is 1, until it is woken up or the time that is given is over.
#[derive(Copy, Clone, Eq, PartialEq, Debug, Structural)]
pub struct WaitOnAddress {
    /// How long to wait at most, in milliseconds.
    pub timeout: u32,
}

/// What a change of the key leaves in it.
pub open spec fn stored(op: FlagOp) -> usize {
    match op {
        FlagOp::PreparePark => 1,
        FlagOp::UnparkLock => 0,
    }
}

/// The key after some changes.
pub open spec fn word_after(ops: Seq<FlagOp>) -> usize {
    if ops.len() == 0 {
        0
    } else {
        stored(ops.last())
    }
}

/// Whether a thread is parked, given its key.
pub open spec fn is_parked(word: usize) -> bool {
    word != 0
}

/// What a parking thread does, given the key.
pub open spec fn park_step(word: usize) -> ParkStep<WaitOnAddress> {
    if word != 0 {
        ParkStep::Wait(WaitOnAddress { timeout: INFINITE })
    } else {
        ParkStep::Unparked
    }
}

/// The milliseconds to wait when some time is left: no less than that, and as much as there can
/// be if that is too much.
pub open spec fn millis(left: Remaining) -> int {
    let exact = (left.total() + 999_999) / 1_000_000;
    if exact < INFINITE - 1 {
        exact as int
    } else {
        INFINITE - 1
    }
}

/// What a thread does that parks with a timeout, given the key and the time that is left.
pub open spec fn park_until_step(word: usize, left: Remaining) -> ParkStep<WaitOnAddress> {
    if word == 0 {
        ParkStep::Unparked
    } else if left.total() == 0 {
        ParkStep::TimedOut
    } else {
        ParkStep::Wait(WaitOnAddress { timeout: millis(left) as u32 })
    }
}

impl WaitOnAddress {
    /// Wait for as much time as is left.
    pub fn for_at_least(left: Remaining) -> (r: WaitOnAddress)
        requires
            left.wf(),
        ensures
            r.timeout == millis(left),
    {
        // A second is a whole number of milliseconds
        let part: u32 = (left.nanos + 999_999) / 1_000_000;
        let total: u128 = left.secs as u128 * 1_000 + part as u128;
        assert(total == (left.total() + 999_999) / 1_000_000) by {
            let n = left.nanos + 999_999;
            assert(left.total() + 999_999 == (left.secs * 1_000) * 1_000_000 + n);
            vstd::arithmetic::div_mod::lemma_hoist_over_denominator(
                n,
                left.secs * 1_000,
                1_000_000,
            );
        }
        if total < 0xffff_fffe {
            WaitOnAddress { timeout: total as u32 }
        } else {
            WaitOnAddress { timeout: INFINITE - 1 }
        }
    }
}

impl WaitAddress {
    /// The facility, if the module that holds it is there (that is, its handle is not 0), and
    /// both functions are in it.
    pub fn create(
        synch_dll: usize,
        wait_on_address: Option<usize>,
        wake_by_address_single: Option<usize>,
    ) -> (r: Option<WaitAddress>)
        ensures
            r == match (wait_on_address, wake_by_address_single) {
                (Some(wait), Some(wake)) if synch_dll != 0 => Some(
                    WaitAddress { wait_on_address: wait, wake_by_address_single: wake },
                ),
                _ => None,
            },
    {
        if synch_dll == 0 {
            return None;
        }
        match (wait_on_address, wake_by_address_single) {
            (Some(wait_on_address), Some(wake_by_address_single)) => Some(
                WaitAddress { wait_on_address, wake_by_address_single },
            ),
            _ => None,
        }
    }

    /// Prepares a thread for parking. This should be called before adding it to the queue.
    pub fn prepare_park(&self, key: &AtomicUsize)
        ensures
            call_ensures(
                AtomicUsize::store,
                (key, stored(FlagOp::PreparePark), Ordering::Relaxed),
                (),
            ),
    {
        key.store(1, Ordering::Relaxed);
    }

    /// Checks if the park timed out.
    pub fn timed_out(&self, key: &AtomicUsize) -> (r: bool)
        ensures
            exists|word: usize| #[trigger]
                call_ensures(AtomicUsize::load, (key, Ordering::Relaxed), word) && r == is_parked(
                    word,
                ),
    {
        key.load(Ordering::Relaxed) != 0
    }

    /// Parks a thread until it is unparked.
    pub fn park(&self, key: &AtomicUsize) -> (r: ParkStep<WaitOnAddress>)
        ensures
            exists|word: usize| #[trigger]
                call_ensures(AtomicUsize::load, (key, Ordering::Acquire), word) && r == park_step(
                    word,
                ),
    {
        if key.load(Ordering::Acquire) != 0 {
            ParkStep::Wait(WaitOnAddress { timeout: INFINITE })
        } else {
            ParkStep::Unparked
        }
    }

    /// Parks a thread until it is unparked or the timeout is reached.
    pub fn park_until(&self, key: &AtomicUsize, timeout: Instant) -> (r: ParkStep<WaitOnAddress>)
        ensures
            exists|word: usize, left: Remaining| #[trigger]
                call_ensures(AtomicUsize::load, (key, Ordering::Acquire), word)
                    && #[trigger] left.wf() && (word != 0 ==> left.is_until(timeout)) && r
                    == park_until_step(word, left),
            r is TimedOut ==> is_left(timeout, 0, 0),
            r matches ParkStep::Wait(wait) ==> exists|secs: u64, nanos: u32| #[trigger]
                is_left(timeout, secs, nanos) && (secs > 0 || nanos > 0) && wait.timeout < INFINITE
                    && (secs * 1_000_000_000 + nanos <= wait.timeout * 1_000_000 || wait.timeout
                    == INFINITE - 1),
    {
        let word: usize = key.load(Ordering::Acquire);
        if word == 0 {
            assert((Remaining { secs: 0, nanos: 0 }).wf());
            return ParkStep::Unparked;
        }
        let left = Remaining::until(timeout);
        if left.is_over() {
            ParkStep::TimedOut
        } else {
            ParkStep::Wait(WaitOnAddress::for_at_least(left))
        }
    }

    /// Prepares to unpark a thread.
    pub fn unpark_lock<'a>(&self, key: &'a AtomicUsize) -> (r: UnparkHandle<'a>)
        ensures
            call_ensures(
                AtomicUsize::store,
                (key, stored(FlagOp::UnparkLock), Ordering::Release),
                (),
            ),
            r.word() == *key,
            r.wake_function() == self.wake_by_address_single,
    {
        // We don't need to lock anything, just clear the state
        key.store(0, Ordering::Release);
        UnparkHandle { key, waitaddress: *self }
    }
}

/// Handle for a thread that is about to be unparked.
pub struct UnparkHandle<'a> {
    key: &'a AtomicUsize,
    waitaddress: WaitAddress,
}

/// Wake up one thread that waits on the key.
pub struct WakeByAddressSingle<'a> {
    /// The key.
    pub key: &'a AtomicUsize,
    /// The function that wakes up a thread.
    pub wake_function: usize,
}

impl<'a> UnparkHandle<'a> {
    /// The key that the thread waits on.
    pub closed spec fn word(&self) -> AtomicUsize {
        *self.key
    }

    /// The function that wakes up the thread.
    pub closed spec fn wake_function(&self) -> usize {
        self.waitaddress.wake_by_address_single
    }

    /// Wakes up the parked thread. This should be called after the queue lock is released to
    /// avoid blocking the queue for too long.
    pub fn unpark(self) -> (r: WakeByAddressSingle<'a>)
        ensures
            *r.key == self.word(),
            r.wake_function == self.wake_function(),
    {
        WakeByAddressSingle {
            key: self.key,
            wake_function: self.waitaddress.wake_by_address_single,
        }
    }
}

} // verus!
