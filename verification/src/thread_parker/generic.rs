//! A simple atomic-flag-based thread parker. Used on platforms without better parking facilities
//! available.

use crate::thread_parker::{FlagOp, ParkStep, ThreadParkerT, UnparkHandleT};
use crate::util::{is_left, Remaining};
use std::sync::atomic::{AtomicBool, Ordering};
use std::time::Instant;
use vstd::prelude::*;

verus! {

/// Helper type for putting a thread to sleep until some other thread wakes it up.
pub struct ThreadParker {
    parked: AtomicBool,
}

/// Give up the rest of the time slice.
#[derive(Copy, Clone, Eq, PartialEq, Debug, Structural)]
pub struct Yield;

impl ThreadParker {
    /// The flag, as a thing that operations are applied to.
    pub closed spec fn flag(&self) -> AtomicBool {
        self.parked
    }
}

/// What a change of the flag leaves in it.
pub open spec fn stored(op: FlagOp) -> bool {
    op is PreparePark
}

/// The flag after some changes.
pub open spec fn flag_after(ops: Seq<FlagOp>) -> bool {
    ops.len() > 0 && stored(ops.last())
}

/// What a parking thread does, given the flag.
pub open spec fn park_step(parked: bool) -> ParkStep<Yield> {
    if parked {
        ParkStep::Wait(Yield)
    } else {
        ParkStep::Unparked
    }
}

/// What a thread does that parks with a timeout, given the flag and the time that is left.
pub open spec fn park_until_step(parked: bool, left: Remaining) -> ParkStep<Yield> {
    if !parked {
        ParkStep::Unparked
    } else if left.total() == 0 {
        ParkStep::TimedOut
    } else {
        ParkStep::Wait(Yield)
    }
}

impl ThreadParkerT for ThreadParker {
    type Backend = ();

    type Wait = Yield;

    type UnparkHandle<'a> = UnparkHandle;

    fn is_cheap_to_construct() -> (r: bool)
        ensures
            r,
    {
        true
    }

    fn new(backend: ()) -> (r: ThreadParker)
        ensures
            call_ensures(AtomicBool::new, (flag_after(seq![]),), r.flag()),
    {
        ThreadParker { parked: AtomicBool::new(false) }
    }

    fn prepare_park(&self)
        ensures
            call_ensures(
                AtomicBool::store,
                (&self.flag(), stored(FlagOp::PreparePark), Ordering::Relaxed),
                (),
            ),
    {
        self.parked.store(true, Ordering::Relaxed);
    }

    fn timed_out(&self) -> (r: bool)
        ensures
            call_ensures(AtomicBool::load, (&self.flag(), Ordering::Relaxed), r),
    {
        self.parked.load(Ordering::Relaxed)
    }

    fn park(&self) -> (r: ParkStep<Yield>)
        ensures
            exists|parked: bool| #[trigger]
                call_ensures(AtomicBool::load, (&self.flag(), Ordering::Acquire), parked) && r
                    == park_step(parked),
    {
        if self.parked.load(Ordering::Acquire) {
            ParkStep::Wait(Yield)
        } else {
            ParkStep::Unparked
        }
    }

    fn park_until(&self, timeout: Instant) -> (r: ParkStep<Yield>)
        ensures
            exists|parked: bool, left: Remaining| #[trigger]
                call_ensures(AtomicBool::load, (&self.flag(), Ordering::Acquire), parked)
                    && #[trigger] left.wf() && (parked ==> left.is_until(timeout)) && r
                    == park_until_step(parked, left),
            r is TimedOut ==> is_left(timeout, 0, 0),
            r is Wait ==> exists|secs: u64, nanos: u32| #[trigger]
                is_left(timeout, secs, nanos) && (secs > 0 || nanos > 0),
    {
        let parked = self.parked.load(Ordering::Acquire);
        if !parked {
            assert((Remaining { secs: 0, nanos: 0 }).wf());
            return ParkStep::Unparked;
        }
        let left = Remaining::until(timeout);
        if left.is_over() {
            ParkStep::TimedOut
        } else {
            ParkStep::Wait(Yield)
        }
    }

    fn unpark_lock<'a>(&'a self) -> (r: UnparkHandle)
        ensures
            call_ensures(
                AtomicBool::store,
                (&self.flag(), stored(FlagOp::UnparkLock), Ordering::Release),
                (),
            ),
    {
        // We don't need to lock anything, just clear the state
        self.parked.store(false, Ordering::Release);
        UnparkHandle(())
    }
}

/// Handle for a thread that is about to be unparked.
pub struct UnparkHandle(());

impl UnparkHandleT for UnparkHandle {
    type Wake = ();

    fn unpark(self) -> (r: ()) {
    }
}

} // verus!
