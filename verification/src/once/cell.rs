//! The byte itself, and the atomic operations on it.

use crate::once::call::{OnceCall, OnceEvent, OnceOp, Phase};
use crate::once::word::{
    is_done, locked_word, parked_word, state_of, OnceState, DONE_BIT, LOCKED_BIT, PARKED_BIT,
    POISON_BIT,
};
use std::sync::atomic::{fence, AtomicU8, Ordering};
use vstd::prelude::*;

verus! {

/// `std::sync::atomic::fence`: orders what the thread does before it and after it with respect to
/// other threads. It panics if it is asked for no order at all. What it does is not a value, so
/// nothing is claimed of it; contracts speak of the call itself.
pub assume_specification[ std::sync::atomic::fence ](order: Ordering)
    requires
        !(order is Relaxed),
;

/// A synchronization primitive which can be used to run a one-time
/// initialization.
pub struct Once(AtomicU8);

impl Once {
    /// The byte, as a thing that operations are applied to.
    pub closed spec fn cell(&self) -> AtomicU8 {
        self.0
    }

    /// Creates a new `Once` value.
    pub fn new() -> (r: Once)
        ensures
            call_ensures(AtomicU8::new, (0u8,), r.cell()),
    {
        Once(AtomicU8::new(0))
    }

    /// Creates a new `Once` value that is already in the completed state.
    pub fn new_completed() -> (r: Once)
        ensures
            call_ensures(AtomicU8::new, (DONE_BIT,), r.cell()),
    {
        Once(AtomicU8::new(DONE_BIT))
    }

    /// Returns a snapshot of the current state of this `Once`.
    ///
    /// The state may change immediately after this function returns.
    pub fn state(&self) -> (r: OnceState)
        ensures
            exists|word: u8| #[trigger]
                call_ensures(AtomicU8::load, (&self.cell(), Ordering::Acquire), word) && r
                    == state_of(word),
    {
        OnceState::of_word(self.0.load(Ordering::Acquire))
    }

    /// Returns `true` if this `Once` is in the completed state.
    ///
    /// A `false` result may be stale.
    pub fn is_completed(&self) -> (r: bool)
        ensures
            exists|word: u8| #[trigger]
                call_ensures(AtomicU8::load, (&self.cell(), Ordering::Acquire), word) && r
                    == is_done(word),
    {
        self.0.load(Ordering::Acquire) & DONE_BIT != 0
    }

    /// Begins to wait until initialization has completed.
    ///
    /// The wait ends in a panic if this `Once` has been poisoned because an initialization
    /// closure has panicked.
    pub fn wait(&self) -> (r: OnceCall)
        ensures
            r == (OnceCall { waits: true, ignore_poison: false, phase: Phase::Starting }),
    {
        OnceCall::wait(false)
    }

    /// Begins to wait until initialization has completed, ignoring poisoning.
    pub fn wait_force(&self) -> (r: OnceCall)
        ensures
            r == (OnceCall { waits: true, ignore_poison: true, phase: Phase::Starting }),
    {
        OnceCall::wait(true)
    }

    /// Begins to perform an initialization routine once and only once. The call is over already
    /// if initialization has completed. Otherwise it goes on with [`perform`](Self::perform), and
    /// ends in a panic if this `Once` has been poisoned because an initialization closure has
    /// panicked.
    pub fn call_once(&self) -> (r: OnceCall)
        ensures
            exists|word: u8| #[trigger]
                call_ensures(AtomicU8::load, (&self.cell(), Ordering::Acquire), word) && r == (
                OnceCall {
                    waits: false,
                    ignore_poison: false,
                    phase: if word == DONE_BIT {
                        Phase::Returned
                    } else {
                        Phase::Loading
                    },
                }),
    {
        let mut call = OnceCall::call_once(false);
        call.next(OnceEvent::Loaded(self.0.load(Ordering::Acquire)));
        call
    }

    /// Begins to perform the same function as [`call_once`](Self::call_once) except that
    /// poisoning is ignored.
    pub fn call_once_force(&self) -> (r: OnceCall)
        ensures
            r == (OnceCall { waits: false, ignore_poison: true, phase: Phase::Starting }),
    {
        OnceCall::call_once(true)
    }

    /// Whether a thread may go to sleep, by the byte as it is now. To be asked while the queue
    /// is locked.
    pub fn validate(&self, call: &OnceCall) -> (r: bool)
        ensures
            exists|word: u8| #[trigger]
                call_ensures(AtomicU8::load, (&self.cell(), Ordering::Relaxed), word) && r
                    == call.may_park(word),
    {
        call.should_park(self.0.load(Ordering::Relaxed))
    }

    /// Does what a thread has to do next if it is an operation on the byte, and returns what
    /// came of it. Returns `None` if there is something else to be done. A call that is over has
    /// synchronized with the initialization routine then.
    pub fn perform(&self, op: OnceOp) -> (r: Option<OnceEvent>)
        ensures
            match op {
                OnceOp::LoadAcquire => r matches Some(OnceEvent::Loaded(word)) && call_ensures(
                    AtomicU8::load,
                    (&self.cell(), Ordering::Acquire),
                    word,
                ),
                OnceOp::Load => r matches Some(OnceEvent::Loaded(word)) && call_ensures(
                    AtomicU8::load,
                    (&self.cell(), Ordering::Relaxed),
                    word,
                ),
                OnceOp::Acquire(state) => exists|result: Result<u8, u8>| #[trigger]
                    call_ensures(
                        AtomicU8::compare_exchange_weak,
                        (
                            &self.cell(),
                            state,
                            locked_word(state),
                            Ordering::Acquire,
                            Ordering::Relaxed,
                        ),
                        result,
                    ) && r == Some(event_of(result)) && (match result {
                        Ok(_) => r == Some(OnceEvent::Exchanged),
                        Err(word) => r == Some(OnceEvent::Refused(word)),
                    }),
                OnceOp::Announce(state) => exists|result: Result<u8, u8>| #[trigger]
                    call_ensures(
                        AtomicU8::compare_exchange_weak,
                        (
                            &self.cell(),
                            state,
                            parked_word(state),
                            Ordering::Relaxed,
                            Ordering::Relaxed,
                        ),
                        result,
                    ) && r == Some(event_of(result)) && (match result {
                        Ok(_) => r == Some(OnceEvent::Exchanged),
                        Err(word) => r == Some(OnceEvent::Refused(word)),
                    }),
                OnceOp::Complete => r matches Some(OnceEvent::Swapped(word)) && call_ensures(
                    AtomicU8::swap,
                    (&self.cell(), DONE_BIT, Ordering::Release),
                    word,
                ),
                OnceOp::Poison => r matches Some(OnceEvent::Swapped(word)) && call_ensures(
                    AtomicU8::swap,
                    (&self.cell(), POISON_BIT, Ordering::Release),
                    word,
                ),
                OnceOp::Return | OnceOp::Panic => r is None && call_ensures(
                    fence,
                    (Ordering::Acquire,),
                    (),
                ),
                _ => r is None,
            },
    {
        match op {
            OnceOp::LoadAcquire => Some(OnceEvent::Loaded(self.0.load(Ordering::Acquire))),
            OnceOp::Load => Some(OnceEvent::Loaded(self.0.load(Ordering::Relaxed))),
            OnceOp::Acquire(state) => {
                // We also clear the poison bit since we are going to try running
                // the closure again.
                let result = self.0.compare_exchange_weak(
                    state,
                    (state | LOCKED_BIT) & !POISON_BIT,
                    Ordering::Acquire,
                    Ordering::Relaxed,
                );
                Some(exchange_event(result))
            },
            OnceOp::Announce(state) => {
                let result = self.0.compare_exchange_weak(
                    state,
                    state | PARKED_BIT,
                    Ordering::Relaxed,
                    Ordering::Relaxed,
                );
                Some(exchange_event(result))
            },
            OnceOp::Complete => Some(
                OnceEvent::Swapped(self.0.swap(DONE_BIT, Ordering::Release)),
            ),
            OnceOp::Poison => Some(
                OnceEvent::Swapped(self.0.swap(POISON_BIT, Ordering::Release)),
            ),
            OnceOp::Return | OnceOp::Panic => {
                // An acquire fence is needed here since we didn't load the
                // state with Ordering::Acquire.
                fence(Ordering::Acquire);
                None
            },
            _ => None,
        }
    }

    /// The `Once` as it is shown to developers.
    pub fn debug(&self) -> (r: String)
        ensures
            exists|word: u8| #[trigger]
                call_ensures(AtomicU8::load, (&self.cell(), Ordering::Acquire), word) && r@
                    == "Once { state: "@ + state_of(word).name() + " }"@,
    {
        self.state().debug_once()
    }
}

impl Default for Once {
    fn default() -> (r: Once)
        ensures
            call_ensures(AtomicU8::new, (0u8,), r.cell()),
    {
        Once::new()
    }
}

/// What an attempt to exchange the byte comes to.
pub open spec fn event_of(result: Result<u8, u8>) -> OnceEvent {
    match result {
        Ok(_) => OnceEvent::Exchanged,
        Err(word) => OnceEvent::Refused(word),
    }
}

/// What an attempt to exchange the byte comes to.
fn exchange_event(result: Result<u8, u8>) -> (r: OnceEvent)
    ensures
        r == event_of(result),
{
    match result {
        Ok(_) => OnceEvent::Exchanged,
        Err(word) => OnceEvent::Refused(word),
    }
}

/// An exchange has happened exactly if the byte was as expected, and otherwise what it was is
/// reported as it was.
pub proof fn law_exchanges_are_told_apart(result: Result<u8, u8>)
    ensures
        event_of(result) is Exchanged <==> result is Ok,
        result matches Err(word) ==> event_of(result) == OnceEvent::Refused(word),
{
}

} // verus!
