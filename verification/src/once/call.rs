//! What one thread does that calls a closure once or waits for it.
//!
//! A thread goes from phase to phase. In each phase there is one thing to be done, an
//! [`OnceOp`]; what comes of it is reported back as an [`OnceEvent`], which leads to the next
//! phase.

use crate::once::word::{
    is_done, is_locked, is_parked, is_poisoned, OnceState, DONE_BIT, LOCKED_BIT, PARKED_BIT,
    POISON_BIT,
};
use vstd::prelude::*;

verus! {

/// What a thread has to do next.
#[derive(Copy, Clone, Eq, PartialEq, Debug, Structural)]
pub enum OnceOp {
    /// Load the byte with acquire ordering.
    LoadAcquire,
    /// Load the byte.
    Load,
    /// Try to exchange the given byte for one that says that the closure is being executed.
    Acquire(u8),
    /// Try to exchange the given byte for one that says that threads may be parked.
    Announce(u8),
    /// Spin for a moment, unless that was done often enough.
    Spin,
    /// Park on the address of the `Once`, if [`OnceCall::should_park`] allows it, until somebody
    /// unparks all threads. After that the spinning may start anew.
    Park,
    /// Execute the closure, and record ownership of the `Once` while it is being executed.
    Run(OnceState),
    /// Write a byte that says that initialization has completed.
    Complete,
    /// Write a byte that says that the closure has panicked.
    Poison,
    /// Unpark all threads that are parked on the address of the `Once`.
    UnparkAll,
    /// Return.
    Return,
    /// Panic: the `Once` instance has previously been poisoned.
    Panic,
    /// Let the panic of the closure go on.
    Unwind,
}

/// What came of an [`OnceOp`].
#[derive(Copy, Clone, Eq, PartialEq, Debug, Structural)]
pub enum OnceEvent {
    /// The byte was loaded.
    Loaded(u8),
    /// The byte was exchanged.
    Exchanged,
    /// The byte was not exchanged; this is what it was.
    Refused(u8),
    /// Whether the thread has spun.
    Spun(bool),
    /// The thread was not allowed to park, or was parked and has been unparked.
    Unparked,
    /// The closure has returned.
    Finished,
    /// The closure has panicked.
    Failed,
    /// A byte was written; this is what was there before.
    Swapped(u8),
    /// All threads have been unparked.
    WokeAll,
}

/// How far a thread has got.
#[derive(Copy, Clone, Eq, PartialEq, Debug, Structural)]
pub enum Phase {
    /// At the very beginning.
    Starting,
    /// Going to look at the byte.
    Loading,
    /// Seen a byte that says that no closure is being executed; trying to execute one.
    Acquiring(u8),
    /// Seen a byte that says that a closure is being executed; spinning.
    Spinning(u8),
    /// About to announce that it is going to park.
    Registering,
    /// Announcing that it is going to park, having seen the given byte.
    Announcing(u8),
    /// Parking.
    Parking,
    /// Executing the closure; whether an earlier one has panicked.
    Running(bool),
    /// The closure has returned.
    Completing,
    /// The closure has panicked.
    Poisoning,
    /// Waking up the parked threads; whether the closure has panicked.
    Waking(bool),
    /// Returned.
    Returned,
    /// Refused to go on because the `Once` is poisoned.
    Refusing,
    /// Done with a panic of the closure.
    Unwinding,
}

/// A thread that calls a closure once, or waits until that has happened.
#[derive(Copy, Clone, Eq, PartialEq, Debug, Structural)]
pub struct OnceCall {
    /// Whether the thread only waits, and has no closure of its own.
    pub waits: bool,
    /// Whether the thread goes on when an earlier closure has panicked.
    pub ignore_poison: bool,
    /// How far it has got.
    pub phase: Phase,
}

impl OnceCall {
    /// Whether the thread does not go on from a byte, whatever else it says.
    pub open spec fn is_terminal(self, word: u8) -> bool {
        is_done(word) || (is_poisoned(word) && !self.ignore_poison)
    }

    /// Where the thread goes from a byte that it has seen.
    pub open spec fn look(self, word: u8) -> Phase {
        if is_done(word) {
            Phase::Returned
        } else if is_poisoned(word) && !self.ignore_poison {
            Phase::Refusing
        } else if self.waits {
            // Only spin while an initialization routine is actively running.
            if is_locked(word) && !is_parked(word) {
                Phase::Spinning(word)
            } else {
                Phase::Registering
            }
        } else if !is_locked(word) {
            Phase::Acquiring(word)
        } else if !is_parked(word) {
            Phase::Spinning(word)
        } else {
            Phase::Parking
        }
    }

    /// Where the thread goes from a byte that it has seen when it is about to announce itself.
    pub open spec fn register(self, word: u8) -> Phase {
        if self.is_terminal(word) {
            self.look(word)
        } else {
            Phase::Announcing(word)
        }
    }

    /// What is to be done in a phase.
    pub open spec fn op(self) -> OnceOp {
        match self.phase {
            Phase::Starting => OnceOp::LoadAcquire,
            Phase::Loading => OnceOp::Load,
            Phase::Acquiring(word) => OnceOp::Acquire(word),
            Phase::Spinning(_) => OnceOp::Spin,
            Phase::Registering => OnceOp::Load,
            Phase::Announcing(word) => OnceOp::Announce(word),
            Phase::Parking => OnceOp::Park,
            Phase::Running(poisoned) => OnceOp::Run(
                if poisoned {
                    OnceState::Poisoned
                } else {
                    OnceState::New
                },
            ),
            Phase::Completing => OnceOp::Complete,
            Phase::Poisoning => OnceOp::Poison,
            Phase::Waking(_) => OnceOp::UnparkAll,
            Phase::Returned => OnceOp::Return,
            Phase::Refusing => OnceOp::Panic,
            Phase::Unwinding => OnceOp::Unwind,
        }
    }

    /// Whether an event can come of what is to be done.
    pub open spec fn answers(self, event: OnceEvent) -> bool {
        match self.op() {
            OnceOp::LoadAcquire | OnceOp::Load => event is Loaded,
            OnceOp::Acquire(_) | OnceOp::Announce(_) => event is Exchanged || event is Refused,
            OnceOp::Spin => event is Spun,
            OnceOp::Park => event is Unparked,
            OnceOp::Run(_) => event is Finished || event is Failed,
            OnceOp::Complete | OnceOp::Poison => event is Swapped,
            OnceOp::UnparkAll => event is WokeAll,
            OnceOp::Return | OnceOp::Panic | OnceOp::Unwind => false,
        }
    }

    /// The phase that an event leads to.
    pub open spec fn next_phase(self, event: OnceEvent) -> Phase {
        match (self.phase, event) {
            (Phase::Starting, OnceEvent::Loaded(word)) => {
                // Waiting goes by the bit, calling by the byte as a whole
                if (self.waits && is_done(word)) || (!self.waits && word == DONE_BIT) {
                    Phase::Returned
                } else {
                    Phase::Loading
                }
            },
            (Phase::Loading, OnceEvent::Loaded(word)) => self.look(word),
            (Phase::Registering, OnceEvent::Loaded(word)) => self.register(word),
            (Phase::Acquiring(word), OnceEvent::Exchanged) => Phase::Running(is_poisoned(word)),
            (Phase::Acquiring(_), OnceEvent::Refused(word)) => self.look(word),
            (Phase::Spinning(word), OnceEvent::Spun(spun)) => if spun {
                Phase::Loading
            } else if self.waits {
                Phase::Registering
            } else {
                Phase::Announcing(word)
            },
            (Phase::Announcing(_), OnceEvent::Exchanged) => Phase::Parking,
            (Phase::Announcing(_), OnceEvent::Refused(word)) => if self.waits {
                self.register(word)
            } else {
                self.look(word)
            },
            (Phase::Parking, OnceEvent::Unparked) => Phase::Loading,
            (Phase::Running(_), OnceEvent::Finished) => Phase::Completing,
            (Phase::Running(_), OnceEvent::Failed) => Phase::Poisoning,
            (Phase::Completing, OnceEvent::Swapped(word)) => if is_parked(word) {
                Phase::Waking(false)
            } else {
                Phase::Returned
            },
            (Phase::Poisoning, OnceEvent::Swapped(word)) => if is_parked(word) {
                Phase::Waking(true)
            } else {
                Phase::Unwinding
            },
            (Phase::Waking(failed), OnceEvent::WokeAll) => if failed {
                Phase::Unwinding
            } else {
                Phase::Returned
            },
            (phase, _) => phase,
        }
    }

    /// The thread once an event has been reported to it.
    pub open spec fn step(self, event: OnceEvent) -> OnceCall {
        OnceCall { phase: self.next_phase(event), ..self }
    }

    /// Whether the thread may go to sleep, given the byte as it is while the queue is locked.
    ///
    /// The byte has to say that threads may be parked: the thread that takes that bit away
    /// unparks all threads, and nobody else does.
    pub open spec fn may_park(self, word: u8) -> bool {
        if self.waits {
            is_parked(word) && !self.is_terminal(word)
        } else {
            word == LOCKED_BIT | PARKED_BIT
        }
    }

    /// A thread that is going to execute a closure, unless that has been done.
    pub fn call_once(ignore_poison: bool) -> (r: OnceCall)
        ensures
            r == (OnceCall { waits: false, ignore_poison, phase: Phase::Starting }),
    {
        OnceCall { waits: false, ignore_poison, phase: Phase::Starting }
    }

    /// A thread that is going to wait until a closure has been executed.
    pub fn wait(ignore_poison: bool) -> (r: OnceCall)
        ensures
            r == (OnceCall { waits: true, ignore_poison, phase: Phase::Starting }),
    {
        OnceCall { waits: true, ignore_poison, phase: Phase::Starting }
    }

    fn find_terminal(&self, word: u8) -> (r: bool)
        ensures
            r == self.is_terminal(word),
    {
        word & DONE_BIT != 0 || (word & POISON_BIT != 0 && !self.ignore_poison)
    }

    fn find_phase(&self, word: u8) -> (r: Phase)
        ensures
            r == self.look(word),
    {
        // If another thread called the closure, we're done
        if word & DONE_BIT != 0 {
            return Phase::Returned;
        }
        // If the state has been poisoned and we aren't forcing, then panic
        if word & POISON_BIT != 0 && !self.ignore_poison {
            return Phase::Refusing;
        }
        if self.waits {
            // Only spin while an initialization routine is actively running.
            if word & LOCKED_BIT != 0 && word & PARKED_BIT == 0 {
                Phase::Spinning(word)
            } else {
                // Register that a thread may be parked.
                Phase::Registering
            }
        } else if word & LOCKED_BIT == 0 {
            // Grab the lock if it isn't locked, even if there is a queue on it.
            Phase::Acquiring(word)
        } else if word & PARKED_BIT == 0 {
            // If there is no queue, try spinning a few times
            Phase::Spinning(word)
        } else {
            Phase::Parking
        }
    }

    fn find_registered(&self, word: u8) -> (r: Phase)
        ensures
            r == self.register(word),
    {
        // The terminal states are checked again on every retry so we cannot miss completion or
        // poisoning while setting the bit.
        if self.find_terminal(word) {
            self.find_phase(word)
        } else {
            Phase::Announcing(word)
        }
    }

    /// What is to be done now.
    pub fn current_op(&self) -> (r: OnceOp)
        ensures
            r == self.op(),
    {
        match self.phase {
            Phase::Starting => OnceOp::LoadAcquire,
            Phase::Loading => OnceOp::Load,
            Phase::Acquiring(word) => OnceOp::Acquire(word),
            Phase::Spinning(_) => OnceOp::Spin,
            Phase::Registering => OnceOp::Load,
            Phase::Announcing(word) => OnceOp::Announce(word),
            Phase::Parking => OnceOp::Park,
            Phase::Running(poisoned) => OnceOp::Run(
                if poisoned {
                    OnceState::Poisoned
                } else {
                    OnceState::New
                },
            ),
            Phase::Completing => OnceOp::Complete,
            Phase::Poisoning => OnceOp::Poison,
            Phase::Waking(_) => OnceOp::UnparkAll,
            Phase::Returned => OnceOp::Return,
            Phase::Refusing => OnceOp::Panic,
            Phase::Unwinding => OnceOp::Unwind,
        }
    }

    /// Takes note of what came of the last thing to be done, and says what is to be done next.
    pub fn next(&mut self, event: OnceEvent) -> (r: OnceOp)
        requires
            old(self).answers(event),
        ensures
            *final(self) == old(self).step(event),
            r == final(self).op(),
    {
        let phase = match (self.phase, event) {
            (Phase::Starting, OnceEvent::Loaded(word)) => {
                if (self.waits && word & DONE_BIT != 0) || (!self.waits && word == DONE_BIT) {
                    Phase::Returned
                } else {
                    Phase::Loading
                }
            },
            (Phase::Loading, OnceEvent::Loaded(word)) => self.find_phase(word),
            (Phase::Registering, OnceEvent::Loaded(word)) => self.find_registered(word),
            (Phase::Acquiring(word), OnceEvent::Exchanged) => Phase::Running(
                word & POISON_BIT != 0,
            ),
            (Phase::Acquiring(_), OnceEvent::Refused(word)) => self.find_phase(word),
            (Phase::Spinning(word), OnceEvent::Spun(spun)) => {
                if spun {
                    Phase::Loading
                } else if self.waits {
                    Phase::Registering
                } else {
                    Phase::Announcing(word)
                }
            },
            (Phase::Announcing(_), OnceEvent::Exchanged) => Phase::Parking,
            (Phase::Announcing(_), OnceEvent::Refused(word)) => {
                if self.waits {
                    self.find_registered(word)
                } else {
                    self.find_phase(word)
                }
            },
            // Loop back and check if the done bit was set
            (Phase::Parking, OnceEvent::Unparked) => Phase::Loading,
            (Phase::Running(_), OnceEvent::Finished) => Phase::Completing,
            (Phase::Running(_), OnceEvent::Failed) => Phase::Poisoning,
            (Phase::Completing, OnceEvent::Swapped(word)) => {
                if word & PARKED_BIT != 0 {
                    Phase::Waking(false)
                } else {
                    Phase::Returned
                }
            },
            (Phase::Poisoning, OnceEvent::Swapped(word)) => {
                if word & PARKED_BIT != 0 {
                    Phase::Waking(true)
                } else {
                    Phase::Unwinding
                }
            },
            (Phase::Waking(failed), OnceEvent::WokeAll) => {
                if failed {
                    Phase::Unwinding
                } else {
                    Phase::Returned
                }
            },
            (phase, _) => phase,
        };
        self.phase = phase;
        self.current_op()
    }

    /// Whether the thread may go to sleep, given the byte as it is while the queue is locked.
    pub fn should_park(&self, word: u8) -> (r: bool)
        ensures
            r == self.may_park(word),
    {
        if self.waits {
            word & PARKED_BIT != 0 && !self.find_terminal(word)
        } else {
            word == LOCKED_BIT | PARKED_BIT
        }
    }
}

} // verus!
