//! Any number of threads that call closures once, or wait for it, at the same time.
//!
//! The byte changes by single operations, one after another, in any order. A thread goes to
//! sleep in two moves: it locks the queue and looks at the byte, and later adds itself to the
//! queue and unlocks it. In between nobody can unpark the threads in the queue, though the byte
//! may change.

use crate::once::call::{OnceCall, OnceEvent, OnceOp, Phase};
use crate::once::word::{
    is_done, is_locked, is_parked, is_poisoned, lemma_locked_word, lemma_parked_word, lemma_words,
    locked_word, parked_word, DONE_BIT, POISON_BIT,
};
use vstd::prelude::*;

verus! {

/// A `Once` and all the calls that have been made to it.
#[verifier::ext_equal]
pub struct System {
    /// The byte.
    pub word: u8,
    /// The calls, each under a number of its own.
    pub calls: Map<int, OnceCall>,
    /// The call that has the queue locked in order to go to sleep.
    pub queue_lock: Option<int>,
    /// The calls that are in the queue, asleep.
    pub asleep: Set<int>,
}

/// Something that one thread does in one go.
pub enum Move {
    /// It makes a call.
    Start(OnceCall),
    /// It does what its call has to do next.
    Act(OnceEvent),
    /// It locks the queue and finds that it may go to sleep.
    LockQueue,
    /// It adds itself to the queue, unlocks that, and sleeps.
    Sleep,
    /// It unparks all threads in the queue.
    WakeAll,
}

/// Whether something can come of what a call has to do next, given the byte.
///
/// An exchange may be refused though the byte is as expected.
pub open spec fn can_happen(call: OnceCall, word: u8, event: OnceEvent) -> bool {
    match call.op() {
        OnceOp::LoadAcquire | OnceOp::Load => event == OnceEvent::Loaded(word),
        OnceOp::Acquire(seen) | OnceOp::Announce(seen) => event == OnceEvent::Refused(word) || (
        event == OnceEvent::Exchanged && word == seen),
        OnceOp::Spin => event is Spun,
        OnceOp::Park => event == OnceEvent::Unparked && !call.may_park(word),
        OnceOp::Run(_) => event == OnceEvent::Finished || event == OnceEvent::Failed,
        OnceOp::Complete | OnceOp::Poison => event == OnceEvent::Swapped(word),
        _ => false,
    }
}

/// The byte once something has come of what a call had to do.
pub open spec fn word_after(call: OnceCall, word: u8, event: OnceEvent) -> u8 {
    match (call.op(), event) {
        (OnceOp::Acquire(seen), OnceEvent::Exchanged) => locked_word(seen),
        (OnceOp::Announce(seen), OnceEvent::Exchanged) => parked_word(seen),
        (OnceOp::Complete, _) => DONE_BIT,
        (OnceOp::Poison, _) => POISON_BIT,
        _ => word,
    }
}

/// Whether a call is executing its closure, or has yet to say what came of that.
pub open spec fn is_holder(call: OnceCall) -> bool {
    call.phase is Running || call.phase is Completing || call.phase is Poisoning
}

/// Whether where a call is, and what it has seen of the byte, is in keeping with what kind of
/// call it is.
pub open spec fn has_seen(call: OnceCall) -> bool {
    &&& match call.phase {
        Phase::Acquiring(word) => !call.waits && !call.is_terminal(word) && !is_locked(word),
        Phase::Announcing(word) => !call.is_terminal(word),
        Phase::Spinning(word) => !call.is_terminal(word),
        Phase::Waking(_) | Phase::Unwinding => !call.waits,
        Phase::Refusing => !call.ignore_poison,
        _ => true,
    }
    &&& is_holder(call) ==> !call.waits
}

impl System {
    /// A `Once` that nobody has called yet.
    pub open spec fn fresh(word: u8) -> System {
        System { word, calls: Map::empty(), queue_lock: None, asleep: Set::empty() }
    }

    /// Whether a call is asleep, or bound to be.
    pub open spec fn is_committed(self, call: int) -> bool {
        self.asleep.contains(call) || self.queue_lock == Some(call)
    }

    /// Whether a call is about to unpark all threads in the queue.
    pub open spec fn is_waking(self, call: int) -> bool {
        self.calls.contains_key(call) && self.calls[call].phase is Waking
    }

    /// Whether any call is about to unpark all threads in the queue.
    pub open spec fn any_waking(self) -> bool {
        exists|call: int| #[trigger] self.is_waking(call)
    }

    /// Whether a call is there that executes a closure.
    pub open spec fn has_holder(self, call: int) -> bool {
        self.calls.contains_key(call) && is_holder(self.calls[call])
    }

    /// Whether `next` is what is left when a thread has done something.
    pub open spec fn moves(self, next: System, call: int, what: Move) -> bool {
        match what {
            Move::Start(started) => {
                &&& !self.calls.contains_key(call)
                &&& started.phase is Starting
                &&& next == System { calls: self.calls.insert(call, started), ..self }
            },
            Move::Act(event) => {
                &&& self.calls.contains_key(call)
                &&& !self.is_committed(call)
                &&& can_happen(self.calls[call], self.word, event)
                &&& self.calls[call].op() is Park ==> self.queue_lock is None
                &&& next == System {
                    word: word_after(self.calls[call], self.word, event),
                    calls: self.calls.insert(call, self.calls[call].step(event)),
                    ..self
                }
            },
            Move::LockQueue => {
                &&& self.calls.contains_key(call)
                &&& !self.is_committed(call)
                &&& self.calls[call].op() is Park
                &&& self.calls[call].may_park(self.word)
                &&& self.queue_lock is None
                &&& next == System { queue_lock: Some(call), ..self }
            },
            Move::Sleep => {
                &&& self.queue_lock == Some(call)
                &&& next == System { queue_lock: None, asleep: self.asleep.insert(call), ..self }
            },
            Move::WakeAll => {
                &&& self.calls.contains_key(call)
                &&& self.calls[call].op() is UnparkAll
                &&& self.queue_lock is None
                &&& next == System { calls: self.woken(call), asleep: Set::empty(), ..self }
            },
        }
    }

    /// The calls once one of them has unparked all threads in the queue.
    pub open spec fn woken(self, waker: int) -> Map<int, OnceCall> {
        Map::new(
            |call: int| self.calls.contains_key(call),
            |call: int|
                if call == waker {
                    self.calls[call].step(OnceEvent::WokeAll)
                } else if self.asleep.contains(call) {
                    self.calls[call].step(OnceEvent::Unparked)
                } else {
                    self.calls[call]
                },
        )
    }

    /// Whether `next` is what is left when any thread has done anything.
    pub open spec fn leads_to(self, next: System) -> bool {
        exists|call: int, what: Move| #[trigger] self.moves(next, call, what)
    }

    /// What is true at all times.
    pub open spec fn wf(self) -> bool {
        // The byte says nothing but that initialization has completed, once it does
        &&& is_done(self.word) ==> self.word == DONE_BIT
        &&& is_locked(self.word) ==> !is_poisoned(self.word)
        // Exactly one call executes a closure while the byte says so, and none otherwise
        &&& is_locked(self.word) ==> exists|call: int| #[trigger] self.has_holder(call)
        &&& forall|call: int| #[trigger] self.has_holder(call) ==> is_locked(self.word)
        &&& forall|a: int, b: int| #[trigger]
            self.has_holder(a) && #[trigger] self.has_holder(b) ==> a == b
        // No call acts on something that it cannot have seen
        &&& forall|call: int| #[trigger]
            self.calls.contains_key(call) ==> has_seen(self.calls[call])
        // A call only returns once initialization has completed
        &&& forall|call: int| #[trigger]
            self.calls.contains_key(call) && (self.calls[call].phase is Returned
                || self.calls[call].phase == Phase::Waking(false)) ==> is_done(self.word)
        // A call only sleeps while it may, or until it is woken up
        &&& forall|call: int| #[trigger]
            self.is_committed(call) ==> self.calls.contains_key(call)
                && self.calls[call].phase is Parking && (self.calls[call].may_park(self.word)
                || self.any_waking())
    }
}

/// A `Once` is created in a state that is as it should be, completed or not.
pub proof fn law_fresh_is_wf()
    ensures
        System::fresh(0).wf(),
        System::fresh(DONE_BIT).wf(),
{
    lemma_words();
}

/// What `look` leads to is in keeping with what has been seen.
proof fn lemma_look(call: OnceCall, word: u8)
    ensures
        has_seen(OnceCall { phase: call.look(word), ..call }),
        has_seen(OnceCall { phase: call.register(word), ..call }),
        !is_holder(OnceCall { phase: call.look(word), ..call }),
        !is_holder(OnceCall { phase: call.register(word), ..call }),
        call.look(word) is Returned ==> is_done(word),
        call.register(word) is Returned ==> is_done(word),
        !(call.look(word) is Waking),
        !(call.register(word) is Waking),
{
}

/// Nothing is lost when a call does something that leaves the byte alone.
proof fn lemma_quiet_act(system: System, next: System, call: int, event: OnceEvent)
    requires
        system.wf(),
        system.moves(next, call, Move::Act(event)),
        next.word == system.word,
        !(system.calls[call].op() is Complete),
        !(system.calls[call].op() is Poison),
        !(system.calls[call].op() is Acquire && event is Exchanged),
    ensures
        next.wf(),
{
    let before = system.calls[call];
    let after = before.step(event);
    lemma_look(before, system.word);
    lemma_words();
    assert(!(before.phase is Waking));
    assert forall|c: int| #[trigger] system.is_waking(c) implies next.is_waking(c) by {}
    assert(system.any_waking() ==> next.any_waking());
    assert(is_holder(before) == is_holder(after));
    assert forall|c: int| #[trigger] next.has_holder(c) == system.has_holder(c) by {}
    if is_locked(next.word) {
        let c = choose|c: int| #[trigger] system.has_holder(c);
        assert(next.has_holder(c));
    }
    assert(has_seen(after));
    assert forall|c: int| #[trigger] next.is_committed(c) implies next.calls.contains_key(c)
        && next.calls[c].phase is Parking && (next.calls[c].may_park(next.word)
        || next.any_waking()) by {
        assert(system.is_committed(c));
    }
}

/// Nothing is lost when a call starts to execute its closure.
proof fn lemma_acquire(system: System, next: System, call: int)
    requires
        system.wf(),
        system.moves(next, call, Move::Act(OnceEvent::Exchanged)),
        system.calls[call].op() is Acquire,
    ensures
        next.wf(),
{
    lemma_locked_word(system.word);
    lemma_words();
    assert(!is_locked(system.word) && !is_done(system.word));
    assert forall|c: int| #[trigger] system.has_holder(c) implies false by {}
    assert(next.has_holder(call));
    assert forall|c: int| #[trigger] next.has_holder(c) implies c == call by {
        if c != call {
            assert(system.has_holder(c));
        }
    }
    assert forall|c: int| #[trigger] system.is_waking(c) implies next.is_waking(c) by {}
    assert forall|c: int| #[trigger] next.is_committed(c) implies next.calls.contains_key(c)
        && next.calls[c].phase is Parking && (next.calls[c].may_park(next.word)
        || next.any_waking()) by {
        assert(system.is_committed(c));
    }
}

/// Nothing is lost when a call announces that it is going to sleep.
proof fn lemma_announce(system: System, next: System, call: int)
    requires
        system.wf(),
        system.moves(next, call, Move::Act(OnceEvent::Exchanged)),
        system.calls[call].op() is Announce,
    ensures
        next.wf(),
{
    lemma_parked_word(system.word);
    lemma_words();
    assert((4u8 | 8u8) | 8u8 == 4u8 | 8u8) by (bit_vector);
    assert(!is_done(system.word));
    assert forall|c: int| #[trigger] next.has_holder(c) == system.has_holder(c) by {}
    if is_locked(next.word) {
        let c = choose|c: int| #[trigger] system.has_holder(c);
        assert(next.has_holder(c));
    }
    assert forall|c: int| #[trigger] system.is_waking(c) implies next.is_waking(c) by {}
    assert forall|c: int| #[trigger] next.is_committed(c) implies next.calls.contains_key(c)
        && next.calls[c].phase is Parking && (next.calls[c].may_park(next.word)
        || next.any_waking()) by {
        assert(system.is_committed(c));
    }
}

/// Nothing is lost when a call says what came of its closure.
proof fn lemma_release(system: System, next: System, call: int, event: OnceEvent)
    requires
        system.wf(),
        system.moves(next, call, Move::Act(event)),
        system.calls[call].op() is Complete || system.calls[call].op() is Poison,
    ensures
        next.wf(),
{
    lemma_words();
    assert(system.has_holder(call));
    assert(is_locked(system.word));
    assert forall|c: int| #[trigger] next.has_holder(c) implies false by {
        if c != call {
            assert(system.has_holder(c));
        }
    }
    assert forall|c: int| #[trigger] system.is_waking(c) implies next.is_waking(c) by {}
    assert forall|c: int| #[trigger] next.is_committed(c) implies next.calls.contains_key(c)
        && next.calls[c].phase is Parking && (next.calls[c].may_park(next.word)
        || next.any_waking()) by {
        assert(system.is_committed(c));
        if system.calls[c].may_park(system.word) {
            assert(is_parked(system.word));
            assert(next.is_waking(call));
        }
    }
    assert forall|c: int| #[trigger]
        next.calls.contains_key(c) && (next.calls[c].phase is Returned || next.calls[c].phase
            == Phase::Waking(false)) implies is_done(next.word) by {
        if c != call {
            assert(system.calls.contains_key(c));
        }
    }
}

/// Nothing is lost when all threads in the queue are unparked.
proof fn lemma_wake_all(system: System, next: System, call: int)
    requires
        system.wf(),
        system.moves(next, call, Move::WakeAll),
    ensures
        next.wf(),
{
    assert forall|c: int| #[trigger] next.has_holder(c) == system.has_holder(c) by {
        if system.asleep.contains(c) {
            assert(system.is_committed(c));
        }
    }
    if is_locked(next.word) {
        let c = choose|c: int| #[trigger] system.has_holder(c);
        assert(next.has_holder(c));
    }
    assert forall|c: int| #[trigger] next.calls.contains_key(c) implies has_seen(next.calls[c]) && (
    (next.calls[c].phase is Returned || next.calls[c].phase == Phase::Waking(false)) ==> is_done(
        next.word,
    )) by {
        assert(system.calls.contains_key(c));
        if system.asleep.contains(c) {
            assert(system.is_committed(c));
        }
    }
}

/// Whatever any thread does, everything stays as it should be.
pub proof fn law_moves_keep_wf(system: System, next: System)
    requires
        system.wf(),
        system.leads_to(next),
    ensures
        next.wf(),
{
    let (call, what) = choose|call: int, what: Move| #[trigger] system.moves(next, call, what);
    match what {
        Move::Start(started) => {
            assert forall|c: int| #[trigger] next.has_holder(c) == system.has_holder(c) by {}
            if is_locked(next.word) {
                let c = choose|c: int| #[trigger] system.has_holder(c);
                assert(next.has_holder(c));
            }
            assert forall|c: int| #[trigger] system.is_waking(c) implies next.is_waking(c) by {}
            assert forall|c: int| #[trigger] next.is_committed(c) implies next.calls.contains_key(c)
                && next.calls[c].phase is Parking && (next.calls[c].may_park(next.word)
                || next.any_waking()) by {
                assert(system.is_committed(c));
            }
        },
        Move::Act(event) => {
            match system.calls[call].op() {
                OnceOp::Complete | OnceOp::Poison => {
                    lemma_release(system, next, call, event);
                },
                OnceOp::Acquire(_) => {
                    if event is Exchanged {
                        lemma_acquire(system, next, call);
                    } else {
                        lemma_quiet_act(system, next, call, event);
                    }
                },
                OnceOp::Announce(_) => {
                    if event is Exchanged {
                        lemma_announce(system, next, call);
                    } else {
                        lemma_quiet_act(system, next, call, event);
                    }
                },
                _ => {
                    lemma_quiet_act(system, next, call, event);
                },
            }
        },
        Move::LockQueue | Move::Sleep => {
            assert forall|c: int| #[trigger] next.has_holder(c) == system.has_holder(c) by {}
            if is_locked(next.word) {
                let c = choose|c: int| #[trigger] system.has_holder(c);
                assert(next.has_holder(c));
            }
            assert forall|c: int| #[trigger] system.is_waking(c) implies next.is_waking(c) by {}
            assert forall|c: int| #[trigger] next.is_committed(c) implies next.calls.contains_key(c)
                && next.calls[c].phase is Parking && (next.calls[c].may_park(next.word)
                || next.any_waking()) by {
                if c != call {
                    assert(system.is_committed(c));
                } else if what is Sleep {
                    assert(system.is_committed(call));
                }
            }
        },
        Move::WakeAll => {
            lemma_wake_all(system, next, call);
        },
    }
}

} // verus!
