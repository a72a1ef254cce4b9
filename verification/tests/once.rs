//! A `Once`, called by one thread or by several that take turns.

use parking_lot::once::call::{OnceCall, OnceEvent, OnceOp, Phase};
use parking_lot::once::word::{DONE_BIT, LOCKED_BIT, PARKED_BIT, POISON_BIT};
use parking_lot::once::{Once, OnceState};
use std::cell::Cell;

#[derive(Debug, PartialEq, Eq)]
enum Outcome {
    Returned,
    Panicked,
    Unwound,
    Asleep,
    Running,
}

/// Goes on with a call until it is over, goes to sleep, or has come to its closure. Returns how
/// often all threads were unparked on the way.
fn advance(once: &Once, call: &mut OnceCall) -> (Outcome, usize) {
    let mut unparks = 0;
    let mut op = call.current_op();
    loop {
        if let Some(event) = once.perform(op) {
            op = call.next(event);
            continue;
        }
        op = match op {
            OnceOp::Spin => call.next(OnceEvent::Spun(false)),
            OnceOp::Park => {
                if once.validate(call) {
                    return (Outcome::Asleep, unparks);
                }
                call.next(OnceEvent::Unparked)
            }
            OnceOp::Run(_) => return (Outcome::Running, unparks),
            OnceOp::UnparkAll => {
                unparks += 1;
                call.next(OnceEvent::WokeAll)
            }
            OnceOp::Return => return (Outcome::Returned, unparks),
            OnceOp::Panic => return (Outcome::Panicked, unparks),
            OnceOp::Unwind => return (Outcome::Unwound, unparks),
            _ => unreachable!(),
        };
    }
}

/// Makes a call by the only thread there is. The closure says whether it succeeds.
fn call(once: &Once, mut call: OnceCall, f: impl FnOnce(OnceState) -> bool) -> Outcome {
    let (outcome, _) = advance(once, &mut call);
    if outcome != Outcome::Running {
        return outcome;
    }
    let state = match call.current_op() {
        OnceOp::Run(state) => state,
        _ => unreachable!(),
    };
    call.next(if f(state) {
        OnceEvent::Finished
    } else {
        OnceEvent::Failed
    });
    advance(once, &mut call).0
}

#[test]
fn smoke_once() {
    let o = Once::new();
    let mut a = 0;
    let outcome = call(&o, o.call_once(), |_| {
        a += 1;
        true
    });
    assert_eq!(outcome, Outcome::Returned);
    assert_eq!(a, 1);
    let outcome = call(&o, o.call_once(), |_| {
        a += 1;
        true
    });
    assert_eq!(outcome, Outcome::Returned);
    assert_eq!(a, 1);
}

#[test]
fn wait_for_initialization() {
    let once = Once::new();
    let value = Cell::new(0);

    let mut waiter = once.wait();
    assert_eq!(advance(&once, &mut waiter), (Outcome::Asleep, 0));

    let mut caller = once.call_once();
    assert_eq!(advance(&once, &mut caller), (Outcome::Running, 0));
    value.set(1);
    caller.next(OnceEvent::Finished);
    assert_eq!(advance(&once, &mut caller), (Outcome::Returned, 1));

    waiter.next(OnceEvent::Unparked);
    assert_eq!(advance(&once, &mut waiter), (Outcome::Returned, 0));
    assert_eq!(value.get(), 1);
    assert!(once.is_completed());
}

#[test]
fn wait_propagates_poison() {
    let once = Once::new();
    assert_eq!(call(&once, once.call_once(), |_| false), Outcome::Unwound);
    assert_eq!(call(&once, once.wait(), |_| true), Outcome::Panicked);
}

#[test]
fn wait_force_ignores_poison() {
    let once = Once::new();
    assert_eq!(call(&once, once.call_once(), |_| false), Outcome::Unwound);

    let mut waiter = once.wait_force();
    assert_eq!(advance(&once, &mut waiter), (Outcome::Asleep, 0));

    let mut caller = once.call_once_force();
    assert_eq!(advance(&once, &mut caller), (Outcome::Running, 0));
    assert!(matches!(caller.current_op(), OnceOp::Run(state) if state.is_poisoned()));
    caller.next(OnceEvent::Finished);
    assert_eq!(advance(&once, &mut caller), (Outcome::Returned, 1));

    waiter.next(OnceEvent::Unparked);
    assert_eq!(advance(&once, &mut waiter), (Outcome::Returned, 0));
    assert!(once.is_completed());
}

#[test]
fn stampede_once() {
    let o = Once::new();
    let mut run = false;

    let mut calls: Vec<OnceCall> = (0..10).map(|_| o.call_once()).collect();
    let outcomes: Vec<Outcome> = calls.iter_mut().map(|c| advance(&o, c).0).collect();
    assert_eq!(outcomes[0], Outcome::Running);
    assert!(outcomes[1..].iter().all(|outcome| *outcome == Outcome::Asleep));

    assert!(!run);
    run = true;
    calls[0].next(OnceEvent::Finished);
    assert_eq!(advance(&o, &mut calls[0]), (Outcome::Returned, 1));
    for c in calls[1..].iter_mut() {
        c.next(OnceEvent::Unparked);
        assert_eq!(advance(&o, c), (Outcome::Returned, 0));
        assert!(run);
    }
}

#[test]
fn poison_bad() {
    let o = Once::new();

    // poison the once
    assert_eq!(call(&o, o.call_once(), |_| false), Outcome::Unwound);

    // poisoning propagates
    assert_eq!(call(&o, o.call_once(), |_| true), Outcome::Panicked);

    // we can subvert poisoning, however
    let mut called = false;
    call(&o, o.call_once_force(), |p| {
        called = true;
        assert!(p.poisoned());
        true
    });
    assert!(called);

    // once any success happens, we stop propagating the poison
    assert_eq!(call(&o, o.call_once(), |_| true), Outcome::Returned);
}

#[test]
fn wait_for_force_to_finish() {
    let o = Once::new();

    // poison the once
    assert_eq!(call(&o, o.call_once(), |_| false), Outcome::Unwound);

    // make sure someone's waiting inside the once via a force
    let mut t1 = o.call_once_force();
    assert_eq!(advance(&o, &mut t1), (Outcome::Running, 0));
    assert!(matches!(t1.current_op(), OnceOp::Run(p) if p.poisoned()));

    // put another waiter on the once
    let mut t2 = o.call_once();
    assert_eq!(advance(&o, &mut t2), (Outcome::Asleep, 0));

    t1.next(OnceEvent::Finished);
    assert_eq!(advance(&o, &mut t1), (Outcome::Returned, 1));
    t2.next(OnceEvent::Unparked);
    assert_eq!(advance(&o, &mut t2), (Outcome::Returned, 0));
}

#[test]
fn test_once_debug() {
    let o = Once::new();

    assert_eq!(o.debug(), "Once { state: New }");
}

#[test]
fn new_completed_is_done() {
    let o = Once::new_completed();
    assert_eq!(o.call_once().phase, Phase::Returned);
    assert_eq!(o.state(), OnceState::Done);
    assert!(o.state().done());
    assert!(!o.state().poisoned());

    let mut called = false;
    call(&o, o.call_once(), |_| {
        called = true;
        true
    });
    assert!(!called);
    assert_eq!(o.state(), OnceState::Done);
}

#[test]
fn new_default_is_new() {
    // Sanity check that the default constructor is unchanged.
    let o = Once::new();
    let mut called = false;
    call(&o, o.call_once(), |_| {
        called = true;
        true
    });
    assert!(called);

    assert_eq!(Once::default().state(), OnceState::New);
}

#[test]
fn once_states_follow_the_closure() {
    let o = Once::new();
    assert_eq!(o.state(), OnceState::New);
    let mut failing = o.call_once();
    assert_eq!(advance(&o, &mut failing).0, Outcome::Running);
    assert_eq!(o.state(), OnceState::InProgress);
    assert!(!o.is_completed());
    assert_eq!(o.debug(), "Once { state: InProgress }");
    failing.next(OnceEvent::Failed);
    assert_eq!(advance(&o, &mut failing), (Outcome::Unwound, 0));
    assert_eq!(o.state(), OnceState::Poisoned);
    assert!(!o.is_completed());
    assert_eq!(o.debug(), "Once { state: Poisoned }");
    call(&o, o.call_once_force(), |_| true);
    assert_eq!(o.state(), OnceState::Done);
    assert!(o.is_completed());
    assert_eq!(o.debug(), "Once { state: Done }");
}

#[test]
fn once_takes_one_byte() {
    assert_eq!(std::mem::size_of::<Once>(), 1);
}

#[test]
fn once_state_of_a_word() {
    assert_eq!(OnceState::of_word(0), OnceState::New);
    assert_eq!(OnceState::of_word(PARKED_BIT), OnceState::New);
    assert_eq!(OnceState::of_word(POISON_BIT), OnceState::Poisoned);
    assert_eq!(OnceState::of_word(POISON_BIT | PARKED_BIT), OnceState::Poisoned);
    assert_eq!(OnceState::of_word(LOCKED_BIT), OnceState::InProgress);
    assert_eq!(OnceState::of_word(LOCKED_BIT | PARKED_BIT), OnceState::InProgress);
    assert_eq!(OnceState::of_word(DONE_BIT), OnceState::Done);
    assert_eq!(DONE_BIT, 1);
    assert_eq!(POISON_BIT, 2);
    assert_eq!(LOCKED_BIT, 4);
    assert_eq!(PARKED_BIT, 8);
}

#[test]
fn failing_closure_wakes_callers() {
    let o = Once::new();
    let mut failing = o.call_once();
    advance(&o, &mut failing);
    let mut caller = o.call_once();
    let mut forcing = o.call_once_force();
    let mut waiting = o.wait();
    assert_eq!(advance(&o, &mut caller).0, Outcome::Asleep);
    assert_eq!(advance(&o, &mut forcing).0, Outcome::Asleep);
    assert_eq!(advance(&o, &mut waiting).0, Outcome::Asleep);
    failing.next(OnceEvent::Failed);
    assert_eq!(advance(&o, &mut failing), (Outcome::Unwound, 1));
    caller.next(OnceEvent::Unparked);
    assert_eq!(advance(&o, &mut caller).0, Outcome::Panicked);
    waiting.next(OnceEvent::Unparked);
    assert_eq!(advance(&o, &mut waiting).0, Outcome::Panicked);
    forcing.next(OnceEvent::Unparked);
    assert_eq!(advance(&o, &mut forcing).0, Outcome::Running);
    assert_eq!(forcing.current_op(), OnceOp::Run(OnceState::Poisoned));
}

#[test]
fn waiter_does_not_sleep_through_a_panic() {
    let o = Once::new();
    let mut failing = o.call_once();
    advance(&o, &mut failing);

    // The waiter has announced itself, but not gone to sleep yet
    let mut waiter = o.wait_force();
    let mut op = waiter.current_op();
    while op != OnceOp::Park {
        op = match o.perform(op) {
            Some(event) => waiter.next(event),
            None => waiter.next(OnceEvent::Spun(false)),
        };
    }

    // The closure panics, and nobody is in the queue to be woken up
    failing.next(OnceEvent::Failed);
    assert_eq!(advance(&o, &mut failing), (Outcome::Unwound, 1));

    // So the waiter announces itself again before it sleeps, and is woken up in the end
    assert!(!o.validate(&waiter));
    assert_eq!(advance(&o, &mut waiter).0, Outcome::Asleep);
    let mut caller = o.call_once_force();
    advance(&o, &mut caller);
    caller.next(OnceEvent::Finished);
    assert_eq!(advance(&o, &mut caller), (Outcome::Returned, 1));
}

#[test]
fn spinning_looks_again() {
    let o = Once::new();
    let mut running = o.call_once();
    advance(&o, &mut running);
    let mut caller = o.call_once();
    let mut op = caller.current_op();
    while op != OnceOp::Spin {
        op = caller.next(o.perform(op).unwrap());
    }
    assert_eq!(caller.phase, Phase::Spinning(LOCKED_BIT));
    assert_eq!(caller.next(OnceEvent::Spun(true)), OnceOp::Load);
    running.next(OnceEvent::Finished);
    assert_eq!(advance(&o, &mut running), (Outcome::Returned, 0));
    assert_eq!(advance(&o, &mut caller), (Outcome::Returned, 0));
}

#[test]
fn refused_exchange_is_tried_again() {
    let o = Once::new();
    let mut caller = o.call_once();
    assert_eq!(caller.phase, Phase::Loading);
    assert_eq!(caller.next(OnceEvent::Loaded(0)), OnceOp::Acquire(0));
    assert_eq!(caller.next(OnceEvent::Refused(0)), OnceOp::Acquire(0));
    assert_eq!(caller.next(OnceEvent::Refused(PARKED_BIT)), OnceOp::Acquire(PARKED_BIT));
    assert_eq!(
        caller.next(OnceEvent::Refused(LOCKED_BIT | PARKED_BIT)),
        OnceOp::Park
    );
    assert_eq!(o.perform(OnceOp::Acquire(PARKED_BIT)), Some(OnceEvent::Refused(0)));

    let mut waiter = o.wait();
    waiter.next(OnceEvent::Loaded(0));
    assert_eq!(waiter.next(OnceEvent::Loaded(0)), OnceOp::Load);
    assert_eq!(waiter.next(OnceEvent::Loaded(0)), OnceOp::Announce(0));
    assert_eq!(
        waiter.next(OnceEvent::Refused(LOCKED_BIT)),
        OnceOp::Announce(LOCKED_BIT)
    );
    assert_eq!(waiter.next(OnceEvent::Refused(POISON_BIT)), OnceOp::Panic);
}
