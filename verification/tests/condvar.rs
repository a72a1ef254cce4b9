//! Condition variables over a raw one that keeps a record.

use parking_lot::condvar::{Condvar, RawCondvar, RawCondvarTimed, RawMutex, RawMutexTimed};
use std::cell::{Cell, RefCell};

struct Mutex(u8);

impl RawMutex for Mutex {}

impl RawMutexTimed for Mutex {
    type Duration = u32;
    type Instant = u32;
}

#[derive(Debug, PartialEq, Eq, Clone)]
enum Call {
    Wait(u8),
    WaitUntil(u8, u32),
    NotifyOne,
    NotifyAll,
}

/// Durations are added to the instant 100 and may not exceed 1000. A wait until an even instant
/// times out.
struct Raw {
    calls: RefCell<Vec<Call>>,
    waiting: Cell<usize>,
}

impl RawCondvar for Raw {
    type RawMutex = Mutex;

    fn init() -> Raw {
        Raw {
            calls: RefCell::new(Vec::new()),
            waiting: Cell::new(3),
        }
    }

    fn wait(&self, mutex: &Mutex) {
        self.calls.borrow_mut().push(Call::Wait(mutex.0));
    }

    fn notify_one(&self) -> bool {
        self.calls.borrow_mut().push(Call::NotifyOne);
        self.waiting.get() > 0
    }

    fn notify_all(&self) -> usize {
        self.calls.borrow_mut().push(Call::NotifyAll);
        self.waiting.replace(0)
    }
}

impl RawCondvarTimed for Raw {
    fn checked_duration_to_instant(timeout: &u32) -> Option<u32> {
        if *timeout <= 1000 {
            Some(100 + *timeout)
        } else {
            None
        }
    }

    fn wait_until(&self, mutex: &Mutex, timeout: &u32) -> bool {
        self.calls
            .borrow_mut()
            .push(Call::WaitUntil(mutex.0, *timeout));
        *timeout % 2 == 0
    }
}

fn calls(condvar: &Condvar<Raw>) -> Vec<Call> {
    condvar.raw().calls.borrow().clone()
}

#[test]
fn notifications_are_passed_on() {
    let condvar = Condvar::<Raw>::new();
    assert!(condvar.notify_one());
    assert_eq!(condvar.notify_all(), 3);
    assert!(!condvar.notify_one());
    assert_eq!(
        calls(&condvar),
        vec![Call::NotifyOne, Call::NotifyAll, Call::NotifyOne]
    );
}

#[test]
fn condvar_is_shown_without_details() {
    assert_eq!(Condvar::<Raw>::default().debug(), "Condvar { .. }");
}

#[test]
fn waits_are_passed_on() {
    let condvar = Condvar::<Raw>::new();
    condvar.wait(&Mutex(7));
    assert!(condvar.wait_until(&Mutex(7), 4).timed_out());
    assert!(!condvar.wait_until(&Mutex(7), 5).timed_out());
    assert!(condvar.wait_for(&Mutex(7), 10).timed_out());
    assert!(!condvar.wait_for(&Mutex(7), 11).timed_out());
    // A timeout that cannot be represented is no timeout
    assert!(!condvar.wait_for(&Mutex(7), 2000).timed_out());
    assert_eq!(
        calls(&condvar),
        vec![
            Call::Wait(7),
            Call::WaitUntil(7, 4),
            Call::WaitUntil(7, 5),
            Call::WaitUntil(7, 110),
            Call::WaitUntil(7, 111),
            Call::Wait(7),
        ]
    );
}

#[test]
fn wait_while_the_condition_holds() {
    let condvar = Condvar::<Raw>::new();
    let mut left = 3;
    while condvar.wait_while(&Mutex(1), left > 0) {
        left -= 1;
    }
    assert_eq!(left, 0);
    assert_eq!(calls(&condvar), vec![Call::Wait(1); 3]);
}

#[test]
fn wait_while_does_not_wait_for_nothing() {
    let condvar = Condvar::<Raw>::new();
    assert!(!condvar.wait_while(&Mutex(1), false));
    assert_eq!(calls(&condvar), vec![]);
}

#[test]
fn wait_while_until_checks_first() {
    let condvar = Condvar::<Raw>::new();
    let mut wait = condvar.wait_while_until(4);
    let result = condvar.check(&Mutex(1), &mut wait, false);
    assert_eq!(result.map(|r| r.timed_out()), Some(false));
    assert_eq!(calls(&condvar), vec![]);
}

#[test]
fn wait_while_until_times_out() {
    let condvar = Condvar::<Raw>::new();
    let mut wait = condvar.wait_while_until(4);
    assert!(condvar.check(&Mutex(1), &mut wait, true).is_none());
    let result = condvar.check(&Mutex(1), &mut wait, true);
    assert_eq!(result.map(|r| r.timed_out()), Some(true));
    assert_eq!(calls(&condvar), vec![Call::WaitUntil(1, 4)]);
}

#[test]
fn condition_wins_over_timeout() {
    let condvar = Condvar::<Raw>::new();
    let mut wait = condvar.wait_while_until(4);
    assert!(condvar.check(&Mutex(1), &mut wait, true).is_none());
    let result = condvar.check(&Mutex(1), &mut wait, false);
    assert_eq!(result.map(|r| r.timed_out()), Some(false));
    assert_eq!(calls(&condvar), vec![Call::WaitUntil(1, 4)]);
}

#[test]
fn wait_while_for_without_deadline() {
    let condvar = Condvar::<Raw>::new();
    let mut wait = condvar.wait_while_for(2000);
    for _ in 0..5 {
        assert!(condvar.check(&Mutex(1), &mut wait, true).is_none());
    }
    let result = condvar.check(&Mutex(1), &mut wait, false);
    assert_eq!(result.map(|r| r.timed_out()), Some(false));
    assert_eq!(calls(&condvar), vec![Call::Wait(1); 5]);

    let condvar = Condvar::<Raw>::new();
    let mut wait = condvar.wait_while_for(20);
    assert!(condvar.check(&Mutex(1), &mut wait, true).is_none());
    assert_eq!(calls(&condvar), vec![Call::WaitUntil(1, 120)]);
}
