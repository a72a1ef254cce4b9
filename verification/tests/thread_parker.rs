//! Thread parkers on all platforms, and points in time.

use parking_lot::thread_parker::generic::{self, Yield};
use parking_lot::thread_parker::linux::{
    self, is_expected_of_wait, is_expected_of_wake, Errno, FutexWait, Timespec, TimespecField,
};
use parking_lot::thread_parker::windows::waitaddress::{WaitAddress, WaitOnAddress, INFINITE};
use parking_lot::thread_parker::windows::{self, Backend, KeyedParker};
use parking_lot::thread_parker::{ParkStep, ThreadParkerT, UnparkHandleT};
use parking_lot::util::{to_deadline, Remaining};
use std::sync::atomic::{AtomicUsize, Ordering};
use std::time::{Duration, Instant};

fn hour() -> Duration {
    Duration::from_secs(3600)
}

#[test]
fn generic_parker_parks_until_unparked() {
    let parker = generic::ThreadParker::new(());
    assert!(generic::ThreadParker::is_cheap_to_construct());
    assert_eq!(parker.park(), ParkStep::Unparked);
    parker.prepare_park();
    assert!(parker.timed_out());
    assert_eq!(parker.park(), ParkStep::Wait(Yield));
    let past = Instant::now();
    assert_eq!(parker.park_until(past), ParkStep::TimedOut);
    assert_eq!(parker.park_until(past + hour()), ParkStep::Wait(Yield));
    parker.unpark_lock().unpark();
    assert!(!parker.timed_out());
    assert_eq!(parker.park(), ParkStep::Unparked);
    assert_eq!(parker.park_until(past), ParkStep::Unparked);
}

#[test]
fn linux_parker_parks_until_unparked() {
    let parker = linux::ThreadParker::new(());
    assert!(linux::ThreadParker::is_cheap_to_construct());
    assert_eq!(parker.futex().load(Ordering::Relaxed), 0);
    assert_eq!(parker.park(), ParkStep::Unparked);
    parker.prepare_park();
    assert_eq!(parker.futex().load(Ordering::Relaxed), 1);
    assert!(parker.timed_out());
    assert_eq!(parker.park(), ParkStep::Wait(FutexWait { timeout: None }));
    let past = Instant::now();
    assert_eq!(parker.park_until(past), ParkStep::TimedOut);
    match parker.park_until(past + hour()) {
        ParkStep::Wait(FutexWait {
            timeout: Some(left),
        }) => assert!(left.secs <= 3600 && left.secs > 3500),
        step => panic!("{:?}", step),
    }
    let wake = parker.unpark_lock().unpark();
    assert_eq!(wake.futex.load(Ordering::Relaxed), 0);
    assert!(std::ptr::eq(wake.futex, parker.futex()));
    assert!(!parker.timed_out());
    assert_eq!(parker.park_until(past), ParkStep::Unparked);
}

#[test]
fn timespec_keeps_what_fits() {
    let left = Remaining {
        secs: 5,
        nanos: 999_999_999,
    };
    for field in [TimespecField::Bits32, TimespecField::Bits64] {
        assert_eq!(
            Timespec::new(left, field),
            Timespec {
                tv_sec: 5,
                tv_nsec: 999_999_999
            }
        );
    }
    let long = Remaining {
        secs: u64::MAX,
        nanos: 1,
    };
    assert_eq!(Timespec::new(long, TimespecField::Bits32).tv_sec, 0x7fff_ffff);
    assert_eq!(Timespec::new(long, TimespecField::Bits64).tv_sec, i64::MAX);
    let edge = Remaining {
        secs: 0x8000_0000,
        nanos: 0,
    };
    assert_eq!(Timespec::new(edge, TimespecField::Bits32).tv_sec, 0x7fff_ffff);
    assert_eq!(Timespec::new(edge, TimespecField::Bits64).tv_sec, 0x8000_0000);
}

#[test]
fn futex_results() {
    assert!(is_expected_of_wait(0, Errno::Other, false));
    assert!(is_expected_of_wait(-1, Errno::Interrupted, false));
    assert!(is_expected_of_wait(-1, Errno::TryAgain, false));
    assert!(!is_expected_of_wait(-1, Errno::TimedOut, false));
    assert!(is_expected_of_wait(-1, Errno::TimedOut, true));
    assert!(!is_expected_of_wait(-1, Errno::BadAddress, true));
    assert!(!is_expected_of_wait(1, Errno::Other, true));
    assert!(is_expected_of_wake(0, Errno::Other));
    assert!(is_expected_of_wake(1, Errno::Other));
    assert!(!is_expected_of_wake(2, Errno::Other));
    assert!(is_expected_of_wake(-1, Errno::BadAddress));
    assert!(!is_expected_of_wake(-1, Errno::TryAgain));
}

#[test]
fn wait_address_is_created_if_complete() {
    let complete = WaitAddress::create(1, Some(2), Some(3));
    assert_eq!(
        complete,
        Some(WaitAddress {
            wait_on_address: 2,
            wake_by_address_single: 3
        })
    );
    assert_eq!(WaitAddress::create(0, Some(2), Some(3)), None);
    assert_eq!(WaitAddress::create(1, None, Some(3)), None);
    assert_eq!(WaitAddress::create(1, Some(2), None), None);
}

#[test]
fn wait_address_parks_until_unparked() {
    let facility = WaitAddress::create(1, Some(2), Some(3)).unwrap();
    let key = AtomicUsize::new(0);
    assert_eq!(facility.park(&key), ParkStep::Unparked);
    facility.prepare_park(&key);
    assert_eq!(key.load(Ordering::Relaxed), 1);
    assert!(facility.timed_out(&key));
    assert_eq!(
        facility.park(&key),
        ParkStep::Wait(WaitOnAddress { timeout: INFINITE })
    );
    let past = Instant::now();
    assert_eq!(facility.park_until(&key, past), ParkStep::TimedOut);
    match facility.park_until(&key, past + hour()) {
        ParkStep::Wait(wait) => assert!(wait.timeout <= 3_600_000 && wait.timeout > 3_500_000),
        step => panic!("{:?}", step),
    }
    let wake = facility.unpark_lock(&key).unpark();
    assert_eq!(wake.wake_function, 3);
    assert!(std::ptr::eq(wake.key, &key));
    assert_eq!(key.load(Ordering::Relaxed), 0);
    assert!(!facility.timed_out(&key));
    assert_eq!(facility.park_until(&key, past), ParkStep::Unparked);
}

fn millis(secs: u64, nanos: u32) -> u32 {
    WaitOnAddress::for_at_least(Remaining { secs, nanos }).timeout
}

#[test]
fn milliseconds_are_rounded_up() {
    assert_eq!(millis(0, 0), 0);
    assert_eq!(millis(0, 1), 1);
    assert_eq!(millis(0, 1_000_000), 1);
    assert_eq!(millis(0, 1_000_001), 2);
    assert_eq!(millis(0, 999_999_999), 1000);
    assert_eq!(millis(3, 500_000_000), 3500);
    assert_eq!(millis(4_294_967, 293_000_000), 0xffff_fffd);
    assert_eq!(millis(4_294_967, 294_000_000), 0xffff_fffe);
    assert_eq!(millis(4_294_967, 295_000_000), 0xffff_fffe);
    assert_eq!(millis(u64::MAX, 999_999_999), INFINITE - 1);
}

/// Counts what it is asked to do in the key.
#[derive(Debug, PartialEq, Eq)]
struct Keyed;

impl KeyedParker for Keyed {
    type Wait = usize;
    type Wake = usize;

    fn prepare_park(&self, key: &AtomicUsize) {
        key.store(10, Ordering::Relaxed);
    }

    fn timed_out(&self, key: &AtomicUsize) -> bool {
        key.load(Ordering::Relaxed) == 10
    }

    fn park(&self, key: &AtomicUsize) -> ParkStep<usize> {
        ParkStep::Wait(key.load(Ordering::Relaxed))
    }

    fn park_until(&self, key: &AtomicUsize, _timeout: Instant) -> ParkStep<usize> {
        if key.load(Ordering::Relaxed) == 10 {
            ParkStep::TimedOut
        } else {
            ParkStep::Unparked
        }
    }

    fn unpark_lock(&self, key: &AtomicUsize) -> usize {
        key.swap(11, Ordering::Relaxed)
    }
}

#[test]
fn backend_prefers_wait_address() {
    let facility = WaitAddress::create(1, Some(2), Some(3));
    assert!(matches!(
        Backend::choose_from(facility, Some(Keyed)),
        Some(Backend::WaitAddress(_))
    ));
    assert!(matches!(
        Backend::choose_from(None, Some(Keyed)),
        Some(Backend::KeyedEvent(Keyed))
    ));
    assert!(Backend::<Keyed>::choose_from(None, None).is_none());
}

#[test]
fn windows_parker_uses_its_backend() {
    let facility = WaitAddress::create(1, Some(2), Some(3)).unwrap();
    let parker = windows::ThreadParker::<Keyed>::new(Backend::WaitAddress(facility));
    assert!(windows::ThreadParker::<Keyed>::is_cheap_to_construct());
    assert!(matches!(parker.park(), ParkStep::Unparked));
    parker.prepare_park();
    assert!(parker.timed_out());
    assert!(matches!(
        parker.park(),
        ParkStep::Wait(windows::Wait::WaitAddress(WaitOnAddress {
            timeout: INFINITE
        }))
    ));
    assert!(matches!(
        parker.park_until(Instant::now()),
        ParkStep::TimedOut
    ));
    assert!(matches!(
        parker.unpark_lock().unpark(),
        windows::Wake::WaitAddress(wake) if wake.wake_function == 3
    ));
    assert!(!parker.timed_out());

    let parker = windows::ThreadParker::new(Backend::KeyedEvent(Keyed));
    parker.prepare_park();
    assert!(parker.timed_out());
    assert!(matches!(
        parker.park(),
        ParkStep::Wait(windows::Wait::KeyedEvent(10))
    ));
    assert!(matches!(
        parker.park_until(Instant::now()),
        ParkStep::TimedOut
    ));
    assert!(matches!(
        parker.unpark_lock().unpark(),
        windows::Wake::KeyedEvent(10)
    ));
    assert!(!parker.timed_out());
}

#[test]
fn deadlines_lie_ahead() {
    let before = Instant::now();
    let deadline = to_deadline(Duration::from_secs(10)).unwrap();
    assert!(deadline >= before + Duration::from_secs(10));
    assert!(deadline <= Instant::now() + Duration::from_secs(10));
    assert_eq!(to_deadline(Duration::MAX), None);
}

#[test]
fn remaining_time_runs_out() {
    let past = Instant::now();
    let left = Remaining::until(past);
    assert_eq!(left, Remaining { secs: 0, nanos: 0 });
    assert!(left.is_over());
    let left = Remaining::until(past + hour());
    assert!(left.secs <= 3600 && left.secs > 3500);
    assert!(!left.is_over());
    assert!(!Remaining { secs: 0, nanos: 1 }.is_over());
    assert!(!Remaining { secs: 1, nanos: 0 }.is_over());
}
