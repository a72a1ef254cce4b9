//! A thread parker on top of futexes.

use crate::thread_parker::{FlagOp, ParkStep, ThreadParkerT, UnparkHandleT};
use crate::util::{is_left, Remaining};
use std::sync::atomic::{AtomicI32, Ordering};
use std::time::Instant;
use vstd::prelude::*;

verus! {

/// How wide the fields of a timeout are in the system call interface of the kernel. This may
/// differ from the C library: native 64-bit calls use 64-bit fields, legacy 32-bit calls two
/// 32-bit ones.
#[derive(Copy, Clone, Eq, PartialEq, Debug, Structural)]
pub enum TimespecField {
    /// 32 bits.
    Bits32,
    /// 64 bits.
    Bits64,
}

/// A relative timeout as it is handed to the kernel.
#[derive(Copy, Clone, Eq, PartialEq, Debug, Structural)]
pub struct Timespec {
    /// Whole seconds.
    pub tv_sec: i64,
    /// Nanoseconds besides.
    pub tv_nsec: i64,
}

impl TimespecField {
    /// The largest value of a field.
    pub open spec fn largest(self) -> int {
        match self {
            TimespecField::Bits32 => i32::MAX as int,
            TimespecField::Bits64 => i64::MAX as int,
        }
    }
}

impl Timespec {
    /// A timeout of as much time as is left, or as much as fits if that is too long.
    pub fn new(left: Remaining, field: TimespecField) -> (r: Timespec)
        requires
            left.wf(),
        ensures
            r.tv_sec == if left.secs <= field.largest() {
                left.secs as int
            } else {
                field.largest()
            },
            r.tv_nsec == left.nanos,
            left.secs <= 0x7fff_ffff ==> r.tv_sec == left.secs,
            field is Bits64 && left.secs <= 0x7fff_ffff_ffff_ffff ==> r.tv_sec == left.secs,
            0 <= r.tv_sec <= left.secs,
    {
        let largest: i64 = match field {
            TimespecField::Bits32 => i32::MAX as i64,
            TimespecField::Bits64 => i64::MAX,
        };
        let tv_sec: i64 = if left.secs <= largest as u64 {
            left.secs as i64
        } else {
            largest
        };
        Timespec { tv_sec, tv_nsec: left.nanos as i64 }
    }
}

/// Helper type for putting a thread to sleep until some other thread wakes it up.
pub struct ThreadParker {
    futex: AtomicI32,
}

/// Wait on the futex while it is 1, until it is woken up or the time that is given is over.
#[derive(Copy, Clone, Eq, PartialEq, Debug, Structural)]
pub struct FutexWait {
    /// How long to wait at most.
    pub timeout: Option<Remaining>,
}

impl ThreadParker {
    /// The futex, as a thing that operations are applied to.
    pub closed spec fn word(&self) -> AtomicI32 {
        self.futex
    }

    /// The futex, to wait on.
    pub fn futex(&self) -> (r: &AtomicI32)
        ensures
            *r == self.word(),
    {
        &self.futex
    }
}

/// What a change of the futex leaves in it.
pub open spec fn stored(op: FlagOp) -> i32 {
    match op {
        FlagOp::PreparePark => 1,
        FlagOp::UnparkLock => 0,
    }
}

/// The futex after some changes.
pub open spec fn word_after(ops: Seq<FlagOp>) -> i32 {
    if ops.len() == 0 {
        0
    } else {
        stored(ops.last())
    }
}

/// Whether a thread is parked, given its futex.
pub open spec fn is_parked(word: i32) -> bool {
    word != 0
}

/// What a parking thread does, given the futex.
pub open spec fn park_step(word: i32) -> ParkStep<FutexWait> {
    if word != 0 {
        ParkStep::Wait(FutexWait { timeout: None })
    } else {
        ParkStep::Unparked
    }
}

/// What a thread does that parks with a timeout, given the futex and the time that is left.
pub open spec fn park_until_step(word: i32, left: Remaining) -> ParkStep<FutexWait> {
    if word == 0 {
        ParkStep::Unparked
    } else if left.total() == 0 {
        ParkStep::TimedOut
    } else {
        ParkStep::Wait(FutexWait { timeout: Some(left) })
    }
}

impl ThreadParkerT for ThreadParker {
    type Backend = ();

    type Wait = FutexWait;

    type UnparkHandle<'a> = UnparkHandle<'a>;

    fn is_cheap_to_construct() -> (r: bool)
        ensures
            r,
    {
        true
    }

    fn new(backend: ()) -> (r: ThreadParker)
        ensures
            call_ensures(AtomicI32::new, (word_after(seq![]),), r.word()),
    {
        ThreadParker { futex: AtomicI32::new(0) }
    }

    fn prepare_park(&self)
        ensures
            call_ensures(
                AtomicI32::store,
                (&self.word(), stored(FlagOp::PreparePark), Ordering::Relaxed),
                (),
            ),
    {
        self.futex.store(1, Ordering::Relaxed);
    }

    fn timed_out(&self) -> (r: bool)
        ensures
            exists|word: i32| #[trigger]
                call_ensures(AtomicI32::load, (&self.word(), Ordering::Relaxed), word) && r
                    == is_parked(word),
    {
        self.futex.load(Ordering::Relaxed) != 0
    }

    fn park(&self) -> (r: ParkStep<FutexWait>)
        ensures
            exists|word: i32| #[trigger]
                call_ensures(AtomicI32::load, (&self.word(), Ordering::Acquire), word) && r
                    == park_step(word),
    {
        if self.futex.load(Ordering::Acquire) != 0 {
            ParkStep::Wait(FutexWait { timeout: None })
        } else {
            ParkStep::Unparked
        }
    }

    fn park_until(&self, timeout: Instant) -> (r: ParkStep<FutexWait>)
        ensures
            exists|word: i32, left: Remaining| #[trigger]
                call_ensures(AtomicI32::load, (&self.word(), Ordering::Acquire), word)
                    && #[trigger] left.wf() && (word != 0 ==> left.is_until(timeout)) && r
                    == park_until_step(word, left),
            r is TimedOut ==> is_left(timeout, 0, 0),
            r matches ParkStep::Wait(wait) ==> {
                &&& wait.timeout matches Some(left) && is_left(timeout, left.secs, left.nanos) && (
                left.secs > 0 || left.nanos > 0)
            },
    {
        let word: i32 = self.futex.load(Ordering::Acquire);
        if word == 0 {
            assert((Remaining { secs: 0, nanos: 0 }).wf());
            return ParkStep::Unparked;
        }
        let left = Remaining::until(timeout);
        if left.is_over() {
            ParkStep::TimedOut
        } else {
            ParkStep::Wait(FutexWait { timeout: Some(left) })
        }
    }

    fn unpark_lock<'a>(&'a self) -> (r: UnparkHandle<'a>)
        ensures
            call_ensures(
                AtomicI32::store,
                (&self.word(), stored(FlagOp::UnparkLock), Ordering::Release),
                (),
            ),
            r.word() == self.word(),
    {
        // We don't need to lock anything, just clear the state
        self.futex.store(0, Ordering::Release);
        UnparkHandle { futex: &self.futex }
    }
}

/// Handle for a thread that is about to be unparked.
pub struct UnparkHandle<'a> {
    futex: &'a AtomicI32,
}

impl<'a> UnparkHandle<'a> {
    /// The futex that the thread waits on.
    pub closed spec fn word(&self) -> AtomicI32 {
        *self.futex
    }
}

/// Wake up one thread that waits on the futex.
pub struct FutexWake<'a> {
    /// The futex.
    pub futex: &'a AtomicI32,
}

impl<'a> UnparkHandleT for UnparkHandle<'a> {
    type Wake = FutexWake<'a>;

    fn unpark(self) -> (r: FutexWake<'a>)
        ensures
            *r.futex == self.word(),
    {
        FutexWake { futex: self.futex }
    }
}

/// Why a system call has failed.
#[derive(Copy, Clone, Eq, PartialEq, Debug, Structural)]
pub enum Errno {
    /// It was interrupted by a signal.
    Interrupted,
    /// The futex was not as expected.
    TryAgain,
    /// The time was over.
    TimedOut,
    /// The futex is not there any more.
    BadAddress,
    /// Anything else.
    Other,
}

/// Whether a wait may have ended like this.
pub fn is_expected_of_wait(result: i64, errno: Errno, has_timeout: bool) -> (r: bool)
    ensures
        r == (result == 0 || (result == -1 && (errno is Interrupted || errno is TryAgain || (
        has_timeout && errno is TimedOut)))),
{
    result == 0 || (result == -1 && (matches!(errno, Errno::Interrupted | Errno::TryAgain) || (
    has_timeout && matches!(errno, Errno::TimedOut))))
}

/// Whether waking up a thread may have ended like this. The thread data may have been freed, but
/// that doesn't matter since the system call just fails in that case.
pub fn is_expected_of_wake(result: i64, errno: Errno) -> (r: bool)
    ensures
        r == (result == 0 || result == 1 || (result == -1 && errno is BadAddress)),
{
    result == 0 || result == 1 || (result == -1 && matches!(errno, Errno::BadAddress))
}

/// A field of a timeout is a signed number of as many bits as it is wide.
pub proof fn law_fields_are_signed(field: TimespecField)
    ensures
        field.largest() == match field {
            TimespecField::Bits32 => 0x7fff_ffffint,
            TimespecField::Bits64 => 0x7fff_ffff_ffff_ffffint,
        },
{
}

} // verus!
