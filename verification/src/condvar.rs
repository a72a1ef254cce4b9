//! Condition variables.

use vstd::prelude::*;

verus! {

/// A raw mutex, which a condition variable unlocks while a thread waits.
pub trait RawMutex: Sized {

}

/// A raw mutex with a notion of time.
pub trait RawMutexTimed: RawMutex {
    /// A span of time.
    type Duration;

    /// A point in time.
    type Instant;
}

/// Basic operations for a condition variable associated with a particular [`RawMutex`]
/// implementation.
///
/// Types implementing this trait can be used by [`Condvar`] to form a condition variable type.
///
/// [`wait`](RawCondvar::wait) must atomically unlock the mutex and begin waiting with respect to
/// calls to [`notify_one`](RawCondvar::notify_one) and [`notify_all`](RawCondvar::notify_all),
/// then re-lock the mutex before it returns. A wait may return only after receiving a
/// notification, or after a timeout for timed waits; spurious wakeups are not permitted.
pub trait RawCondvar: Sized {
    /// The type of [`RawMutex`] this condvar can work with.
    type RawMutex: RawMutex;

    /// Whether the current thread may wait with this condvar and `mutex`, which it must hold. What
    /// there is to say of that is up to the implementation; by default it is nothing.
    open spec fn may_wait(&self, mutex: &Self::RawMutex) -> bool {
        true
    }

    /// Initial value for a new condvar.
    fn init() -> Self;

    /// Atomically unlocks the mutex and waits for a notification, then re-locks the mutex before
    /// returning. The caller must hold `mutex`.
    fn wait(&self, mutex: &Self::RawMutex)
        requires
            self.may_wait(mutex),
    ;

    /// Notify a single waiting thread.
    fn notify_one(&self) -> bool;

    /// Notify all waiting threads.
    fn notify_all(&self) -> usize;
}

/// Additional methods for condition variables which support timeouts.
pub trait RawCondvarTimed: RawCondvar where <Self as RawCondvar>::RawMutex: RawMutexTimed {
    /// Converts a relative timeout into an absolute timeout.
    ///
    /// Returns `None` if the resulting instant cannot be represented.
    fn checked_duration_to_instant(
        timeout: &<<Self as RawCondvar>::RawMutex as RawMutexTimed>::Duration,
    ) -> Option<<<Self as RawCondvar>::RawMutex as RawMutexTimed>::Instant>;

    /// Atomically unlocks the mutex and waits for a notification or until the timeout is reached,
    /// then re-locks the mutex before returning.
    ///
    /// Returns `true` if the wait timed out and `false` if it received a notification. The caller
    /// must hold `mutex`.
    fn wait_until(
        &self,
        mutex: &<Self as RawCondvar>::RawMutex,
        timeout: &<<Self as RawCondvar>::RawMutex as RawMutexTimed>::Instant,
    ) -> bool
        requires
            self.may_wait(mutex),
    ;

    /// Atomically unlocks the mutex and waits for a notification or until the timeout is reached,
    /// then re-locks the mutex before returning.
    ///
    /// Returns `true` if the wait timed out and `false` if it received a notification. The caller
    /// must hold `mutex`.
    fn wait_for(
        &self,
        mutex: &<Self as RawCondvar>::RawMutex,
        timeout: &<<Self as RawCondvar>::RawMutex as RawMutexTimed>::Duration,
    ) -> (r: bool)
        requires
            self.may_wait(mutex),
        default_ensures
            exists|deadline: Option<<<Self as RawCondvar>::RawMutex as RawMutexTimed>::Instant>|
                #[trigger] call_ensures(Self::checked_duration_to_instant, (timeout,), deadline)
                    && match deadline {
                    Some(deadline) => call_ensures(Self::wait_until, (self, mutex, &deadline), r),
                    None => call_ensures(Self::wait, (self, mutex), ()) && !r,
                },
    {
        match Self::checked_duration_to_instant(timeout) {
            Some(deadline) => self.wait_until(mutex, &deadline),
            None => {
                // An unrepresentable timeout is treated as having no deadline.
                self.wait(mutex);
                false
            },
        }
    }
}

/// A type indicating whether a timed wait on a condition variable timed out.
#[derive(Debug, PartialEq, Eq, Copy, Clone, Structural)]
pub struct WaitTimeoutResult(bool);

impl WaitTimeoutResult {
    /// Whether the wait timed out.
    pub closed spec fn view(&self) -> bool {
        self.0
    }

    /// Returns `true` if the wait was known to have timed out.
    pub fn timed_out(self) -> (r: bool)
        ensures
            r == self@,
    {
        self.0
    }
}

/// A condition variable.
///
/// Condition variables represent the ability to block a thread such that it consumes no CPU time
/// while waiting for an event to occur. Condition variables are typically associated with a
/// boolean predicate (a condition) and a mutex. The predicate is always verified inside of the
/// mutex before determining that thread must block.
pub struct Condvar<C> {
    inner: C,
}

impl<C> Condvar<C> {
    /// The underlying raw condvar object.
    pub closed spec fn view(&self) -> C {
        self.inner
    }

    /// The condition variable as it is shown to developers.
    pub fn debug(&self) -> (r: String)
        ensures
            r@ == "Condvar { .. }"@,
    {
        String::from_str("Condvar { .. }")
    }
}

impl<C: RawCondvar> Condvar<C> {
    /// Creates a new condition variable which is ready to be waited on and notified.
    pub fn new() -> (r: Condvar<C>)
        ensures
            call_ensures(C::init, (), r@),
    {
        Condvar { inner: C::init() }
    }

    /// Returns the underlying raw condvar object.
    pub fn raw(&self) -> (r: &C)
        ensures
            *r == self@,
    {
        &self.inner
    }

    /// Wakes up one blocked thread on this condvar.
    ///
    /// Returns whether a thread was woken up.
    pub fn notify_one(&self) -> (r: bool)
        ensures
            call_ensures(C::notify_one, (&self@,), r),
    {
        self.inner.notify_one()
    }

    /// Wakes up all blocked threads on this condvar.
    ///
    /// Returns the number of threads woken up.
    pub fn notify_all(&self) -> (r: usize)
        ensures
            call_ensures(C::notify_all, (&self@,), r),
    {
        self.inner.notify_all()
    }

    /// Blocks the current thread until this condition variable receives a notification.
    ///
    /// This function will atomically unlock the mutex specified and block the current thread.
    /// When this function returns, the lock will have been re-acquired. The caller must hold the
    /// mutex.
    pub fn wait(&self, mutex: &C::RawMutex)
        requires
            self@.may_wait(mutex),
        ensures
            call_ensures(C::wait, (&self@, mutex), ()),
    {
        self.inner.wait(mutex);
    }

    /// Blocks the current thread until the provided condition becomes false.
    ///
    /// `condition` is what the condition was found to be, with the mutex held. If this returns
    /// `true`, a notification has been waited for, and the condition is to be checked again. If
    /// it returns `false`, the wait is over without another one.
    pub fn wait_while(&self, mutex: &C::RawMutex, condition: bool) -> (again: bool)
        requires
            condition ==> self@.may_wait(mutex),
        ensures
            again == condition,
            again ==> call_ensures(C::wait, (&self@, mutex), ()),
    {
        if condition {
            self.inner.wait(mutex);
        }
        condition
    }
}

/// A wait for a condition to become false, which may time out.
pub struct TimedWait<I> {
    /// When it times out. A timeout which cannot be represented is treated as having no
    /// deadline.
    deadline: Option<I>,
    /// What came of the last wait for a notification.
    result: WaitTimeoutResult,
}

impl<I> TimedWait<I> {
    /// When it times out.
    pub closed spec fn deadline(&self) -> Option<I> {
        self.deadline
    }

    /// Whether the last wait for a notification timed out.
    pub closed spec fn is_late(&self) -> bool {
        self.result@
    }

    /// Whether it has only timed out if it can.
    pub open spec fn wf(&self) -> bool {
        self.is_late() ==> self.deadline() is Some
    }
}

/// What comes of checking the condition, given whether the last wait for a notification timed
/// out: whether the wait timed out while the condition remained `true`, or `None` if there is to
/// be another wait.
pub open spec fn checked_condition(condition: bool, late: bool) -> Option<bool> {
    if !condition {
        Some(false)
    } else if late {
        Some(true)
    } else {
        None
    }
}

impl<R: RawMutexTimed, C: RawCondvarTimed<RawMutex = R>> Condvar<C> {
    /// Waits on this condition variable for a notification, timing out after the specified time
    /// instant.
    ///
    /// The returned [`WaitTimeoutResult`] indicates whether the wait ended because the timeout
    /// elapsed rather than because of a notification.
    pub fn wait_until(&self, mutex: &R, timeout: R::Instant) -> (r: WaitTimeoutResult)
        requires
            self@.may_wait(mutex),
        ensures
            call_ensures(C::wait_until, (&self@, mutex, &timeout), r@),
    {
        WaitTimeoutResult(self.inner.wait_until(mutex, &timeout))
    }

    /// Waits on this condition variable for a notification, timing out after a specified
    /// duration.
    ///
    /// The returned [`WaitTimeoutResult`] indicates whether the wait ended because the timeout
    /// elapsed rather than because of a notification.
    pub fn wait_for(&self, mutex: &R, timeout: R::Duration) -> (r: WaitTimeoutResult)
        requires
            self@.may_wait(mutex),
        ensures
            call_ensures(C::wait_for, (&self@, mutex, &timeout), r@),
    {
        WaitTimeoutResult(self.inner.wait_for(mutex, &timeout))
    }

    /// Begins to wait on this condition variable for a condition to become false, timing out
    /// after the specified time instant. It goes on with [`check`](Self::check).
    pub fn wait_while_until(&self, timeout: R::Instant) -> (r: TimedWait<R::Instant>)
        ensures
            r.wf(),
            r.deadline() == Some(timeout),
            !r.is_late(),
    {
        TimedWait { deadline: Some(timeout), result: WaitTimeoutResult(false) }
    }

    /// Begins to wait on this condition variable for a condition to become false, timing out
    /// after a specified duration. It goes on with [`check`](Self::check).
    ///
    /// A timeout which cannot be represented by the underlying clock is treated as having no
    /// deadline.
    pub fn wait_while_for(&self, timeout: R::Duration) -> (r: TimedWait<R::Instant>)
        ensures
            r.wf(),
            call_ensures(C::checked_duration_to_instant, (&timeout,), r.deadline()),
            !r.is_late(),
    {
        TimedWait {
            deadline: C::checked_duration_to_instant(&timeout),
            result: WaitTimeoutResult(false),
        }
    }

    /// Goes on with waiting for a condition to become false.
    ///
    /// `condition` is what the condition was found to be, with the mutex held. If this returns
    /// `None`, there was another wait, and the condition is to be checked again. Otherwise the
    /// wait is over without another one, and the result indicates whether it timed out while the
    /// condition remained `true`.
    pub fn check(&self, mutex: &R, wait: &mut TimedWait<R::Instant>, condition: bool) -> (r: Option<
        WaitTimeoutResult,
    >)
        requires
            old(wait).wf(),
            checked_condition(condition, old(wait).is_late()) is None ==> self@.may_wait(mutex),
        ensures
            final(wait).wf(),
            final(wait).deadline() == old(wait).deadline(),
            match checked_condition(condition, old(wait).is_late()) {
                Some(timed_out) => r matches Some(result) && result@ == timed_out
                    && final(wait).is_late() == old(wait).is_late(),
                None => r is None && match old(wait).deadline() {
                    Some(deadline) => call_ensures(
                        C::wait_until,
                        (&self@, mutex, &deadline),
                        final(wait).is_late(),
                    ),
                    None => call_ensures(C::wait, (&self@, mutex), ()) && !final(wait).is_late(),
                },
            },
    {
        if !condition {
            return Some(WaitTimeoutResult(false));
        }
        if wait.result.timed_out() {
            return Some(wait.result);
        }
        match &wait.deadline {
            Some(deadline) => {
                wait.result = WaitTimeoutResult(self.inner.wait_until(mutex, deadline));
            },
            None => {
                // An unrepresentable timeout is treated as having no deadline.
                self.inner.wait(mutex);
            },
        }
        None
    }
}

impl<C: RawCondvar> Default for Condvar<C> {
    fn default() -> (r: Condvar<C>)
        ensures
            call_ensures(C::init, (), r@),
    {
        Condvar::new()
    }
}

/// A wait only ends when the condition is false, or when it has timed out while the condition
/// remained true; the condition is checked once more after a timeout, and wins.
pub proof fn law_wait_ends(condition: bool, late: bool)
    ensures
        checked_condition(condition, late) is Some <==> (!condition || late),
        checked_condition(condition, late) == Some(true) <==> (condition && late),
        checked_condition(false, late) == Some(false),
{
}

/// A wait that has no deadline does not time out.
pub proof fn law_no_deadline_no_timeout<I>(wait: TimedWait<I>, condition: bool)
    requires
        wait.wf(),
        wait.deadline() is None,
    ensures
        checked_condition(condition, wait.is_late()) != Some(true),
{
}

} // verus!
