//! A thread parker on top of either of two facilities: waiting on an address, or keyed events.

pub mod waitaddress;

use crate::thread_parker::windows::waitaddress::{WaitAddress, WaitOnAddress, WakeByAddressSingle};
use crate::thread_parker::{ParkStep, ThreadParkerT, UnparkHandleT};
use std::sync::atomic::AtomicUsize;
use std::time::Instant;
use vstd::prelude::*;

verus! {

/// A facility that parks threads by a key each.
pub trait KeyedParker: Sized {
    /// How the operating system is asked to put a thread to sleep.
    type Wait;

    /// How the operating system is asked to wake up a thread.
    type Wake;

    /// Prepares a thread for parking.
    fn prepare_park(&self, key: &AtomicUsize);

    /// Checks if the park timed out.
    fn timed_out(&self, key: &AtomicUsize) -> bool;

    /// Parks a thread until it is unparked.
    fn park(&self, key: &AtomicUsize) -> ParkStep<Self::Wait>;

    /// Parks a thread until it is unparked or the timeout is reached.
    fn park_until(&self, key: &AtomicUsize, timeout: Instant) -> ParkStep<Self::Wait>;

    /// Prepares to unpark a thread.
    fn unpark_lock(&self, key: &AtomicUsize) -> Self::Wake;
}

/// The facility that is used.
pub enum Backend<K> {
    /// Keyed events.
    KeyedEvent(K),
    /// Waiting on an address.
    WaitAddress(WaitAddress),
}

impl<K> Backend<K> {
    /// The facility to use of those that are available, or `None` if neither is.
    pub fn choose_from(wait_address: Option<WaitAddress>, keyed_event: Option<K>) -> (r: Option<
        Backend<K>,
    >)
        ensures
            r == match (wait_address, keyed_event) {
                (Some(x), _) => Some(Backend::WaitAddress(x)),
                (None, Some(x)) => Some(Backend::KeyedEvent(x)),
                (None, None) => None,
            },
    {
        if let Some(x) = wait_address {
            Some(Backend::WaitAddress(x))
        } else if let Some(x) = keyed_event {
            Some(Backend::KeyedEvent(x))
        } else {
            None
        }
    }
}

/// Helper type for putting a thread to sleep until some other thread wakes it up.
pub struct ThreadParker<K: KeyedParker> {
    key: AtomicUsize,
    backend: Backend<K>,
}

impl<K: KeyedParker> ThreadParker<K> {
    /// The key, as a thing that operations are applied to.
    pub closed spec fn word(&self) -> AtomicUsize {
        self.key
    }

    /// The facility that is used.
    pub closed spec fn facility(&self) -> Backend<K> {
        self.backend
    }

    /// The key, to wait on.
    pub fn key(&self) -> (r: &AtomicUsize)
        ensures
            *r == self.word(),
    {
        &self.key
    }

    /// The facility, to wait with.
    pub fn backend(&self) -> (r: &Backend<K>)
        ensures
            *r == self.facility(),
    {
        &self.backend
    }
}

/// How the operating system is asked to put a thread to sleep.
pub enum Wait<W> {
    /// By a keyed event.
    KeyedEvent(W),
    /// By waiting on the address of the key.
    WaitAddress(WaitOnAddress),
}

/// What waiting with one of the facilities means.
pub open spec fn with_keyed_event<W>(step: ParkStep<W>) -> ParkStep<Wait<W>> {
    match step {
        ParkStep::Unparked => ParkStep::Unparked,
        ParkStep::TimedOut => ParkStep::TimedOut,
        ParkStep::Wait(wait) => ParkStep::Wait(Wait::KeyedEvent(wait)),
    }
}

/// What waiting with one of the facilities means.
pub open spec fn with_wait_address<W>(step: ParkStep<WaitOnAddress>) -> ParkStep<Wait<W>> {
    match step {
        ParkStep::Unparked => ParkStep::Unparked,
        ParkStep::TimedOut => ParkStep::TimedOut,
        ParkStep::Wait(wait) => ParkStep::Wait(Wait::WaitAddress(wait)),
    }
}

impl<K: KeyedParker + 'static> ThreadParkerT for ThreadParker<K> {
    type Backend = Backend<K>;

    type Wait = Wait<K::Wait>;

    type UnparkHandle<'a> = UnparkHandle<'a, K>;

    fn is_cheap_to_construct() -> (r: bool)
        ensures
            r,
    {
        true
    }

    fn new(backend: Backend<K>) -> (r: ThreadParker<K>)
        ensures
            call_ensures(AtomicUsize::new, (waitaddress::word_after(seq![]),), r.word()),
            r.facility() == backend,
    {
        ThreadParker { key: AtomicUsize::new(0), backend }
    }

    fn prepare_park(&self)
        ensures
            match self.facility() {
                Backend::KeyedEvent(x) => call_ensures(K::prepare_park, (&x, &self.word()), ()),
                Backend::WaitAddress(x) => call_ensures(
                    WaitAddress::prepare_park,
                    (&x, &self.word()),
                    (),
                ),
            },
    {
        match &self.backend {
            Backend::KeyedEvent(x) => x.prepare_park(&self.key),
            Backend::WaitAddress(x) => x.prepare_park(&self.key),
        }
    }

    fn timed_out(&self) -> (r: bool)
        ensures
            match self.facility() {
                Backend::KeyedEvent(x) => call_ensures(K::timed_out, (&x, &self.word()), r),
                Backend::WaitAddress(x) => call_ensures(
                    WaitAddress::timed_out,
                    (&x, &self.word()),
                    r,
                ),
            },
    {
        match &self.backend {
            Backend::KeyedEvent(x) => x.timed_out(&self.key),
            Backend::WaitAddress(x) => x.timed_out(&self.key),
        }
    }

    fn park(&self) -> (r: ParkStep<Wait<K::Wait>>)
        ensures
            match self.facility() {
                Backend::KeyedEvent(x) => exists|step: ParkStep<K::Wait>| #[trigger]
                    call_ensures(K::park, (&x, &self.word()), step) && r == with_keyed_event(step),
                Backend::WaitAddress(x) => exists|step: ParkStep<WaitOnAddress>| #[trigger]
                    call_ensures(WaitAddress::park, (&x, &self.word()), step) && r
                        == with_wait_address::<K::Wait>(step),
            },
    {
        match &self.backend {
            Backend::KeyedEvent(x) => keyed_event_step(x.park(&self.key)),
            Backend::WaitAddress(x) => wait_address_step(x.park(&self.key)),
        }
    }

    fn park_until(&self, timeout: Instant) -> (r: ParkStep<Wait<K::Wait>>)
        ensures
            match self.facility() {
                Backend::KeyedEvent(x) => exists|step: ParkStep<K::Wait>| #[trigger]
                    call_ensures(K::park_until, (&x, &self.word(), timeout), step) && r
                        == with_keyed_event(step),
                Backend::WaitAddress(x) => exists|step: ParkStep<WaitOnAddress>| #[trigger]
                    call_ensures(WaitAddress::park_until, (&x, &self.word(), timeout), step) && r
                        == with_wait_address::<K::Wait>(step),
            },
    {
        match &self.backend {
            Backend::KeyedEvent(x) => keyed_event_step(x.park_until(&self.key, timeout)),
            Backend::WaitAddress(x) => wait_address_step(x.park_until(&self.key, timeout)),
        }
    }

    fn unpark_lock<'a>(&'a self) -> (r: UnparkHandle<'a, K>)
        ensures
            match (self.facility(), r) {
                (Backend::KeyedEvent(x), UnparkHandle::KeyedEvent(wake)) => call_ensures(
                    K::unpark_lock,
                    (&x, &self.word()),
                    wake,
                ),
                (Backend::WaitAddress(x), UnparkHandle::WaitAddress(handle)) => call_ensures(
                    WaitAddress::unpark_lock,
                    (&x, &self.word()),
                    handle,
                ),
                _ => false,
            },
    {
        match &self.backend {
            Backend::KeyedEvent(x) => UnparkHandle::KeyedEvent(x.unpark_lock(&self.key)),
            Backend::WaitAddress(x) => UnparkHandle::WaitAddress(x.unpark_lock(&self.key)),
        }
    }
}

fn keyed_event_step<W>(step: ParkStep<W>) -> (r: ParkStep<Wait<W>>)
    ensures
        r == with_keyed_event(step),
{
    match step {
        ParkStep::Unparked => ParkStep::Unparked,
        ParkStep::TimedOut => ParkStep::TimedOut,
        ParkStep::Wait(wait) => ParkStep::Wait(Wait::KeyedEvent(wait)),
    }
}

fn wait_address_step<W>(step: ParkStep<WaitOnAddress>) -> (r: ParkStep<Wait<W>>)
    ensures
        r == with_wait_address::<W>(step),
{
    match step {
        ParkStep::Unparked => ParkStep::Unparked,
        ParkStep::TimedOut => ParkStep::TimedOut,
        ParkStep::Wait(wait) => ParkStep::Wait(Wait::WaitAddress(wait)),
    }
}

/// Handle for a thread that is about to be unparked. We need to mark the thread as unparked while
/// holding the queue lock, but we delay the actual unparking until after the queue lock is
/// released.
pub enum UnparkHandle<'a, K: KeyedParker> {
    /// By a keyed event.
    KeyedEvent(K::Wake),
    /// By waiting on the address of the key.
    WaitAddress(waitaddress::UnparkHandle<'a>),
}

/// How the operating system is asked to wake up a thread.
pub enum Wake<'a, W> {
    /// By a keyed event.
    KeyedEvent(W),
    /// By the address of the key.
    WaitAddress(WakeByAddressSingle<'a>),
}

impl<'a, K: KeyedParker> UnparkHandleT for UnparkHandle<'a, K> {
    type Wake = Wake<'a, K::Wake>;

    fn unpark(self) -> (r: Wake<'a, K::Wake>)
        ensures
            match self {
                UnparkHandle::KeyedEvent(x) => r == Wake::<'a, K::Wake>::KeyedEvent(x),
                UnparkHandle::WaitAddress(x) => r matches Wake::WaitAddress(wake) && *wake.key
                    == x.word() && wake.wake_function == x.wake_function(),
            },
    {
        match self {
            UnparkHandle::KeyedEvent(x) => Wake::KeyedEvent(x),
            UnparkHandle::WaitAddress(x) => Wake::WaitAddress(x.unpark()),
        }
    }
}

} // verus!
