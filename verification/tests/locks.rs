//! Reentrant and recursive locks, and what guards carry.

use parking_lot::guard::{ExclusiveGuardData, SharedGuardData};
use parking_lot::recursive_rwlock::RecursiveRwLock;
use parking_lot::remutex::{RawThreadId, ReentrantMutex, ThreadId};
use std::cell::{Cell, RefCell};
use std::marker::PhantomData;
use std::rc::Rc;

struct SendSync;
#[allow(dead_code)]
struct SendNotSync(Cell<()>);
struct SyncNotSend(PhantomData<std::sync::MutexGuard<'static, ()>>);
struct Neither(PhantomData<Rc<()>>);

/// Has one implementation for everything, and another one for what is `Send`: naming it is
/// ambiguous unless the type is not.
trait UnlessSend<A> {
    fn holds() -> bool {
        true
    }
}
impl<T: ?Sized> UnlessSend<()> for T {}
impl<T: ?Sized + Send> UnlessSend<u8> for T {}

trait UnlessSync<A> {
    fn holds() -> bool {
        true
    }
}
impl<T: ?Sized> UnlessSync<()> for T {}
impl<T: ?Sized + Sync> UnlessSync<u8> for T {}

fn is_send<T: ?Sized + Send>() -> bool {
    true
}

fn is_sync<T: ?Sized + Sync>() -> bool {
    true
}

#[test]
fn trait_matrix_compiles() {
    assert!(is_send::<SendSync>() && is_sync::<SendSync>());
    assert!(is_send::<SendNotSync>() && <SendNotSync as UnlessSync<_>>::holds());
    assert!(is_sync::<SyncNotSend>() && <SyncNotSend as UnlessSend<_>>::holds());
    assert!(<Neither as UnlessSend<_>>::holds() && <Neither as UnlessSync<_>>::holds());

    assert!(is_send::<SharedGuardData<'static, SendSync>>());
    assert!(is_sync::<SharedGuardData<'static, SendSync>>());
    assert!(is_send::<SharedGuardData<'static, SyncNotSend>>());
    assert!(is_sync::<SharedGuardData<'static, SyncNotSend>>());
    assert!(<SharedGuardData<'static, SendNotSync> as UnlessSend<_>>::holds());
    assert!(<SharedGuardData<'static, SendNotSync> as UnlessSync<_>>::holds());
    assert!(<SharedGuardData<'static, Neither> as UnlessSend<_>>::holds());
    assert!(<SharedGuardData<'static, Neither> as UnlessSync<_>>::holds());

    assert!(is_send::<ExclusiveGuardData<'static, SendSync>>());
    assert!(is_sync::<ExclusiveGuardData<'static, SendSync>>());
    assert!(is_send::<ExclusiveGuardData<'static, SendNotSync>>());
    assert!(<ExclusiveGuardData<'static, SendNotSync> as UnlessSync<_>>::holds());
    assert!(is_sync::<ExclusiveGuardData<'static, SyncNotSend>>());
    assert!(<ExclusiveGuardData<'static, SyncNotSend> as UnlessSend<_>>::holds());
    assert!(<ExclusiveGuardData<'static, Neither> as UnlessSend<_>>::holds());
    assert!(<ExclusiveGuardData<'static, Neither> as UnlessSync<_>>::holds());
}

#[test]
fn guards_give_access() {
    let text = String::from("shared");
    let shared: SharedGuardData<'_, str> = SharedGuardData::new(&text);
    assert_eq!(shared.as_ref(), "shared");

    let mut number = 1;
    let mut exclusive = ExclusiveGuardData::new(&mut number);
    assert_eq!(*exclusive.as_ref(), 1);
    *exclusive.as_mut() += 4;
    assert_eq!(*exclusive.as_ref(), 5);
    assert_eq!(number, 5);
}

fn thread(key: usize) -> ThreadId {
    RawThreadId.nonzero_thread_id(key)
}

#[test]
fn thread_ids_tell_threads_apart() {
    let (a, b) = (RawThreadId, RawThreadId);
    assert_eq!(a.nonzero_thread_id(0x1000).get(), 0x1000);
    assert_eq!(a.nonzero_thread_id(0x1000), b.nonzero_thread_id(0x1000));
    assert_ne!(a.nonzero_thread_id(0x1000), a.nonzero_thread_id(0x2000));
}

#[test]
fn smoke() {
    let me = thread(0x1000);
    let mut m = ReentrantMutex::new(2);
    {
        assert!(m.try_lock(me));
        {
            assert!(m.try_lock(me));
            {
                assert!(m.try_lock(me));
                assert_eq!(*m.data(me), 2);
                m.unlock(me);
            }
            assert_eq!(*m.data(me), 2);
            m.unlock(me);
        }
        assert_eq!(*m.data(me), 2);
        m.unlock(me);
    }
    assert!(!m.is_locked());
}

#[test]
fn is_mutex() {
    let parent = thread(0x1000);
    let child = thread(0x2000);
    let mut m = ReentrantMutex::new(RefCell::new(0));
    assert!(m.try_lock(parent));
    for i in 0..100 {
        assert!(!m.try_lock(child));
        assert!(m.try_lock(parent));
        *m.data(parent).borrow_mut() += i;
        m.unlock(parent);
    }
    m.unlock(parent);
    assert!(m.try_lock(child));
    assert_eq!(*m.data(child).borrow(), 4950);
}

#[test]
fn trylock_works() {
    let me = thread(0x1000);
    let other = thread(0x2000);
    let mut m = ReentrantMutex::new(());
    assert!(m.try_lock(me));
    assert!(m.try_lock(me));
    assert!(!m.try_lock(other));
    assert!(m.try_lock(me));
    assert!(m.is_owned_by(me));
    assert!(!m.is_owned_by(other));
}

#[test]
fn reentrant_lock_is_released_as_often_as_acquired() {
    let me = thread(0x1000);
    let other = thread(0x2000);
    let mut m = ReentrantMutex::new(());
    assert!(m.try_lock(me));
    assert!(m.try_lock(me));
    m.unlock(me);
    assert!(m.is_locked());
    assert!(!m.try_lock(other));
    m.unlock(me);
    assert!(!m.is_locked());
    assert!(m.try_lock(other));
}

#[test]
fn test_reentrant_mutex_debug() {
    let me = thread(0x1000);
    let mutex = ReentrantMutex::new(vec![0u8, 10]);

    assert_eq!(
        mutex.debug(me, |data| format!("{:?}", data)),
        "ReentrantMutex { data: [0, 10] }"
    );
}

#[test]
fn recursive_read_with_waiting_writer() {
    let mut lock = RecursiveRwLock::new(());
    assert!(lock.try_read());
    assert!(lock.try_read());

    assert!(!lock.try_write());
    lock.park_writer();
    assert!(lock.has_parked_threads());

    assert!(lock.try_read());
    lock.unlock_read();
    lock.unlock_read();
    assert!(!lock.try_write());
    lock.unlock_read();
    assert!(lock.try_write());
    lock.unpark_writer();
    assert!(!lock.has_parked_threads());
    assert!(!lock.try_read());
    assert!(!lock.try_upgradable_read());
}

#[test]
fn upgrade() {
    let mut lock = RecursiveRwLock::new(1);
    assert!(lock.try_upgradable_read());
    assert!(lock.try_read());
    assert!(!lock.try_upgrade());
    lock.unlock_read();
    assert!(lock.try_upgrade());
    *lock.data_mut() = 2;
    lock.unlock_write();
    assert!(lock.try_read());
    assert_eq!(*lock.data(), 2);
}

#[test]
fn upgradable_excludes_writers() {
    let mut lock = RecursiveRwLock::new(1);
    assert!(lock.try_upgradable_read());
    assert!(!lock.try_upgradable_read());
    assert!(!lock.try_write());
    lock.unlock_upgradable();
    assert!(lock.try_write());
}
