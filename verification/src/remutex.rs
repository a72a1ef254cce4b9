//! A mutual exclusion lock that a thread can acquire again while it holds it.

use vstd::prelude::*;

verus! {

/// The identity of a thread: a number which is never 0.
#[derive(Copy, Clone, Eq, PartialEq, Debug, Structural)]
pub struct ThreadId(usize);

impl ThreadId {
    #[verifier::type_invariant]
    spec fn is_nonzero(self) -> bool {
        self.0 != 0
    }

    /// The number.
    pub closed spec fn view(&self) -> usize {
        self.0
    }

    /// The number.
    pub fn get(&self) -> (r: usize)
        ensures
            r == self@,
            r != 0,
    {
        proof {
            use_type_invariant(self);
        }
        self.0
    }
}

/// Tells threads apart.
pub struct RawThreadId;

impl RawThreadId {
    /// The identity of the calling thread, where `key` is the address of a variable that is local
    /// to it. The address of such a variable is unique to the thread, and is not 0.
    pub fn nonzero_thread_id(&self, key: usize) -> (r: ThreadId)
        requires
            key != 0,
        ensures
            r@ == key,
            r@ != 0,
    {
        ThreadId(key)
    }
}

/// Whether the addresses of thread-local variables are as they should be: no two threads that are
/// alive share one, and none is 0.
pub open spec fn are_thread_local(keys: Map<int, usize>) -> bool {
    &&& forall|a: int| #[trigger] keys.contains_key(a) ==> keys[a] != 0
    &&& forall|a: int, b: int| #[trigger]
        keys.contains_key(a) && #[trigger] keys.contains_key(b) && keys[a] == keys[b] ==> a == b
}

/// Identities tell threads apart that are alive at the same time: two of them are the same exactly
/// if they were asked for by the same thread, and none is 0.
pub proof fn law_ids_tell_threads_apart(
    keys: Map<int, usize>,
    a: int,
    b: int,
    x: ThreadId,
    y: ThreadId,
)
    requires
        are_thread_local(keys),
        keys.contains_key(a),
        keys.contains_key(b),
        x@ == keys[a],
        y@ == keys[b],
    ensures
        x == y <==> a == b,
        x@ != 0,
{
}

/// Who holds a reentrant lock.
pub struct Hold {
    /// The thread that holds it.
    pub owner: Option<ThreadId>,
    /// How often that thread has acquired it.
    pub count: nat,
}

impl Hold {
    /// Whether the lock has been acquired exactly if some thread holds it.
    pub open spec fn wf(self) -> bool {
        self.owner is Some <==> self.count > 0
    }

    /// Whether a thread can acquire the lock without blocking.
    pub open spec fn admits(self, thread: ThreadId) -> bool {
        self.owner is None || self.owner == Some(thread)
    }

    /// The lock once a thread has acquired it.
    pub open spec fn locked(self, thread: ThreadId) -> Hold {
        Hold { owner: Some(thread), count: self.count + 1 }
    }

    /// The lock once the thread that holds it has released one level of locking.
    pub open spec fn unlocked(self) -> Hold {
        Hold {
            owner: if self.count > 1 {
                self.owner
            } else {
                None
            },
            count: (self.count - 1) as nat,
        }
    }
}

/// A reentrant mutual exclusion lock.
///
/// This lock blocks other threads waiting for it to become available. A thread which already
/// holds the lock can acquire it additional times without blocking.
pub struct ReentrantMutex<T> {
    owner: Option<ThreadId>,
    lock_count: usize,
    data: T,
}

impl<T> ReentrantMutex<T> {
    /// Who holds the lock.
    pub closed spec fn view(&self) -> Hold {
        Hold { owner: self.owner, count: self.lock_count as nat }
    }

    /// The protected data.
    pub closed spec fn contents(&self) -> T {
        self.data
    }

    /// Creates a new reentrant mutex in an unlocked state ready for use.
    pub fn new(data: T) -> (r: ReentrantMutex<T>)
        ensures
            r@ == (Hold { owner: None, count: 0 }),
            r@.wf(),
            r.contents() == data,
    {
        ReentrantMutex { owner: None, lock_count: 0, data }
    }

    /// Attempts to acquire the lock for a thread, and returns whether it has. If not, the thread
    /// has to wait until the lock is released.
    pub fn try_lock(&mut self, thread: ThreadId) -> (r: bool)
        requires
            old(self)@.wf(),
            old(self)@.count < usize::MAX,
        ensures
            r == old(self)@.admits(thread),
            final(self)@ == if r {
                old(self)@.locked(thread)
            } else {
                old(self)@
            },
            final(self)@.wf(),
            final(self).contents() == old(self).contents(),
    {
        let admitted = match self.owner {
            None => true,
            Some(owner) => owner == thread,
        };
        if admitted {
            self.owner = Some(thread);
            self.lock_count = self.lock_count + 1;
        }
        admitted
    }

    /// Releases one level of locking.
    pub fn unlock(&mut self, thread: ThreadId)
        requires
            old(self)@.wf(),
            old(self)@.owner == Some(thread),
        ensures
            final(self)@ == old(self)@.unlocked(),
            final(self)@.wf(),
            final(self).contents() == old(self).contents(),
    {
        self.lock_count = self.lock_count - 1;
        if self.lock_count == 0 {
            self.owner = None;
        }
    }

    /// Checks whether the lock is currently held.
    pub fn is_locked(&self) -> (r: bool)
        ensures
            r == self@.owner is Some,
    {
        self.owner.is_some()
    }

    /// Checks whether the lock is currently held by a thread.
    pub fn is_owned_by(&self, thread: ThreadId) -> (r: bool)
        ensures
            r == (self@.owner == Some(thread)),
    {
        match self.owner {
            None => false,
            Some(owner) => owner == thread,
        }
    }

    /// Accesses the data through the lock.
    ///
    /// Mutable access is not provided, because a thread can hold the lock more than once.
    pub fn data(&self, thread: ThreadId) -> (r: &T)
        requires
            self@.owner == Some(thread),
        ensures
            *r == self.contents(),
    {
        &self.data
    }

    /// The mutex as it is shown to developers by a thread that can acquire it without blocking.
    /// The data is shown by `show`.
    pub fn debug<F>(&self, thread: ThreadId, show: F) -> (r: String)
        where F: FnOnce(&T) -> String
        requires
            self@.admits(thread),
            call_requires(show, (&self.contents(),)),
        ensures
            exists|data: String| #[trigger]
                call_ensures(show, (&self.contents(),), data) && r@ == "ReentrantMutex { data: "@
                    + data@ + " }"@,
    {
        let data = show(&self.data);
        let mut r = String::from_str("ReentrantMutex { data: ");
        r.append(data.as_str());
        r.append(" }");
        r
    }
}

/// A thread which already holds the lock can acquire it additional times, and no other thread
/// can.
pub proof fn law_only_the_owner_is_admitted(hold: Hold, owner: ThreadId, thread: ThreadId)
    requires
        hold.wf(),
        hold.owner == Some(owner),
    ensures
        hold.admits(thread) <==> thread == owner,
        hold.locked(owner).owner == Some(owner),
{
}

/// Releasing one level of locking undoes acquiring it.
pub proof fn law_unlock_undoes_lock(hold: Hold, thread: ThreadId)
    requires
        hold.wf(),
        hold.admits(thread),
    ensures
        hold.locked(thread).wf(),
        hold.locked(thread).unlocked() == hold,
{
}

/// A lock that nobody holds is there for any thread, and once that has acquired it, however often,
/// it is there for that thread only, until it has been released as often.
pub proof fn law_held_until_released_as_often(hold: Hold, thread: ThreadId, other: ThreadId)
    requires
        hold.wf(),
        hold.owner is None || hold.owner == Some(thread),
    ensures
        hold.admits(thread),
        hold.locked(thread).count == hold.count + 1,
        hold.locked(thread).owner == Some(thread),
        hold.locked(thread).admits(other) <==> other == thread,
        hold.count > 0 ==> hold.unlocked().count + 1 == hold.count,
        hold.count > 1 ==> hold.unlocked().owner == Some(thread),
        hold.count == 1 ==> hold.unlocked().owner is None && hold.unlocked().admits(other),
{
}

} // verus!
