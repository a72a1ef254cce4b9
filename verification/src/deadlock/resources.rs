//! The resources that a thread owns.

use vstd::prelude::*;

verus! {

/// Extra data of a thread for deadlock detection.
pub struct DeadlockData {
    /// Currently owned resources (keys).
    pub resources: Vec<usize>,
    /// Set once the thread has been reported as part of a deadlock.
    pub deadlocked: bool,
}

/// Where `key` occurs last among the first `n` resources; -1 if it does not occur.
pub open spec fn last_position(resources: Seq<usize>, key: usize, n: int) -> int
    decreases n,
{
    if n <= 0 {
        -1
    } else if resources[n - 1] == key {
        n - 1
    } else {
        last_position(resources, key, n - 1)
    }
}

/// The resources when the last occurrence of `key` has gone and the last resource of all has
/// taken its place.
pub open spec fn released(resources: Seq<usize>, key: usize) -> Seq<usize> {
    let p = last_position(resources, key, resources.len() as int);
    if p < 0 {
        resources
    } else {
        resources.update(p, resources.last()).drop_last()
    }
}

/// The last position is one where the key occurs, and there is one unless it occurs nowhere.
pub proof fn lemma_last_position(resources: Seq<usize>, key: usize, n: int)
    requires
        0 <= n <= resources.len(),
    ensures
        ({
            let p = last_position(resources, key, n);
            &&& -1 <= p < n
            &&& p >= 0 ==> resources[p] == key
            &&& forall|j: int| p < j < n ==> resources[j] != key
        }),
    decreases n,
{
    if n > 0 && resources[n - 1] != key {
        lemma_last_position(resources, key, n - 1);
    }
}

impl DeadlockData {
    /// A thread that owns nothing.
    pub fn new() -> (r: DeadlockData)
        ensures
            r.resources@ == Seq::<usize>::empty(),
            !r.deadlocked,
    {
        DeadlockData { resources: Vec::new(), deadlocked: false }
    }

    /// Acquires a resource identified by `key` in the deadlock detector.
    ///
    /// Call this after the resource is acquired.
    pub fn acquire_resource(&mut self, key: usize)
        ensures
            final(self).resources@ == old(self).resources@.push(key),
            final(self).deadlocked == old(self).deadlocked,
    {
        self.resources.push(key);
    }

    /// Whether a resource identified by `key` has been acquired by the thread, and not been
    /// released as often.
    pub fn owns(&self, key: usize) -> (r: bool)
        ensures
            r == self.resources@.contains(key),
    {
        let mut i: usize = 0;
        while i < self.resources.len()
            invariant
                i <= self.resources@.len(),
                forall|j: int| 0 <= j < i ==> self.resources@[j] != key,
            decreases self.resources@.len() - i,
        {
            if self.resources[i] == key {
                return true;
            }
            i += 1;
        }
        false
    }

    /// Releases a resource identified by `key` in the deadlock detector.
    ///
    /// Call this before the resource is released. It must not have been released already, and
    /// must have been acquired by the thread.
    pub fn release_resource(&mut self, key: usize)
        requires
            old(self).resources@.contains(key),
        ensures
            final(self).resources@ == released(old(self).resources@, key),
            final(self).deadlocked == old(self).deadlocked,
    {
        let ghost all = self.resources@;
        let ghost at = last_position(all, key, all.len() as int);
        proof {
            lemma_last_position(all, key, all.len() as int);
            let i = choose|i: int| 0 <= i < all.len() && all[i] == key;
            assert(at >= i);
        }
        let mut p: usize = self.resources.len() - 1;
        while self.resources[p] != key
            invariant
                self.resources@ == all,
                self.deadlocked == old(self).deadlocked,
                0 <= at <= p < all.len(),
                all[at] == key,
                forall|j: int| at < j < all.len() ==> all[j] != key,
            decreases p,
        {
            p -= 1;
        }
        self.resources.swap_remove(p);
        assert(self.resources@ =~= released(all, key));
    }
}

/// Releasing a resource right after it was acquired restores what was owned before.
pub proof fn law_release_undoes_acquire(resources: Seq<usize>, key: usize)
    ensures
        released(resources.push(key), key) == resources,
{
    assert(released(resources.push(key), key) =~= resources);
}

/// How often a resource is owned.
pub open spec fn times_owned(resources: Seq<usize>, key: usize) -> nat
    decreases resources.len(),
{
    if resources.len() == 0 {
        0
    } else {
        times_owned(resources.drop_last(), key) + if resources.last() == key {
            1nat
        } else {
            0nat
        }
    }
}

proof fn lemma_times_update(resources: Seq<usize>, i: int, value: usize, key: usize)
    requires
        0 <= i < resources.len(),
    ensures
        times_owned(resources.update(i, value), key) + (if resources[i] == key {
            1nat
        } else {
            0nat
        }) == times_owned(resources, key) + (if value == key {
            1nat
        } else {
            0nat
        }),
    decreases resources.len(),
{
    let updated = resources.update(i, value);
    if i == resources.len() - 1 {
        assert(updated.drop_last() =~= resources.drop_last());
    } else {
        lemma_times_update(resources.drop_last(), i, value, key);
        assert(updated.drop_last() =~= resources.drop_last().update(i, value));
    }
}

/// Releasing an owned resource takes it away once, and takes no other resource away.
pub proof fn law_release_takes_one(resources: Seq<usize>, key: usize, other: usize)
    requires
        resources.contains(key),
    ensures
        times_owned(resources, other) == times_owned(released(resources, key), other) + if other
            == key {
            1nat
        } else {
            0nat
        },
{
    lemma_last_position(resources, key, resources.len() as int);
    let p = last_position(resources, key, resources.len() as int);
    let i = choose|i: int| 0 <= i < resources.len() && resources[i] == key;
    assert(p >= i);
    lemma_times_update(resources, p, resources.last(), other);
}

/// Releasing a resource gives back the acquisition that was made last: whatever stands before
/// that stays where it is, in its order.
pub proof fn law_release_takes_the_last(resources: Seq<usize>, key: usize, i: int, j: int)
    requires
        0 <= i < j < resources.len(),
        resources[j] == key,
    ensures
        released(resources, key).len() == resources.len() - 1,
        released(resources, key)[i] == resources[i],
{
    lemma_last_position(resources, key, resources.len() as int);
    let p = last_position(resources, key, resources.len() as int);
    assert(p >= j);
}

} // verus!
