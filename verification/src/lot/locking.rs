//! Which buckets to lock for a key or a pair of keys, and when to try again.
//!
//! The table may be replaced by a bigger one until a bucket of it is locked. So a bucket is
//! looked up, locked, and kept only if the table that it was looked up in is still the one in
//! use; otherwise it is unlocked and everything starts over. Tables are told apart by their
//! addresses, and none of them is ever freed.

use crate::lot::hash_table::{hash, hash_of};
use vstd::prelude::*;

verus! {

/// Whether a table, in which buckets are locked by now, is still the latest one. Another thread
/// could have grown it in the meantime; everything is unlocked and starts over then.
pub fn is_latest(table: usize, latest: usize) -> (r: bool)
    ensures
        r == (table == latest),
{
    table == latest
}

/// The bucket to lock for one key.
#[derive(Copy, Clone, Eq, PartialEq, Debug, Structural)]
pub struct LockTarget {
    /// The table that the bucket belongs to.
    pub table: usize,
    /// The key that it was looked up for.
    pub key: usize,
    /// The bucket.
    pub index: usize,
}

/// The bucket for the given key in a table with that many hash bits.
pub fn lock_bucket(key: usize, table: usize, hash_bits: u32) -> (r: LockTarget)
    requires
        1 <= hash_bits <= usize::BITS,
    ensures
        r.table == table,
        r.key == key,
        r.index == hash_of(key, hash_bits),
{
    LockTarget { table, key, index: hash(key, hash_bits) }
}

impl LockTarget {
    /// Whether the bucket, locked by now, is the right one for its key.
    ///
    /// If no other thread has rehashed the table before we grabbed the lock then we are good to
    /// go! The lock we grabbed prevents any rehashes.
    pub fn is_current(&self, table: usize) -> (r: bool)
        ensures
            r == (self.table == table),
    {
        is_latest(self.table, table)
    }

    /// Whether the bucket, locked by now, is the right one for a key that may have changed due
    /// to a requeue.
    ///
    /// The key can't change once we locked the proper bucket for it, so we just keep trying
    /// until we have the correct key.
    pub fn is_current_for(&self, table: usize, key: usize) -> (r: bool)
        ensures
            r == (self.table == table && self.key == key),
    {
        is_latest(self.table, table) && self.key == key
    }
}

/// The buckets to lock for a pair of keys.
#[derive(Copy, Clone, Eq, PartialEq, Debug, Structural)]
pub struct LockPair {
    /// The table that the buckets belong to.
    pub table: usize,
    /// The bucket to lock first.
    pub first: usize,
    /// The bucket to lock next, once the first one is found to be current. There is none if
    /// both keys hash to the same value.
    pub second: Option<usize>,
    /// The bucket of the first key.
    pub index1: usize,
    /// The bucket of the second key.
    pub index2: usize,
}

impl LockPair {
    /// Whether each bucket is to be locked exactly once, the one with the lowest index first.
    pub open spec fn wf(&self) -> bool {
        if self.index1 == self.index2 {
            self.first == self.index1 && self.second is None
        } else if self.index1 < self.index2 {
            self.first == self.index1 && self.second == Some(self.index2)
        } else {
            self.first == self.index2 && self.second == Some(self.index1)
        }
    }

    /// Whether the first bucket, locked by now, belongs to the table in use.
    pub fn is_current(&self, table: usize) -> (r: bool)
        ensures
            r == (self.table == table),
    {
        is_latest(self.table, table)
    }

    /// The buckets in the order in which they are unlocked, each of them once.
    pub fn unlock_bucket_pair(&self) -> (r: (usize, Option<usize>))
        ensures
            r.0 == self.index1,
            r.1 == if self.index1 == self.index2 {
                None
            } else {
                Some(self.index2)
            },
    {
        if self.index1 == self.index2 {
            (self.index1, None)
        } else {
            (self.index1, Some(self.index2))
        }
    }
}

/// The buckets for the given pair of keys in a table with that many hash bits.
pub fn lock_bucket_pair(key1: usize, key2: usize, table: usize, hash_bits: u32) -> (r: LockPair)
    requires
        1 <= hash_bits <= usize::BITS,
    ensures
        r.wf(),
        r.table == table,
        r.index1 == hash_of(key1, hash_bits),
        r.index2 == hash_of(key2, hash_bits),
{
    let hash1 = hash(key1, hash_bits);
    let hash2 = hash(key2, hash_bits);
    // Get the bucket at the lowest hash/index first
    let first = if hash1 <= hash2 {
        hash1
    } else {
        hash2
    };
    let second = if hash1 == hash2 {
        None
    } else if hash1 < hash2 {
        Some(hash2)
    } else {
        Some(hash1)
    };
    LockPair { table, first, second, index1: hash1, index2: hash2 }
}

/// Whether one of the threads that lock pairs of buckets holds the first bucket of its pair and
/// waits for its second one, which the next thread holds, and the last thread waits for the first
/// one in turn.
pub open spec fn waits_for_next(pairs: Seq<LockPair>, i: int) -> bool {
    pairs[i].second == Some(
        pairs[if i + 1 < pairs.len() {
            i + 1
        } else {
            0
        }].first,
    )
}

proof fn lemma_locks_rise(pairs: Seq<LockPair>, i: int)
    requires
        0 <= i < pairs.len(),
        forall|j: int| 0 <= j < pairs.len() ==> (#[trigger] pairs[j]).wf(),
        forall|j: int| 0 <= j < pairs.len() ==> waits_for_next(pairs, j),
    ensures
        pairs[0].first <= pairs[i].first,
    decreases i,
{
    if i > 0 {
        lemma_locks_rise(pairs, i - 1);
        assert(waits_for_next(pairs, i - 1));
        assert(pairs[i - 1].wf());
    }
}

/// Threads that lock pairs of buckets never wait for each other in a circle, however many they
/// are.
pub proof fn law_pairs_never_deadlock(pairs: Seq<LockPair>)
    requires
        pairs.len() > 0,
        forall|i: int| 0 <= i < pairs.len() ==> (#[trigger] pairs[i]).wf(),
    ensures
        exists|i: int| 0 <= i < pairs.len() && !waits_for_next(pairs, i),
{
    if forall|i: int| 0 <= i < pairs.len() ==> waits_for_next(pairs, i) {
        let last = pairs.len() - 1;
        lemma_locks_rise(pairs, last);
        assert(waits_for_next(pairs, last));
        assert(pairs[last].wf());
    }
}

/// The order of the locks does not depend on which key comes first.
pub proof fn law_pair_order_is_symmetric(a: LockPair, b: LockPair)
    requires
        a.wf(),
        b.wf(),
        a.index1 == b.index2,
        a.index2 == b.index1,
    ensures
        a.first == b.first,
        a.second == b.second,
{
}

/// Buckets are always locked in the order of their indices, as they are when all of them are
/// locked: of the two buckets of a pair the one with the lower index comes first, each of them is
/// locked once, and nothing else is.
pub proof fn law_pairs_rise(pair: LockPair)
    requires
        pair.wf(),
    ensures
        pair.first <= pair.index1,
        pair.first <= pair.index2,
        pair.first == pair.index1 || pair.first == pair.index2,
        pair.second is None <==> pair.index1 == pair.index2,
        pair.second matches Some(second) ==> pair.first < second && (second == pair.index1 || second
            == pair.index2) && pair.first + second == pair.index1 + pair.index2,
{
}

} // verus!
