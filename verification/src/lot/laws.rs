//! What the operations on single buckets mean for the parking lot as a whole: a map from keys to
//! queues of parked threads.

use crate::deadlock::cycles::is_in;
use crate::lot::bucket::{
    filter_kept, filter_result, filter_scan, filter_woken, lemma_first_waiting,
    lemma_thread_position, lemma_waiting_add, lemma_waiting_empty, lemma_waiting_none,
    lemma_waiting_push, lemma_waiting_some, lemma_waiting_split, marked, moved, others, position,
    requeue_left, requeue_moved, requeue_result, requeue_taken, requeue_woken, thread_position,
    threads, unpark_one_result, waiting, without_first, ThreadData,
};
use crate::lot::hash_table::{all_parked, hash_of, hashed_to, lemma_hash_in_range, HashTable};
use crate::lot::types::{FilterOp, RequeueOp};
use vstd::prelude::*;

verus! {

/// Whether two tables differ in one bucket at most.
pub open spec fn differ_in(a: HashTable, b: HashTable, bucket: int) -> bool {
    &&& a.hash_bits == b.hash_bits
    &&& a.entries@.len() == b.entries@.len()
    &&& forall|i: int|
        0 <= i < a.entries@.len() && i != bucket ==> (#[trigger] b.entries@[i])@ == a.entries@[i]@
}

/// The bucket that a key belongs to.
pub open spec fn home(table: HashTable, key: usize) -> int {
    hash_of(key, table.hash_bits)
}

/// Every queued thread of `after` that waits on some key hashes to where it is, if its key
/// occurred in `before` or is `key`.
proof fn lemma_still_home(before: HashTable, after: HashTable, bucket: int)
    requires
        before.wf(),
        differ_in(before, after, bucket),
        0 <= bucket < before.entries@.len(),
        forall|i: int|
            0 <= i < after.entries@[bucket]@.len() ==> hash_of(
                (#[trigger] after.entries@[bucket]@[i]).key,
                after.hash_bits,
            ) == bucket,
    ensures
        after.wf(),
{
    assert forall|b: int, i: int|
        0 <= b < after.entries@.len() && 0 <= i < after.entries@[b]@.len() implies hash_of(
        (#[trigger] after.entries@[b]@[i]).key,
        after.hash_bits,
    ) == b by {
        if b != bucket {
            assert(after.entries@[b]@ == before.entries@[b]@);
            assert(before.entries@[b]@[i] == after.entries@[b]@[i]);
        }
    }
}

/// Taking the first thread that waits on one key away leaves the queues of all other keys alone.
proof fn lemma_without_first(queue: Seq<ThreadData>, key: usize)
    ensures
        waiting(queue, key).len() > 0 ==> {
            &&& 0 <= position(queue, key, 0) < queue.len()
            &&& queue[position(queue, key, 0)] == waiting(queue, key)[0]
            &&& waiting(queue, key)[0].key == key
            &&& waiting(without_first(queue, key), key) == waiting(queue, key).drop_first()
        },
        forall|k: usize| k != key ==> #[trigger] waiting(without_first(queue, key), k) == waiting(queue, k),
{
    if waiting(queue, key).len() > 0 {
        let i = lemma_find_first(queue, key);
        lemma_first_waiting(queue, key, i);
        assert forall|k: usize| k != key implies #[trigger] waiting(without_first(queue, key), k)
            == waiting(queue, k) by {
            lemma_waiting_split(queue, k, i);
            assert(waiting(queue.take(i), k) + Seq::<ThreadData>::empty() =~= waiting(
                queue.take(i),
                k,
            ));
        }
    }
}

/// Where something waits on a key there is a first thread that does.
proof fn lemma_find_first(queue: Seq<ThreadData>, key: usize) -> (i: int)
    requires
        waiting(queue, key).len() > 0,
    ensures
        0 <= i < queue.len(),
        queue[i].key == key,
        forall|j: int| 0 <= j < i ==> queue[j].key != key,
    decreases queue.len(),
{
    if queue.len() == 0 {
        lemma_waiting_empty(key);
        assert(queue =~= Seq::empty());
        0
    } else {
        let before = queue.drop_last();
        lemma_waiting_push(before, queue.last(), key);
        assert(queue =~= before.push(queue.last()));
        if waiting(before, key).len() > 0 {
            lemma_find_first(before, key)
        } else {
            assert forall|j: int| 0 <= j < before.len() implies before[j].key != key by {
                if before[j].key == key {
                    lemma_waiting_some(before, key, j);
                }
            }
            queue.len() - 1
        }
    }
}

/// Parking a thread puts it at the end of the queue of its key, and changes no other queue.
pub proof fn law_park_appends(
    before: HashTable,
    after: HashTable,
    thread_data: ThreadData,
)
    requires
        before.wf(),
        differ_in(before, after, home(before, thread_data.key)),
        after.entries@[home(before, thread_data.key)]@ == before.entries@[home(
            before,
            thread_data.key,
        )]@.push(thread_data),
    ensures
        after.wf(),
        after.queue(thread_data.key) == before.queue(thread_data.key).push(thread_data),
        forall|k: usize| k != thread_data.key ==> #[trigger] after.queue(k) == before.queue(k),
{
    let key = thread_data.key;
    let b = home(before, key);
    let queue = before.entries@[b]@;
    lemma_hash_in_range(key, before.hash_bits);
    assert forall|i: int| 0 <= i < after.entries@[b]@.len() implies hash_of(
        (#[trigger] after.entries@[b]@[i]).key,
        after.hash_bits,
    ) == b by {
        if i < queue.len() {
            assert(before.entries@[b]@[i] == after.entries@[b]@[i]);
        }
    }
    lemma_still_home(before, after, b);
    lemma_waiting_push(queue, thread_data, key);
    assert forall|k: usize| k != key implies #[trigger] after.queue(k) == before.queue(k) by {
        lemma_hash_in_range(k, before.hash_bits);
        lemma_waiting_push(queue, thread_data, k);
        if home(before, k) != b {
            assert(after.entries@[home(before, k)]@ == before.entries@[home(before, k)]@);
        }
    }
}

/// Unparking one thread takes the oldest one off the queue of the key, and changes no other
/// queue.
pub proof fn law_unpark_one_takes_oldest(before: HashTable, after: HashTable, key: usize)
    requires
        before.wf(),
        differ_in(before, after, home(before, key)),
        after.entries@[home(before, key)]@ == without_first(before.entries@[home(before, key)]@, key),
    ensures
        after.wf(),
        before.queue(key).len() > 0 ==> after.queue(key) == before.queue(key).drop_first(),
        before.queue(key).len() == 0 ==> after.queue(key) == before.queue(key),
        forall|k: usize| k != key ==> #[trigger] after.queue(k) == before.queue(k),
{
    let b = home(before, key);
    let queue = before.entries@[b]@;
    lemma_hash_in_range(key, before.hash_bits);
    lemma_without_first(queue, key);
    assert forall|i: int| 0 <= i < after.entries@[b]@.len() implies hash_of(
        (#[trigger] after.entries@[b]@[i]).key,
        after.hash_bits,
    ) == b by {
        let p = position(queue, key, 0);
        let j = if waiting(queue, key).len() > 0 && i >= p { i + 1 } else { i };
        assert(after.entries@[b]@[i] == before.entries@[b]@[j]);
    }
    lemma_still_home(before, after, b);
    lemma_same_elsewhere(before, after, key);
}

/// Queues are the same where the buckets are, and where the changed bucket keeps them.
proof fn lemma_same_elsewhere(before: HashTable, after: HashTable, key: usize)
    requires
        before.wf(),
        differ_in(before, after, home(before, key)),
        forall|k: usize|
            k != key ==> #[trigger] waiting(after.entries@[home(before, key)]@, k) == waiting(
                before.entries@[home(before, key)]@,
                k,
            ),
    ensures
        forall|k: usize| k != key ==> #[trigger] after.queue(k) == before.queue(k),
{
    assert forall|k: usize| k != key implies #[trigger] after.queue(k) == before.queue(k) by {
        lemma_hash_in_range(k, before.hash_bits);
        let b = home(before, k);
        if b != home(before, key) {
            assert(after.entries@[b]@ == before.entries@[b]@);
        }
    }
}

/// Leaving one key out leaves nothing of it and everything of any other key.
proof fn lemma_waiting_others(queue: Seq<ThreadData>, key: usize, k: usize)
    ensures
        waiting(others(queue, key), k) == if k == key {
            seq![]
        } else {
            waiting(queue, k)
        },
    decreases queue.len(),
{
    if queue.len() == 0 {
        lemma_waiting_empty(key);
        lemma_waiting_empty(k);
        assert(queue =~= Seq::empty());
    } else {
        let before = queue.drop_last();
        lemma_waiting_others(before, key, k);
        assert(queue =~= before.push(queue.last()));
        lemma_waiting_push(before, queue.last(), key);
        lemma_waiting_push(before, queue.last(), k);
        lemma_waiting_push(others(before, key), queue.last(), k);
    }
}

/// What is left of a queue was in it before.
pub proof fn lemma_others_contained(queue: Seq<ThreadData>, key: usize, i: int) -> (j: int)
    requires
        0 <= i < others(queue, key).len(),
    ensures
        0 <= j < queue.len(),
        queue[j] == others(queue, key)[i],
{
    let p = |t: ThreadData| t.key != key;
    assert(queue.filter(p).contains(queue.filter(p)[i]));
    queue.lemma_filter_contains_rev(p, queue.filter(p)[i]);
    choose|j: int| 0 <= j < queue.len() && queue[j] == others(queue, key)[i]
}

/// Unparking all threads of a key empties its queue, and changes no other queue.
pub proof fn law_unpark_all_empties(before: HashTable, after: HashTable, key: usize)
    requires
        before.wf(),
        differ_in(before, after, home(before, key)),
        after.entries@[home(before, key)]@ == others(before.entries@[home(before, key)]@, key),
    ensures
        after.wf(),
        after.queue(key).len() == 0,
        forall|k: usize| k != key ==> #[trigger] after.queue(k) == before.queue(k),
{
    let b = home(before, key);
    let queue = before.entries@[b]@;
    lemma_hash_in_range(key, before.hash_bits);
    assert forall|k: usize| k != key implies #[trigger] waiting(others(queue, key), k) == waiting(
        queue,
        k,
    ) by {
        lemma_waiting_others(queue, key, k);
    }
    lemma_waiting_others(queue, key, key);
    assert forall|i: int| 0 <= i < after.entries@[b]@.len() implies hash_of(
        (#[trigger] after.entries@[b]@[i]).key,
        after.hash_bits,
    ) == b by {
        let j = lemma_others_contained(queue, key, i);
        assert(before.entries@[b]@[j] == after.entries@[b]@[i]);
    }
    lemma_still_home(before, after, b);
    lemma_same_elsewhere(before, after, key);
}

/// Filtering works on the queue of one key by itself: for the queues of other keys nothing
/// changes.
proof fn lemma_filter_queue(queue: Seq<ThreadData>, key: usize, ops: Seq<FilterOp>, k: usize)
    ensures
        waiting(filter_kept(queue, key, ops), k) == if k == key {
            filter_kept(waiting(queue, key), key, ops)
        } else {
            waiting(queue, k)
        },
    decreases queue.len(),
{
    if queue.len() == 0 {
        lemma_waiting_empty(key);
        lemma_waiting_empty(k);
        assert(queue =~= Seq::empty());
    } else {
        let before = queue.drop_last();
        let t = queue.last();
        lemma_filter_queue(before, key, ops, k);
        assert(queue =~= before.push(t));
        lemma_waiting_push(before, t, key);
        lemma_waiting_push(before, t, k);
        lemma_waiting_push(filter_kept(before, key, ops), t, k);
        if t.key == key {
            let found = waiting(before, key);
            assert(found.push(t).drop_last() =~= found);
            lemma_waiting_twice(before, key);
        }
    }
}

/// Of the threads that wait on a key, all wait on it.
proof fn lemma_waiting_twice(queue: Seq<ThreadData>, key: usize)
    ensures
        waiting(waiting(queue, key), key) == waiting(queue, key),
    decreases queue.len(),
{
    if queue.len() == 0 {
        lemma_waiting_empty(key);
        assert(queue =~= Seq::empty());
    } else {
        let before = queue.drop_last();
        lemma_waiting_twice(before, key);
        assert(queue =~= before.push(queue.last()));
        lemma_waiting_push(before, queue.last(), key);
        lemma_waiting_push(waiting(before, key), queue.last(), key);
    }
}

/// What a filter leaves of a queue was in it before.
pub proof fn lemma_filter_contained(
    queue: Seq<ThreadData>,
    key: usize,
    ops: Seq<FilterOp>,
    i: int,
) -> (j: int)
    requires
        0 <= i < filter_kept(queue, key, ops).len(),
    ensures
        0 <= j < queue.len(),
        queue[j] == filter_kept(queue, key, ops)[i],
    decreases queue.len(),
{
    let before = queue.drop_last();
    if i < filter_kept(before, key, ops).len() {
        lemma_filter_contained(before, key, ops, i)
    } else {
        queue.len() - 1
    }
}

/// Unparking through a filter takes the threads that it chose off the queue of the key, keeps
/// the others in their order, and changes no other queue.
pub proof fn law_unpark_filter_takes_chosen(
    before: HashTable,
    after: HashTable,
    key: usize,
    ops: Seq<FilterOp>,
)
    requires
        before.wf(),
        differ_in(before, after, home(before, key)),
        after.entries@[home(before, key)]@ == filter_kept(
            before.entries@[home(before, key)]@,
            key,
            ops,
        ),
    ensures
        after.wf(),
        after.queue(key) == filter_kept(before.queue(key), key, ops),
        forall|k: usize| k != key ==> #[trigger] after.queue(k) == before.queue(k),
{
    let b = home(before, key);
    let queue = before.entries@[b]@;
    lemma_hash_in_range(key, before.hash_bits);
    assert forall|k: usize| k != key implies #[trigger] waiting(filter_kept(queue, key, ops), k)
        == waiting(queue, k) by {
        lemma_filter_queue(queue, key, ops, k);
    }
    lemma_filter_queue(queue, key, ops, key);
    assert forall|i: int| 0 <= i < after.entries@[b]@.len() implies hash_of(
        (#[trigger] after.entries@[b]@[i]).key,
        after.hash_bits,
    ) == b by {
        let j = lemma_filter_contained(queue, key, ops, i);
        assert(before.entries@[b]@[j] == after.entries@[b]@[i]);
    }
    lemma_still_home(before, after, b);
    lemma_same_elsewhere(before, after, key);
}

/// Growing the table changes no queue: every key finds the same threads, in the same order.
pub proof fn law_growing_keeps_queues(before: HashTable, after: HashTable)
    requires
        before.wf(),
        after.wf(),
        forall|b: int|
            0 <= b < after.entries@.len() ==> (#[trigger] after.entries@[b])@ == hashed_to(
                all_parked(before.entries@),
                after.hash_bits,
                b,
            ),
    ensures
        forall|k: usize| #[trigger] after.queue(k) == before.queue(k),
{
    assert forall|k: usize| #[trigger] after.queue(k) == before.queue(k) by {
        let all = all_parked(before.entries@);
        lemma_hash_in_range(k, before.hash_bits);
        lemma_hash_in_range(k, after.hash_bits);
        assert(after.entries@[home(after, k)]@ == hashed_to(all, after.hash_bits, home(after, k)));
        lemma_hashed_waiting(all, after.hash_bits, k);
        lemma_all_parked_queue(before, k, before.entries@.len() as int);
        assert(before.entries@.take(before.entries@.len() as int) =~= before.entries@);
    }
}

/// The threads that wait on a key are among those whose keys hash to the same bucket.
proof fn lemma_hashed_waiting(queue: Seq<ThreadData>, bits: u32, k: usize)
    ensures
        waiting(hashed_to(queue, bits, hash_of(k, bits)), k) == waiting(queue, k),
    decreases queue.len(),
{
    reveal(Seq::filter);
    if queue.len() == 0 {
    } else {
        let before = queue.drop_last();
        let t = queue.last();
        let h = hash_of(k, bits);
        lemma_hashed_waiting(before, bits, k);
        assert(queue =~= before.push(t));
        lemma_waiting_push(before, t, k);
        lemma_waiting_push(hashed_to(before, bits, h), t, k);
    }
}

/// The threads that wait on a key are all in one bucket.
proof fn lemma_all_parked_queue(table: HashTable, k: usize, n: int)
    requires
        table.wf(),
        0 <= n <= table.entries@.len(),
    ensures
        waiting(all_parked(table.entries@.take(n)), k) == if home(table, k) < n {
            table.queue(k)
        } else {
            seq![]
        },
    decreases n,
{
    lemma_hash_in_range(k, table.hash_bits);
    if n == 0 {
        lemma_waiting_empty(k);
    } else {
        let last = table.entries@[n - 1]@;
        lemma_all_parked_queue(table, k, n - 1);
        assert(table.entries@.take(n).drop_last() =~= table.entries@.take(n - 1));
        lemma_waiting_add(all_parked(table.entries@.take(n - 1)), last, k);
        if home(table, k) != n - 1 {
            assert forall|i: int| 0 <= i < last.len() implies last[i].key != k by {
                assert(hash_of((#[trigger] table.entries@[n - 1]@[i]).key, table.hash_bits) == n - 1);
            }
            lemma_waiting_none(last, k);
            let sofar = waiting(all_parked(table.entries@.take(n - 1)), k);
            assert(sofar + Seq::<ThreadData>::empty() =~= sofar);
        } else {
            assert(Seq::<ThreadData>::empty() + waiting(last, k) =~= waiting(last, k));
        }
    }
}

/// Threads that a requeue moves wait on the new key and on nothing else.
proof fn lemma_moved_queue(taken: Seq<ThreadData>, wakes: bool, key_to: usize, k: usize)
    ensures
        waiting(moved(taken, wakes, key_to), k) == if k == key_to {
            moved(taken, wakes, key_to)
        } else {
            seq![]
        },
{
    let rest = moved(taken, wakes, key_to);
    if k == key_to {
        lemma_waiting_all(rest, k);
    } else {
        lemma_waiting_none(rest, k);
    }
}

/// Where all threads wait on one key, these are all of them.
proof fn lemma_waiting_all(queue: Seq<ThreadData>, key: usize)
    requires
        forall|i: int| 0 <= i < queue.len() ==> queue[i].key == key,
    ensures
        waiting(queue, key) == queue,
    decreases queue.len(),
{
    if queue.len() == 0 {
        lemma_waiting_empty(key);
        assert(queue =~= Seq::empty());
    } else {
        let before = queue.drop_last();
        lemma_waiting_all(before, key);
        lemma_waiting_push(before, queue.last(), key);
        assert(queue =~= before.push(queue.last()));
    }
}

/// What a requeue leaves behind: the queue without the threads taken from its front.
proof fn lemma_left_queue(queue: Seq<ThreadData>, key: usize, op: RequeueOp, k: usize)
    ensures
        waiting(requeue_left(queue, key, op), k) == if k == key {
            waiting(queue, key).skip(requeue_taken(queue, key, op).len() as int)
        } else {
            waiting(queue, k)
        },
{
    let found = waiting(queue, key);
    if op is Abort {
        assert(found.skip(0) =~= found);
    } else if op.takes_one() {
        lemma_without_first(queue, key);
        if found.len() > 0 {
            assert(found.skip(1) =~= found.drop_first());
        } else {
            assert(found.skip(0) =~= found);
        }
    } else {
        lemma_waiting_others(queue, key, k);
        assert(found.skip(found.len() as int) =~= Seq::empty());
    }
}

/// What a requeue leaves behind was there before.
pub proof fn lemma_left_contained(
    queue: Seq<ThreadData>,
    key: usize,
    op: RequeueOp,
    i: int,
) -> (j: int)
    requires
        0 <= i < requeue_left(queue, key, op).len(),
    ensures
        0 <= j < queue.len(),
        queue[j] == requeue_left(queue, key, op)[i],
{
    if op is Abort {
        i
    } else if op.takes_one() {
        lemma_without_first(queue, key);
        if waiting(queue, key).len() > 0 && i >= position(queue, key, 0) {
            i + 1
        } else {
            i
        }
    } else {
        lemma_others_contained(queue, key, i)
    }
}

/// A requeue takes threads off the front of the queue of `key_from` and appends them, but for
/// the one that is woken up, to the queue of `key_to`. No other queue changes.
pub proof fn law_requeue_moves(
    before: HashTable,
    after: HashTable,
    key_from: usize,
    key_to: usize,
    op: RequeueOp,
)
    requires
        before.wf(),
        after.hash_bits == before.hash_bits,
        after.entries@.len() == before.entries@.len(),
        forall|i: int|
            0 <= i < before.entries@.len() && i != home(before, key_from) && i != home(
                before,
                key_to,
            ) ==> (#[trigger] after.entries@[i])@ == before.entries@[i]@,
        ({
            let from = before.entries@[home(before, key_from)]@;
            let to = before.entries@[home(before, key_to)]@;
            let left = requeue_left(from, key_from, op);
            let moved = requeue_moved(from, key_from, key_to, op);
            if home(before, key_from) == home(before, key_to) {
                after.entries@[home(before, key_from)]@ == left + moved
            } else {
                &&& after.entries@[home(before, key_from)]@ == left
                &&& after.entries@[home(before, key_to)]@ == to + moved
            }
        }),
    ensures
        after.wf(),
        ({
            let from = before.entries@[home(before, key_from)]@;
            let taken = requeue_taken(from, key_from, op);
            let rest = before.queue(key_from).skip(taken.len() as int);
            let moved = moved(taken, op.wakes(), key_to);
            if key_from == key_to {
                after.queue(key_from) == rest + moved
            } else {
                &&& after.queue(key_from) == rest
                &&& after.queue(key_to) == before.queue(key_to) + moved
            }
        }),
        forall|k: usize|
            k != key_from && k != key_to ==> #[trigger] after.queue(k) == before.queue(k),
{
    let bf = home(before, key_from);
    let bt = home(before, key_to);
    let from = before.entries@[bf]@;
    let to = before.entries@[bt]@;
    let left = requeue_left(from, key_from, op);
    let taken = requeue_taken(from, key_from, op);
    let extra = requeue_moved(from, key_from, key_to, op);
    lemma_hash_in_range(key_from, before.hash_bits);
    lemma_hash_in_range(key_to, before.hash_bits);
    assert forall|b: int, i: int|
        0 <= b < after.entries@.len() && 0 <= i < after.entries@[b]@.len() implies hash_of(
        (#[trigger] after.entries@[b]@[i]).key,
        after.hash_bits,
    ) == b by {
        if b != bf && b != bt {
            assert(after.entries@[b]@ == before.entries@[b]@);
            assert(before.entries@[b]@[i] == after.entries@[b]@[i]);
        } else if b == bf && i < left.len() {
            let j = lemma_left_contained(from, key_from, op, i);
            assert(before.entries@[b]@[j] == after.entries@[b]@[i]);
        } else if b == bt && bf != bt && i < to.len() {
            assert(before.entries@[b]@[i] == after.entries@[b]@[i]);
        } else {
            let base = if bf == bt { left.len() } else { to.len() };
            assert(after.entries@[b]@[i] == extra[i - base]);
        }
    }
    assert forall|k: usize| #[trigger] after.queue(k) == (if k == key_from {
        before.queue(k).skip(taken.len() as int)
    } else {
        before.queue(k)
    }) + (if k == key_to {
        extra
    } else {
        seq![]
    }) by {
        let b = home(before, k);
        lemma_hash_in_range(k, before.hash_bits);
        lemma_left_queue(from, key_from, op, k);
        lemma_moved_queue(taken, op.wakes(), key_to, k);
        lemma_waiting_add(left, extra, k);
        lemma_waiting_add(to, extra, k);
        let none = Seq::<ThreadData>::empty();
        assert(before.queue(k) + none =~= before.queue(k));
        let rest = before.queue(k).skip(taken.len() as int);
        assert(rest + none =~= rest);
        if b != bf && b != bt {
            assert(after.entries@[b]@ == before.entries@[b]@);
        }
    }
    let none = Seq::<ThreadData>::empty();
    assert forall|q: Seq<ThreadData>| #[trigger] (q + none) == q by {
        assert(q + none =~= q);
    }
}

/// The bucket after `n` threads that wait on `key` were unparked one by one.
pub open spec fn after_unparks(queue: Seq<ThreadData>, key: usize, n: nat) -> Seq<ThreadData>
    decreases n,
{
    if n == 0 {
        queue
    } else {
        without_first(after_unparks(queue, key, (n - 1) as nat), key)
    }
}

/// Threads are unparked in the order in which they were parked: when `n` of them have been
/// unparked one by one, the next one is the one that was parked as the `n`th after the first.
pub proof fn law_unparked_in_order(queue: Seq<ThreadData>, key: usize, n: nat)
    requires
        n <= waiting(queue, key).len(),
    ensures
        waiting(after_unparks(queue, key, n), key) == waiting(queue, key).skip(n as int),
        n < waiting(queue, key).len() ==> waiting(after_unparks(queue, key, n), key)[0] == waiting(
            queue,
            key,
        )[n as int],
    decreases n,
{
    let found = waiting(queue, key);
    if n == 0 {
        assert(found.skip(0) =~= found);
    } else {
        let before = after_unparks(queue, key, (n - 1) as nat);
        law_unparked_in_order(queue, key, (n - 1) as nat);
        lemma_without_first(before, key);
        assert(found.skip(n - 1).drop_first() =~= found.skip(n as int));
    }
}

/// How often a thread occurs in a queue.
pub open spec fn entries_of(queue: Seq<ThreadData>, thread: usize) -> nat
    decreases queue.len(),
{
    if queue.len() == 0 {
        0
    } else {
        entries_of(queue.drop_last(), thread) + if queue.last().thread == thread {
            1nat
        } else {
            0nat
        }
    }
}

/// How often a thread occurs in a list of threads.
pub open spec fn count_of(list: Seq<usize>, thread: usize) -> nat
    decreases list.len(),
{
    if list.len() == 0 {
        0
    } else {
        count_of(list.drop_last(), thread) + if list.last() == thread {
            1nat
        } else {
            0nat
        }
    }
}

/// A thread occurs in two queues put together as often as in both of them.
pub proof fn lemma_entries_add(a: Seq<ThreadData>, b: Seq<ThreadData>, thread: usize)
    ensures
        entries_of(a + b, thread) == entries_of(a, thread) + entries_of(b, thread),
    decreases b.len(),
{
    if b.len() == 0 {
        assert(a + b =~= a);
    } else {
        lemma_entries_add(a, b.drop_last(), thread);
        assert((a + b).drop_last() =~= a + b.drop_last());
    }
}

/// A thread that is added to a queue occurs in it once more.
pub proof fn lemma_entries_push(queue: Seq<ThreadData>, t: ThreadData, thread: usize)
    ensures
        entries_of(queue.push(t), thread) == entries_of(queue, thread) + if t.thread == thread {
            1nat
        } else {
            0nat
        },
{
    assert(queue.push(t).drop_last() =~= queue);
}

proof fn lemma_entries_one(t: ThreadData, thread: usize)
    ensures
        entries_of(seq![t], thread) == if t.thread == thread {
            1nat
        } else {
            0nat
        },
{
    let none = Seq::<ThreadData>::empty();
    assert(seq![t].drop_last() =~= none);
    assert(entries_of(none, thread) == 0);
}

/// The threads of a queue by themselves occur as often as in the queue.
proof fn lemma_count_threads(queue: Seq<ThreadData>, thread: usize)
    ensures
        count_of(threads(queue), thread) == entries_of(queue, thread),
    decreases queue.len(),
{
    if queue.len() > 0 {
        lemma_count_threads(queue.drop_last(), thread);
        assert(threads(queue).drop_last() =~= threads(queue.drop_last()));
    }
}

/// A new key for some threads does not change which threads they are.
proof fn lemma_entries_moved(taken: Seq<ThreadData>, wakes: bool, key_to: usize, thread: usize)
    ensures
        entries_of(taken, thread) == entries_of(moved(taken, wakes, key_to), thread) + if wakes
            && taken.len() > 0 && taken[0].thread == thread {
            1nat
        } else {
            0nat
        },
{
    if wakes && taken.len() > 0 {
        let rest = taken.drop_first();
        assert(taken =~= seq![taken[0]] + rest);
        lemma_entries_add(seq![taken[0]], rest, thread);
        lemma_entries_one(taken[0], thread);
        lemma_entries_rekeyed(rest, key_to, thread);
    } else {
        lemma_entries_rekeyed(taken, key_to, thread);
    }
}

proof fn lemma_entries_rekeyed(queue: Seq<ThreadData>, key_to: usize, thread: usize)
    ensures
        entries_of(
            queue.map_values(|t: ThreadData| ThreadData { key: key_to, ..t }),
            thread,
        ) == entries_of(queue, thread),
    decreases queue.len(),
{
    let f = |t: ThreadData| ThreadData { key: key_to, ..t };
    if queue.len() > 0 {
        lemma_entries_rekeyed(queue.drop_last(), key_to, thread);
        assert(queue.map_values(f).drop_last() =~= queue.drop_last().map_values(f));
    }
}

/// Removing one thread from a queue.
proof fn lemma_entries_remove(queue: Seq<ThreadData>, i: int, thread: usize)
    requires
        0 <= i < queue.len(),
    ensures
        entries_of(queue, thread) == entries_of(queue.remove(i), thread) + if queue[i].thread
            == thread {
            1nat
        } else {
            0nat
        },
{
    lemma_waiting_split(queue, 0, i);
    lemma_entries_add(queue.take(i) + seq![queue[i]], queue.skip(i + 1), thread);
    lemma_entries_add(queue.take(i), seq![queue[i]], thread);
    lemma_entries_add(queue.take(i), queue.skip(i + 1), thread);
    lemma_entries_one(queue[i], thread);
}

/// Every thread waits on a key or on another one.
proof fn lemma_entries_parted(queue: Seq<ThreadData>, key: usize, thread: usize)
    ensures
        entries_of(queue, thread) == entries_of(others(queue, key), thread) + entries_of(
            waiting(queue, key),
            thread,
        ),
    decreases queue.len(),
{
    if queue.len() == 0 {
        lemma_waiting_empty(key);
        assert(queue =~= Seq::empty());
    } else {
        let before = queue.drop_last();
        let t = queue.last();
        assert(queue =~= before.push(t));
        lemma_entries_parted(before, key, thread);
        lemma_waiting_push(before, t, key);
        lemma_entries_push(others(before, key), t, thread);
        lemma_entries_push(waiting(before, key), t, thread);
    }
}

/// Unparking one thread loses none and doubles none: a thread is in the queue as often as
/// before, but for the one that is woken up.
pub proof fn law_unpark_one_conserves(queue: Seq<ThreadData>, key: usize, thread: usize)
    ensures
        entries_of(queue, thread) == entries_of(without_first(queue, key), thread) + if waiting(
            queue,
            key,
        ).len() > 0 && waiting(queue, key)[0].thread == thread {
            1nat
        } else {
            0nat
        },
{
    lemma_without_first(queue, key);
    if waiting(queue, key).len() > 0 {
        lemma_entries_remove(queue, position(queue, key, 0), thread);
    }
}

/// Unparking all threads of a key loses none and doubles none.
pub proof fn law_unpark_all_conserves(queue: Seq<ThreadData>, key: usize, thread: usize)
    ensures
        entries_of(queue, thread) == entries_of(others(queue, key), thread) + count_of(
            threads(waiting(queue, key)),
            thread,
        ),
{
    lemma_entries_parted(queue, key, thread);
    lemma_count_threads(waiting(queue, key), thread);
}

/// Requeueing loses none and doubles none: every thread stays, is moved or is woken up.
pub proof fn law_requeue_conserves(
    queue: Seq<ThreadData>,
    key_from: usize,
    key_to: usize,
    op: RequeueOp,
    thread: usize,
)
    ensures
        entries_of(queue, thread) == entries_of(requeue_left(queue, key_from, op), thread)
            + entries_of(requeue_moved(queue, key_from, key_to, op), thread) + if requeue_woken(
            queue,
            key_from,
            op,
        ) == Some(thread) {
            1nat
        } else {
            0nat
        },
{
    let found = waiting(queue, key_from);
    let taken = requeue_taken(queue, key_from, op);
    lemma_entries_moved(taken, op.wakes(), key_to, thread);
    if op is Abort {
        assert(entries_of(Seq::<ThreadData>::empty(), thread) == 0);
    } else if op.takes_one() {
        law_unpark_one_conserves(queue, key_from, thread);
        if found.len() > 0 {
            assert(found.take(1) =~= seq![found[0]]);
            lemma_entries_one(found[0], thread);
        } else {
            assert(found =~= Seq::empty());
        }
    } else {
        lemma_entries_parted(queue, key_from, thread);
    }
}

/// Unparking through a filter loses none and doubles none.
pub proof fn law_unpark_filter_conserves(
    queue: Seq<ThreadData>,
    key: usize,
    ops: Seq<FilterOp>,
    thread: usize,
)
    requires
        filter_scan(waiting(queue, key), ops),
    ensures
        entries_of(queue, thread) == entries_of(filter_kept(queue, key, ops), thread) + count_of(
            filter_woken(waiting(queue, key), ops),
            thread,
        ),
{
    lemma_filter_entries(queue, key, ops, waiting(queue, key), thread);
    let found = waiting(queue, key);
    assert(ops.take(ops.len() as int) =~= ops);
}

/// The answers for the threads in the front part of a queue account for those that left it.
proof fn lemma_filter_entries(
    queue: Seq<ThreadData>,
    key: usize,
    ops: Seq<FilterOp>,
    found: Seq<ThreadData>,
    thread: usize,
)
    requires
        waiting(queue, key).len() <= found.len(),
        forall|i: int| 0 <= i < waiting(queue, key).len() ==> found[i] == waiting(queue, key)[i],
    ensures
        ({
            let n = waiting(queue, key).len() as int;
            let asked = if n <= ops.len() { ops.take(n) } else { ops };
            entries_of(queue, thread) == entries_of(filter_kept(queue, key, ops), thread)
                + count_of(filter_woken(found, asked), thread)
        }),
    decreases queue.len(),
{
    if queue.len() == 0 {
        lemma_waiting_empty(key);
        assert(queue =~= Seq::empty());
        assert(ops.take(0) =~= Seq::empty());
    } else {
        let before = queue.drop_last();
        let t = queue.last();
        assert(queue =~= before.push(t));
        lemma_waiting_push(before, t, key);
        let rank = waiting(before, key).len() as int;
        if t.key == key {
            assert(waiting(queue, key)[rank] == t);
            assert forall|i: int| 0 <= i < rank implies found[i] == waiting(before, key)[i] by {
                assert(waiting(queue, key)[i] == waiting(before, key)[i]);
            }
        }
        lemma_filter_entries(before, key, ops, found, thread);
        lemma_entries_push(filter_kept(before, key, ops), t, thread);
        if t.key == key && rank < ops.len() {
            assert(ops.take(rank + 1).drop_last() =~= ops.take(rank));
            let woken = filter_woken(found, ops.take(rank));
            assert(woken.push(t.thread).drop_last() =~= woken);
        } else if t.key == key {
            assert(ops.take(ops.len() as int) =~= ops);
        }
    }
}

/// A thread whose park timed out leaves the queue, and no other thread does.
pub proof fn law_time_out_conserves(queue: Seq<ThreadData>, thread: usize, other: usize)
    requires
        thread_position(queue, thread, 0) < queue.len(),
    ensures
        entries_of(queue, other) == entries_of(
            queue.remove(thread_position(queue, thread, 0)),
            other,
        ) + if other == thread {
            1nat
        } else {
            0nat
        },
{
    lemma_thread_position(queue, thread, 0);
    lemma_entries_remove(queue, thread_position(queue, thread, 0), other);
}

/// A thread whose park timed out leaves the queue of the key it waits on, and no other queue
/// changes.
pub proof fn law_time_out_leaves(before: HashTable, after: HashTable, key: usize, thread: usize)
    requires
        before.wf(),
        differ_in(before, after, home(before, key)),
        ({
            let queue = before.entries@[home(before, key)]@;
            let i = thread_position(queue, thread, 0);
            &&& i < queue.len()
            &&& queue[i].key == key
            &&& after.entries@[home(before, key)]@ == queue.remove(i)
        }),
    ensures
        after.wf(),
        exists|i: int|
            #![trigger before.queue(key).remove(i)]
            0 <= i < before.queue(key).len() && before.queue(key)[i].thread == thread
                && after.queue(key) == before.queue(key).remove(i),
        forall|k: usize| k != key ==> #[trigger] after.queue(k) == before.queue(k),
{
    let b = home(before, key);
    let queue = before.entries@[b]@;
    let i = thread_position(queue, thread, 0);
    lemma_hash_in_range(key, before.hash_bits);
    lemma_thread_position(queue, thread, 0);
    assert forall|j: int| 0 <= j < after.entries@[b]@.len() implies hash_of(
        (#[trigger] after.entries@[b]@[j]).key,
        after.hash_bits,
    ) == b by {
        let from = if j >= i { j + 1 } else { j };
        assert(after.entries@[b]@[j] == before.entries@[b]@[from]);
    }
    lemma_still_home(before, after, b);
    assert forall|k: usize| k != key implies #[trigger] waiting(queue.remove(i), k) == waiting(
        queue,
        k,
    ) by {
        lemma_waiting_split(queue, k, i);
        let front = waiting(queue.take(i), k);
        assert(front + Seq::<ThreadData>::empty() =~= front);
    }
    lemma_same_elsewhere(before, after, key);
    lemma_waiting_split(queue, key, i);
    let front = waiting(queue.take(i), key);
    let back = waiting(queue.skip(i + 1), key);
    let at = front.len() as int;
    assert((front + seq![queue[i]] + back).remove(at) =~= front + back);
    assert(before.queue(key).remove(at) == after.queue(key));
}

/// Whether no thread is in the queue twice.
pub open spec fn no_thread_twice(queue: Seq<ThreadData>) -> bool {
    forall|thread: usize| #[trigger] entries_of(queue, thread) <= 1
}

/// A thread that was not in the queue is in it once when it has been parked: that no thread is
/// in the queue twice, holds from then on.
pub proof fn law_park_keeps_threads_single(queue: Seq<ThreadData>, thread_data: ThreadData)
    requires
        no_thread_twice(queue),
        entries_of(queue, thread_data.thread) == 0,
    ensures
        no_thread_twice(queue.push(thread_data)),
{
    assert forall|thread: usize| #[trigger] entries_of(queue.push(thread_data), thread) <= 1 by {
        lemma_entries_push(queue, thread_data, thread);
        assert(entries_of(queue, thread) <= 1);
    }
}

/// How many of the first `n` answers of a filter were to unpark the thread.
pub open spec fn chosen_before(ops: Seq<FilterOp>, n: int) -> int
    decreases n,
{
    if n <= 0 {
        0
    } else {
        chosen_before(ops, n - 1) + if n <= ops.len() && ops[n - 1] is Unpark {
            1int
        } else {
            0int
        }
    }
}

/// The threads that wait on a key do.
proof fn lemma_waiting_key(queue: Seq<ThreadData>, key: usize, i: int)
    requires
        0 <= i < waiting(queue, key).len(),
    ensures
        waiting(queue, key)[i].key == key,
{
    queue.lemma_filter_pred(|t: ThreadData| t.key == key, i);
}

proof fn lemma_chosen_bounds(ops: Seq<FilterOp>, i: int, n: int)
    requires
        0 <= i <= n,
    ensures
        0 <= chosen_before(ops, i) <= i,
        chosen_before(ops, i) <= chosen_before(ops, n) <= chosen_before(ops, i) + n - i,
    decreases n,
{
    if i < n {
        lemma_chosen_bounds(ops, i, n - 1);
    } else if i > 0 {
        lemma_chosen_bounds(ops, i - 1, i - 1);
    }
}

/// Whom a filter keeps, and where.
proof fn lemma_kept_places(found: Seq<ThreadData>, key: usize, ops: Seq<FilterOp>, n: int)
    requires
        forall|i: int| 0 <= i < found.len() ==> (#[trigger] found[i]).key == key,
        0 <= n <= found.len(),
    ensures
        filter_kept(found.take(n), key, ops).len() == n - chosen_before(ops, n),
        forall|i: int|
            0 <= i < n && !(i < ops.len() && ops[i] is Unpark) ==> filter_kept(
                found.take(n),
                key,
                ops,
            )[i - chosen_before(ops, i)] == #[trigger] found[i],
    decreases n,
{
    if n > 0 {
        lemma_kept_places(found, key, ops, n - 1);
        let front = found.take(n - 1);
        assert(found.take(n).drop_last() =~= front);
        assert(found.take(n).last() == found[n - 1]);
        assert forall|i: int| 0 <= i < front.len() implies front[i].key == key by {
            assert(found[i].key == key);
        }
        lemma_waiting_all(front, key);
        assert(found[n - 1].key == key);
        assert forall|i: int| 0 <= i < n && !(i < ops.len() && ops[i] is Unpark) implies filter_kept(
            found.take(n),
            key,
            ops,
        )[i - chosen_before(ops, i)] == #[trigger] found[i] by {
            lemma_chosen_bounds(ops, i, n - 1);
            if i < n - 1 {
                lemma_chosen_bounds(ops, i, i + 1);
                lemma_chosen_bounds(ops, i + 1, n - 1);
            }
        }
    }
}

/// Whom a filter wakes up, and in which order.
proof fn lemma_woken_places(found: Seq<ThreadData>, ops: Seq<FilterOp>, n: int)
    requires
        0 <= n <= ops.len(),
        ops.len() <= found.len(),
    ensures
        filter_woken(found, ops.take(n)).len() == chosen_before(ops, n),
        forall|i: int|
            0 <= i < n && #[trigger] ops[i] is Unpark ==> filter_woken(
                found,
                ops.take(n),
            )[chosen_before(ops, i)] == found[i].thread,
    decreases n,
{
    if n > 0 {
        lemma_woken_places(found, ops, n - 1);
        assert(ops.take(n).drop_last() =~= ops.take(n - 1));
        assert(ops.take(n).last() == ops[n - 1]);
        assert forall|i: int| 0 <= i < n && #[trigger] ops[i] is Unpark implies filter_woken(
            found,
            ops.take(n),
        )[chosen_before(ops, i)] == found[i].thread by {
            lemma_chosen_bounds(ops, i, n - 1);
            if i < n - 1 {
                lemma_chosen_bounds(ops, i + 1, n - 1);
            }
        }
    }
}

proof fn lemma_chosen_after(ops: Seq<FilterOp>, n: int)
    requires
        n >= ops.len(),
    ensures
        chosen_before(ops, n) == chosen_before(ops, ops.len() as int),
    decreases n,
{
    if n > ops.len() {
        lemma_chosen_after(ops, n - 1);
    }
}

/// What unparking through a filter does to the queue of the key. A thread for which the answer
/// was to unpark it is woken up, and any other stays: one that was skipped, one at which the
/// filter stopped, and all those behind. Both kinds keep their order, and nobody is lost.
pub proof fn law_filter_sorts_out(queue: Seq<ThreadData>, key: usize, ops: Seq<FilterOp>)
    requires
        filter_scan(waiting(queue, key), ops),
    ensures
        ({
            let found = waiting(queue, key);
            let kept = waiting(filter_kept(queue, key, ops), key);
            let woken = filter_woken(found, ops);
            &&& woken.len() + kept.len() == found.len()
            &&& forall|i: int|
                0 <= i < ops.len() && #[trigger] ops[i] is Unpark ==> woken[chosen_before(ops, i)]
                    == found[i].thread
            &&& forall|i: int|
                0 <= i < found.len() && !(i < ops.len() && ops[i] is Unpark) ==> kept[i
                    - chosen_before(ops, i)] == #[trigger] found[i]
        }),
{
    let found = waiting(queue, key);
    let n = found.len() as int;
    lemma_filter_queue(queue, key, ops, key);
    assert forall|i: int| 0 <= i < n implies (#[trigger] found[i]).key == key by {
        lemma_waiting_key(queue, key, i);
    }
    lemma_kept_places(found, key, ops, n);
    assert(found.take(n) =~= found);
    lemma_woken_places(found, ops, ops.len() as int);
    assert(ops.take(ops.len() as int) =~= ops);
    lemma_chosen_after(ops, n);
}

/// What unparking through a filter reports: how many threads were unparked, and whether there are
/// still threads parked with that key, whether the filter skipped them, stopped at them, or was
/// not asked for them at all.
pub proof fn law_filter_reports_rest(queue: Seq<ThreadData>, key: usize, ops: Seq<FilterOp>)
    requires
        filter_scan(waiting(queue, key), ops),
        waiting(queue, key).len() <= usize::MAX,
    ensures
        ({
            let result = filter_result(waiting(queue, key), ops);
            let rest = waiting(filter_kept(queue, key, ops), key);
            &&& result.have_more_threads <==> rest.len() > 0
            &&& result.unparked_threads + rest.len() == waiting(queue, key).len()
            &&& result.unparked_threads == filter_woken(waiting(queue, key), ops).len()
            &&& result.requeued_threads == 0
        }),
{
    let found = waiting(queue, key);
    law_filter_sorts_out(queue, key, ops);
    lemma_woken_places(found, ops, ops.len() as int);
    assert(ops.take(ops.len() as int) =~= ops);
    if exists|i: int| 0 <= i < ops.len() && !(#[trigger] ops[i] is Unpark) {
        let i = choose|i: int| 0 <= i < ops.len() && !(#[trigger] ops[i] is Unpark);
        lemma_chosen_bounds(ops, i + 1, ops.len() as int);
        lemma_chosen_bounds(ops, i, ops.len() as int);
    } else {
        lemma_all_chosen(ops, ops.len() as int);
        if ops.len() < found.len() {
            assert(ops[ops.len() - 1] is Unpark);
        }
    }
}

proof fn lemma_all_chosen(ops: Seq<FilterOp>, n: int)
    requires
        0 <= n <= ops.len(),
        forall|i: int| 0 <= i < ops.len() ==> #[trigger] ops[i] is Unpark,
    ensures
        chosen_before(ops, n) == n,
    decreases n,
{
    if n > 0 {
        lemma_all_chosen(ops, n - 1);
    }
}

/// Requeued threads keep the order in which they were parked: those that a requeue appends to the
/// other queue are the oldest threads of the key one by one, behind the one that is woken up if
/// one is. Each is as it was, but for the key that it waits on.
pub proof fn law_requeue_keeps_order(
    queue: Seq<ThreadData>,
    key_from: usize,
    key_to: usize,
    op: RequeueOp,
)
    ensures
        ({
            let found = waiting(queue, key_from);
            let moved = requeue_moved(queue, key_from, key_to, op);
            let first: int = match op {
                RequeueOp::UnparkOneRequeueRest | RequeueOp::UnparkOne => 1,
                _ => 0,
            };
            forall|i: int|
                0 <= i < moved.len() ==> {
                    &&& i + first < found.len()
                    &&& (#[trigger] moved[i]).thread == found[i + first].thread
                    &&& moved[i].park_token == found[i + first].park_token
                    &&& moved[i].parked_with_timeout == found[i + first].parked_with_timeout
                    &&& moved[i].deadlock_data == found[i + first].deadlock_data
                    &&& moved[i].key == key_to
                }
        }),
{
}

/// How many threads a requeue takes, and what becomes of them: the oldest one is woken up if one
/// is to be, and the others that it takes are moved. Those that it leaves are the younger ones, in
/// their order, and no thread that waits on any other key is touched.
pub proof fn law_requeue_does_what_is_asked(
    queue: Seq<ThreadData>,
    key_from: usize,
    key_to: usize,
    op: RequeueOp,
)
    ensures
        ({
            let found = waiting(queue, key_from);
            let n = found.len();
            let moved = requeue_moved(queue, key_from, key_to, op);
            let left = requeue_left(queue, key_from, op);
            let woken = requeue_woken(queue, key_from, op);
            &&& moved.len() == match op {
                RequeueOp::Abort | RequeueOp::UnparkOne => 0,
                RequeueOp::UnparkOneRequeueRest => if n > 0 { n - 1 } else { 0 },
                RequeueOp::RequeueAll => n as int,
                RequeueOp::RequeueOne => if n > 0 { 1 } else { 0 },
            }
            &&& woken == match op {
                RequeueOp::UnparkOneRequeueRest | RequeueOp::UnparkOne => if n > 0 {
                    Some(found[0].thread)
                } else {
                    None
                },
                _ => None,
            }
            &&& waiting(left, key_from) == match op {
                RequeueOp::Abort => found,
                RequeueOp::UnparkOne | RequeueOp::RequeueOne => if n > 0 {
                    found.skip(1)
                } else {
                    found
                },
                _ => seq![],
            }
            &&& forall|k: usize| k != key_from ==> #[trigger] waiting(left, k) == waiting(queue, k)
        }),
{
    let found = waiting(queue, key_from);
    let left = requeue_left(queue, key_from, op);
    lemma_left_queue(queue, key_from, op, key_from);
    assert(found.skip(0) =~= found);
    assert(found.skip(found.len() as int) =~= seq![]);
    assert forall|k: usize| k != key_from implies #[trigger] waiting(left, k) == waiting(
        queue,
        k,
    ) by {
        lemma_left_queue(queue, key_from, op, k);
    }
}

/// What a requeue reports: how many threads were woken up and how many were moved, and whether
/// threads were left behind that wait on the original key.
pub proof fn law_requeue_reports_rest(
    queue: Seq<ThreadData>,
    key_from: usize,
    key_to: usize,
    op: RequeueOp,
)
    requires
        waiting(queue, key_from).len() <= usize::MAX,
    ensures
        ({
            let result = requeue_result(queue, key_from, op);
            let rest = waiting(requeue_left(queue, key_from, op), key_from);
            &&& result.requeued_threads == requeue_moved(queue, key_from, key_to, op).len()
            &&& result.unparked_threads == if requeue_woken(queue, key_from, op) is Some {
                1int
            } else {
                0int
            }
            &&& result.unparked_threads + result.requeued_threads + rest.len() == waiting(
                queue,
                key_from,
            ).len()
            &&& result.have_more_threads <==> rest.len() > 0
        }),
{
    law_requeue_does_what_is_asked(queue, key_from, key_to, op);
    law_requeue_does_what_is_asked(queue, key_from, 0, op);
}

/// A requeue leaves all threads in the bucket but for those that it takes.
pub proof fn lemma_requeue_lengths(queue: Seq<ThreadData>, key: usize, op: RequeueOp)
    ensures
        requeue_left(queue, key, op).len() + requeue_taken(queue, key, op).len() == queue.len(),
{
    if op is Abort {
    } else if op.takes_one() {
        lemma_without_first(queue, key);
    } else {
        lemma_parted_lengths(queue, key);
    }
}

proof fn lemma_parted_lengths(queue: Seq<ThreadData>, key: usize)
    ensures
        waiting(queue, key).len() + others(queue, key).len() == queue.len(),
    decreases queue.len(),
{
    if queue.len() == 0 {
        lemma_waiting_empty(key);
        assert(queue =~= Seq::empty());
    } else {
        let before = queue.drop_last();
        lemma_parted_lengths(before, key);
        lemma_waiting_push(before, queue.last(), key);
        assert(queue =~= before.push(queue.last()));
    }
}

/// What unparking one thread reports: whether one was found, and whether there are still threads
/// parked with that key.
pub proof fn law_unpark_one_reports_rest(queue: Seq<ThreadData>, key: usize)
    ensures
        ({
            let result = unpark_one_result(queue, key);
            let rest = waiting(without_first(queue, key), key);
            &&& result.have_more_threads <==> rest.len() > 0
            &&& result.unparked_threads + rest.len() == waiting(queue, key).len()
            &&& result.unparked_threads <= 1
            &&& result.unparked_threads == 1 <==> waiting(queue, key).len() > 0
            &&& result.requeued_threads == 0
        }),
{
    lemma_without_first(queue, key);
}

/// Unparking all threads of a key wakes up each of them, the oldest first.
pub proof fn law_unpark_all_wakes_in_order(queue: Seq<ThreadData>, key: usize)
    ensures
        threads(waiting(queue, key)).len() == waiting(queue, key).len(),
        forall|i: int|
            0 <= i < waiting(queue, key).len() ==> threads(waiting(queue, key))[i] == (
            #[trigger] waiting(queue, key)[i]).thread,
{
}

/// The threads that wait on a key are exactly those with that key, and stand in the order of the
/// queue: the next one to be parked is the last of them.
pub proof fn law_who_waits(queue: Seq<ThreadData>, t: ThreadData, key: usize)
    ensures
        waiting(Seq::empty(), key).len() == 0,
        others(Seq::empty(), key).len() == 0,
        waiting(queue.push(t), key) == if t.key == key {
            waiting(queue, key).push(t)
        } else {
            waiting(queue, key)
        },
        others(queue.push(t), key) == if t.key == key {
            others(queue, key)
        } else {
            others(queue, key).push(t)
        },
{
    lemma_waiting_empty(key);
    lemma_waiting_push(queue, t, key);
}

/// A thread that leaves the queue because of its timeout is that thread, in its first place.
pub proof fn law_time_out_takes_the_thread(queue: Seq<ThreadData>, thread: usize)
    ensures
        ({
            let i = thread_position(queue, thread, 0);
            &&& i < queue.len() <==> exists|j: int|
                0 <= j < queue.len() && (#[trigger] queue[j]).thread == thread
            &&& i < queue.len() ==> queue[i].thread == thread
            &&& forall|j: int| 0 <= j < i ==> (#[trigger] queue[j]).thread != thread
        }),
{
    lemma_thread_position(queue, thread, 0);
}

/// Noting that threads were reported changes that note of the threads of the cycles, and nothing
/// else of anybody.
pub proof fn law_marking_only_marks(queue: Seq<ThreadData>, cycles: Seq<Seq<usize>>, i: int)
    requires
        0 <= i < queue.len(),
    ensures
        ({
            let after = marked(queue, cycles);
            &&& after.len() == queue.len()
            &&& after[i].thread == queue[i].thread
            &&& after[i].key == queue[i].key
            &&& after[i].park_token == queue[i].park_token
            &&& after[i].parked_with_timeout == queue[i].parked_with_timeout
            &&& after[i].deadlock_data.resources == queue[i].deadlock_data.resources
            &&& after[i].deadlock_data.deadlocked <==> queue[i].deadlock_data.deadlocked || exists|
                c: int,
                k: int,
            |
                0 <= c < cycles.len() && 0 <= k < cycles[c].len() && #[trigger] cycles[c][k]
                    == queue[i].thread
        }),
{
    let thread = queue[i].thread;
    if is_in(cycles, thread) {
        let c = choose|c: int| 0 <= c < cycles.len() && (#[trigger] cycles[c]).contains(thread);
        let k = choose|k: int| 0 <= k < cycles[c].len() && cycles[c][k] == thread;
        assert(cycles[c][k] == thread);
    }
    if exists|c: int, k: int|
        0 <= c < cycles.len() && 0 <= k < cycles[c].len() && #[trigger] cycles[c][k] == thread {
        let (c, k) = choose|c: int, k: int|
            0 <= c < cycles.len() && 0 <= k < cycles[c].len() && #[trigger] cycles[c][k] == thread;
        assert(cycles[c].contains(thread));
    }
}

/// A filter is asked for one thread after the other, the oldest first, and for all of them unless
/// it says stop: only that ends it, and nothing comes after it.
pub proof fn law_filter_is_asked_until_it_stops(found: Seq<ThreadData>, ops: Seq<FilterOp>)
    requires
        filter_scan(found, ops),
    ensures
        ops.len() <= found.len(),
        ops.len() == found.len() || (ops.len() > 0 && ops.last() is Stop),
        forall|i: int| 0 <= i < ops.len() && #[trigger] ops[i] is Stop ==> i == ops.len() - 1,
        found.len() > 0 ==> ops.len() > 0,
{
}

} // verus!
