//! The parking lot and the parkers of the threads in it, whatever is done to them.
//!
//! A thread that parks sets the flag of its parker and is added to a queue, and a thread that is
//! unparked is taken out of its queue and has its flag cleared, all with the buckets locked. So
//! the flags tell who is in a queue. This is what a thread relies on whose timeout is over: it
//! looks at its flag, and knows.
//!
//! A thread which is reported as part of a deadlock counts as parked: its flag is cleared only for
//! it to report, and it sets the flag again for good.

use crate::lot::bucket::{
    filter_kept, filter_scan, filter_woken, is_marked, lemma_thread_position, others, parked_once,
    requeue_left, requeue_moved, requeue_woken, same_but_noted, same_queue, thread_position,
    threads, waiting, without_first, ThreadData,
};
use crate::lot::hash_table::{all_parked, hash_of, hashed_to, lemma_hash_in_range, HashTable};
use crate::lot::laws::{
    count_of, differ_in, entries_of, home, law_park_appends, law_requeue_conserves,
    law_requeue_moves, law_time_out_conserves, law_time_out_leaves, law_unpark_all_conserves,
    law_unpark_all_empties, law_unpark_filter_conserves, law_unpark_filter_takes_chosen,
    law_unpark_one_conserves, law_unpark_one_takes_oldest, lemma_entries_add, lemma_entries_push,
    lemma_filter_contained, lemma_left_contained, lemma_others_contained,
};
use crate::lot::types::{FilterOp, RequeueOp};
use vstd::prelude::*;

verus! {

/// The table in use, and the threads whose parkers have their flags set.
pub struct Lot {
    /// The table.
    pub table: HashTable,
    /// The threads that are parked by their flags.
    pub parked: Set<usize>,
}

/// Something that is done with the buckets locked.
pub enum LotMove {
    /// A thread is added to the queue of a key.
    Park(ThreadData),
    /// A thread whose timeout is over leaves the queue of the key it waits on.
    TimeOut(usize, usize),
    /// One thread that waits on a key is unparked.
    UnparkOne(usize),
    /// All threads that wait on a key are unparked.
    UnparkAll(usize),
    /// The threads that a filter chooses are unparked.
    UnparkFilter(usize, Seq<FilterOp>),
    /// Threads that wait on one key are unparked or put into the queue of another one.
    Requeue(usize, usize, RequeueOp),
    /// Something is noted of threads in the bucket of a key: what they own, or that they were
    /// reported as part of a deadlock.
    Note(usize),
    /// The table is replaced by another one.
    Grow,
}

/// The queues of the buckets of a table.
pub open spec fn queues(table: HashTable) -> Seq<Seq<ThreadData>> {
    Seq::new(table.entries@.len(), |b: int| table.entries@[b]@)
}

/// How often a thread occurs in some queues.
pub open spec fn total(queues: Seq<Seq<ThreadData>>, thread: usize) -> nat
    decreases queues.len(),
{
    if queues.len() == 0 {
        0
    } else {
        total(queues.drop_last(), thread) + entries_of(queues.last(), thread)
    }
}

/// The threads without those of a list.
pub open spec fn without(parked: Set<usize>, list: Seq<usize>) -> Set<usize> {
    Set::new(|thread: usize| parked.contains(thread) && count_of(list, thread) == 0)
}

impl Lot {
    /// Whether every thread is in the queue of its key, once if its flag is set and not at all
    /// otherwise.
    pub open spec fn wf(self) -> bool {
        &&& self.table.wf()
        &&& forall|thread: usize| #[trigger]
            total(queues(self.table), thread) == if self.parked.contains(thread) {
                1nat
            } else {
                0nat
            }
    }

    /// The queue in the bucket that a key belongs to.
    pub open spec fn bucket(self, key: usize) -> Seq<ThreadData> {
        self.table.entries@[home(self.table, key)]@
    }

    /// Whether nothing has changed but what is in the bucket that a key belongs to, and which
    /// threads are parked by their flags.
    pub open spec fn becomes(
        self,
        next: Lot,
        key: usize,
        queue: Seq<ThreadData>,
        parked: Set<usize>,
    ) -> bool {
        &&& differ_in(self.table, next.table, home(self.table, key))
        &&& next.bucket(key) == queue
        &&& next.parked == parked
    }

    /// Whether `next` is what is left when something has been done.
    pub open spec fn moves(self, next: Lot, what: LotMove) -> bool {
        match what {
            LotMove::Park(t) => {
                &&& !self.parked.contains(t.thread)
                &&& self.becomes(next, t.key, self.bucket(t.key).push(t), self.parked.insert(t.thread))
            },
            LotMove::TimeOut(thread, key) => {
                let i = thread_position(self.bucket(key), thread, 0);
                &&& self.parked.contains(thread)
                &&& i < self.bucket(key).len()
                &&& self.bucket(key)[i].key == key
                &&& self.becomes(next, key, self.bucket(key).remove(i), self.parked.remove(thread))
            },
            LotMove::UnparkOne(key) => {
                let found = waiting(self.bucket(key), key);
                let woken = if found.len() > 0 {
                    seq![found[0].thread]
                } else {
                    seq![]
                };
                self.becomes(
                    next,
                    key,
                    without_first(self.bucket(key), key),
                    without(self.parked, woken),
                )
            },
            LotMove::UnparkAll(key) => self.becomes(
                next,
                key,
                others(self.bucket(key), key),
                without(self.parked, threads(waiting(self.bucket(key), key))),
            ),
            LotMove::UnparkFilter(key, ops) => {
                let found = waiting(self.bucket(key), key);
                &&& filter_scan(found, ops)
                &&& self.becomes(
                    next,
                    key,
                    filter_kept(self.bucket(key), key, ops),
                    without(self.parked, filter_woken(found, ops)),
                )
            },
            LotMove::Requeue(key_from, key_to, op) => {
                let from = home(self.table, key_from);
                let to = home(self.table, key_to);
                let left = requeue_left(self.bucket(key_from), key_from, op);
                let moved = requeue_moved(self.bucket(key_from), key_from, key_to, op);
                &&& next.table.hash_bits == self.table.hash_bits
                &&& next.table.entries@.len() == self.table.entries@.len()
                &&& forall|b: int|
                    0 <= b < self.table.entries@.len() && b != from && b != to ==> (
                    #[trigger] next.table.entries@[b])@ == self.table.entries@[b]@
                &&& if from == to {
                    next.bucket(key_from) == left + moved
                } else {
                    next.bucket(key_from) == left && next.bucket(key_to) == self.bucket(key_to)
                        + moved
                }
                &&& next.parked == match requeue_woken(self.bucket(key_from), key_from, op) {
                    Some(thread) => self.parked.remove(thread),
                    None => self.parked,
                }
            },
            LotMove::Note(key) => {
                &&& self.becomes(next, key, next.bucket(key), self.parked)
                &&& same_queue(self.bucket(key), next.bucket(key))
            },
            LotMove::Grow => {
                &&& next.table.wf()
                &&& forall|b: int|
                    0 <= b < next.table.entries@.len() ==> (#[trigger] next.table.entries@[b])@
                        == hashed_to(all_parked(self.table.entries@), next.table.hash_bits, b)
                &&& next.parked == self.parked
            },
        }
    }
}

/// What one queue holds counts toward the total.
proof fn lemma_total_update(all: Seq<Seq<ThreadData>>, b: int, queue: Seq<ThreadData>, thread: usize)
    requires
        0 <= b < all.len(),
    ensures
        total(all.update(b, queue), thread) + entries_of(all[b], thread) == total(all, thread)
            + entries_of(queue, thread),
    decreases all.len(),
{
    let changed = all.update(b, queue);
    if b == all.len() - 1 {
        assert(changed.drop_last() =~= all.drop_last());
    } else {
        lemma_total_update(all.drop_last(), b, queue, thread);
        assert(changed.drop_last() =~= all.drop_last().update(b, queue));
    }
}

/// A thread that is in one of the queues counts toward the total.
pub proof fn lemma_total_covers(all: Seq<Seq<ThreadData>>, b: int, thread: usize)
    requires
        0 <= b < all.len(),
    ensures
        entries_of(all[b], thread) <= total(all, thread),
    decreases all.len(),
{
    if b < all.len() - 1 {
        lemma_total_covers(all.drop_last(), b, thread);
    }
}

/// A thread that counts toward the total is in one of the queues.
proof fn lemma_total_found(all: Seq<Seq<ThreadData>>, thread: usize) -> (b: int)
    requires
        total(all, thread) > 0,
    ensures
        0 <= b < all.len(),
        entries_of(all[b], thread) > 0,
    decreases all.len(),
{
    if entries_of(all.last(), thread) > 0 {
        all.len() - 1
    } else {
        lemma_total_found(all.drop_last(), thread)
    }
}

/// Empty queues hold nothing.
proof fn lemma_total_none(all: Seq<Seq<ThreadData>>, thread: usize)
    requires
        forall|b: int| 0 <= b < all.len() ==> #[trigger] all[b] == Seq::<ThreadData>::empty(),
    ensures
        total(all, thread) == 0,
    decreases all.len(),
{
    if all.len() > 0 {
        assert(all.last() == all[all.len() - 1]);
        assert(entries_of(Seq::<ThreadData>::empty(), thread) == 0);
        lemma_total_none(all.drop_last(), thread);
    }
}

/// A thread that occurs in a queue has a position in it.
proof fn lemma_entries_position(queue: Seq<ThreadData>, thread: usize)
    requires
        entries_of(queue, thread) > 0,
    ensures
        0 <= thread_position(queue, thread, 0) < queue.len(),
        queue[thread_position(queue, thread, 0)].thread == thread,
    decreases queue.len(),
{
    lemma_thread_position(queue, thread, 0);
    let i = thread_position(queue, thread, 0);
    if i >= queue.len() {
        lemma_entries_none(queue, thread);
    }
}

proof fn lemma_entries_none(queue: Seq<ThreadData>, thread: usize)
    requires
        forall|j: int| 0 <= j < queue.len() ==> (#[trigger] queue[j]).thread != thread,
    ensures
        entries_of(queue, thread) == 0,
    decreases queue.len(),
{
    if queue.len() > 0 {
        lemma_entries_none(queue.drop_last(), thread);
    }
}

/// All threads of a table are those of its queues.
proof fn lemma_all_parked_total(table: HashTable, n: int, thread: usize)
    requires
        0 <= n <= table.entries@.len(),
    ensures
        entries_of(all_parked(table.entries@.take(n)), thread) == total(
            queues(table).take(n),
            thread,
        ),
    decreases n,
{
    if n > 0 {
        lemma_all_parked_total(table, n - 1, thread);
        assert(table.entries@.take(n).drop_last() =~= table.entries@.take(n - 1));
        assert(queues(table).take(n).drop_last() =~= queues(table).take(n - 1));
        lemma_entries_add(
            all_parked(table.entries@.take(n - 1)),
            table.entries@[n - 1]@,
            thread,
        );
    }
}

/// Threads that are told apart by the hashes of their keys are the same threads.
proof fn lemma_hashed_total(queue: Seq<ThreadData>, bits: u32, n: nat, thread: usize)
    requires
        forall|key: usize| 0 <= #[trigger] hash_of(key, bits) < n,
    ensures
        total(Seq::new(n, |b: int| hashed_to(queue, bits, b)), thread) == entries_of(queue, thread),
    decreases queue.len(),
{
    reveal(Seq::filter);
    let all = Seq::new(n, |b: int| hashed_to(queue, bits, b));
    if queue.len() == 0 {
        assert forall|b: int| 0 <= b < all.len() implies #[trigger] all[b] == Seq::<
            ThreadData,
        >::empty() by {
            assert(all[b] =~= Seq::empty());
        }
        lemma_total_none(all, thread);
    } else {
        let t = queue.last();
        let before = queue.drop_last();
        let h = hash_of(t.key, bits);
        let rest = Seq::new(n, |b: int| hashed_to(before, bits, b));
        lemma_hashed_total(before, bits, n, thread);
        assert(all =~= rest.update(h, rest[h].push(t)));
        lemma_total_update(rest, h, rest[h].push(t), thread);
        lemma_entries_push(rest[h], t, thread);
        lemma_entries_push(before, t, thread);
        assert(queue =~= before.push(t));
    }
}

/// The change of one bucket is the change of the total.
proof fn lemma_becomes(
    lot: Lot,
    next: Lot,
    key: usize,
    queue: Seq<ThreadData>,
    parked: Set<usize>,
    thread: usize,
)
    requires
        lot.table.wf(),
        lot.becomes(next, key, queue, parked),
    ensures
        total(queues(next.table), thread) + entries_of(lot.bucket(key), thread) == total(
            queues(lot.table),
            thread,
        ) + entries_of(queue, thread),
{
    let b = home(lot.table, key);
    lemma_hash_in_range(key, lot.table.hash_bits);
    assert(queues(next.table) =~= queues(lot.table).update(b, queue));
    lemma_total_update(queues(lot.table), b, queue, thread);
}

proof fn lemma_count_one(thread: usize, other: usize)
    ensures
        count_of(seq![thread], other) == if thread == other {
            1nat
        } else {
            0nat
        },
{
    assert(seq![thread].drop_last() =~= Seq::<usize>::empty());
    assert(count_of(Seq::<usize>::empty(), other) == 0);
}

/// What is noted of threads does not change how often they occur.
proof fn lemma_entries_same(before: Seq<ThreadData>, after: Seq<ThreadData>, thread: usize)
    requires
        same_queue(before, after),
    ensures
        entries_of(before, thread) == entries_of(after, thread),
    decreases before.len(),
{
    if before.len() > 0 {
        assert(same_but_noted(before.last(), after[before.len() - 1]));
        assert(same_queue(before.drop_last(), after.drop_last())) by {
            assert forall|i: int| 0 <= i < before.len() - 1 implies same_but_noted(
                before.drop_last()[i],
                #[trigger] after.drop_last()[i],
            ) by {
                assert(same_but_noted(before[i], after[i]));
            }
        }
        lemma_entries_same(before.drop_last(), after.drop_last(), thread);
    }
}

/// What is noted of threads does not change where they belong.
proof fn lemma_noted_table(lot: Lot, next: Lot, key: usize)
    requires
        lot.table.wf(),
        lot.moves(next, LotMove::Note(key)),
    ensures
        next.table.wf(),
{
    let table = lot.table;
    lemma_hash_in_range(key, table.hash_bits);
    assert forall|b: int, i: int|
        0 <= b < next.table.entries@.len() && 0 <= i < next.table.entries@[b]@.len() implies hash_of(
        (#[trigger] next.table.entries@[b]@[i]).key,
        next.table.hash_bits,
    ) == b by {
        if b == home(table, key) {
            assert(same_but_noted(lot.bucket(key)[i], next.bucket(key)[i]));
        }
        assert(hash_of(table.entries@[b]@[i].key, table.hash_bits) == b);
    }
}

/// A thread that stands somewhere in a queue occurs in it.
pub proof fn lemma_entries_some(queue: Seq<ThreadData>, i: int, thread: usize)
    requires
        0 <= i < queue.len(),
        queue[i].thread == thread,
    ensures
        entries_of(queue, thread) > 0,
    decreases queue.len(),
{
    if i < queue.len() - 1 {
        lemma_entries_some(queue.drop_last(), i, thread);
    }
}

/// A thread that stands at two places in a queue occurs twice.
proof fn lemma_entries_two(queue: Seq<ThreadData>, i: int, j: int, thread: usize)
    requires
        0 <= i < j < queue.len(),
        queue[i].thread == thread,
        queue[j].thread == thread,
    ensures
        entries_of(queue, thread) >= 2,
    decreases queue.len(),
{
    if j < queue.len() - 1 {
        lemma_entries_two(queue.drop_last(), i, j, thread);
    } else {
        lemma_entries_some(queue.drop_last(), i, thread);
    }
}

/// Everything is in order in a lot where nobody is parked.
pub proof fn law_empty_lot_is_wf(table: HashTable)
    requires
        table.wf(),
        forall|b: int|
            0 <= b < table.entries@.len() ==> (#[trigger] table.entries@[b])@ == Seq::<
                ThreadData,
            >::empty(),
    ensures
        (Lot { table, parked: Set::empty() }).wf(),
{
    assert forall|thread: usize| #[trigger] total(queues(table), thread) == 0 by {
        lemma_total_none(queues(table), thread);
    }
}

/// Whatever is done, every thread is in the queue of its key, once if its flag is set and not at
/// all otherwise.
pub proof fn law_moves_keep_lot(lot: Lot, next: Lot, what: LotMove)
    requires
        lot.wf(),
        lot.moves(next, what),
    ensures
        next.wf(),
{
    match what {
        LotMove::Park(t) => {
            law_park_appends(lot.table, next.table, t);
        },
        LotMove::TimeOut(thread, key) => {
            law_time_out_leaves(lot.table, next.table, key, thread);
        },
        LotMove::UnparkOne(key) => {
            law_unpark_one_takes_oldest(lot.table, next.table, key);
        },
        LotMove::UnparkAll(key) => {
            law_unpark_all_empties(lot.table, next.table, key);
        },
        LotMove::UnparkFilter(key, ops) => {
            law_unpark_filter_takes_chosen(lot.table, next.table, key, ops);
        },
        LotMove::Requeue(key_from, key_to, op) => {
            law_requeue_moves(lot.table, next.table, key_from, key_to, op);
        },
        LotMove::Note(key) => {
            lemma_noted_table(lot, next, key);
        },
        LotMove::Grow => {},
    }
    assert forall|thread: usize| #[trigger]
        total(queues(next.table), thread) == if next.parked.contains(thread) {
            1nat
        } else {
            0nat
        } by {
        assert(total(queues(lot.table), thread) == if lot.parked.contains(thread) {
            1nat
        } else {
            0nat
        });
        match what {
            LotMove::Park(t) => {
                let queue = lot.bucket(t.key);
                lemma_becomes(lot, next, t.key, queue.push(t), next.parked, thread);
                lemma_entries_push(queue, t, thread);
            },
            LotMove::TimeOut(leaver, key) => {
                let queue = lot.bucket(key);
                let left = queue.remove(thread_position(queue, leaver, 0));
                lemma_becomes(lot, next, key, left, next.parked, thread);
                law_time_out_conserves(queue, leaver, thread);
            },
            LotMove::UnparkOne(key) => {
                let queue = lot.bucket(key);
                let found = waiting(queue, key);
                lemma_becomes(lot, next, key, without_first(queue, key), next.parked, thread);
                law_unpark_one_conserves(queue, key, thread);
                if found.len() > 0 {
                    lemma_count_one(found[0].thread, thread);
                }
            },
            LotMove::UnparkAll(key) => {
                let queue = lot.bucket(key);
                lemma_becomes(lot, next, key, others(queue, key), next.parked, thread);
                law_unpark_all_conserves(queue, key, thread);
            },
            LotMove::UnparkFilter(key, ops) => {
                let queue = lot.bucket(key);
                lemma_becomes(lot, next, key, filter_kept(queue, key, ops), next.parked, thread);
                law_unpark_filter_conserves(queue, key, ops, thread);
            },
            LotMove::Requeue(key_from, key_to, op) => {
                lemma_requeue_total(lot, next, key_from, key_to, op, thread);
            },
            LotMove::Note(key) => {
                lemma_becomes(lot, next, key, next.bucket(key), next.parked, thread);
                lemma_entries_same(lot.bucket(key), next.bucket(key), thread);
            },
            LotMove::Grow => {
                let all = all_parked(lot.table.entries@);
                let n = lot.table.entries@.len() as int;
                let bits = next.table.hash_bits;
                lemma_all_parked_total(lot.table, n, thread);
                assert(lot.table.entries@.take(n) =~= lot.table.entries@);
                assert(queues(lot.table).take(n) =~= queues(lot.table));
                assert forall|key: usize|
                    0 <= #[trigger] hash_of(key, bits) < next.table.entries@.len() by {
                    lemma_hash_in_range(key, bits);
                }
                lemma_hashed_total(all, bits, next.table.entries@.len(), thread);
                assert(queues(next.table) =~= Seq::new(
                    next.table.entries@.len(),
                    |b: int| hashed_to(all, bits, b),
                ));
            },
        }
    }
}

proof fn lemma_requeue_total(
    lot: Lot,
    next: Lot,
    key_from: usize,
    key_to: usize,
    op: RequeueOp,
    thread: usize,
)
    requires
        lot.table.wf(),
        lot.moves(next, LotMove::Requeue(key_from, key_to, op)),
    ensures
        total(queues(next.table), thread) + (if requeue_woken(lot.bucket(key_from), key_from, op)
            == Some(thread) {
            1nat
        } else {
            0nat
        }) == total(queues(lot.table), thread),
{
    let from = home(lot.table, key_from);
    let to = home(lot.table, key_to);
    let queue = lot.bucket(key_from);
    let left = requeue_left(queue, key_from, op);
    let moved = requeue_moved(queue, key_from, key_to, op);
    let all = queues(lot.table);
    lemma_hash_in_range(key_from, lot.table.hash_bits);
    lemma_hash_in_range(key_to, lot.table.hash_bits);
    law_requeue_conserves(queue, key_from, key_to, op, thread);
    if from == to {
        assert(queues(next.table) =~= all.update(from, left + moved));
        lemma_total_update(all, from, left + moved, thread);
        lemma_entries_add(left, moved, thread);
    } else {
        let middle = all.update(from, left);
        let target = lot.bucket(key_to);
        assert(queues(next.table) =~= middle.update(to, target + moved));
        lemma_total_update(all, from, left, thread);
        lemma_total_update(middle, to, target + moved, thread);
        lemma_entries_add(target, moved, thread);
    }
}

/// A thread whose flag is set is in the queue of the key that it waits on. So one whose timeout
/// is over finds itself there, if it finds its flag set.
pub proof fn law_parked_thread_is_found(lot: Lot, thread: usize) -> (key: usize)
    requires
        lot.wf(),
        lot.parked.contains(thread),
    ensures
        ({
            let i = thread_position(lot.bucket(key), thread, 0);
            &&& 0 <= i < lot.bucket(key).len()
            &&& lot.bucket(key)[i].thread == thread
            &&& lot.bucket(key)[i].key == key
        }),
{
    assert(total(queues(lot.table), thread) == 1);
    let b = lemma_total_found(queues(lot.table), thread);
    let queue = lot.table.entries@[b]@;
    lemma_entries_position(queue, thread);
    let i = thread_position(queue, thread, 0);
    assert(hash_of((#[trigger] lot.table.entries@[b]@[i]).key, lot.table.hash_bits) == b);
    queue[i].key
}

/// A thread whose flag is not set is in no queue.
pub proof fn law_unparked_thread_is_gone(lot: Lot, thread: usize, key: usize)
    requires
        lot.wf(),
        !lot.parked.contains(thread),
    ensures
        entries_of(lot.bucket(key), thread) == 0,
{
    assert(total(queues(lot.table), thread) == 0);
    lemma_hash_in_range(key, lot.table.hash_bits);
    lemma_total_covers(queues(lot.table), home(lot.table, key), thread);
}

/// A thread that is in one bucket is in no other.
pub proof fn law_nobody_is_elsewhere(lot: Lot, key: usize, thread: usize, b: int)
    requires
        lot.wf(),
        entries_of(lot.bucket(key), thread) > 0,
        0 <= b < lot.table.entries@.len(),
        b != home(lot.table, key),
    ensures
        entries_of(lot.table.entries@[b]@, thread) == 0,
{
    let all = queues(lot.table);
    let h = home(lot.table, key);
    let none = Seq::<ThreadData>::empty();
    lemma_hash_in_range(key, lot.table.hash_bits);
    assert(total(all, thread) <= 1);
    lemma_total_update(all, h, none, thread);
    assert(entries_of(none, thread) == 0);
    lemma_total_covers(all.update(h, none), b, thread);
}

/// No thread is parked twice, in all buckets together.
pub proof fn law_nobody_is_parked_twice(lot: Lot)
    requires
        lot.wf(),
    ensures
        parked_once(all_parked(lot.table.entries@)),
{
    let all = all_parked(lot.table.entries@);
    let n = lot.table.entries@.len() as int;
    assert(lot.table.entries@.take(n) =~= lot.table.entries@);
    assert(queues(lot.table).take(n) =~= queues(lot.table));
    assert forall|i: int, j: int|
        0 <= i < all.len() && 0 <= j < all.len() && (#[trigger] all[i]).thread == (
        #[trigger] all[j]).thread implies i == j by {
        let thread = all[i].thread;
        lemma_all_parked_total(lot.table, n, thread);
        assert(total(queues(lot.table), thread) <= 1);
        if i < j {
            lemma_entries_two(all, i, j, thread);
        } else if j < i {
            lemma_entries_two(all, j, i, thread);
        }
    }
}

/// Whether all entries of a thread in a table bear the note that it was reported as part of a
/// deadlock.
pub open spec fn is_marked_in(table: HashTable, thread: usize) -> bool {
    forall|b: int|
        0 <= b < table.entries@.len() ==> is_marked((#[trigger] table.entries@[b])@, thread)
}

/// All threads of a table are in one of its buckets.
proof fn lemma_all_parked_contained(table: HashTable, n: int, i: int) -> (at: (int, int))
    requires
        0 <= n <= table.entries@.len(),
        0 <= i < all_parked(table.entries@.take(n)).len(),
    ensures
        0 <= at.0 < n,
        0 <= at.1 < table.entries@[at.0]@.len(),
        table.entries@[at.0]@[at.1] == all_parked(table.entries@.take(n))[i],
    decreases n,
{
    let before = all_parked(table.entries@.take(n - 1));
    assert(table.entries@.take(n).drop_last() =~= table.entries@.take(n - 1));
    if i < before.len() {
        lemma_all_parked_contained(table, n - 1, i)
    } else {
        (n - 1, i - before.len())
    }
}

/// What a check gathers from all buckets bears the note if the entries in the buckets do.
pub proof fn law_marks_are_gathered(table: HashTable, thread: usize)
    requires
        is_marked_in(table, thread),
    ensures
        is_marked(all_parked(table.entries@), thread),
{
    let n = table.entries@.len() as int;
    let all = all_parked(table.entries@);
    assert(table.entries@.take(n) =~= table.entries@);
    assert forall|i: int|
        0 <= i < all.len() && (#[trigger] all[i]).thread == thread implies
        all[i].deadlock_data.deadlocked by {
        let (b, j) = lemma_all_parked_contained(table, n, i);
        assert(is_marked(table.entries@[b]@, thread));
    }
}

/// The threads that a requeue moves were in the queue, and only their keys have changed.
proof fn lemma_moved_contained(
    queue: Seq<ThreadData>,
    key_from: usize,
    key_to: usize,
    op: RequeueOp,
    i: int,
) -> (j: int)
    requires
        0 <= i < requeue_moved(queue, key_from, key_to, op).len(),
    ensures
        0 <= j < queue.len(),
        requeue_moved(queue, key_from, key_to, op)[i].thread == queue[j].thread,
        requeue_moved(queue, key_from, key_to, op)[i].deadlock_data == queue[j].deadlock_data,
{
    let p = |t: ThreadData| t.key == key_from;
    let found = waiting(queue, key_from);
    let k = if op.wakes() {
        i + 1
    } else {
        i
    };
    assert(queue.filter(p).contains(found[k]));
    queue.lemma_filter_contains_rev(p, found[k]);
    choose|j: int| 0 <= j < queue.len() && queue[j] == found[k]
}

/// The note that a thread was reported as part of a deadlock stays with it, whatever is done. A
/// thread that bears the note may also park anew, with the note.
pub proof fn law_marks_last(lot: Lot, next: Lot, what: LotMove, thread: usize)
    requires
        lot.table.wf(),
        lot.moves(next, what),
        is_marked_in(lot.table, thread),
        what matches LotMove::Park(t) ==> t.thread == thread ==> t.deadlock_data.deadlocked,
    ensures
        is_marked_in(next.table, thread),
{
    let table = lot.table;
    assert forall|b: int| 0 <= b < next.table.entries@.len() implies is_marked(
        (#[trigger] next.table.entries@[b])@,
        thread,
    ) by {
        let queue = next.table.entries@[b]@;
        assert forall|i: int|
            0 <= i < queue.len() && (#[trigger] queue[i]).thread == thread implies
            queue[i].deadlock_data.deadlocked by {
            match what {
                LotMove::Grow => {
                    let all = all_parked(table.entries@);
                    law_marks_are_gathered(table, thread);
                    let p = |t: ThreadData| hash_of(t.key, next.table.hash_bits) == b;
                    assert(all.filter(p).contains(queue[i]));
                    all.lemma_filter_contains_rev(p, queue[i]);
                    let j = choose|j: int| 0 <= j < all.len() && all[j] == queue[i];
                    assert(all[j].thread == thread);
                },
                LotMove::Requeue(key_from, key_to, op) => {
                    lemma_hash_in_range(key_from, table.hash_bits);
                    lemma_hash_in_range(key_to, table.hash_bits);
                    let from = home(table, key_from);
                    let to = home(table, key_to);
                    let source = lot.bucket(key_from);
                    let target = lot.bucket(key_to);
                    let left = requeue_left(source, key_from, op);
                    assert(is_marked(table.entries@[from]@, thread));
                    assert(is_marked(table.entries@[to]@, thread));
                    if b != from && b != to {
                        assert(next.table.entries@[b]@ == table.entries@[b]@);
                        assert(is_marked(table.entries@[b]@, thread));
                    } else if b == from && i < left.len() {
                        let j = lemma_left_contained(source, key_from, op, i);
                        assert(source[j].thread == thread);
                    } else if b != from && i < target.len() {
                        assert(target[i].thread == thread);
                    } else {
                        let base = if b == from { left.len() } else { target.len() };
                        let j = lemma_moved_contained(source, key_from, key_to, op, i - base);
                        assert(source[j].thread == thread);
                    }
                },
                _ => {
                    let key = match what {
                        LotMove::Park(t) => t.key,
                        LotMove::TimeOut(_, key) => key,
                        LotMove::UnparkOne(key) => key,
                        LotMove::UnparkAll(key) => key,
                        LotMove::UnparkFilter(key, _) => key,
                        LotMove::Note(key) => key,
                        _ => 0,
                    };
                    lemma_hash_in_range(key, table.hash_bits);
                    let source = lot.bucket(key);
                    assert(is_marked(table.entries@[b]@, thread));
                    if b == home(table, key) {
                        match what {
                            LotMove::Park(t) => {
                                if i < source.len() {
                                    assert(source[i].thread == thread);
                                }
                            },
                            LotMove::TimeOut(leaver, _) => {
                                lemma_thread_position(source, leaver, 0);
                                let p = thread_position(source, leaver, 0);
                                let j = if i < p { i } else { i + 1 };
                                assert(source[j].thread == thread);
                            },
                            LotMove::UnparkOne(_) => {
                                let j = lemma_left_contained(source, key, RequeueOp::UnparkOne, i);
                                assert(source[j].thread == thread);
                            },
                            LotMove::UnparkAll(_) => {
                                let j = lemma_others_contained(source, key, i);
                                assert(source[j].thread == thread);
                            },
                            LotMove::UnparkFilter(_, ops) => {
                                let j = lemma_filter_contained(source, key, ops, i);
                                assert(source[j].thread == thread);
                            },
                            LotMove::Note(_) => {
                                assert(same_but_noted(source[i], queue[i]));
                                assert(source[i].thread == thread);
                            },
                            _ => {},
                        }
                    } else {
                        assert(next.table.entries@[b]@ == table.entries@[b]@);
                    }
                },
            }
        }
    }
}

} // verus!
