//! One bucket of the parking lot, with the queue of threads that sleep in it.
//!
//! Several keys may share a bucket. Every operation works on the threads that wait on the key
//! it is given, in the order in which they were parked, and leaves all other threads where
//! they are. A bucket is handed out as `&mut Bucket`: its user holds the bucket's lock.

use crate::deadlock::cycles::{contents, is_in, is_in_cycles};
use crate::deadlock::resources::{lemma_last_position, released, DeadlockData};
use crate::lot::laws::{
    law_filter_reports_rest, law_requeue_does_what_is_asked, law_requeue_keeps_order,
    law_requeue_reports_rest, law_unpark_one_reports_rest, lemma_requeue_lengths,
};
use crate::lot::thread_list::{listed, ThreadList};
use crate::lot::types::{
    AllUnparked, FilterOp, Filtered, ParkResult, ParkToken, RequeueOp, UnparkResult, UnparkToken,
    Unparked, Wake,
};
use vstd::prelude::*;

verus! {

/// What the parking lot keeps of a parked thread.
pub struct ThreadData {
    /// The thread: an address which no other live thread has.
    pub thread: usize,
    /// Key that this thread is sleeping on. This may change if the thread is
    /// requeued to a different key.
    pub key: usize,
    /// ParkToken value set by the thread when it was parked.
    pub park_token: ParkToken,
    /// Is the thread parked with a timeout?
    pub parked_with_timeout: bool,
    /// Extra data for deadlock detection.
    pub deadlock_data: DeadlockData,
}

impl ThreadData {
    /// The data of a thread that is not parked and owns nothing.
    pub fn new(thread: usize) -> (r: ThreadData)
        ensures
            r.thread == thread,
            r.key == 0,
            r.park_token == ParkToken(0),
            !r.parked_with_timeout,
            r.deadlock_data.resources@ == Seq::<usize>::empty(),
            !r.deadlock_data.deadlocked,
    {
        ThreadData {
            thread,
            key: 0,
            park_token: ParkToken(0),
            parked_with_timeout: false,
            deadlock_data: DeadlockData::new(),
        }
    }
}

/// A thread with the note that it was reported as part of a deadlock.
pub open spec fn reported(t: ThreadData) -> ThreadData {
    ThreadData {
        deadlock_data: DeadlockData { deadlocked: true, ..t.deadlock_data },
        ..t
    }
}

/// A queue with that note on all threads which are in one of some cycles.
pub open spec fn marked(queue: Seq<ThreadData>, cycles: Seq<Seq<usize>>) -> Seq<ThreadData> {
    queue.map_values(
        |t: ThreadData|
            if is_in(cycles, t.thread) {
                reported(t)
            } else {
                t
            },
    )
}

/// Whether all entries of a thread in a queue bear that note.
pub open spec fn is_marked(queue: Seq<ThreadData>, thread: usize) -> bool {
    forall|i: int|
        0 <= i < queue.len() && (#[trigger] queue[i]).thread == thread
            ==> queue[i].deadlock_data.deadlocked
}

/// Whether no thread is parked twice.
pub open spec fn parked_once(parked: Seq<ThreadData>) -> bool {
    forall|i: int, j: int|
        0 <= i < parked.len() && 0 <= j < parked.len() && (#[trigger] parked[i]).thread == (
        #[trigger] parked[j]).thread ==> i == j
}

/// Whether `after` is `before` with other resources, or with the note that the thread was
/// reported. The note is never taken back.
pub open spec fn same_but_noted(before: ThreadData, after: ThreadData) -> bool {
    &&& after.thread == before.thread
    &&& after.key == before.key
    &&& after.park_token == before.park_token
    &&& after.parked_with_timeout == before.parked_with_timeout
    &&& before.deadlock_data.deadlocked ==> after.deadlock_data.deadlocked
}

/// Whether a queue holds the same threads as before, with what is noted of them.
pub open spec fn same_queue(before: Seq<ThreadData>, after: Seq<ThreadData>) -> bool {
    &&& after.len() == before.len()
    &&& forall|i: int|
        0 <= i < before.len() ==> same_but_noted(before[i], #[trigger] after[i])
}

/// Whether `after` is `before` with other resources, which are given.
pub open spec fn same_but_resources(
    before: ThreadData,
    after: ThreadData,
    resources: Seq<usize>,
) -> bool {
    &&& after.thread == before.thread
    &&& after.key == before.key
    &&& after.park_token == before.park_token
    &&& after.parked_with_timeout == before.parked_with_timeout
    &&& after.deadlock_data.deadlocked == before.deadlock_data.deadlocked
    &&& after.deadlock_data.resources@ == resources
}

/// The threads of `queue` that wait on `key`, in the order of the queue.
pub open spec fn waiting(queue: Seq<ThreadData>, key: usize) -> Seq<ThreadData> {
    queue.filter(|t: ThreadData| t.key == key)
}

/// The threads of `queue` that wait on anything but `key`, in the order of the queue.
pub open spec fn others(queue: Seq<ThreadData>, key: usize) -> Seq<ThreadData> {
    queue.filter(|t: ThreadData| t.key != key)
}

/// The threads by themselves.
pub open spec fn threads(queue: Seq<ThreadData>) -> Seq<usize> {
    queue.map_values(|t: ThreadData| t.thread)
}

/// Where the first thread at or after `from` stands that waits on `key`; the length of the
/// queue if there is none.
pub open spec fn position(queue: Seq<ThreadData>, key: usize, from: int) -> int
    decreases queue.len() - from,
{
    if from < 0 || from >= queue.len() {
        queue.len() as int
    } else if queue[from].key == key {
        from
    } else {
        position(queue, key, from + 1)
    }
}

/// Where the first entry of `thread` at or after `from` stands; the length of the queue if there
/// is none.
pub open spec fn thread_position(queue: Seq<ThreadData>, thread: usize, from: int) -> int
    decreases queue.len() - from,
{
    if from < 0 || from >= queue.len() {
        queue.len() as int
    } else if queue[from].thread == thread {
        from
    } else {
        thread_position(queue, thread, from + 1)
    }
}

/// The queue once its first thread that waits on `key` has left, if there is one.
pub open spec fn without_first(queue: Seq<ThreadData>, key: usize) -> Seq<ThreadData> {
    if waiting(queue, key).len() == 0 {
        queue
    } else {
        queue.remove(position(queue, key, 0))
    }
}

/// What unparking one thread that waits on `key` reports.
pub open spec fn unpark_one_result(queue: Seq<ThreadData>, key: usize) -> UnparkResult {
    UnparkResult {
        unparked_threads: if waiting(queue, key).len() == 0 { 0 } else { 1 },
        requeued_threads: 0,
        have_more_threads: waiting(queue, key).len() > 1,
    }
}

/// The thread of a list that is woken up: the first one, if one is to be woken up at all.
pub open spec fn first_woken(taken: Seq<ThreadData>, wakes: bool) -> Option<usize> {
    if wakes && taken.len() > 0 {
        Some(taken[0].thread)
    } else {
        None
    }
}

/// The threads of a list that wait on `key_to` from now on: all but the one that is woken up.
pub open spec fn moved(taken: Seq<ThreadData>, wakes: bool, key_to: usize) -> Seq<ThreadData> {
    let rest = if wakes && taken.len() > 0 {
        taken.drop_first()
    } else {
        taken
    };
    rest.map_values(|t: ThreadData| ThreadData { key: key_to, ..t })
}

/// The threads that a requeue operation takes out of the queue.
pub open spec fn requeue_taken(
    queue: Seq<ThreadData>,
    key_from: usize,
    op: RequeueOp,
) -> Seq<ThreadData> {
    let all = waiting(queue, key_from);
    if op is Abort {
        seq![]
    } else if op.takes_one() && all.len() > 0 {
        all.take(1)
    } else {
        all
    }
}

/// The queue that a requeue operation leaves behind.
pub open spec fn requeue_left(
    queue: Seq<ThreadData>,
    key_from: usize,
    op: RequeueOp,
) -> Seq<ThreadData> {
    if op is Abort {
        queue
    } else if op.takes_one() {
        without_first(queue, key_from)
    } else {
        others(queue, key_from)
    }
}

/// The threads that a requeue operation appends to the other queue.
pub open spec fn requeue_moved(
    queue: Seq<ThreadData>,
    key_from: usize,
    key_to: usize,
    op: RequeueOp,
) -> Seq<ThreadData> {
    moved(requeue_taken(queue, key_from, op), op.wakes(), key_to)
}

/// The thread that a requeue operation wakes up.
pub open spec fn requeue_woken(
    queue: Seq<ThreadData>,
    key_from: usize,
    op: RequeueOp,
) -> Option<usize> {
    first_woken(requeue_taken(queue, key_from, op), op.wakes())
}

/// Whether `after` is `before` with as many threads behind it as were requeued: one by one the
/// oldest of `found`, behind those that were unparked, each as it was but for its key.
pub open spec fn follow_in_order(
    before: Seq<ThreadData>,
    after: Seq<ThreadData>,
    found: Seq<ThreadData>,
    result: UnparkResult,
    key_to: usize,
) -> bool {
    &&& after.len() == before.len() + result.requeued_threads
    &&& forall|i: int| 0 <= i < before.len() ==> after[i] == before[i]
    &&& forall|i: int|
        before.len() <= i < after.len() ==> {
            let t = found[i - before.len() + result.unparked_threads];
            &&& i - before.len() + result.unparked_threads < found.len()
            &&& (#[trigger] after[i]).thread == t.thread
            &&& after[i].park_token == t.park_token
            &&& after[i].parked_with_timeout == t.parked_with_timeout
            &&& after[i].deadlock_data == t.deadlock_data
            &&& after[i].key == key_to
        }
}

/// What a requeue operation reports.
pub open spec fn requeue_result(
    queue: Seq<ThreadData>,
    key_from: usize,
    op: RequeueOp,
) -> UnparkResult {
    UnparkResult {
        unparked_threads: if requeue_woken(queue, key_from, op) is Some { 1 } else { 0 },
        requeued_threads: requeue_moved(queue, key_from, 0, op).len() as usize,
        have_more_threads: if op is Abort {
            waiting(queue, key_from).len() > 0
        } else {
            op.takes_one() && waiting(queue, key_from).len() > 1
        },
    }
}

/// Whether `ops` is how a filter answered for the threads of `found`, one after the other: it
/// was asked until it said stop, or until there were no more threads.
pub open spec fn filter_scan(found: Seq<ThreadData>, ops: Seq<FilterOp>) -> bool {
    &&& ops.len() <= found.len()
    &&& forall|i: int| 0 <= i < ops.len() - 1 ==> !(#[trigger] ops[i] is Stop)
    &&& ops.len() < found.len() ==> ops.len() > 0 && ops.last() is Stop
}

/// Whether the answer for the thread with the given rank was to unpark it.
pub open spec fn filter_chosen(ops: Seq<FilterOp>, rank: int) -> bool {
    0 <= rank < ops.len() && ops[rank] is Unpark
}

/// The queue that is left when the threads have gone that `ops` chose among those which wait on
/// `key`.
pub open spec fn filter_kept(
    queue: Seq<ThreadData>,
    key: usize,
    ops: Seq<FilterOp>,
) -> Seq<ThreadData>
    decreases queue.len(),
{
    if queue.len() == 0 {
        queue
    } else {
        let before = queue.drop_last();
        let kept = filter_kept(before, key, ops);
        if queue.last().key == key && filter_chosen(ops, waiting(before, key).len() as int) {
            kept
        } else {
            kept.push(queue.last())
        }
    }
}

/// The threads of `found` that `ops` chose.
pub open spec fn filter_woken(found: Seq<ThreadData>, ops: Seq<FilterOp>) -> Seq<usize>
    decreases ops.len(),
{
    if ops.len() == 0 {
        seq![]
    } else {
        let woken = filter_woken(found, ops.drop_last());
        if ops.last() is Unpark {
            woken.push(found[ops.len() - 1].thread)
        } else {
            woken
        }
    }
}

/// What unparking through a filter reports.
pub open spec fn filter_result(found: Seq<ThreadData>, ops: Seq<FilterOp>) -> UnparkResult {
    UnparkResult {
        unparked_threads: filter_woken(found, ops).len() as usize,
        requeued_threads: 0,
        have_more_threads: exists|i: int| 0 <= i < ops.len() && !(#[trigger] ops[i] is Unpark),
    }
}

/// A thread added at the end is the last to wait on its key, and on no other key.
pub proof fn lemma_waiting_push(queue: Seq<ThreadData>, t: ThreadData, key: usize)
    ensures
        waiting(queue.push(t), key) == if t.key == key {
            waiting(queue, key).push(t)
        } else {
            waiting(queue, key)
        },
        others(queue.push(t), key) == if t.key == key {
            others(queue, key)
        } else {
            others(queue, key).push(t)
        },
{
    reveal(Seq::filter);
    assert(queue.push(t).drop_last() =~= queue);
}

/// The threads that wait on a key in two queues put together are those of the first queue
/// followed by those of the second.
pub proof fn lemma_waiting_add(a: Seq<ThreadData>, b: Seq<ThreadData>, key: usize)
    ensures
        waiting(a + b, key) == waiting(a, key) + waiting(b, key),
        others(a + b, key) == others(a, key) + others(b, key),
{
    Seq::filter_distributes_over_add(a, b, |t: ThreadData| t.key == key);
    Seq::filter_distributes_over_add(a, b, |t: ThreadData| t.key != key);
}

/// Nothing waits in an empty queue.
pub proof fn lemma_waiting_empty(key: usize)
    ensures
        waiting(Seq::empty(), key) == Seq::<ThreadData>::empty(),
        others(Seq::empty(), key) == Seq::<ThreadData>::empty(),
{
    reveal(Seq::filter);
}

/// Where no thread waits on `key`, all of them wait on something else.
pub proof fn lemma_waiting_none(queue: Seq<ThreadData>, key: usize)
    requires
        forall|i: int| 0 <= i < queue.len() ==> queue[i].key != key,
    ensures
        waiting(queue, key) == Seq::<ThreadData>::empty(),
        others(queue, key) == queue,
    decreases queue.len(),
{
    if queue.len() == 0 {
        lemma_waiting_empty(key);
        assert(queue =~= Seq::empty());
    } else {
        lemma_waiting_none(queue.drop_last(), key);
        lemma_waiting_push(queue.drop_last(), queue.last(), key);
        assert(queue =~= queue.drop_last().push(queue.last()));
    }
}

/// Whether anything waits on `key` can be told from the single threads.
pub proof fn lemma_waiting_some(queue: Seq<ThreadData>, key: usize, i: int)
    requires
        0 <= i < queue.len(),
        queue[i].key == key,
    ensures
        waiting(queue, key).len() > 0,
{
    let p = |t: ThreadData| t.key == key;
    queue.lemma_filter_contains(p, i);
    assert(queue.filter(p).contains(queue[i]));
}

/// The thread at `i` stands between those before it and those behind it.
pub proof fn lemma_waiting_split(queue: Seq<ThreadData>, key: usize, i: int)
    requires
        0 <= i < queue.len(),
    ensures
        queue == queue.take(i) + seq![queue[i]] + queue.skip(i + 1),
        queue.remove(i) == queue.take(i) + queue.skip(i + 1),
        waiting(queue, key) == waiting(queue.take(i), key) + waiting(seq![queue[i]], key)
            + waiting(queue.skip(i + 1), key),
        waiting(queue.remove(i), key) == waiting(queue.take(i), key) + waiting(
            queue.skip(i + 1),
            key,
        ),
        waiting(seq![queue[i]], key) == if queue[i].key == key {
            seq![queue[i]]
        } else {
            seq![]
        },
{
    assert(queue =~= queue.take(i) + seq![queue[i]] + queue.skip(i + 1));
    assert(queue.remove(i) =~= queue.take(i) + queue.skip(i + 1));
    lemma_waiting_add(queue.take(i) + seq![queue[i]], queue.skip(i + 1), key);
    lemma_waiting_add(queue.take(i), seq![queue[i]], key);
    lemma_waiting_add(queue.take(i), queue.skip(i + 1), key);
    lemma_waiting_empty(key);
    lemma_waiting_push(Seq::empty(), queue[i], key);
    assert(Seq::<ThreadData>::empty().push(queue[i]) =~= seq![queue[i]]);
}

/// The threads that wait on a key are one of them, those before it and those behind it.
proof fn lemma_waiting_count(queue: Seq<ThreadData>, key: usize, i: int)
    requires
        0 <= i < queue.len(),
        queue[i].key == key,
    ensures
        waiting(queue, key).len() == waiting(queue.take(i), key).len() + 1 + waiting(
            queue.skip(i + 1),
            key,
        ).len(),
{
    lemma_waiting_split(queue, key, i);
}

/// The first thread that waits on `key` heads the threads that do.
pub proof fn lemma_first_waiting(queue: Seq<ThreadData>, key: usize, i: int)
    requires
        0 <= i < queue.len(),
        queue[i].key == key,
        forall|j: int| 0 <= j < i ==> queue[j].key != key,
    ensures
        waiting(queue, key) == seq![queue[i]] + waiting(queue.skip(i + 1), key),
        waiting(queue, key).drop_first() == waiting(queue.skip(i + 1), key),
        waiting(queue.remove(i), key) == waiting(queue.skip(i + 1), key),
        position(queue, key, 0) == i,
{
    let rest = waiting(queue.skip(i + 1), key);
    let first = seq![queue[i]];
    assert(waiting(queue, key) == first + rest && waiting(queue.remove(i), key) == rest) by {
        lemma_waiting_split(queue, key, i);
        lemma_waiting_none(queue.take(i), key);
        let none = Seq::<ThreadData>::empty();
        assert(none + first =~= first);
        assert(none + rest =~= rest);
    }
    assert((first + rest).drop_first() =~= rest);
    lemma_position(queue, key, 0, i);
}

/// What lies before the first thread found does not count.
pub proof fn lemma_position(queue: Seq<ThreadData>, key: usize, from: int, i: int)
    requires
        0 <= from <= i < queue.len(),
        queue[i].key == key,
        forall|j: int| from <= j < i ==> queue[j].key != key,
    ensures
        position(queue, key, from) == i,
    decreases i - from,
{
    if from < i {
        lemma_position(queue, key, from + 1, i);
    }
}

/// A thread's position is that of its first entry.
pub proof fn lemma_thread_position(queue: Seq<ThreadData>, thread: usize, from: int)
    requires
        0 <= from,
    ensures
        ({
            let i = thread_position(queue, thread, from);
            &&& i <= queue.len()
            &&& from <= queue.len() ==> from <= i
            &&& i < queue.len() ==> queue[i].thread == thread
            &&& forall|j: int| from <= j < i ==> queue[j].thread != thread
        }),
    decreases queue.len() - from,
{
    if from < queue.len() && queue[from].thread != thread {
        lemma_thread_position(queue, thread, from + 1);
    }
}

/// One step of a walk through the queue: the thread at `i` is looked at next.
proof fn lemma_waiting_step(queue: Seq<ThreadData>, key: usize, i: int)
    requires
        0 <= i < queue.len(),
    ensures
        queue.take(i + 1) == queue.take(i).push(queue[i]),
        queue.skip(i) == seq![queue[i]] + queue.skip(i + 1),
        waiting(queue.take(i + 1), key) == if queue[i].key == key {
            waiting(queue.take(i), key).push(queue[i])
        } else {
            waiting(queue.take(i), key)
        },
        others(queue.take(i + 1), key) == if queue[i].key == key {
            others(queue.take(i), key)
        } else {
            others(queue.take(i), key).push(queue[i])
        },
        waiting(queue.take(i), key).len() <= i,
{
    assert(queue.take(i + 1) =~= queue.take(i).push(queue[i]));
    assert(queue.skip(i) =~= seq![queue[i]] + queue.skip(i + 1));
    lemma_waiting_push(queue.take(i), queue[i], key);
    queue.take(i).lemma_filter_len(|t: ThreadData| t.key == key);
}

/// The threads that wait on a key in the front part of a queue come first.
proof fn lemma_waiting_prefix(queue: Seq<ThreadData>, key: usize, i: int)
    requires
        0 <= i < queue.len(),
    ensures
        waiting(queue.take(i), key).len() <= waiting(queue, key).len(),
        forall|j: int|
            0 <= j < waiting(queue.take(i), key).len() ==> waiting(queue, key)[j] == waiting(
                queue.take(i),
                key,
            )[j],
        queue[i].key == key ==> {
            &&& waiting(queue.take(i), key).len() < waiting(queue, key).len()
            &&& waiting(queue, key)[waiting(queue.take(i), key).len() as int] == queue[i]
        },
{
    lemma_waiting_split(queue, key, i);
}

/// An answer for a thread behind the queue changes nothing in it.
proof fn lemma_filter_push(queue: Seq<ThreadData>, key: usize, ops: Seq<FilterOp>, op: FilterOp)
    requires
        ops.len() >= waiting(queue, key).len(),
    ensures
        filter_kept(queue, key, ops.push(op)) == filter_kept(queue, key, ops),
    decreases queue.len(),
{
    if queue.len() > 0 {
        let before = queue.drop_last();
        lemma_waiting_push(before, queue.last(), key);
        assert(queue =~= before.push(queue.last()));
        lemma_filter_push(before, key, ops, op);
        let rank = waiting(before, key).len() as int;
        if queue.last().key == key {
            assert(ops.push(op)[rank] == ops[rank]);
        }
    }
}

/// One step of a filtered walk through the queue.
proof fn lemma_filter_step(queue: Seq<ThreadData>, key: usize, ops: Seq<FilterOp>, i: int)
    requires
        0 <= i < queue.len(),
    ensures
        filter_kept(queue.take(i + 1), key, ops) == if queue[i].key == key && filter_chosen(
            ops,
            waiting(queue.take(i), key).len() as int,
        ) {
            filter_kept(queue.take(i), key, ops)
        } else {
            filter_kept(queue.take(i), key, ops).push(queue[i])
        },
{
    assert(queue.take(i + 1).drop_last() =~= queue.take(i));
}

/// Threads for which no answer was given stay in the queue.
proof fn lemma_filter_tail(queue: Seq<ThreadData>, key: usize, ops: Seq<FilterOp>, i: int)
    requires
        0 <= i <= queue.len(),
        forall|r: int| waiting(queue.take(i), key).len() <= r ==> !filter_chosen(ops, r),
    ensures
        filter_kept(queue, key, ops) == filter_kept(queue.take(i), key, ops) + queue.skip(i),
    decreases queue.len() - i,
{
    if i == queue.len() {
        assert(queue.take(i) =~= queue);
        assert(queue.skip(i) =~= Seq::empty());
    } else {
        lemma_waiting_step(queue, key, i);
        lemma_filter_step(queue, key, ops, i);
        lemma_filter_tail(queue, key, ops, i + 1);
        let kept = filter_kept(queue.take(i), key, ops);
        assert(kept.push(queue[i]) + queue.skip(i + 1) =~= kept + queue.skip(i));
    }
}

/// One more answer adds the thread to those woken up if it says so.
proof fn lemma_woken_push(found: Seq<ThreadData>, ops: Seq<FilterOp>, op: FilterOp)
    ensures
        filter_woken(found, ops.push(op)) == if op is Unpark {
            filter_woken(found, ops).push(found[ops.len() as int].thread)
        } else {
            filter_woken(found, ops)
        },
{
    assert(ops.push(op).drop_last() =~= ops);
}

/// A queue of parked threads, oldest first.
pub struct Bucket {
    queue: Vec<ThreadData>,
}

impl View for Bucket {
    type V = Seq<ThreadData>;

    closed spec fn view(&self) -> Seq<ThreadData> {
        self.queue@
    }
}

impl Bucket {
    /// An empty bucket.
    pub fn new() -> (r: Bucket)
        ensures
            r@ == Seq::<ThreadData>::empty(),
    {
        Bucket { queue: Vec::new() }
    }

    /// Whether no thread is parked in the bucket.
    pub fn is_empty(&self) -> (r: bool)
        ensures
            r == (self@.len() == 0),
    {
        self.queue.len() == 0
    }

    /// The number of threads parked in the bucket.
    pub fn len(&self) -> (r: usize)
        ensures
            r == self@.len(),
    {
        self.queue.len()
    }

    /// The thread at the given place in the queue.
    pub fn get(&self, i: usize) -> (r: &ThreadData)
        requires
            i < self@.len(),
        ensures
            *r == self@[i as int],
    {
        &self.queue[i]
    }

    /// Notes of all threads which are in one of some cycles that they were reported as part of a
    /// deadlock.
    pub fn mark_reported(&mut self, cycles: &Vec<Vec<usize>>)
        ensures
            final(self)@ == marked(old(self)@, contents(cycles@)),
    {
        let ghost queue = self@;
        let mut current: usize = 0;
        while current < self.queue.len()
            invariant
                queue == old(self)@,
                self@ == self.queue@,
                current <= self@.len(),
                self@.len() == queue.len(),
                forall|j: int|
                    0 <= j < current ==> self@[j] == marked(queue, contents(cycles@))[j],
                forall|j: int| current <= j < queue.len() ==> self@[j] == queue[j],
            decreases self@.len() - current,
        {
            if is_in_cycles(cycles, self.queue[current].thread) {
                self.queue[current].deadlock_data.deadlocked = true;
                assert(self@[current as int] == reported(queue[current as int]));
            }
            current += 1;
        }
        assert(self@ =~= marked(queue, contents(cycles@)));
    }

    /// Where the first entry of a thread stands.
    fn find_thread(&self, thread: usize) -> (r: Option<usize>)
        ensures
            match r {
                Some(i) => i == thread_position(self@, thread, 0) && i < self@.len(),
                None => thread_position(self@, thread, 0) == self@.len(),
            },
    {
        proof {
            lemma_thread_position(self@, thread, 0);
        }
        let ghost at = thread_position(self@, thread, 0);
        let mut current: usize = 0;
        while current < self.queue.len()
            invariant
                self@ == self.queue@,
                current <= at <= self@.len(),
                at < self@.len() ==> self@[at].thread == thread,
                forall|j: int| 0 <= j < at ==> self@[j].thread != thread,
                at == thread_position(self@, thread, 0),
            decreases self@.len() - current,
        {
            if self.queue[current].thread == thread {
                return Some(current);
            }
            current += 1;
        }
        None
    }

    /// Acquires a resource for a thread that is in the queue, but does not sleep yet. Returns
    /// whether it is in this queue.
    pub fn acquire_resource(&mut self, thread: usize, key: usize) -> (r: bool)
        ensures
            ({
                let i = thread_position(old(self)@, thread, 0);
                &&& r == (i < old(self)@.len())
                &&& final(self)@.len() == old(self)@.len()
                &&& forall|j: int|
                    0 <= j < old(self)@.len() && j != i ==> final(self)@[j] == old(self)@[j]
                &&& r ==> same_but_resources(
                    old(self)@[i],
                    final(self)@[i],
                    old(self)@[i].deadlock_data.resources@.push(key),
                )
            }),
    {
        match self.find_thread(thread) {
            Some(i) => {
                self.queue[i].deadlock_data.acquire_resource(key);
                true
            },
            None => false,
        }
    }

    /// Releases a resource of a thread that is in the queue, but does not sleep yet. Returns
    /// `None` if it is not in this queue, and otherwise whether it owned the resource.
    pub fn release_resource(&mut self, thread: usize, key: usize) -> (r: Option<bool>)
        ensures
            ({
                let i = thread_position(old(self)@, thread, 0);
                &&& r == if i < old(self)@.len() {
                    Some(old(self)@[i].deadlock_data.resources@.contains(key))
                } else {
                    None
                }
                &&& final(self)@.len() == old(self)@.len()
                &&& forall|j: int|
                    0 <= j < old(self)@.len() && j != i ==> final(self)@[j] == old(self)@[j]
                &&& i < old(self)@.len() ==> same_but_resources(
                    old(self)@[i],
                    final(self)@[i],
                    released(old(self)@[i].deadlock_data.resources@, key),
                )
            }),
    {
        match self.find_thread(thread) {
            Some(i) => {
                proof {
                    let owned = self.queue@[i as int].deadlock_data.resources@;
                    lemma_last_position(owned, key, owned.len() as int);
                }
                let owns = self.queue[i].deadlock_data.owns(key);
                if owns {
                    self.queue[i].deadlock_data.release_resource(key);
                }
                Some(owns)
            },
            None => None,
        }
    }

    /// Takes out the oldest thread.
    pub(crate) fn pop_first(&mut self) -> (r: ThreadData)
        requires
            old(self)@.len() > 0,
        ensures
            r == old(self)@[0],
            final(self)@ == old(self)@.drop_first(),
    {
        let r = self.queue.remove(0);
        assert(self@ =~= old(self)@.drop_first());
        r
    }

    /// Adds a thread as the youngest.
    pub(crate) fn append(&mut self, thread_data: ThreadData)
        ensures
            final(self)@ == old(self)@.push(thread_data),
    {
        self.queue.push(thread_data);
    }

    /// Whether a thread at or after `from` waits on `key`.
    fn any_waiting(&self, key: usize, from: usize) -> (r: bool)
        requires
            from <= self@.len(),
        ensures
            r == (waiting(self@.skip(from as int), key).len() > 0),
    {
        let ghost rest = self@.skip(from as int);
        let mut scan: usize = from;
        while scan < self.queue.len()
            invariant
                from <= scan <= self@.len(),
                self@ == self.queue@,
                rest == self@.skip(from as int),
                forall|j: int| from <= j < scan ==> self@[j].key != key,
            decreases self@.len() - scan,
        {
            if self.queue[scan].key == key {
                proof {
                    assert(rest[scan - from] == self@[scan as int]);
                    lemma_waiting_some(rest, key, scan - from);
                }
                return true;
            }
            scan += 1;
        }
        proof {
            lemma_waiting_none(rest, key);
        }
        false
    }

    /// Where the first thread stands that waits on `key`.
    fn find(&self, key: usize) -> (r: Option<usize>)
        ensures
            match r {
                Some(i) => {
                    &&& i < self@.len()
                    &&& self@[i as int].key == key
                    &&& forall|j: int| 0 <= j < i ==> self@[j].key != key
                },
                None => forall|j: int| 0 <= j < self@.len() ==> self@[j].key != key,
            },
    {
        let mut current: usize = 0;
        while current < self.queue.len()
            invariant
                current <= self@.len(),
                self@ == self.queue@,
                forall|j: int| 0 <= j < current ==> self@[j].key != key,
            decreases self@.len() - current,
        {
            if self.queue[current].key == key {
                return Some(current);
            }
            current += 1;
        }
        None
    }

    /// Unparks one thread from the queue associated with the given key.
    ///
    /// The `callback` function is told whether a thread was found and whether it was the last
    /// one. The token it returns is passed to the thread that is unparked; if no thread is
    /// unparked then it is ignored.
    ///
    /// Returns the same result, and the thread to wake up once the bucket is unlocked.
    pub fn unpark_one<F>(&mut self, key: usize, callback: F) -> (r: Unparked)
        where F: FnOnce(UnparkResult) -> UnparkToken
        requires
            call_requires(callback, (unpark_one_result(old(self)@, key),)),
        ensures
            r.result == unpark_one_result(old(self)@, key),
            final(self)@ == without_first(old(self)@, key),
            r.result.have_more_threads <==> waiting(final(self)@, key).len() > 0,
            r.result.unparked_threads + waiting(final(self)@, key).len() == waiting(
                old(self)@,
                key,
            ).len(),
            r.result.unparked_threads == 1 <==> r.wake is Some,
            r.result.requeued_threads == 0,
            exists|token: UnparkToken| #[trigger]
                call_ensures(callback, (r.result,), token) && r.wake == (if waiting(old(self)@, key).len() == 0 {
                    None
                } else {
                    Some(Wake { thread: waiting(old(self)@, key)[0].thread, token })
                }),
    {
        proof {
            law_unpark_one_reports_rest(self@, key);
        }
        match self.find(key) {
            Some(current) => {
                proof {
                    lemma_first_waiting(self@, key, current as int);
                    assert(self@.remove(current as int).skip(current as int) =~= self@.skip(
                        current + 1,
                    ));
                }
                // Remove the thread from the queue
                let thread_data = self.queue.remove(current);
                // Scan the rest of the queue to see if there are any other
                // entries with the given key.
                let have_more_threads = self.any_waiting(key, current);
                // Invoke the callback before waking up the thread
                let result = UnparkResult {
                    unparked_threads: 1,
                    requeued_threads: 0,
                    have_more_threads,
                };
                let token = callback(result);
                assert(waiting(old(self)@, key)[0] == thread_data);
                let r = Unparked { result, wake: Some(Wake { thread: thread_data.thread, token }) };
                assert(call_ensures(callback, (r.result,), token));
                r
            },
            None => {
                proof {
                    lemma_waiting_none(self@, key);
                }
                // No threads with a matching key were found in the bucket
                let result = UnparkResult::default();
                let token = callback(result);
                let r = Unparked { result, wake: None };
                assert(call_ensures(callback, (r.result,), token));
                r
            },
        }
    }

    /// Appends a thread to the queue associated with the given key, unless `validate` returns
    /// false.
    ///
    /// Returns `None` if the thread is in the queue now: it is to unlock the bucket and go to
    /// sleep. Otherwise the parking has failed with the result that is returned.
    pub fn park<V>(
        &mut self,
        thread_data: ThreadData,
        key: usize,
        validate: V,
        park_token: ParkToken,
        with_timeout: bool,
    ) -> (r: Option<ParkResult>)
        where V: FnOnce() -> bool
        requires
            call_requires(validate, ()),
        ensures
            r is None || r == Some(ParkResult::Invalid),
            call_ensures(validate, (), r is None),
            final(self)@ == if r is None {
                old(self)@.push(
                    ThreadData { key, park_token, parked_with_timeout: with_timeout, ..thread_data },
                )
            } else {
                old(self)@
            },
    {
        // If the validation function fails, just return
        if !validate() {
            return Some(ParkResult::Invalid);
        }
        // Append our thread data to the queue
        let mut thread_data = thread_data;
        thread_data.parked_with_timeout = with_timeout;
        thread_data.key = key;
        thread_data.park_token = park_token;
        self.queue.push(thread_data);
        None
    }

    /// Finishes the parking of a thread whose sleep has ended by its timeout.
    ///
    /// `still_parked` tells whether nobody has unparked the thread in the meantime, `token` is
    /// what it was handed if somebody has. If the thread did time out then it leaves the queue
    /// and `timed_out` is passed the key of the queue it was in, and whether it was the last
    /// thread in it.
    pub fn park_timed_out<T>(
        &mut self,
        thread: usize,
        key: usize,
        still_parked: bool,
        token: UnparkToken,
        timed_out: T,
    ) -> (r: ParkResult)
        where T: FnOnce(usize, bool)
        requires
            still_parked ==> {
                let i = thread_position(old(self)@, thread, 0);
                &&& i < old(self)@.len()
                &&& old(self)@[i].key == key
                &&& call_requires(timed_out, (key, waiting(old(self)@, key).len() == 1))
            },
        ensures
            !still_parked ==> final(self)@ == old(self)@ && r == ParkResult::Unparked(token),
            still_parked ==> {
                &&& final(self)@ == old(self)@.remove(thread_position(old(self)@, thread, 0))
                &&& call_ensures(timed_out, (key, waiting(old(self)@, key).len() == 1), ())
                &&& r == ParkResult::TimedOut
            },
    {
        // Now we need to check again if we were unparked or timed out. Unlike the
        // last check this is precise because we hold the bucket lock.
        if !still_parked {
            return ParkResult::Unparked(token);
        }
        // We timed out, so we now need to remove our thread from the queue
        let ghost i = thread_position(self@, thread, 0);
        proof {
            lemma_thread_position(self@, thread, 0);
        }
        let mut was_last_thread = true;
        let mut current: usize = 0;
        while self.queue[current].thread != thread
            invariant
                self@ == old(self)@,
                self@ == self.queue@,
                current <= i < self.queue.len(),
                self@[i].thread == thread,
                forall|j: int| 0 <= j < i ==> self@[j].thread != thread,
                was_last_thread == (forall|j: int| 0 <= j < current ==> self@[j].key != key),
            decreases i - current,
        {
            if self.queue[current].key == key {
                was_last_thread = false;
            }
            current += 1;
        }
        proof {
            lemma_waiting_count(self@, key, i);
            if was_last_thread {
                lemma_waiting_none(self@.take(i), key);
            } else {
                let j = choose|j: int| 0 <= j < current && self@[j].key == key;
                assert(self@.take(i)[j].key == key);
                lemma_waiting_some(self@.take(i), key, j);
            }
        }
        self.queue.remove(current);
        assert(self@.skip(i) =~= old(self)@.skip(i + 1));
        // Scan the rest of the queue to see if there are any other
        // entries with the given key.
        if self.any_waiting(key, current) {
            was_last_thread = false;
        }
        // Callback to indicate that we timed out, and whether we were the
        // last thread on the queue.
        timed_out(key, was_last_thread);
        ParkResult::TimedOut
    }

    /// Unparks all threads in the queue associated with the given key.
    ///
    /// The given `UnparkToken` is passed to all unparked threads, which are to be woken up once
    /// the bucket is unlocked.
    pub fn unpark_all(&mut self, key: usize, unpark_token: UnparkToken) -> (r: AllUnparked)
        requires
            old(self)@.len() <= usize::MAX / 32,
        ensures
            r.threads@ == threads(waiting(old(self)@, key)),
            r.token == unpark_token,
            final(self)@ == others(old(self)@, key),
    {
        let mut list = ThreadList::new();
        let mut current: usize = 0;
        let ghost queue = self@;
        let ghost mut seen: int = 0;
        proof {
            lemma_waiting_empty(key);
            assert(queue.take(0) =~= Seq::empty());
            assert(queue.skip(0) =~= queue);
            assert(Seq::<ThreadData>::empty() + queue =~= queue);
            assert(threads(Seq::empty()) =~= Seq::empty());
        }
        while current < self.queue.len()
            invariant
                queue == old(self)@,
                queue.len() <= usize::MAX / 32,
                0 <= seen <= queue.len(),
                self@ == self.queue@,
                self@ == others(queue.take(seen), key) + queue.skip(seen),
                current == others(queue.take(seen), key).len(),
                listed(list) == threads(waiting(queue.take(seen), key)),
            decreases self@.len() - current,
        {
            proof {
                lemma_waiting_step(queue, key, seen);
            }
            if self.queue[current].key == key {
                // Remove the thread from the queue
                let thread_data = self.queue.remove(current);
                // Don't wake up threads while holding the queue lock. For now just
                // record which threads we need to wake up.
                list.push(thread_data.thread);
            } else {
                current += 1;
            }
            proof {
                seen = seen + 1;
            }
        }
        proof {
            assert(queue.take(queue.len() as int) =~= queue);
            assert(queue.skip(queue.len() as int) =~= Seq::empty());
        }
        AllUnparked { threads: list.into_vec(), token: unpark_token }
    }

    /// Takes the threads out of the queue associated with `key_from` that `op` asks for: the
    /// one to wake up, if any, and those to put into another queue, which wait on `key_to` now.
    fn extract(&mut self, key_from: usize, key_to: usize, op: RequeueOp) -> (r: Extracted)
        requires
            !(op is Abort),
        ensures
            final(self)@ == requeue_left(old(self)@, key_from, op),
            r.requeued@ == requeue_moved(old(self)@, key_from, key_to, op),
            r.woken == requeue_woken(old(self)@, key_from, op),
            r.result == requeue_result(old(self)@, key_from, op),
    {
        let ghost queue = self@;
        let wakes = matches!(op, RequeueOp::UnparkOneRequeueRest | RequeueOp::UnparkOne);
        let takes_one = matches!(op, RequeueOp::UnparkOne | RequeueOp::RequeueOne);
        let mut result = UnparkResult::default();
        let mut requeued: Vec<ThreadData> = Vec::new();
        let mut woken: Option<usize> = None;
        if takes_one {
            match self.find(key_from) {
                Some(current) => {
                    proof {
                        lemma_first_waiting(queue, key_from, current as int);
                        assert(queue.remove(current as int).skip(current as int) =~= queue.skip(
                            current + 1,
                        ));
                    }
                    let mut thread_data = self.queue.remove(current);
                    assert(waiting(queue, key_from).take(1) =~= seq![thread_data]);
                    if wakes {
                        woken = Some(thread_data.thread);
                        result.unparked_threads = 1;
                    } else {
                        thread_data.key = key_to;
                        requeued.push(thread_data);
                        result.requeued_threads = 1;
                    }
                    // Scan the rest of the queue to see if there are any other
                    // entries with the given key.
                    result.have_more_threads = self.any_waiting(key_from, current);
                    assert(requeued@ =~= requeue_moved(queue, key_from, key_to, op));
                },
                None => {
                    proof {
                        lemma_waiting_none(queue, key_from);
                        assert(requeued@ =~= requeue_moved(queue, key_from, key_to, op));
                    }
                },
            }
            return Extracted { woken, requeued, result };
        }
        let mut current: usize = 0;
        let ghost mut seen: int = 0;
        proof {
            lemma_waiting_empty(key_from);
            assert(queue.take(0) =~= Seq::empty());
            assert(queue.skip(0) =~= queue);
            assert(Seq::<ThreadData>::empty() + queue =~= queue);
            assert(requeued@ =~= moved(Seq::empty(), wakes, key_to));
        }
        while current < self.queue.len()
            invariant
                queue == old(self)@,
                wakes == op.wakes(),
                0 <= seen <= queue.len(),
                self@ == self.queue@,
                self@ == others(queue.take(seen), key_from) + queue.skip(seen),
                current == others(queue.take(seen), key_from).len(),
                requeued@ == moved(waiting(queue.take(seen), key_from), wakes, key_to),
                woken == first_woken(waiting(queue.take(seen), key_from), wakes),
                result.unparked_threads == if woken is Some { 1int } else { 0int },
                result.requeued_threads == requeued@.len(),
                !result.have_more_threads,
            decreases self@.len() - current,
        {
            proof {
                lemma_waiting_step(queue, key_from, seen);
            }
            let ghost before = waiting(queue.take(seen), key_from);
            if self.queue[current].key == key_from {
                // Remove the thread from the queue
                let mut thread_data = self.queue.remove(current);
                assert(thread_data == queue[seen]);
                // Prepare the first thread for wakeup and requeue the rest.
                if wakes && woken.is_none() {
                    woken = Some(thread_data.thread);
                    result.unparked_threads = 1;
                    assert(requeued@ =~= moved(before.push(queue[seen]), wakes, key_to));
                } else {
                    thread_data.key = key_to;
                    requeued.push(thread_data);
                    assert(requeued@ =~= moved(before.push(queue[seen]), wakes, key_to));
                    result.requeued_threads = requeued.len();
                }
            } else {
                current += 1;
            }
            proof {
                seen = seen + 1;
            }
        }
        proof {
            assert(queue.take(queue.len() as int) =~= queue);
            assert(queue.skip(queue.len() as int) =~= Seq::empty());
        }
        Extracted { woken, requeued, result }
    }

    /// Removes threads from the queue associated with `key_from`, optionally unparks the first
    /// one and requeues the rest onto the queue associated with `key_to`. See [`RequeueOp`] for
    /// what the operations do that `validate` can ask for.
    ///
    /// The queue of `key_to` is in the bucket `to`, or in this bucket if `to` is `None`.
    ///
    /// The `callback` function is passed the operation and its result, unless the operation
    /// was aborted. The token it returns is passed to the thread that is unparked; if no
    /// thread is unparked then it is ignored.
    pub fn unpark_requeue<V, C>(
        &mut self,
        to: Option<&mut Bucket>,
        key_from: usize,
        key_to: usize,
        validate: V,
        callback: C,
    ) -> (r: Unparked)
        where V: FnOnce() -> RequeueOp, C: FnOnce(RequeueOp, UnparkResult) -> UnparkToken
        requires
            call_requires(validate, ()),
            forall|op: RequeueOp| #[trigger]
                call_ensures(validate, (), op) && !(op is Abort) ==> call_requires(
                    callback,
                    (op, requeue_result(old(self)@, key_from, op)),
                ),
        ensures
            exists|op: RequeueOp| #[trigger]
                call_ensures(validate, (), op) && {
                    let queue = old(self)@;
                    let left = requeue_left(queue, key_from, op);
                    let moved = requeue_moved(queue, key_from, key_to, op);
                    let woken = requeue_woken(queue, key_from, op);
                    &&& r.result == requeue_result(queue, key_from, op)
                    &&& match to {
                        Some(bucket) => final(self)@ == left && final(bucket)@ == bucket@
                            + moved,
                        None => final(self)@ == left + moved,
                    }
                    &&& if op is Abort {
                        r.wake is None
                    } else {
                        exists|token: UnparkToken| #[trigger]
                            call_ensures(callback, (op, r.result), token) && r.wake == (match woken {
                                Some(thread) => Some(Wake { thread, token }),
                                None => None,
                            })
                    }
                },
            r.result.unparked_threads == if r.wake is Some { 1int } else { 0int },
            r.wake matches Some(wake) ==> waiting(old(self)@, key_from).len() > 0 && wake.thread
                == waiting(old(self)@, key_from)[0].thread,
            match to {
                Some(bucket) => {
                    &&& r.result.have_more_threads <==> waiting(final(self)@, key_from).len() > 0
                    &&& r.result.unparked_threads + r.result.requeued_threads + waiting(
                        final(self)@,
                        key_from,
                    ).len() == waiting(old(self)@, key_from).len()
                    &&& follow_in_order(
                        bucket@,
                        final(bucket)@,
                        waiting(old(self)@, key_from),
                        r.result,
                        key_to,
                    )
                },
                None => {
                    &&& final(self)@.len() + r.result.unparked_threads == old(self)@.len()
                    &&& follow_in_order(
                        final(self)@.take(final(self)@.len() - r.result.requeued_threads),
                        final(self)@,
                        waiting(old(self)@, key_from),
                        r.result,
                        key_to,
                    )
                },
            },
    {
        // If the validation function fails, just return
        let op = validate();
        let ghost queue = self@;
        assert(queue.len() == self.queue.len());
        proof {
            queue.lemma_filter_len(|t: ThreadData| t.key == key_from);
            law_requeue_keeps_order(queue, key_from, key_to, op);
            law_requeue_does_what_is_asked(queue, key_from, key_to, op);
            law_requeue_reports_rest(queue, key_from, key_to, op);
            lemma_requeue_lengths(queue, key_from, op);
        }
        if matches!(op, RequeueOp::Abort) {
            assert(self@.skip(0) =~= self@);
            let result = UnparkResult {
                unparked_threads: 0,
                requeued_threads: 0,
                have_more_threads: self.any_waiting(key_from, 0),
            };
            return Unparked { result, wake: None };
        }
        // Remove all threads with the given key in the source bucket
        let mut extracted = self.extract(key_from, key_to, op);
        // Add the requeued threads to the destination bucket
        match to {
            Some(bucket) => {
                bucket.queue.append(&mut extracted.requeued);
            },
            None => {
                self.queue.append(&mut extracted.requeued);
            },
        }
        // Invoke the callback before waking up the thread
        let result = extracted.result;
        let token = callback(op, result);
        let r = Unparked {
            result,
            wake: match extracted.woken {
                Some(thread) => Some(Wake { thread, token }),
                None => None,
            },
        };
        assert(call_ensures(callback, (op, r.result), token));
        r
    }

    /// Unparks a number of threads from the front of the queue associated with
    /// `key` depending on the results of a filter function which inspects the
    /// `ParkToken` associated with each thread.
    ///
    /// The `filter` function is called for each thread in the queue or until
    /// `FilterOp::Stop` is returned. This function is passed the `ParkToken`
    /// associated with a particular thread, which is unparked if `FilterOp::Unpark`
    /// is returned.
    ///
    /// The `callback` function is passed the result, which tells the number of threads that
    /// were unparked and whether there are still parked threads in the queue. The token it
    /// returns is passed to all threads that are unparked.
    pub fn unpark_filter<F, C>(&mut self, key: usize, filter: F, callback: C) -> (r: Filtered)
        where F: FnMut(ParkToken) -> FilterOp, C: FnOnce(UnparkResult) -> UnparkToken
        requires
            old(self)@.len() <= usize::MAX / 32,
            forall|i: int|
                0 <= i < waiting(old(self)@, key).len() ==> call_requires(
                    filter,
                    ((#[trigger] waiting(old(self)@, key)[i]).park_token,),
                ),
            forall|ops: Seq<FilterOp>| #[trigger]
                filter_scan(waiting(old(self)@, key), ops) && (forall|i: int|
                    0 <= i < ops.len() ==> call_ensures(
                        filter,
                        (waiting(old(self)@, key)[i].park_token,),
                        #[trigger] ops[i],
                    )) ==> call_requires(
                    callback,
                    (filter_result(waiting(old(self)@, key), ops),),
                ),
        ensures
            exists|ops: Seq<FilterOp>| #[trigger]
                filter_scan(waiting(old(self)@, key), ops) && {
                    let found = waiting(old(self)@, key);
                    &&& forall|i: int|
                        0 <= i < ops.len() ==> call_ensures(
                            filter,
                            (found[i].park_token,),
                            #[trigger] ops[i],
                        )
                    &&& final(self)@ == filter_kept(old(self)@, key, ops)
                    &&& r.threads@ == filter_woken(found, ops)
                    &&& r.result == filter_result(found, ops)
                },
            call_ensures(callback, (r.result,), r.token),
            r.result.have_more_threads <==> waiting(final(self)@, key).len() > 0,
            r.result.unparked_threads + waiting(final(self)@, key).len() == waiting(
                old(self)@,
                key,
            ).len(),
            r.result.unparked_threads == r.threads@.len(),
            r.result.requeued_threads == 0,
    {
        let mut filter = filter;
        let ghost asked = filter;
        let mut list = ThreadList::new();
        let mut have_more_threads = false;
        let mut current: usize = 0;
        let mut stopped = false;
        let ghost queue = self@;
        let ghost found = waiting(queue, key);
        let ghost mut seen: int = 0;
        let ghost mut ops: Seq<FilterOp> = Seq::empty();
        proof {
            lemma_waiting_empty(key);
            assert(queue.take(0) =~= Seq::empty());
            assert(queue.skip(0) =~= queue);
            assert(Seq::<ThreadData>::empty() + queue =~= queue);
        }
        while current < self.queue.len() && !stopped
            invariant
                queue == old(self)@,
                found == waiting(queue, key),
                filter == asked,
                queue.len() <= usize::MAX / 32,
                forall|i: int|
                    0 <= i < found.len() ==> call_requires(
                        filter,
                        ((#[trigger] found[i]).park_token,),
                    ),
                forall|i: int|
                    0 <= i < ops.len() ==> call_ensures(
                        filter,
                        (found[i].park_token,),
                        #[trigger] ops[i],
                    ),
                0 <= seen <= queue.len(),
                self@ == self.queue@,
                !stopped ==> {
                    &&& self@ == filter_kept(queue.take(seen), key, ops) + queue.skip(seen)
                    &&& current == filter_kept(queue.take(seen), key, ops).len()
                    &&& ops.len() == waiting(queue.take(seen), key).len()
                    &&& forall|i: int| 0 <= i < ops.len() ==> !(#[trigger] ops[i] is Stop)
                },
                stopped ==> self@ == filter_kept(queue, key, ops) && filter_scan(found, ops),
                ops.len() <= found.len(),
                listed(list) == filter_woken(found, ops),
                listed(list).len() <= ops.len(),
                have_more_threads == exists|i: int|
                    0 <= i < ops.len() && !(#[trigger] ops[i] is Unpark),
            decreases self@.len() - current, (if stopped { 0int } else { 1int }),
        {
            let ghost before = ops;
            proof {
                lemma_waiting_step(queue, key, seen);
                lemma_waiting_prefix(queue, key, seen);
                found.lemma_filter_len(|t: ThreadData| t.key == key);
            }
            if self.queue[current].key == key {
                assert(self.queue@[current as int] == queue[seen]);
                assert(found[before.len() as int] == queue[seen]);
                // Call the filter function with the thread's ParkToken
                let op = filter(self.queue[current].park_token);
                proof {
                    ops = before.push(op);
                    lemma_filter_push(queue.take(seen), key, before, op);
                    lemma_filter_step(queue, key, ops, seen);
                    lemma_woken_push(found, before, op);
                    assert(ops[before.len() as int] == op);
                    assert(forall|i: int| 0 <= i < before.len() ==> ops[i] == before[i]);
                }
                match op {
                    FilterOp::Unpark => {
                        // Remove the thread from the queue
                        let thread_data = self.queue.remove(current);
                        // Add the thread to our list of threads to unpark
                        list.push(thread_data.thread);
                    },
                    FilterOp::Skip => {
                        have_more_threads = true;
                        current += 1;
                    },
                    FilterOp::Stop => {
                        have_more_threads = true;
                        stopped = true;
                        proof {
                            lemma_filter_tail(queue, key, ops, seen);
                        }
                    },
                }
            } else {
                proof {
                    lemma_filter_step(queue, key, ops, seen);
                }
                current += 1;
            }
            proof {
                seen = seen + 1;
            }
        }
        proof {
            assert(queue.take(queue.len() as int) =~= queue);
            assert(queue.skip(queue.len() as int) =~= Seq::empty());
        }
        assert(filter_scan(found, ops));
        // Invoke the callback before waking up the threads
        let result = UnparkResult {
            unparked_threads: list.len(),
            requeued_threads: 0,
            have_more_threads,
        };
        assert(result == filter_result(found, ops));
        proof {
            queue.lemma_filter_len(|t: ThreadData| t.key == key);
            law_filter_reports_rest(queue, key, ops);
        }
        let token = callback(result);
        let r = Filtered { result, threads: list.into_vec(), token };
        assert(call_ensures(callback, (r.result,), r.token));
        r
    }
}

/// What [`Bucket::unpark_requeue`] took out of a queue.
struct Extracted {
    woken: Option<usize>,
    requeued: Vec<ThreadData>,
    result: UnparkResult,
}

} // verus!
