//! What checks for deadlocks report, one after the other, whatever is done to the parking lot in
//! between.

use crate::deadlock::cycles::{found_cycles, is_in, Visit};
use crate::deadlock::laws::{
    is_check, is_deadlock, law_no_cycle_reported_twice, law_reports_iff_deadlocked, next_in,
    waits_for_at, waits_for_next,
};
use crate::deadlock::resources::DeadlockData;
use crate::lot::bucket::{
    is_marked, marked, same_but_noted, same_but_resources, same_queue, ThreadData,
};
use crate::lot::hash_table::{all_parked, lemma_hash_in_range, HashTable};
use crate::lot::laws::{entries_of, home};
use crate::lot::system::{
    is_marked_in, law_empty_lot_is_wf, law_marks_are_gathered, law_marks_last, law_moves_keep_lot,
    law_nobody_is_elsewhere, lemma_entries_some, lemma_total_covers, queues, total, Lot, LotMove,
};
use vstd::prelude::*;

verus! {

/// The parking lot, and the threads that were reported as part of a deadlock.
pub struct Watch {
    /// The parking lot.
    pub lot: Lot,
    /// The threads that bear the note that they were reported. It stays with a thread for good,
    /// whether it is in a queue or not.
    pub reported: Set<usize>,
}

/// Something that happens between checks, with the buckets locked.
pub enum Event {
    /// The parking lot is used.
    Move(LotMove),
    /// A thread of some cycles is reported, and what is in the bucket of the key that it waits on
    /// is marked.
    Report(usize, usize, Seq<Seq<usize>>),
}

impl Watch {
    /// Whether everything is in order in the parking lot, and every thread that was reported
    /// bears the note wherever it is parked.
    pub open spec fn wf(self) -> bool {
        &&& self.lot.wf()
        &&& forall|thread: usize| #[trigger]
            self.reported.contains(thread) ==> is_marked_in(self.lot.table, thread)
    }

    /// All threads that are parked.
    pub open spec fn parked(self) -> Seq<ThreadData> {
        all_parked(self.lot.table.entries@)
    }

    /// Whether `next` is what is left when something has happened.
    pub open spec fn happens(self, next: Watch, what: Event) -> bool {
        match what {
            Event::Move(what) => {
                &&& self.lot.moves(next.lot, what)
                &&& next.reported == self.reported
                &&& what matches LotMove::Park(t) ==> self.reported.contains(t.thread)
                    ==> t.deadlock_data.deadlocked
            },
            Event::Report(thread, key, cycles) => {
                &&& is_in(cycles, thread)
                &&& self.lot.parked.contains(thread) ==> entries_of(self.lot.bucket(key), thread)
                    > 0
                &&& self.lot.becomes(
                    next.lot,
                    key,
                    marked(self.lot.bucket(key), cycles),
                    self.lot.parked,
                )
                &&& next.reported == self.reported.insert(thread)
            },
        }
    }
}

/// Whether each event leads from one state to the next.
pub open spec fn is_history(history: Seq<Watch>, events: Seq<Event>) -> bool {
    &&& history.len() == events.len() + 1
    &&& forall|i: int|
        0 <= i < events.len() ==> history[i].happens(history[i + 1], #[trigger] events[i])
}

/// Nobody was reported in a lot where nobody has been parked.
pub proof fn law_history_begins(table: HashTable)
    requires
        table.wf(),
        forall|b: int|
            0 <= b < table.entries@.len() ==> (#[trigger] table.entries@[b])@ == Seq::<
                ThreadData,
            >::empty(),
    ensures
        (Watch { lot: Lot { table, parked: Set::empty() }, reported: Set::empty() }).wf(),
{
    law_empty_lot_is_wf(table);
}

/// Marking threads is noting something of them.
pub proof fn law_marking_notes(queue: Seq<ThreadData>, cycles: Seq<Seq<usize>>)
    ensures
        same_queue(queue, marked(queue, cycles)),
{
    assert forall|i: int| 0 <= i < queue.len() implies same_but_noted(
        queue[i],
        #[trigger] marked(queue, cycles)[i],
    ) by {}
}

/// A thread that acquires or releases something has that noted of it.
pub proof fn law_owning_notes(before: ThreadData, after: ThreadData, resources: Seq<usize>)
    requires
        same_but_resources(before, after, resources),
    ensures
        same_but_noted(before, after),
        after.thread == before.thread,
        after.key == before.key,
        after.park_token == before.park_token,
        after.parked_with_timeout == before.parked_with_timeout,
        after.deadlock_data.deadlocked == before.deadlock_data.deadlocked,
        after.deadlock_data.resources@ == resources,
{
}

/// A thread that is reported bears the note wherever it is parked.
proof fn lemma_report_marks(
    watch: Watch,
    next: Watch,
    thread: usize,
    key: usize,
    cycles: Seq<Seq<usize>>,
)
    requires
        watch.wf(),
        watch.happens(next, Event::Report(thread, key, cycles)),
    ensures
        is_marked_in(next.lot.table, thread),
{
    let lot = watch.lot;
    let h = home(lot.table, key);
    lemma_hash_in_range(key, lot.table.hash_bits);
    assert forall|b: int| 0 <= b < next.lot.table.entries@.len() implies is_marked(
        (#[trigger] next.lot.table.entries@[b])@,
        thread,
    ) by {
        if b != h {
            let queue = lot.table.entries@[b]@;
            assert(next.lot.table.entries@[b]@ == queue);
            if lot.parked.contains(thread) {
                law_nobody_is_elsewhere(lot, key, thread, b);
            } else {
                assert(total(queues(lot.table), thread) == 0);
                lemma_total_covers(queues(lot.table), b, thread);
            }
            assert forall|i: int|
                0 <= i < queue.len() && (#[trigger] queue[i]).thread == thread implies
                queue[i].deadlock_data.deadlocked by {
                lemma_entries_some(queue, i, thread);
            }
        }
    }
}

/// Whatever happens, every thread that was reported bears the note wherever it is parked.
pub proof fn law_events_keep_watch(watch: Watch, next: Watch, what: Event)
    requires
        watch.wf(),
        watch.happens(next, what),
    ensures
        next.wf(),
        watch.reported.subset_of(next.reported),
{
    match what {
        Event::Move(what) => {
            law_moves_keep_lot(watch.lot, next.lot, what);
            assert forall|thread: usize| #[trigger] next.reported.contains(thread) implies
                is_marked_in(next.lot.table, thread) by {
                assert(watch.reported.contains(thread));
                law_marks_last(watch.lot, next.lot, what, thread);
            }
        },
        Event::Report(reported, key, cycles) => {
            law_marking_notes(watch.lot.bucket(key), cycles);
            let what = LotMove::Note(key);
            assert(watch.lot.moves(next.lot, what));
            law_moves_keep_lot(watch.lot, next.lot, what);
            assert forall|thread: usize| #[trigger] next.reported.contains(thread) implies
                is_marked_in(next.lot.table, thread) by {
                if thread == reported {
                    lemma_report_marks(watch, next, thread, key, cycles);
                } else {
                    assert(watch.reported.contains(thread));
                    law_marks_last(watch.lot, next.lot, what, thread);
                }
            }
        },
    }
}

/// A thread that was reported stays so, and everything stays in order.
pub proof fn law_reported_for_good(history: Seq<Watch>, events: Seq<Event>, i: int, j: int)
    requires
        is_history(history, events),
        history[0].wf(),
        0 <= i <= j < history.len(),
    ensures
        history[j].wf(),
        history[i].reported.subset_of(history[j].reported),
    decreases j,
{
    if j > 0 {
        law_reported_for_good(history, events, if i < j { i } else { i - 1 }, j - 1);
        assert(history[j - 1].happens(history[j], events[j - 1]));
        law_events_keep_watch(history[j - 1], history[j], events[j - 1]);
    }
}

/// Once a cycle is reported it is never reported again: when all threads of some cycles have been
/// reported, none of them is in a cycle that any later check finds, so that no cycle is found
/// again, whatever has happened in between.
pub proof fn law_never_reported_again(
    history: Seq<Watch>,
    events: Seq<Event>,
    i: int,
    j: int,
    cycles: Seq<Seq<usize>>,
    visits: Seq<Visit>,
)
    requires
        is_history(history, events),
        history[0].wf(),
        0 <= i <= j < history.len(),
        forall|thread: usize| #[trigger]
            is_in(cycles, thread) ==> history[i].reported.contains(thread),
        is_check(history[j].parked(), visits),
    ensures
        forall|k: int, thread: usize|
            0 <= k < found_cycles(visits).len() && #[trigger] is_in(cycles, thread) ==> !(
            #[trigger] found_cycles(visits)[k]).contains(thread),
        forall|k: int|
            0 <= k < found_cycles(visits).len() ==> !cycles.contains(
                #[trigger] found_cycles(visits)[k],
            ),
{
    law_reported_for_good(history, events, i, j);
    let watch = history[j];
    assert forall|thread: usize| #[trigger] is_in(cycles, thread) implies is_marked(
        watch.parked(),
        thread,
    ) by {
        assert(history[i].reported.contains(thread));
        assert(watch.reported.contains(thread));
        law_marks_are_gathered(watch.lot.table, thread);
    }
    law_no_cycle_reported_twice(cycles, watch.parked(), visits);
}

/// Parked threads as if nobody had been reported.
pub open spec fn unmarked(parked: Seq<ThreadData>) -> Seq<ThreadData> {
    parked.map_values(
        |t: ThreadData|
            ThreadData {
                deadlock_data: DeadlockData { deadlocked: false, ..t.deadlock_data },
                ..t
            },
    )
}

/// Whether some thread of a cycle was reported.
pub open spec fn was_reported(watch: Watch, cycle: Seq<usize>) -> bool {
    exists|k: int| 0 <= k < cycle.len() && watch.reported.contains(#[trigger] cycle[k])
}

/// A check finds nothing if nothing new has come up: if in every circle of threads that wait for
/// each other there is one that was reported.
pub proof fn law_nothing_new_nothing_found(watch: Watch, visits: Seq<Visit>)
    requires
        watch.wf(),
        is_check(watch.parked(), visits),
        forall|cycle: Seq<usize>| #[trigger]
            is_deadlock(unmarked(watch.parked()), cycle) ==> was_reported(watch, cycle),
    ensures
        found_cycles(visits).len() == 0,
{
    let parked = watch.parked();
    law_reports_iff_deadlocked(parked, visits);
    if found_cycles(visits).len() > 0 {
        let cycle = choose|cycle: Seq<usize>| #[trigger] is_deadlock(parked, cycle);
        assert forall|k: int| 0 <= k < cycle.len() implies #[trigger] waits_for_next(
            unmarked(parked),
            cycle,
            k,
        ) by {
            assert(waits_for_next(parked, cycle, k));
            let (a, b) = choose|a: int, b: int| #[trigger]
                waits_for_at(parked, a, b) && parked[a].thread == cycle[k] && parked[b].thread
                    == cycle[next_in(cycle, k)];
            assert(waits_for_at(unmarked(parked), a, b));
        }
        assert(is_deadlock(unmarked(parked), cycle));
        let k = choose|k: int|
            0 <= k < cycle.len() && watch.reported.contains(#[trigger] cycle[k]);
        law_marks_are_gathered(watch.lot.table, cycle[k]);
        assert(waits_for_next(parked, cycle, k));
        let (a, b) = choose|a: int, b: int| #[trigger]
            waits_for_at(parked, a, b) && parked[a].thread == cycle[k] && parked[b].thread
                == cycle[next_in(cycle, k)];
        assert(!parked[a].deadlock_data.deadlocked);
    }
}

} // verus!
