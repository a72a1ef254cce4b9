//! What callers of a `Once` can rely on, however many there are.

use crate::once::call::{OnceCall, OnceEvent, OnceOp, Phase};
use crate::once::system::{is_holder, law_moves_keep_wf, Move, System};
use crate::once::word::{
    is_done, is_locked, is_parked, is_poisoned, lemma_locked_word, lemma_parked_word, lemma_words,
    locked_word, parked_word, state_of, OnceState, DONE_BIT, POISON_BIT,
};
use vstd::prelude::*;

verus! {

/// Whether systems follow one another, the first one being as it should be.
pub open spec fn is_history(history: Seq<System>) -> bool {
    &&& history.len() > 0
    &&& history[0].wf()
    &&& forall|i: int| 0 < i < history.len() ==> follows(history, i)
}

/// Whether a system in a history comes from the one before it.
pub open spec fn follows(history: Seq<System>, i: int) -> bool {
    history[i - 1].leads_to(history[i])
}

/// No two closures are executed at the same time.
pub proof fn law_one_closure_at_a_time(system: System, a: int, b: int)
    requires
        system.wf(),
        system.calls.contains_key(a),
        system.calls.contains_key(b),
        system.calls[a].phase is Running,
        system.calls[b].phase is Running,
    ensures
        a == b,
{
    assert(system.has_holder(a) && system.has_holder(b));
}

/// A call that has returned leaves the `Once` completed.
pub proof fn law_returned_means_done(system: System, call: int)
    requires
        system.wf(),
        system.calls.contains_key(call),
        system.calls[call].phase is Returned,
    ensures
        state_of(system.word) is Done,
{
}

/// A completed `Once` stays completed.
pub proof fn law_done_is_final(system: System, next: System)
    requires
        system.wf(),
        system.leads_to(next),
        state_of(system.word) is Done,
    ensures
        next.word == system.word,
{
    lemma_words();
    let (call, what) = choose|call: int, what: Move| #[trigger] system.moves(next, call, what);
    if let Move::Act(event) = what {
        if next.word != system.word {
            let op = system.calls[call].op();
            assert(op is Complete || op is Poison || op is Acquire || op is Announce);
            if op is Complete || op is Poison {
                assert(system.has_holder(call));
            }
        }
    }
}

/// No closure is executed once the `Once` is completed, in particular none at all if it was
/// created that way.
pub proof fn law_done_never_runs(system: System, call: int)
    requires
        system.wf(),
        state_of(system.word) is Done,
        system.calls.contains_key(call),
    ensures
        !(system.calls[call].phase is Running),
{
    lemma_words();
    if system.calls[call].phase is Running {
        assert(system.has_holder(call));
    }
}

/// The `Once` is in progress exactly while some call executes its closure, or has yet to say
/// what came of that.
pub proof fn law_in_progress_means_held(system: System)
    requires
        system.wf(),
    ensures
        state_of(system.word) is InProgress <==> exists|call: int| #[trigger] system.has_holder(call),
{
    lemma_words();
}

/// Everything is as it should be throughout a history.
pub proof fn law_history_is_wf(history: Seq<System>, i: int)
    requires
        is_history(history),
        0 <= i < history.len(),
    ensures
        history[i].wf(),
    decreases i,
{
    if i > 0 {
        law_history_is_wf(history, i - 1);
        assert(follows(history, i));
        law_moves_keep_wf(history[i - 1], history[i]);
    }
}

/// Whether a closure has been executed successfully.
spec fn has_succeeded(system: System, call: int) -> bool {
    is_done(system.word) || (system.calls.contains_key(call) && system.calls[call].phase
        is Completing)
}

proof fn lemma_success_lasts(history: Seq<System>, i: int, j: int, call: int)
    requires
        is_history(history),
        0 <= i <= j < history.len(),
        has_succeeded(history[i], call),
    ensures
        has_succeeded(history[j], call),
    decreases j - i,
{
    if i < j {
        lemma_success_lasts(history, i, j - 1, call);
        law_history_is_wf(history, j - 1);
        assert(follows(history, j));
        let system = history[j - 1];
        let next = history[j];
        if is_done(system.word) {
            law_done_is_final(system, next);
        } else {
            lemma_words();
            let (c, what) = choose|c: int, what: Move| #[trigger] system.moves(next, c, what);
            if what is WakeAll && system.asleep.contains(call) {
                assert(system.is_committed(call));
            }
        }
    }
}

/// Initialization succeeds once and only once: when a closure has been executed successfully, no
/// other one is executed from then on.
pub proof fn law_succeeds_once(history: Seq<System>, i: int, j: int, first: int, other: int)
    requires
        is_history(history),
        0 <= i <= j < history.len(),
        history[i].calls.contains_key(first),
        history[i].calls[first].phase is Completing,
        history[j].calls.contains_key(other),
    ensures
        !(history[j].calls[other].phase is Running),
{
    lemma_success_lasts(history, i, j, first);
    law_history_is_wf(history, j);
    if history[j].calls[other].phase is Running {
        assert(history[j].has_holder(other));
        if is_done(history[j].word) {
            law_done_never_runs(history[j], other);
        } else {
            assert(history[j].has_holder(first));
        }
    }
}

/// Nobody sleeps without a reason: a sleeping call would go to sleep again, given the byte, or
/// somebody is about to unpark it.
pub proof fn law_sleepers_have_a_reason(system: System, call: int)
    requires
        system.wf(),
        system.asleep.contains(call),
    ensures
        system.calls[call].may_park(system.word) || system.any_waking(),
{
    assert(system.is_committed(call));
}

/// Nobody is left asleep on a completed `Once`: when all threads have been unparked that are
/// about to be, none sleeps.
pub proof fn law_done_wakes_everybody(system: System, call: int)
    requires
        system.wf(),
        state_of(system.word) is Done,
        !system.any_waking(),
    ensures
        !system.asleep.contains(call),
{
    lemma_words();
    if system.asleep.contains(call) {
        law_sleepers_have_a_reason(system, call);
    }
}

/// Of the calls to a poisoned `Once`, only those sleep that wait and ignore poisoning.
pub proof fn law_poison_wakes_everybody(system: System, call: int)
    requires
        system.wf(),
        state_of(system.word) is Poisoned,
        !system.any_waking(),
        system.asleep.contains(call),
    ensures
        system.calls[call].waits,
        system.calls[call].ignore_poison,
{
    lemma_words();
    law_sleepers_have_a_reason(system, call);
}

/// A poisoned `Once` stays poisoned until a call that ignores poisoning executes its closure.
pub proof fn law_poison_lasts(system: System, next: System, call: int, what: Move)
    requires
        system.wf(),
        state_of(system.word) is Poisoned,
        system.moves(next, call, what),
        !(state_of(next.word) is Poisoned),
    ensures
        system.calls[call].ignore_poison,
        next.calls[call].op() == OnceOp::Run(OnceState::Poisoned),
{
    lemma_words();
    lemma_locked_word(system.word);
    lemma_parked_word(system.word);
    if system.calls[call].op() is Complete || system.calls[call].op() is Poison {
        assert(system.has_holder(call));
    }
}

/// A call that only waits never executes a closure.
pub proof fn law_wait_never_runs(system: System, call: int)
    requires
        system.wf(),
        system.calls.contains_key(call),
        system.calls[call].waits,
    ensures
        !(system.calls[call].op() is Run),
{
}

/// A call that ignores poisoning never panics for that.
pub proof fn law_force_never_panics(system: System, call: int)
    requires
        system.wf(),
        system.calls.contains_key(call),
        system.calls[call].ignore_poison,
    ensures
        !(system.calls[call].op() is Panic),
{
}

/// Whether a call has found that its closure has panicked.
pub open spec fn fails(system: System, call: int) -> bool {
    system.calls.contains_key(call) && system.calls[call].phase is Poisoning
}

/// Whether no closure panics throughout a history.
pub open spec fn no_panics(history: Seq<System>) -> bool {
    forall|i: int, call: int| 0 <= i < history.len() ==> !#[trigger] fails(history[i], call)
}

/// Whether nothing is left of a panic.
pub open spec fn is_calm(system: System) -> bool {
    &&& !is_poisoned(system.word)
    &&& forall|call: int| #[trigger]
        system.calls.contains_key(call) ==> !(system.calls[call].phase is Refusing
            || system.calls[call].phase is Unwinding || system.calls[call].phase is Poisoning
            || system.calls[call].phase == Phase::Waking(true))
}

/// No call panics while no closure does.
pub proof fn law_nobody_panics(history: Seq<System>, i: int)
    requires
        is_history(history),
        is_calm(history[0]),
        no_panics(history),
        0 <= i < history.len(),
    ensures
        is_calm(history[i]),
    decreases i,
{
    if i > 0 {
        law_nobody_panics(history, i - 1);
        law_history_is_wf(history, i - 1);
        assert(follows(history, i));
        let system = history[i - 1];
        let next = history[i];
        let (c, what) = choose|c: int, what: Move| #[trigger] system.moves(next, c, what);
        lemma_words();
        lemma_locked_word(system.word);
        lemma_parked_word(system.word);
        assert(!fails(system, c));
        assert forall|call: int| #[trigger] next.calls.contains_key(call) implies !(
        next.calls[call].phase is Refusing || next.calls[call].phase is Unwinding
            || next.calls[call].phase is Poisoning || next.calls[call].phase == Phase::Waking(
            true,
        )) by {
            assert(!fails(next, call));
            if call != c {
                assert(system.calls.contains_key(call));
                if system.asleep.contains(call) {
                    assert(system.is_committed(call));
                }
            }
        }
    }
}

/// Whether a call is executing its closure.
pub open spec fn runs(system: System, call: int) -> bool {
    system.calls.contains_key(call) && system.calls[call].phase is Running
}

/// Whether a call has started to execute its closure when a system in a history was reached.
pub open spec fn begins(history: Seq<System>, i: int, call: int) -> bool {
    0 < i < history.len() && runs(history[i], call) && !runs(history[i - 1], call)
}

/// Whether the closure of a call has returned when a system in a history was reached.
pub open spec fn ends(history: Seq<System>, i: int, call: int) -> bool {
    &&& 0 < i < history.len()
    &&& runs(history[i - 1], call)
    &&& history[i].calls.contains_key(call)
    &&& history[i].calls[call].phase is Completing
}

/// Whether a call has started to execute a closure that does not panic.
spec fn has_started(system: System, call: int) -> bool {
    runs(system, call) || has_succeeded(system, call)
}

proof fn lemma_start_lasts(history: Seq<System>, i: int, j: int, call: int)
    requires
        is_history(history),
        0 <= i <= j < history.len(),
        has_started(history[i], call),
        forall|m: int| i <= m <= j ==> !#[trigger] fails(history[m], call),
    ensures
        has_started(history[j], call),
    decreases j - i,
{
    if i < j {
        lemma_start_lasts(history, i, j - 1, call);
        law_history_is_wf(history, j - 1);
        assert(follows(history, j));
        let system = history[j - 1];
        let next = history[j];
        assert(!fails(next, call));
        if is_done(system.word) {
            law_done_is_final(system, next);
        } else {
            lemma_words();
            let (c, what) = choose|c: int, what: Move| #[trigger] system.moves(next, c, what);
            if what is WakeAll && system.asleep.contains(call) {
                assert(system.is_committed(call));
            }
        }
    }
}

proof fn lemma_begins_once(history: Seq<System>, i: int, a: int, m: int, b: int)
    requires
        is_history(history),
        no_panics(history),
        begins(history, i, a),
        begins(history, m, b),
        i <= m,
    ensures
        i == m,
        a == b,
{
    law_history_is_wf(history, m);
    assert(history[m].has_holder(b));
    if i == m {
        assert(history[m].has_holder(a));
    } else {
        law_history_is_wf(history, m - 1);
        assert forall|n: int| i <= n <= m implies !#[trigger] fails(history[n], a) by {}
        lemma_start_lasts(history, i, m - 1, a);
        lemma_start_lasts(history, i, m, a);
        let system = history[m - 1];
        let next = history[m];
        assert(follows(history, m));
        if is_done(system.word) {
            law_done_is_final(system, next);
            law_done_never_runs(next, b);
        } else if is_done(next.word) {
            law_done_never_runs(next, b);
        } else {
            assert(next.has_holder(a));
            assert(a == b);
            let (c, what) = choose|c: int, what: Move| #[trigger] system.moves(next, c, what);
            if what is WakeAll && system.asleep.contains(a) {
                assert(system.is_committed(a));
            }
        }
    }
}

proof fn lemma_has_begun(history: Seq<System>, n: int, call: int) -> (i: int)
    requires
        is_history(history),
        history[0].calls.dom().is_empty(),
        0 <= n < history.len(),
        runs(history[n], call),
    ensures
        0 < i <= n,
        begins(history, i, call),
    decreases n,
{
    assert(!history[0].calls.contains_key(call));
    if runs(history[n - 1], call) {
        lemma_has_begun(history, n - 1, call)
    } else {
        n
    }
}

proof fn lemma_has_ended(history: Seq<System>, n: int, call: int) -> (k: int)
    requires
        is_history(history),
        history[0].calls.dom().is_empty(),
        0 <= n < history.len(),
        history[n].calls.contains_key(call),
        history[n].calls[call].phase is Completing,
    ensures
        0 < k <= n,
        ends(history, k, call),
    decreases n,
{
    assert(!history[0].calls.contains_key(call));
    let system = history[n - 1];
    if system.calls.contains_key(call) && system.calls[call].phase is Completing {
        lemma_has_ended(history, n - 1, call)
    } else {
        law_history_is_wf(history, n - 1);
        assert(follows(history, n));
        let (c, what) = choose|c: int, what: Move| #[trigger] system.moves(history[n], c, what);
        if what is WakeAll && system.asleep.contains(call) {
            assert(system.is_committed(call));
        }
        n
    }
}

/// The byte says that initialization has completed only since a call whose closure had returned
/// wrote that.
proof fn lemma_done_by(history: Seq<System>, i: int, j: int) -> (at: (int, int))
    requires
        is_history(history),
        0 <= i <= j < history.len(),
        !is_done(history[i].word),
        is_done(history[j].word),
    ensures
        i <= at.0 < j,
        !is_done(history[at.0].word),
        history[at.0].calls.contains_key(at.1),
        history[at.0].calls[at.1].phase is Completing,
    decreases j - i,
{
    if is_done(history[j - 1].word) {
        lemma_done_by(history, i, j - 1)
    } else {
        let system = history[j - 1];
        law_history_is_wf(history, j - 1);
        assert(follows(history, j));
        let (c, what) = choose|c: int, what: Move| #[trigger] system.moves(history[j], c, what);
        lemma_words();
        lemma_locked_word(system.word);
        lemma_parked_word(system.word);
        (j - 1, c)
    }
}

/// However many calls are made to a new `Once`: if no closure panics, then by the time that any
/// of them returns, the closure of exactly one of them has been executed, exactly once, and has
/// returned.
pub proof fn law_exactly_one_closure_runs(history: Seq<System>, j: int, call: int)
    requires
        is_history(history),
        history[0] == System::fresh(0),
        no_panics(history),
        0 <= j < history.len(),
        history[j].calls.contains_key(call),
        history[j].calls[call].phase is Returned,
    ensures
        state_of(history[j].word) is Done,
        exists|first: int, i: int, k: int|
            0 < i < k < j && #[trigger] begins(history, i, first) && #[trigger] ends(
                history,
                k,
                first,
            ),
        forall|a: int, i: int, b: int, m: int| #[trigger]
            begins(history, i, a) && #[trigger] begins(history, m, b) ==> a == b && i == m,
{
    law_history_is_wf(history, j);
    lemma_words();
    let (n, first) = lemma_done_by(history, 0, j);
    let k = lemma_has_ended(history, n, first);
    let i = lemma_has_begun(history, k - 1, first);
    assert(begins(history, i, first) && ends(history, k, first));
    assert forall|a: int, i: int, b: int, m: int| #[trigger]
        begins(history, i, a) && #[trigger] begins(history, m, b) implies a == b && i == m by {
        if i <= m {
            lemma_begins_once(history, i, a, m, b);
        } else {
            lemma_begins_once(history, m, b, i, a);
        }
    }
}

proof fn lemma_run_ends(history: Seq<System>, i: int, j: int, call: int) -> (k: int)
    requires
        is_history(history),
        0 <= i <= j < history.len(),
        runs(history[i], call),
        !runs(history[j], call),
        forall|m: int| i <= m <= j ==> !#[trigger] fails(history[m], call),
    ensures
        i < k <= j,
        ends(history, k, call),
    decreases j - i,
{
    if runs(history[j - 1], call) {
        let system = history[j - 1];
        law_history_is_wf(history, j - 1);
        assert(follows(history, j));
        assert(!fails(history[j], call));
        let (c, what) = choose|c: int, what: Move| #[trigger] system.moves(history[j], c, what);
        if what is WakeAll && system.asleep.contains(call) {
            assert(system.is_committed(call));
        }
        j
    } else {
        lemma_run_ends(history, i, j - 1, call)
    }
}

/// Whether a call is where it neither executes a closure nor is about to, and does not panic.
spec fn stands_by(call: OnceCall) -> bool {
    call.phase is Starting || call.phase is Loading || call.phase is Spinning
        || call.phase is Registering || call.phase is Announcing || call.phase is Parking
        || call.phase is Returned
}

proof fn lemma_stands_by(history: Seq<System>, i: int, j: int, runner: int, call: int)
    requires
        is_history(history),
        0 <= i <= j < history.len(),
        runs(history[i], runner),
        !history[i].calls.contains_key(call),
        forall|m: int| i <= m <= j ==> !#[trigger] fails(history[m], runner),
    ensures
        history[j].calls.contains_key(call) ==> stands_by(history[j].calls[call]),
    decreases j - i,
{
    if i < j {
        assert forall|m: int| i <= m <= j - 1 implies !#[trigger] fails(history[m], runner) by {}
        lemma_stands_by(history, i, j - 1, runner, call);
        lemma_start_lasts(history, i, j - 1, runner);
        law_history_is_wf(history, j - 1);
        assert(follows(history, j));
        let system = history[j - 1];
        let (c, what) = choose|c: int, what: Move| #[trigger] system.moves(history[j], c, what);
        lemma_words();
        if !is_done(system.word) {
            assert(system.has_holder(runner));
        }
    }
}

/// A call that is made while another one executes its closure neither panics nor executes a
/// closure of its own, if that one returns, and itself returns only after that; be the `Once`
/// poisoned before or not.
pub proof fn law_waits_for_running_closure(
    history: Seq<System>,
    i: int,
    j: int,
    runner: int,
    call: int,
)
    requires
        is_history(history),
        0 <= i <= j < history.len(),
        runs(history[i], runner),
        !history[i].calls.contains_key(call),
        forall|m: int| i <= m <= j ==> !#[trigger] fails(history[m], runner),
        history[j].calls.contains_key(call),
    ensures
        !(history[j].calls[call].op() is Panic),
        !(history[j].calls[call].op() is Run),
        history[j].calls[call].op() is Return ==> exists|k: int|
            i < k < j && #[trigger] ends(history, k, runner),
{
    lemma_stands_by(history, i, j, runner, call);
    if history[j].calls[call].phase is Returned {
        law_history_is_wf(history, j);
        lemma_words();
        if runs(history[j], runner) {
            law_done_never_runs(history[j], runner);
        }
        let k = lemma_run_ends(history, i, j, runner);
        if k == j {
            assert(history[j].has_holder(runner));
        }
    }
}

/// Whether the `Once` is poisoned, or a call that ignores poisoning executes its closure.
spec fn needs_force(system: System) -> bool {
    &&& !is_done(system.word)
    &&& is_poisoned(system.word) || is_locked(system.word)
    &&& forall|call: int| #[trigger]
        system.has_holder(call) ==> system.calls[call].ignore_poison
}

proof fn lemma_needs_force(history: Seq<System>, i: int, j: int)
    requires
        is_history(history),
        0 <= i <= j < history.len(),
        needs_force(history[i]),
        !is_done(history[j].word),
    ensures
        needs_force(history[j]),
    decreases j - i,
{
    if i < j {
        let system = history[j - 1];
        let next = history[j];
        law_history_is_wf(history, j - 1);
        assert(follows(history, j));
        if is_done(system.word) {
            law_done_is_final(system, next);
        }
        lemma_needs_force(history, i, j - 1);
        let (c, what) = choose|c: int, what: Move| #[trigger] system.moves(next, c, what);
        lemma_words();
        lemma_locked_word(system.word);
        lemma_parked_word(system.word);
        if system.calls.contains_key(c) && is_holder(system.calls[c]) {
            assert(system.has_holder(c));
        }
        assert forall|call: int| #[trigger]
            next.has_holder(call) implies next.calls[call].ignore_poison by {
            if system.asleep.contains(call) {
                assert(system.is_committed(call));
            }
            if call != c {
                assert(system.has_holder(call));
            } else if !system.has_holder(call) {
                if is_locked(system.word) {
                    let other = choose|other: int| #[trigger] system.has_holder(other);
                }
            }
        }
    }
}

/// A poisoned `Once` is not completed, and so no call to it returns, before a closure has returned
/// that was given to a call which ignores poisoning.
pub proof fn law_poisoned_until_forced(history: Seq<System>, i: int, j: int)
    requires
        is_history(history),
        0 <= i <= j < history.len(),
        state_of(history[i].word) is Poisoned,
        state_of(history[j].word) is Done,
    ensures
        exists|k: int, call: int|
            i <= k < j && #[trigger] has_completed(history[k], call)
                && history[k].calls[call].ignore_poison && !history[k].calls[call].waits,
{
    law_history_is_wf(history, i);
    assert(needs_force(history[i]));
    let (k, call) = lemma_done_by(history, i, j);
    law_history_is_wf(history, k);
    lemma_needs_force(history, i, k);
    assert(history[k].has_holder(call));
    assert(has_completed(history[k], call));
}

/// Whether the closure of a call has returned, and the call has yet to say so.
pub open spec fn has_completed(system: System, call: int) -> bool {
    system.calls.contains_key(call) && system.calls[call].phase is Completing
}

/// A call on a poisoned `Once` that does not ignore poisoning panics, whether it has a closure
/// or only waits.
pub proof fn law_poison_propagates(waits: bool, word: u8)
    requires
        state_of(word) is Poisoned,
    ensures
        (OnceCall { waits, ignore_poison: false, phase: Phase::Starting }).step(
            OnceEvent::Loaded(word),
        ).step(OnceEvent::Loaded(word)).op() is Panic,
{
    lemma_words();
}

/// A call that ignores poisoning executes its closure on a poisoned `Once`, and tells it that
/// this was so; on a new `Once` any call executes its closure and tells it that.
pub proof fn law_runs_when_idle(ignore_poison: bool, word: u8)
    requires
        state_of(word) is New || (state_of(word) is Poisoned && ignore_poison),
    ensures
        ({
            let call = (OnceCall { waits: false, ignore_poison, phase: Phase::Starting }).step(
                OnceEvent::Loaded(word),
            ).step(OnceEvent::Loaded(word));
            &&& call.op() == OnceOp::Acquire(word)
            &&& call.step(OnceEvent::Exchanged).op() == OnceOp::Run(state_of(word))
            &&& state_of(locked_word(word)) is InProgress
        }),
{
    lemma_words();
    lemma_locked_word(word);
}

/// A call on a completed `Once` returns at once and does nothing else.
pub proof fn law_done_returns(waits: bool, ignore_poison: bool)
    ensures
        (OnceCall { waits, ignore_poison, phase: Phase::Starting }).step(
            OnceEvent::Loaded(DONE_BIT),
        ).op() is Return,
{
    lemma_words();
}

/// What becomes of a closure: if it returns, the `Once` is completed, and the call returns; if it
/// panics, the `Once` is poisoned, and the call goes on with the panic and does not return. Either
/// way all parked threads are unparked first if there may be any, and nothing else is done.
pub proof fn law_what_becomes_of_the_closure(call: OnceCall, was: u8)
    requires
        call.op() is Run,
    ensures
        ({
            let returned = call.step(OnceEvent::Finished);
            let written = returned.step(OnceEvent::Swapped(was));
            &&& returned.op() is Complete
            &&& is_parked(was) ==> written.op() is UnparkAll && written.step(
                OnceEvent::WokeAll,
            ).op() is Return
            &&& !is_parked(was) ==> written.op() is Return
        }),
        ({
            let panicked = call.step(OnceEvent::Failed);
            let written = panicked.step(OnceEvent::Swapped(was));
            &&& panicked.op() is Poison
            &&& is_parked(was) ==> written.op() is UnparkAll && written.step(
                OnceEvent::WokeAll,
            ).op() is Unwind
            &&& !is_parked(was) ==> written.op() is Unwind
        }),
        state_of(DONE_BIT) is Done,
        state_of(POISON_BIT) is Poisoned,
{
    lemma_words();
}

/// What a call does that finds a closure being executed: it waits for that, whoever makes it. It
/// spins first unless others wait already, and if it has spun often enough it says that it is
/// going to park, and parks once it has been heard. When it is unparked it looks again.
pub proof fn law_waits_while_in_progress(waits: bool, ignore_poison: bool, word: u8)
    requires
        state_of(word) is InProgress,
        !is_poisoned(word),
    ensures
        ({
            let call = (OnceCall { waits, ignore_poison, phase: Phase::Loading }).step(
                OnceEvent::Loaded(word),
            );
            &&& !is_parked(word) ==> {
                let tired = call.step(OnceEvent::Spun(false));
                let ready = if waits {
                    tired.step(OnceEvent::Loaded(word))
                } else {
                    tired
                };
                &&& call.op() is Spin
                &&& call.step(OnceEvent::Spun(true)).op() is Load
                &&& waits ==> tired.op() is Load
                &&& ready.op() == OnceOp::Announce(word)
                &&& ready.step(OnceEvent::Exchanged).op() is Park
            }
            &&& is_parked(word) ==> {
                let ready = if waits {
                    call.step(OnceEvent::Loaded(word)).step(OnceEvent::Exchanged)
                } else {
                    call
                };
                &&& ready.op() is Park
                &&& ready.step(OnceEvent::Unparked).op() is Load
            }
        }),
        state_of(parked_word(word)) is InProgress,
        is_parked(parked_word(word)),
{
    lemma_words();
    lemma_parked_word(word);
}

/// When a call may go to sleep, by the byte: one that waits may while threads may be parked and
/// there is something left to wait for, that is, the `Once` is not completed, and not poisoned
/// unless that is ignored. One that has a closure may only while another closure is being
/// executed and threads may be parked, and then it may.
pub proof fn law_when_to_sleep(call: OnceCall, word: u8)
    requires
        is_done(word) ==> word == DONE_BIT,
        is_locked(word) ==> !is_poisoned(word),
        word < 16,
    ensures
        call.waits ==> (call.may_park(word) <==> is_parked(word) && match state_of(word) {
            OnceState::Done => false,
            OnceState::Poisoned => call.ignore_poison,
            OnceState::New | OnceState::InProgress => true,
        }),
        !call.waits ==> (call.may_park(word) <==> is_parked(word) && state_of(word) is InProgress),
{
    lemma_words();
    assert(word < 16 && word & 1 == 0 && word & 2 == 0 && word & 4 != 0 && word & 8 != 0 ==> word
        == 4u8 | 8u8) by (bit_vector);
    assert(word == 4u8 | 8u8 ==> word & 1 == 0 && word & 2 == 0 && word & 4 != 0 && word & 8 != 0)
        by (bit_vector);
}

/// What a byte stands for, by the number that it is: an odd one for a completed `Once`, and
/// otherwise one whose remainder tells whether a closure is being executed or has panicked. That
/// threads may be parked makes no difference.
pub proof fn law_byte_tells_state(word: u8)
    ensures
        state_of(word) is Done <==> word % 2 == 1,
        state_of(word) is InProgress <==> word % 2 == 0 && word % 8 >= 4,
        state_of(word) is Poisoned <==> word % 8 == 2,
        state_of(word) is New <==> word % 8 == 0,
        is_parked(word) <==> word % 16 >= 8,
{
    assert(word & 1 != 0 <==> word % 2 == 1) by (bit_vector);
    assert(word & 4 != 0 <==> word % 8 >= 4) by (bit_vector);
    assert(word & 8 != 0 <==> word % 16 >= 8) by (bit_vector);
    assert((word & 1 == 0 && word & 4 == 0 && word & 2 != 0) <==> word % 8 == 2) by (bit_vector);
}

/// A call that sees a byte at any time acts on what it says: it returns exactly if the `Once` is
/// completed, and panics exactly if it is poisoned and that is not ignored. Otherwise one with a
/// closure tries to execute it exactly if no closure is being executed, and tells it whether one
/// has panicked.
pub proof fn law_acts_on_what_it_sees(call: OnceCall, word: u8)
    requires
        is_done(word) ==> word == DONE_BIT,
        is_locked(word) ==> !is_poisoned(word),
        call.phase is Loading || call.phase is Acquiring,
    ensures
        ({
            let event = if call.phase is Loading {
                OnceEvent::Loaded(word)
            } else {
                OnceEvent::Refused(word)
            };
            let next = call.step(event);
            &&& next.op() is Return <==> state_of(word) is Done
            &&& next.op() is Panic <==> state_of(word) is Poisoned && !call.ignore_poison
            &&& next.op() is Acquire <==> !call.waits && (state_of(word) is New || (state_of(word)
                is Poisoned && call.ignore_poison))
            &&& next.op() is Acquire ==> next.op() == OnceOp::Acquire(word) && next.step(
                OnceEvent::Exchanged,
            ).op() == OnceOp::Run(state_of(word))
            &&& next.waits == call.waits
            &&& next.ignore_poison == call.ignore_poison
        }),
{
    lemma_words();
}

/// What a call does at its very beginning: it returns exactly if the `Once` is completed, and
/// looks at it more closely otherwise.
pub proof fn law_starts_by_looking(waits: bool, ignore_poison: bool, word: u8)
    requires
        is_done(word) ==> word == DONE_BIT,
    ensures
        ({
            let call = OnceCall { waits, ignore_poison, phase: Phase::Starting };
            let next = call.step(OnceEvent::Loaded(word));
            &&& call.op() is LoadAcquire
            &&& next.op() is Return <==> state_of(word) is Done
            &&& !(state_of(word) is Done) ==> next.op() is Load && next == OnceCall {
                phase: Phase::Loading,
                ..call
            }
        }),
{
    lemma_words();
}

/// A call that only waits does so also while nothing is going on: it says that it is going to
/// park, whatever it takes, and parks once it has been heard. It looks at the byte each time, so
/// that it does not miss that the `Once` was completed or poisoned.
pub proof fn law_waits_while_idle(call: OnceCall, word: u8, then: u8)
    requires
        call.waits,
        call.phase is Loading,
        state_of(word) is New || (state_of(word) is Poisoned && call.ignore_poison),
        is_done(then) ==> then == DONE_BIT,
        is_locked(then) ==> !is_poisoned(then),
    ensures
        ({
            let ready = call.step(OnceEvent::Loaded(word));
            let announcing = ready.step(OnceEvent::Loaded(word));
            let seen = ready.step(OnceEvent::Loaded(then));
            let refused = announcing.step(OnceEvent::Refused(then));
            let over = state_of(then) is Done || (state_of(then) is Poisoned
                && !call.ignore_poison);
            &&& ready.op() is Load
            &&& announcing.op() == OnceOp::Announce(word)
            &&& announcing.step(OnceEvent::Exchanged).op() is Park
            &&& seen == refused
            &&& seen.op() is Return <==> state_of(then) is Done
            &&& seen.op() is Panic <==> over && !(state_of(then) is Done)
            &&& !over ==> seen.op() == OnceOp::Announce(then)
        }),
{
    lemma_words();
}

} // verus!
