//! What every thread parker guarantees.

use crate::thread_parker::windows::waitaddress::{self, millis, WaitOnAddress, INFINITE};
use crate::thread_parker::{generic, linux, windows, FlagOp, ParkStep};
use crate::util::Remaining;
use vstd::prelude::*;

verus! {

/// A thread that has prepared to park stays parked, with or without a timeout, until it is
/// unparked or there is no time left.
pub proof fn law_prepared_stays_parked(left: Remaining)
    ensures
        generic::park_step(true) is Wait,
        linux::park_step(1) is Wait,
        waitaddress::park_step(1) is Wait,
        generic::park_until_step(true, left) is TimedOut <==> left.total() == 0,
        linux::park_until_step(1, left) is TimedOut <==> left.total() == 0,
        waitaddress::park_until_step(1, left) is TimedOut <==> left.total() == 0,
        generic::park_until_step(true, left) is Wait <==> left.total() > 0,
        linux::park_until_step(1, left) is Wait <==> left.total() > 0,
        waitaddress::park_until_step(1, left) is Wait <==> left.total() > 0,
{
}

/// A thread that has been unparked stops parking, even if there is no time left.
pub proof fn law_unparked_stops_parking(left: Remaining)
    ensures
        generic::park_step(false) is Unparked,
        linux::park_step(0) is Unparked,
        waitaddress::park_step(0) is Unparked,
        generic::park_until_step(false, left) is Unparked,
        linux::park_until_step(0, left) is Unparked,
        waitaddress::park_until_step(0, left) is Unparked,
{
}

/// Whether a thread has been unparked since it prepared to park for the last time, which was the
/// change of its flag at `p`.
pub open spec fn unparked_since(ops: Seq<FlagOp>, p: int) -> bool {
    exists|i: int| p < i < ops.len() && #[trigger] ops[i] is UnparkLock
}

/// What parking with a timeout says after any changes of the flag, the last preparation being at
/// `p`: that the thread is unparked exactly if it was unparked since then, even if the timeout is
/// over; and otherwise that it has timed out exactly if there is no time left, in which case the
/// flag still tells that it is parked.
pub proof fn law_park_until_tells(ops: Seq<FlagOp>, p: int, left: Remaining)
    requires
        0 <= p < ops.len(),
        ops[p] is PreparePark,
        forall|i: int| p < i < ops.len() ==> !(#[trigger] ops[i] is PreparePark),
    ensures
        ({
            let step = generic::park_until_step(generic::flag_after(ops), left);
            &&& step is Unparked <==> unparked_since(ops, p)
            &&& step is TimedOut <==> !unparked_since(ops, p) && left.total() == 0
            &&& step is TimedOut ==> generic::flag_after(ops)
        }),
        ({
            let step = linux::park_until_step(linux::word_after(ops), left);
            &&& step is Unparked <==> unparked_since(ops, p)
            &&& step is TimedOut <==> !unparked_since(ops, p) && left.total() == 0
            &&& step is TimedOut ==> linux::is_parked(linux::word_after(ops))
        }),
        ({
            let step = waitaddress::park_until_step(waitaddress::word_after(ops), left);
            &&& step is Unparked <==> unparked_since(ops, p)
            &&& step is TimedOut <==> !unparked_since(ops, p) && left.total() == 0
            &&& step is TimedOut ==> waitaddress::is_parked(waitaddress::word_after(ops))
        }),
{
    let last = ops.len() - 1;
    if p < last {
        assert(!(ops[last] is PreparePark));
        assert(ops[last] is UnparkLock);
    }
}

/// Milliseconds are rounded up, so that a wait never ends too early, and never mean no timeout.
pub proof fn law_millis_round_up(left: Remaining)
    ensures
        millis(left) < INFINITE,
        left.total() <= millis(left) * 1_000_000 || millis(left) == INFINITE - 1,
        left.total() > 0 ==> (millis(left) - 1) * 1_000_000 < left.total(),
{
}

/// A thread that parks without a timeout sleeps without one, and one that parks with a timeout
/// sleeps for all the time that is left and no longer, as far as the platform can tell.
pub proof fn law_sleeps_as_long_as_it_should(left: Remaining)
    requires
        left.nanos < 1_000_000_000,
        left.secs > 0 || left.nanos > 0,
    ensures
        linux::park_step(1) matches ParkStep::Wait(wait) && wait.timeout is None,
        waitaddress::park_step(1) matches ParkStep::Wait(wait) && wait.timeout == 0xffff_ffff,
        linux::park_until_step(1, left) matches ParkStep::Wait(wait) && wait.timeout == Some(left),
        waitaddress::park_until_step(1, left) matches ParkStep::Wait(wait) && {
            &&& 0 < wait.timeout < 0xffff_ffff
            &&& left.secs * 1_000_000_000 + left.nanos <= wait.timeout * 1_000_000 || wait.timeout
                == 0xffff_fffe
            &&& (wait.timeout - 1) * 1_000_000 < left.secs * 1_000_000_000 + left.nanos
        },
{
    law_millis_round_up(left);
}

/// Whatever the platform is, a thread stops parking as unparked exactly if its flag is not set,
/// however much time is left, and never says that it timed out without a timeout.
pub proof fn law_platforms_agree(parked: bool, left: Remaining)
    ensures
        generic::park_step(parked) is Unparked <==> !parked,
        generic::park_until_step(parked, left) is Unparked <==> !parked,
        !(generic::park_step(parked) is TimedOut),
        ({
            let word = if parked { 1 } else { 0 };
            &&& linux::park_step(word) is Unparked <==> !parked
            &&& linux::park_until_step(word, left) is Unparked <==> !parked
            &&& !(linux::park_step(word) is TimedOut)
        }),
        ({
            let word = if parked { 1 } else { 0 };
            &&& waitaddress::park_step(word) is Unparked <==> !parked
            &&& waitaddress::park_until_step(word, left) is Unparked <==> !parked
            &&& !(waitaddress::park_step(word) is TimedOut)
        }),
{
}

/// What a facility says is passed on as it is: that a thread was unparked, that it timed out, or
/// how it has to wait.
pub proof fn law_facility_is_heard<W>(keyed: ParkStep<W>, address: ParkStep<WaitOnAddress>)
    ensures
        windows::with_keyed_event(keyed) is Unparked <==> keyed is Unparked,
        windows::with_keyed_event(keyed) is TimedOut <==> keyed is TimedOut,
        keyed matches ParkStep::Wait(wait) ==> windows::with_keyed_event(keyed) == ParkStep::Wait(
            windows::Wait::KeyedEvent(wait),
        ),
        windows::with_wait_address::<W>(address) is Unparked <==> address is Unparked,
        windows::with_wait_address::<W>(address) is TimedOut <==> address is TimedOut,
        address matches ParkStep::Wait(wait) ==> windows::with_wait_address::<W>(address)
            == ParkStep::Wait(windows::Wait::<W>::WaitAddress(wait)),
{
}

/// What the flag tells after any changes, the last preparation to park being at `p`: that the
/// thread is still parked exactly if it was not unparked since. This is what a thread goes by
/// whose timeout is over.
pub proof fn law_flag_tells(ops: Seq<FlagOp>, p: int)
    requires
        0 <= p < ops.len(),
        ops[p] is PreparePark,
        forall|i: int| p < i < ops.len() ==> !(#[trigger] ops[i] is PreparePark),
    ensures
        generic::flag_after(ops) <==> !unparked_since(ops, p),
        linux::is_parked(linux::word_after(ops)) <==> !unparked_since(ops, p),
        waitaddress::is_parked(waitaddress::word_after(ops)) <==> !unparked_since(ops, p),
        !generic::flag_after(seq![]),
        !linux::is_parked(linux::word_after(seq![])),
        !waitaddress::is_parked(waitaddress::word_after(seq![])),
{
    let last = ops.len() - 1;
    if p < last {
        assert(!(ops[last] is PreparePark));
        assert(ops[last] is UnparkLock);
    }
}

} // verus!
