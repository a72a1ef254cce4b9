//! How one thread parks, from the call until it returns.
//!
//! Only a part of it is done with a bucket locked: adding the thread to the queue, and taking it
//! out if its timeout is over. In between the thread sleeps. What is to be done next is told by a
//! [`ParkOp`].

use crate::lot::bucket::{thread_position, waiting, Bucket, ThreadData};
use crate::lot::types::{ParkResult, ParkToken, UnparkToken};
use vstd::prelude::*;

verus! {

/// What a parking thread has to do next.
#[derive(Copy, Clone, Eq, PartialEq, Debug, Structural)]
pub enum ParkOp {
    /// Lock the bucket for the key, and [`enter`](Parking::enter) it.
    Enter(usize),
    /// With the bucket unlocked, do what the caller wants to be done before the thread sleeps.
    BeforeSleep,
    /// Sleep until the thread is unparked.
    Sleep,
    /// Sleep until the thread is unparked or the timeout is reached.
    SleepUntil,
    /// Report a deadlock that the thread is part of, if it was unparked for that.
    OnUnpark,
    /// Read the token that the thread was handed when it was unparked.
    ReadToken,
    /// Lock the bucket for the key that the thread waits on by now, and
    /// [`leave`](Parking::leave) it.
    Leave,
    /// Return.
    Return(ParkResult),
}

/// What came of a [`ParkOp`].
#[derive(Copy, Clone, Eq, PartialEq, Debug, Structural)]
pub enum ParkEvent {
    /// It was done.
    Done,
    /// The sleep has ended, because the thread was unparked.
    Unparked,
    /// The sleep has ended, because the timeout was reached. This isn't precise: the thread can
    /// still be unparked since it is still in the queue.
    TimedOut,
    /// The token was read.
    Token(UnparkToken),
}

/// A thread that parks.
#[derive(Copy, Clone, Eq, PartialEq, Debug, Structural)]
pub struct Parking {
    /// The token that it parks with.
    pub park_token: ParkToken,
    /// Whether it has a timeout.
    pub with_timeout: bool,
    /// What it has to do next.
    pub op: ParkOp,
}

impl Parking {
    /// Whether the thread sleeps with a timeout, and leaves a bucket by itself, only if it has
    /// one.
    pub open spec fn wf(self) -> bool {
        match self.op {
            ParkOp::SleepUntil | ParkOp::Leave => self.with_timeout,
            ParkOp::Sleep | ParkOp::OnUnpark => !self.with_timeout,
            _ => true,
        }
    }

    /// Whether an event can come of what is to be done, other than entering or leaving a bucket.
    pub open spec fn answers(self, event: ParkEvent) -> bool {
        match self.op {
            ParkOp::BeforeSleep | ParkOp::OnUnpark => event is Done,
            ParkOp::Sleep => event is Unparked,
            ParkOp::SleepUntil => event is Unparked || event is TimedOut,
            ParkOp::ReadToken => event is Token,
            ParkOp::Enter(_) | ParkOp::Leave | ParkOp::Return(_) => false,
        }
    }

    /// What is to be done after an event.
    pub open spec fn op_after(self, event: ParkEvent) -> ParkOp {
        match (self.op, event) {
            (ParkOp::BeforeSleep, _) => if self.with_timeout {
                ParkOp::SleepUntil
            } else {
                ParkOp::Sleep
            },
            (ParkOp::Sleep, _) => ParkOp::OnUnpark,
            (ParkOp::SleepUntil, ParkEvent::TimedOut) => ParkOp::Leave,
            (ParkOp::SleepUntil, _) => ParkOp::ReadToken,
            (ParkOp::OnUnpark, _) => ParkOp::ReadToken,
            (ParkOp::ReadToken, ParkEvent::Token(token)) => ParkOp::Return(
                ParkResult::Unparked(token),
            ),
            (op, _) => op,
        }
    }

    /// The thread with something else to do.
    pub open spec fn with_op(self, op: ParkOp) -> Parking {
        Parking { op, ..self }
    }

    /// The entry of the thread in a queue.
    pub open spec fn entry(self, thread_data: ThreadData, key: usize) -> ThreadData {
        ThreadData {
            key,
            park_token: self.park_token,
            parked_with_timeout: self.with_timeout,
            ..thread_data
        }
    }

    /// A thread that is going to park in the queue associated with the given key.
    pub fn park(key: usize, park_token: ParkToken, with_timeout: bool) -> (r: Parking)
        ensures
            r == (Parking { park_token, with_timeout, op: ParkOp::Enter(key) }),
            r.wf(),
    {
        Parking { park_token, with_timeout, op: ParkOp::Enter(key) }
    }

    /// Adds the thread to the queue, if `validate` returns true. The bucket is locked, and is to
    /// be unlocked after this.
    pub fn enter<V>(
        &mut self,
        bucket: &mut Bucket,
        thread_data: ThreadData,
        validate: V,
    ) -> (r: ParkOp)
        where V: FnOnce() -> bool
        requires
            old(self).wf(),
            old(self).op is Enter,
            call_requires(validate, ()),
        ensures
            exists|valid: bool| #[trigger]
                call_ensures(validate, (), valid) && if valid {
                    &&& final(bucket)@ == old(bucket)@.push(
                        old(self).entry(thread_data, old(self).op->Enter_0),
                    )
                    &&& r == ParkOp::BeforeSleep
                } else {
                    &&& final(bucket)@ == old(bucket)@
                    &&& r == ParkOp::Return(ParkResult::Invalid)
                },
            *final(self) == old(self).with_op(r),
            final(self).wf(),
    {
        if let ParkOp::Enter(key) = self.op {
            let result = bucket.park(
                thread_data,
                key,
                validate,
                self.park_token,
                self.with_timeout,
            );
            assert(call_ensures(validate, (), result is None));
            self.op = match result {
                None => ParkOp::BeforeSleep,
                Some(result) => ParkOp::Return(result),
            };
        }
        self.op
    }

    /// Takes note of what came of the last thing to be done, and says what is to be done next.
    pub fn next(&mut self, event: ParkEvent) -> (r: ParkOp)
        requires
            old(self).wf(),
            old(self).answers(event),
        ensures
            r == old(self).op_after(event),
            r is Return <==> event is Token,
            event matches ParkEvent::Token(token) ==> r == ParkOp::Return(
                ParkResult::Unparked(token),
            ),
            r is Leave <==> event is TimedOut,
            *final(self) == old(self).with_op(r),
            final(self).wf(),
    {
        self.op = match (self.op, event) {
            (ParkOp::BeforeSleep, _) => {
                // Park our thread and determine whether we were woken up by an unpark
                // or by our timeout.
                if self.with_timeout {
                    ParkOp::SleepUntil
                } else {
                    ParkOp::Sleep
                }
            },
            (ParkOp::Sleep, _) => ParkOp::OnUnpark,
            (ParkOp::SleepUntil, ParkEvent::TimedOut) => ParkOp::Leave,
            // If we were unparked, return now
            (ParkOp::SleepUntil, _) => ParkOp::ReadToken,
            (ParkOp::OnUnpark, _) => ParkOp::ReadToken,
            (ParkOp::ReadToken, ParkEvent::Token(token)) => ParkOp::Return(
                ParkResult::Unparked(token),
            ),
            (op, _) => op,
        };
        self.op
    }

    /// Takes the thread out of the queue, unless it has been unparked in the meantime. The bucket
    /// is locked, and is to be unlocked after this.
    ///
    /// `key` is the key that the thread waits on, `still_parked` tells whether nobody has
    /// unparked it, and `token` is what it was handed if somebody has.
    pub fn leave<T>(
        &mut self,
        bucket: &mut Bucket,
        thread: usize,
        key: usize,
        still_parked: bool,
        token: UnparkToken,
        timed_out: T,
    ) -> (r: ParkOp)
        where T: FnOnce(usize, bool)
        requires
            old(self).wf(),
            old(self).op is Leave,
            still_parked ==> {
                let i = thread_position(old(bucket)@, thread, 0);
                &&& i < old(bucket)@.len()
                &&& old(bucket)@[i].key == key
                &&& call_requires(timed_out, (key, waiting(old(bucket)@, key).len() == 1))
            },
        ensures
            !still_parked ==> {
                &&& final(bucket)@ == old(bucket)@
                &&& r == ParkOp::Return(ParkResult::Unparked(token))
            },
            still_parked ==> {
                &&& final(bucket)@ == old(bucket)@.remove(thread_position(old(bucket)@, thread, 0))
                &&& call_ensures(timed_out, (key, waiting(old(bucket)@, key).len() == 1), ())
                &&& r == ParkOp::Return(ParkResult::TimedOut)
            },
            *final(self) == old(self).with_op(r),
            final(self).wf(),
    {
        let result = bucket.park_timed_out(thread, key, still_parked, token, timed_out);
        self.op = ParkOp::Return(result);
        self.op
    }
}

/// A thread without a timeout sleeps until it is unparked, and then returns the token that it
/// was handed.
pub proof fn law_parked_until_unparked(parking: Parking, token: UnparkToken)
    requires
        parking.op is BeforeSleep,
        !parking.with_timeout,
    ensures
        ({
            let asleep = parking.with_op(parking.op_after(ParkEvent::Done));
            let awake = asleep.with_op(asleep.op_after(ParkEvent::Unparked));
            let reading = awake.with_op(awake.op_after(ParkEvent::Done));
            &&& asleep.op is Sleep
            &&& forall|event: ParkEvent| #[trigger] asleep.answers(event) ==> event is Unparked
            &&& awake.op is OnUnpark
            &&& reading.op is ReadToken
            &&& reading.op_after(ParkEvent::Token(token)) == ParkOp::Return(
                ParkResult::Unparked(token),
            )
        }),
{
}

/// A thread with a timeout that is unparked before that is over returns the token that it was
/// handed: the sleep with a timeout ends in one of two ways, and this is the one where somebody
/// else has taken the thread off the queue.
pub proof fn law_unparked_in_time(parking: Parking, token: UnparkToken)
    requires
        parking.op is BeforeSleep,
        parking.with_timeout,
    ensures
        ({
            let asleep = parking.with_op(parking.op_after(ParkEvent::Done));
            let awake = asleep.with_op(asleep.op_after(ParkEvent::Unparked));
            &&& asleep.op is SleepUntil
            &&& forall|event: ParkEvent| #[trigger]
                asleep.answers(event) ==> event is Unparked || event is TimedOut
            &&& awake.op is ReadToken
            &&& forall|event: ParkEvent| #[trigger] awake.answers(event) ==> event is Token
            &&& awake.op_after(ParkEvent::Token(token)) == ParkOp::Return(
                ParkResult::Unparked(token),
            )
            &&& asleep.op_after(ParkEvent::TimedOut) is Leave
        }),
{
}

/// Whether some events come of what a thread has to do, one after the other, and it has `last` to
/// do after them.
pub open spec fn goes_on(parking: Parking, events: Seq<ParkEvent>, last: ParkOp) -> bool
    decreases events.len(),
{
    if events.len() == 0 {
        last == parking.op
    } else {
        &&& parking.answers(events[0])
        &&& goes_on(parking.with_op(parking.op_after(events[0])), events.skip(1), last)
    }
}

/// How parking ends for a thread in the queue, with or without a timeout, whatever comes of what
/// it has to do. It returns by itself only that it was unparked, with the token that it was
/// handed last, and only if it was told that it was unparked and never that its timeout was over.
/// If it was told that, it has to leave the queue, and has nothing else to do before that. So
/// only a thread that leaves the queue returns that it timed out.
pub proof fn law_how_parking_ends(parking: Parking, events: Seq<ParkEvent>, last: ParkOp)
    requires
        parking.op is BeforeSleep,
        goes_on(parking, events, last),
    ensures
        last is Return ==> {
            &&& events.len() > 0
            &&& events.last() matches ParkEvent::Token(token)
                && last == ParkOp::Return(ParkResult::Unparked(token))
            &&& exists|i: int| 0 <= i < events.len() && #[trigger] events[i] is Unparked
            &&& forall|i: int| 0 <= i < events.len() ==> !(#[trigger] events[i] is TimedOut)
        },
        last is Leave <==> events.len() > 0 && events.last() is TimedOut,
        last is Leave ==> parking.with_timeout && forall|i: int|
            0 <= i < events.len() ==> !(#[trigger] events[i] is Unparked),
        events.len() <= 4,
        events.len() == 4 || (parking.with_timeout && events.len() == 3) ==> last is Return,
{
    reveal_with_fuel(goes_on, 6);
    assert(events.len() > 1 ==> events.skip(1)[0] == events[1]);
    assert(events.len() > 2 ==> events.skip(1).skip(1)[0] == events[2]);
    assert(events.len() > 3 ==> events.skip(1).skip(1).skip(1)[0] == events[3]);
    assert(events.len() > 4 ==> events.skip(1).skip(1).skip(1).skip(1)[0] == events[4]);
}

/// A thread that is to sleep does so with its timeout if it has one, and not otherwise.
pub proof fn law_sleeps_with_its_timeout(parking: Parking, event: ParkEvent)
    requires
        parking.wf(),
        parking.answers(event),
    ensures
        parking.op_after(event) is SleepUntil <==> parking.op is BeforeSleep
            && parking.with_timeout,
        parking.op_after(event) is Sleep <==> parking.op is BeforeSleep && !parking.with_timeout,
        parking.op_after(event) is Return <==> event is Token,
        !(parking.op_after(event) is Enter),
        !(parking.op_after(event) is BeforeSleep),
{
}

/// What is kept of a thread in the queue is what it parks with: its key, its token, and whether
/// it has a timeout. Who it is and what it owns is as it was.
pub proof fn law_entry_is_the_thread(parking: Parking, thread_data: ThreadData, key: usize)
    ensures
        ({
            let entry = parking.entry(thread_data, key);
            &&& entry.key == key
            &&& entry.park_token == parking.park_token
            &&& entry.parked_with_timeout == parking.with_timeout
            &&& entry.thread == thread_data.thread
            &&& entry.deadlock_data == thread_data.deadlock_data
        }),
{
}

/// A thread only leaves the queue by itself if it has a timeout and was not unparked before that
/// was over.
pub proof fn law_only_timeouts_leave(parking: Parking, event: ParkEvent)
    requires
        parking.wf(),
        parking.answers(event),
        parking.op_after(event) is Leave,
    ensures
        parking.with_timeout,
        event is TimedOut,
{
}

} // verus!
