//! Tokens, requests and results of the parking lot operations.

use vstd::prelude::*;

verus! {

/// A value which is passed from an unparker to a parked thread.
#[derive(Copy, Clone, Eq, PartialEq, Debug, Structural)]
pub struct UnparkToken(pub usize);

/// A value associated with a parked thread which can be used by
/// [`Bucket::unpark_filter`](crate::lot::bucket::Bucket::unpark_filter).
#[derive(Copy, Clone, Eq, PartialEq, Debug, Structural)]
pub struct ParkToken(pub usize);

impl Default for UnparkToken {
    /// A default unpark token to use.
    fn default() -> (r: UnparkToken)
        ensures
            r == UnparkToken(0),
    {
        UnparkToken(0)
    }
}

impl Default for ParkToken {
    /// A default park token to use.
    fn default() -> (r: ParkToken)
        ensures
            r == ParkToken(0),
    {
        ParkToken(0)
    }
}

/// Result of a park operation.
#[derive(Copy, Clone, Eq, PartialEq, Debug, Structural)]
pub enum ParkResult {
    /// We were unparked by another thread with the given token.
    Unparked(UnparkToken),
    /// The validation callback returned false.
    Invalid,
    /// The timeout expired.
    TimedOut,
}

impl ParkResult {
    /// Returns true if we were unparked by another thread.
    pub fn is_unparked(self) -> (r: bool)
        ensures
            r == (self is Unparked),
    {
        matches!(self, ParkResult::Unparked(_))
    }
}

/// Result of an unpark operation.
#[derive(Copy, Clone, Eq, PartialEq, Debug, Structural)]
#[non_exhaustive]
pub struct UnparkResult {
    /// The number of threads that were unparked.
    pub unparked_threads: usize,
    /// The number of threads that were requeued.
    pub requeued_threads: usize,
    /// Whether any threads remain parked with the original key after the
    /// operation.
    pub have_more_threads: bool,
}

impl Default for UnparkResult {
    fn default() -> (r: UnparkResult)
        ensures
            r == (UnparkResult {
                unparked_threads: 0,
                requeued_threads: 0,
                have_more_threads: false,
            }),
    {
        UnparkResult { unparked_threads: 0, requeued_threads: 0, have_more_threads: false }
    }
}

/// Operation that `unpark_requeue` should perform.
#[derive(Copy, Clone, Eq, PartialEq, Debug, Structural)]
pub enum RequeueOp {
    /// Abort the operation without doing anything.
    Abort,
    /// Unpark one thread and requeue the rest onto the target queue.
    UnparkOneRequeueRest,
    /// Requeue all threads onto the target queue.
    RequeueAll,
    /// Unpark one thread and leave the rest parked. No requeuing is done.
    UnparkOne,
    /// Requeue one thread and leave the rest parked on the original queue.
    RequeueOne,
}

impl RequeueOp {
    /// Whether the first thread found is to be woken up.
    pub open spec fn wakes(self) -> bool {
        self is UnparkOneRequeueRest || self is UnparkOne
    }

    /// Whether a single thread is to leave the queue.
    pub open spec fn takes_one(self) -> bool {
        self is UnparkOne || self is RequeueOne
    }
}

/// Operation that `unpark_filter` should perform for each thread.
#[derive(Copy, Clone, Eq, PartialEq, Debug, Structural)]
pub enum FilterOp {
    /// Unpark the thread and continue scanning the list of parked threads.
    Unpark,
    /// Don't unpark the thread and continue scanning the list of parked threads.
    Skip,
    /// Don't unpark the thread and stop scanning the list of parked threads.
    Stop,
}

/// A thread that is to be woken up, and the token that it is handed.
#[derive(Copy, Clone, Eq, PartialEq, Debug, Structural)]
pub struct Wake {
    /// The thread to wake up.
    pub thread: usize,
    /// The token passed to it.
    pub token: UnparkToken,
}

/// What an operation that wakes up at most one thread hands to the holder of the bucket lock.
#[derive(Copy, Clone, Eq, PartialEq, Debug, Structural)]
pub struct Unparked {
    /// The result of the operation.
    pub result: UnparkResult,
    /// The thread to wake up once the bucket is unlocked.
    pub wake: Option<Wake>,
}

/// What [`Bucket::unpark_filter`](crate::lot::bucket::Bucket::unpark_filter) hands to the holder
/// of the bucket lock.
pub struct Filtered {
    /// The result of the operation.
    pub result: UnparkResult,
    /// The threads to wake up once the bucket is unlocked.
    pub threads: Vec<usize>,
    /// The token passed to each of them.
    pub token: UnparkToken,
}

/// What [`Bucket::unpark_all`](crate::lot::bucket::Bucket::unpark_all) hands to the holder of the
/// bucket lock.
pub struct AllUnparked {
    /// The threads to wake up once the bucket is unlocked.
    pub threads: Vec<usize>,
    /// The token passed to each of them.
    pub token: UnparkToken,
}

} // verus!
