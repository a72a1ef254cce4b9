//! The threads that an operation is going to wake up.

use smallvec::SmallVec;
use vstd::prelude::*;

verus! {

/// A list of threads which is kept inline while it is short.
#[verifier::external_body]
pub struct ThreadList {
    inner: SmallVec<[usize; 8]>,
}

/// The threads that a list holds, in the order in which they were added.
pub uninterp spec fn listed(list: ThreadList) -> Seq<usize>;

/// How long a list may be for another thread to be added to it: a list of that length still
/// grows to a size that can be allocated.
pub open spec fn has_room(list: Seq<usize>) -> bool {
    list.len() <= usize::MAX / 32
}

impl ThreadList {
    /// `SmallVec::new`: an empty list.
    #[verifier::external_body]
    pub(crate) fn new() -> (r: ThreadList)
        ensures
            listed(r) == Seq::<usize>::empty(),
    {
        ThreadList { inner: SmallVec::new() }
    }

    /// `SmallVec::push`: appends a thread to the back of the list.
    #[verifier::external_body]
    pub(crate) fn push(&mut self, thread: usize)
        requires
            has_room(listed(*old(self))),
        ensures
            listed(*final(self)) == listed(*old(self)).push(thread),
    {
        self.inner.push(thread);
    }

    /// `SmallVec::len`: the number of threads in the list.
    #[verifier::external_body]
    pub(crate) fn len(&self) -> (r: usize)
        ensures
            r == listed(*self).len(),
    {
        self.inner.len()
    }

    /// `SmallVec::into_vec`: the same threads, in the same order, as a vector.
    #[verifier::external_body]
    pub(crate) fn into_vec(self) -> (r: Vec<usize>)
        ensures
            r@ == listed(self),
    {
        self.inner.into_vec()
    }
}

} // verus!
