//! What lock guards carry.

use vstd::prelude::*;

verus! {

/// Shared guard access to `T`.
///
/// It can be moved to and shared with other threads where `T` can be shared.
pub struct SharedGuardData<'a, T: ?Sized>(&'a T);

impl<'a, T: ?Sized> SharedGuardData<'a, T> {
    /// What is guarded.
    pub closed spec fn view(&self) -> &'a T {
        self.0
    }

    /// Guards shared access to `data`.
    pub fn new(data: &'a T) -> (r: Self)
        ensures
            r@ == data,
    {
        SharedGuardData(data)
    }

    /// Accesses what is guarded.
    pub fn as_ref(&self) -> (r: &T)
        ensures
            r == self@,
    {
        self.0
    }
}

/// Exclusive guard access to `T`.
///
/// It can be moved to other threads where `T` can be moved, and shared with them where `T` can
/// be shared.
pub struct ExclusiveGuardData<'a, T>(pub &'a mut T);

impl<'a, T> ExclusiveGuardData<'a, T> {
    /// What is guarded, as it is now.
    pub open spec fn view(&self) -> T {
        *self.0
    }

    /// Guards exclusive access to `data`.
    pub fn new(data: &'a mut T) -> (r: Self)
        ensures
            r@ == *old(data),
            *final(r.0) == *final(data),
    {
        ExclusiveGuardData(data)
    }

    /// Accesses what is guarded.
    pub fn as_ref(&self) -> (r: &T)
        ensures
            *r == self@,
    {
        &*self.0
    }

    /// Accesses what is guarded, to change it.
    pub fn as_mut(&mut self) -> (r: &mut T)
        ensures
            *r == old(self)@,
            final(self)@ == *final(r),
            *final(final(self).0) == *final(old(self).0),
    {
        &mut *self.0
    }
}

} // verus!
