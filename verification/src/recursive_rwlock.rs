//! A reader-writer lock which permits recursive read locking.

use vstd::prelude::*;

verus! {

/// A reader-writer lock which permits recursive read locking.
///
/// This type of lock allows a number of readers or at most one writer at any point in time.
/// Readers are allowed to acquire the lock even when writers are waiting. This guarantees that a
/// thread which already holds a read lock can acquire another one without deadlocking, at the
/// cost of allowing writers to starve.
///
/// One of the readers may be upgradable: it can become the writer without letting go of the lock.
pub struct RecursiveRwLock<T> {
    readers: usize,
    upgradable: bool,
    writer: bool,
    parked_writers: usize,
    data: T,
}

/// Who holds a lock, and who waits for it.
pub struct Holders {
    /// How many readers there are besides the upgradable one.
    pub readers: nat,
    /// Whether there is an upgradable reader.
    pub upgradable: bool,
    /// Whether there is a writer.
    pub writer: bool,
    /// How many writers are waiting.
    pub parked_writers: nat,
}

impl Holders {
    /// Whether there are readers or a writer, but not both.
    pub open spec fn wf(self) -> bool {
        self.writer ==> self.readers == 0 && !self.upgradable
    }

    /// Whether another reader is let in.
    pub open spec fn admits_reader(self) -> bool {
        !self.writer
    }

    /// Whether an upgradable reader is let in.
    pub open spec fn admits_upgradable(self) -> bool {
        !self.writer && !self.upgradable
    }

    /// Whether a writer is let in.
    pub open spec fn admits_writer(self) -> bool {
        !self.writer && !self.upgradable && self.readers == 0
    }

    /// Whether the upgradable reader can become the writer.
    pub open spec fn admits_upgrade(self) -> bool {
        self.upgradable && self.readers == 0
    }
}

impl<T> RecursiveRwLock<T> {
    /// Who holds the lock, and who waits for it.
    pub closed spec fn view(&self) -> Holders {
        Holders {
            readers: self.readers as nat,
            upgradable: self.upgradable,
            writer: self.writer,
            parked_writers: self.parked_writers as nat,
        }
    }

    /// The protected data.
    pub closed spec fn contents(&self) -> T {
        self.data
    }

    /// Creates a new unlocked lock.
    pub fn new(data: T) -> (r: RecursiveRwLock<T>)
        ensures
            r@.wf(),
            r@ == (Holders { readers: 0, upgradable: false, writer: false, parked_writers: 0 }),
            r.contents() == data,
    {
        RecursiveRwLock { readers: 0, upgradable: false, writer: false, parked_writers: 0, data }
    }

    /// Attempts to acquire shared access, and returns whether it has.
    pub fn try_read(&mut self) -> (r: bool)
        requires
            old(self)@.wf(),
            old(self)@.readers < usize::MAX,
        ensures
            final(self)@.wf(),
            final(self).contents() == old(self).contents(),
            r == old(self)@.admits_reader(),
            final(self)@ == if r {
                Holders { readers: old(self)@.readers + 1, ..old(self)@ }
            } else {
                old(self)@
            },
    {
        if self.writer {
            return false;
        }
        self.readers = self.readers + 1;
        true
    }

    /// Attempts to acquire upgradable access, and returns whether it has.
    pub fn try_upgradable_read(&mut self) -> (r: bool)
        requires
            old(self)@.wf(),
        ensures
            final(self)@.wf(),
            final(self).contents() == old(self).contents(),
            r == old(self)@.admits_upgradable(),
            final(self)@ == if r {
                Holders { upgradable: true, ..old(self)@ }
            } else {
                old(self)@
            },
    {
        if self.writer || self.upgradable {
            return false;
        }
        self.upgradable = true;
        true
    }

    /// Attempts to acquire exclusive access, and returns whether it has.
    pub fn try_write(&mut self) -> (r: bool)
        requires
            old(self)@.wf(),
        ensures
            final(self)@.wf(),
            final(self).contents() == old(self).contents(),
            r == old(self)@.admits_writer(),
            final(self)@ == if r {
                Holders { writer: true, ..old(self)@ }
            } else {
                old(self)@
            },
    {
        if self.writer || self.upgradable || self.readers != 0 {
            return false;
        }
        self.writer = true;
        true
    }

    /// Attempts to turn upgradable access into exclusive access, and returns whether it has.
    pub fn try_upgrade(&mut self) -> (r: bool)
        requires
            old(self)@.wf(),
            old(self)@.upgradable,
        ensures
            final(self)@.wf(),
            final(self).contents() == old(self).contents(),
            r == old(self)@.admits_upgrade(),
            final(self)@ == if r {
                Holders { upgradable: false, writer: true, ..old(self)@ }
            } else {
                old(self)@
            },
    {
        if self.readers != 0 {
            return false;
        }
        self.upgradable = false;
        self.writer = true;
        true
    }

    /// Releases shared access.
    pub fn unlock_read(&mut self)
        requires
            old(self)@.wf(),
            old(self)@.readers > 0,
        ensures
            final(self)@.wf(),
            final(self).contents() == old(self).contents(),
            final(self)@ == (Holders { readers: (old(self)@.readers - 1) as nat, ..old(self)@ }),
    {
        self.readers = self.readers - 1;
    }

    /// Releases upgradable access.
    pub fn unlock_upgradable(&mut self)
        requires
            old(self)@.wf(),
            old(self)@.upgradable,
        ensures
            final(self)@.wf(),
            final(self).contents() == old(self).contents(),
            final(self)@ == (Holders { upgradable: false, ..old(self)@ }),
    {
        self.upgradable = false;
    }

    /// Releases exclusive access.
    pub fn unlock_write(&mut self)
        requires
            old(self)@.wf(),
            old(self)@.writer,
        ensures
            final(self)@.wf(),
            final(self).contents() == old(self).contents(),
            final(self)@ == (Holders { writer: false, ..old(self)@ }),
    {
        self.writer = false;
    }

    /// Takes note of a writer that waits.
    pub fn park_writer(&mut self)
        requires
            old(self)@.parked_writers < usize::MAX,
        ensures
            final(self).contents() == old(self).contents(),
            final(self)@ == (Holders {
                parked_writers: old(self)@.parked_writers + 1,
                ..old(self)@
            }),
    {
        self.parked_writers = self.parked_writers + 1;
    }

    /// Takes note of a writer that waits no longer.
    pub fn unpark_writer(&mut self)
        requires
            old(self)@.parked_writers > 0,
        ensures
            final(self).contents() == old(self).contents(),
            final(self)@ == (Holders {
                parked_writers: (old(self)@.parked_writers - 1) as nat,
                ..old(self)@
            }),
    {
        self.parked_writers = self.parked_writers - 1;
    }

    /// Whether any writer waits.
    pub fn has_parked_threads(&self) -> (r: bool)
        ensures
            r == (self@.parked_writers > 0),
    {
        self.parked_writers > 0
    }

    /// Accesses the data. The caller must have access.
    pub fn data(&self) -> (r: &T)
        requires
            self@.writer || self@.upgradable || self@.readers > 0,
        ensures
            *r == self.contents(),
    {
        &self.data
    }

    /// Accesses the data, to change it. The caller must have exclusive access.
    pub fn data_mut(&mut self) -> (r: &mut T)
        requires
            old(self)@.writer,
        ensures
            *r == old(self).contents(),
            final(self).contents() == *final(r),
            final(self)@ == old(self)@,
    {
        &mut self.data
    }
}

/// Readers are allowed to acquire the lock even when writers are waiting.
pub proof fn law_waiting_writers_do_not_block_readers(holders: Holders, parked_writers: nat)
    ensures
        (Holders { parked_writers, ..holders }).admits_reader() == holders.admits_reader(),
{
}

/// A thread which already holds a read lock can acquire another one.
pub proof fn law_reading_is_recursive(holders: Holders)
    requires
        holders.wf(),
        holders.readers > 0 || holders.upgradable,
    ensures
        holders.admits_reader(),
{
}

/// There is never more than one writer or upgradable reader: while there is one, no other is let
/// in, and while there is a writer nobody is.
pub proof fn law_writers_exclude(holders: Holders)
    requires
        holders.wf(),
    ensures
        holders.upgradable ==> !holders.admits_writer() && !holders.admits_upgradable(),
        holders.writer ==> !holders.admits_writer() && !holders.admits_upgradable()
            && !holders.admits_reader(),
        holders.readers > 0 ==> !holders.admits_writer() && !holders.admits_upgrade(),
{
}

/// A lock that nobody holds lets anybody in, however many writers wait.
pub proof fn law_free_lock_lets_anybody_in(holders: Holders)
    requires
        holders.readers == 0,
        !holders.upgradable,
        !holders.writer,
    ensures
        holders.admits_reader(),
        holders.admits_upgradable(),
        holders.admits_writer(),
{
}

/// Only a writer keeps readers out, and only a writer or another one keeps an upgradable reader
/// out: whoever else holds the lock or waits for it does not matter to them. The upgradable
/// reader has to wait for the other readers, and for nobody else, to become the writer.
pub proof fn law_who_keeps_whom_out(holders: Holders, readers: nat, parked_writers: nat)
    requires
        !holders.writer,
    ensures
        holders.admits_reader(),
        (Holders { readers, parked_writers, ..holders }).admits_upgradable()
            <==> !holders.upgradable,
        (Holders { readers, parked_writers, ..holders }).admits_writer() <==> !holders.upgradable
            && readers == 0,
        (Holders { readers, parked_writers, upgradable: true, ..holders }).admits_upgrade()
            <==> readers == 0,
{
}

} // verus!
