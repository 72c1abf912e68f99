//! The guard of a spin lock.
//!
//! It has a record of its own for what is done as it is dropped. Only this module
//! can use it.
use vstd::prelude::*;

use super::protocol::Stage;
use super::SpinLock;
use crate::journal::Standing;
use crate::memory::{follows, Event};
use crate::shared::{FlagJournal, FlagSite};

verus! {

/// The right to the data that a [`SpinLock`] protects.
///
/// When it is dropped, the data go back and the lock is released.
#[verifier::reject_recursive_types(T)]
pub struct Guard<'a, K, T> {
    lock: &'a SpinLock<K, T>,
    data: Option<T>,
    journal: FlagJournal<K, T>,
}

impl<'a, K, T> View for Guard<'a, K, T> {
    type V = T;

    /// The data.
    closed spec fn view(&self) -> T {
        self.data->0
    }
}

impl<'a, K, T> Guard<'a, K, T> {
    /// Whether the lock is still held through this guard. It is until the guard
    /// is dropped.
    pub closed spec fn holds(self) -> bool {
        self.data is Some
    }

    /// The lock that is held.
    pub closed spec fn lock(self) -> SpinLock<K, T> {
        *self.lock
    }

    /// What was done as the guard was dropped.
    pub closed spec fn record(self) -> Seq<Event<FlagSite<K, T>, bool, T>> {
        self.journal@
    }

    /// Which record that is.
    pub closed spec fn standing(self) -> Standing {
        self.journal.standing()
    }

    /// Whether this is a guard that holds `lock` and that nothing was done with.
    pub open spec fn is_new(self, lock: SpinLock<K, T>) -> bool {
        &&& self.holds()
        &&& self.lock() == lock
        &&& self.record() == Seq::<Event<FlagSite<K, T>, bool, T>>::empty()
    }

    pub(super) fn new(lock: &'a SpinLock<K, T>, data: T, journal: FlagJournal<K, T>) -> (guard:
        Self)
        ensures
            guard.holds(),
            guard@ == data,
            guard.lock() == *lock,
            guard.record() == journal@,
            guard.standing() == journal.standing(),
    {
        Guard { lock, data: Some(data), journal }
    }

    /// Releases the lock, unless that was done.
    pub(super) fn release(&mut self, journal: &mut FlagJournal<K, T>)
        ensures
            old(self).holds() ==> follows(
                Stage::Return(old(self)@),
                old(self).lock().site(),
                old(journal)@,
                final(journal)@,
                if final(self).holds() {
                    Stage::Held(final(self)@)
                } else {
                    Stage::Released
                },
            ),
            final(self).holds() ==> old(self).holds() && final(self)@ == old(self)@,
            !old(self).holds() ==> final(journal)@ == old(journal)@,
            final(self).lock() == old(self).lock(),
            final(self).record() == old(self).record(),
            final(self).standing() == old(self).standing(),
            final(journal).standing() == old(journal).standing(),
    {
        let mut data: Option<T> = None;
        core::mem::swap(&mut self.data, &mut data);
        if let Some(data) = data {
            self.data = self.lock.give_back(data, journal);
        }
    }

    /// The data.
    pub fn deref(&self) -> (data: &T)
        requires
            self.holds(),
        ensures
            *data == self@,
    {
        match &self.data {
            Some(data) => data,
            None => vstd::pervasive::unreached(),
        }
    }

    /// The data, to be changed.
    pub fn deref_mut(&mut self) -> (data: &mut T)
        requires
            old(self).holds(),
        ensures
            *data == old(self)@,
            final(self)@ == *final(data),
            final(self).holds(),
            final(self).lock() == old(self).lock(),
            final(self).record() == old(self).record(),
            final(self).standing() == old(self).standing(),
    {
        match &mut self.data {
            Some(data) => data,
            None => vstd::pervasive::unreached(),
        }
    }
}

impl<'a, K, T> Drop for Guard<'a, K, T> {
    /// Releases the lock, unless that was done.
    fn drop(&mut self)
        ensures
            final(self).lock() == old(self).lock(),
            final(self).standing() == old(self).standing(),
            old(self).holds() ==> follows(
                Stage::Return(old(self)@),
                old(self).lock().site(),
                old(self).record(),
                final(self).record(),
                if final(self).holds() {
                    Stage::Held(final(self)@)
                } else {
                    Stage::Released
                },
            ),
            !old(self).holds() ==> !final(self).holds() && final(self).record() == old(
                self,
            ).record(),
        opens_invariants none
        no_unwind
    {
        let mut data: Option<T> = None;
        core::mem::swap(&mut self.data, &mut data);
        if let Some(data) = data {
            self.data = self.lock.give_back(data, &mut self.journal);
        }
    }
}

} // verus!
