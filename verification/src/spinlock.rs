//! A mutual exclusion primitive based on spinning.
use vstd::prelude::*;

use crate::memory::{follows, group_follows, Memory};
use crate::shared::{FlagJournal, FlagSite};

mod guard;
pub mod laws;
pub mod protocol;
pub mod records;

pub use guard::Guard;

use protocol::{acquire, again, Stage, Strategy};

verus! {

broadcast use group_follows;

/// A lock that protects data, for which threads spin.
///
/// The flag tracks whether the lock is held. The data are in the cell while the
/// lock is free and in the [`Guard`] while it is held.
#[verifier::reject_recursive_types(T)]
pub struct SpinLock<K, T> {
    site: FlagSite<K, T>,
}

impl<K, T> SpinLock<K, T> {
    /// The flag and the cell.
    pub closed spec fn site(self) -> FlagSite<K, T> {
        self.site
    }

    /// Makes a lock that protects `data` and is free.
    pub fn new(data: T) -> (lock: Self)
        ensures
            lock.site().origin() == Memory::initial(false, Some(data)),
    {
        SpinLock { site: FlagSite::new(false, Some(data)) }
    }

    /// Acquires the lock, spinning for at most `rounds` rounds until it becomes
    /// available.
    ///
    /// Each round looks at the flag with a plain load, which leaves the cache
    /// line shared, and tries to set the flag only if it looks free. Returns a
    /// [`Guard`], which releases the lock when it is dropped, or `None` if the
    /// rounds are used up.
    pub fn lock(&self, rounds: u64, journal: &mut FlagJournal<K, T>) -> (guard: Option<
        Guard<'_, K, T>,
    >)
        ensures
            follows(
                acquire(Strategy::TestFirst, rounds as nat),
                self.site(),
                old(journal)@,
                final(journal)@,
                match guard {
                    Some(guard) => Stage::Held(guard@),
                    None => Stage::GaveUp,
                },
            ),
            guard matches Some(guard) ==> guard.is_new(*self),
            guard matches Some(guard) ==> guard.standing() == old(journal).standing().child(
                (final(journal)@.len() - 1) as nat,
            ),
            final(journal).standing() == old(journal).standing(),
            rounds == 0 ==> guard is None,
    {
        let ghost start = acquire::<T>(Strategy::TestFirst, rounds as nat);
        let mut left: u64 = rounds;
        assert(follows(start, self.site, journal@, journal@, start));
        while left > 0
            invariant
                left <= rounds,
                start == acquire::<T>(Strategy::TestFirst, rounds as nat),
                follows(
                    start,
                    self.site,
                    old(journal)@,
                    journal@,
                    again(Strategy::TestFirst, left as nat),
                ),
                journal.standing() == old(journal).standing(),
            decreases left,
        {
            left = left - 1;
            // Look at the flag without trying to write to it.
            if self.site.load_relaxed(journal) {
                self.site.spin_hint(journal);
                continue;
            }
            // Try to set it, now that it looks free.
            if self.site.compare_exchange_weak(false, true, journal).is_err() {
                self.site.spin_hint(journal);
                continue;
            }
            return self.enter(journal);
        }
        None
    }

    /// Acquires the lock on the assumption that it is likely to be free,
    /// spinning for at most `rounds` rounds.
    ///
    /// Tries to set the flag at once. If the lock is held, that costs the other
    /// processors their cache lines for nothing; only then does it fall back to
    /// looking at the flag until it seems free again. A round is an attempt to
    /// set the flag that fails or a look that finds it set.
    pub fn optimistic_lock(&self, rounds: u64, journal: &mut FlagJournal<K, T>) -> (guard: Option<
        Guard<'_, K, T>,
    >)
        ensures
            follows(
                acquire(Strategy::Optimistic, rounds as nat),
                self.site(),
                old(journal)@,
                final(journal)@,
                match guard {
                    Some(guard) => Stage::Held(guard@),
                    None => Stage::GaveUp,
                },
            ),
            guard matches Some(guard) ==> guard.is_new(*self),
            guard matches Some(guard) ==> guard.standing() == old(journal).standing().child(
                (final(journal)@.len() - 1) as nat,
            ),
            final(journal).standing() == old(journal).standing(),
            rounds == 0 ==> guard is None,
    {
        let ghost start = acquire::<T>(Strategy::Optimistic, rounds as nat);
        let mut left: u64 = rounds;
        assert(follows(start, self.site, journal@, journal@, start));
        while left > 0
            invariant
                left <= rounds,
                start == acquire::<T>(Strategy::Optimistic, rounds as nat),
                follows(
                    start,
                    self.site,
                    old(journal)@,
                    journal@,
                    acquire(Strategy::Optimistic, left as nat),
                ),
                journal.standing() == old(journal).standing(),
            decreases left,
        {
            let ghost before_round = left;
            left = left - 1;
            // Assume that the lock is free.
            if self.site.compare_exchange_weak(false, true, journal).is_ok() {
                return self.enter(journal);
            }
            // Do nothing but look until it seems to be.
            let mut held = true;
            while held && left > 0
                invariant
                    left < before_round <= rounds,
                    !held ==> left > 0,
                    follows(
                        start,
                        self.site,
                        old(journal)@,
                        journal@,
                        if held {
                            again(Strategy::Optimistic, left as nat)
                        } else {
                            acquire(Strategy::Optimistic, left as nat)
                        },
                    ),
                    journal.standing() == old(journal).standing(),
                decreases left, held as int,
            {
                held = self.site.load_relaxed(journal);
                if held {
                    left = left - 1;
                    self.site.spin_hint(journal);
                }
            }
        }
        None
    }

    /// Moves the data into a guard, once the flag is set. Clears the flag if they
    /// cannot be had.
    fn enter(&self, journal: &mut FlagJournal<K, T>) -> (guard: Option<Guard<'_, K, T>>)
        ensures
            follows(
                Stage::Fetch,
                self.site(),
                old(journal)@,
                final(journal)@,
                match guard {
                    Some(guard) => Stage::Held(guard@),
                    None => Stage::GaveUp,
                },
            ),
            guard matches Some(guard) ==> guard.is_new(*self),
            guard matches Some(guard) ==> guard.standing() == old(journal).standing().child(
                (final(journal)@.len() - 1) as nat,
            ),
            final(journal).standing() == old(journal).standing(),
    {
        assert(follows(Stage::<T>::Fetch, self.site, journal@, journal@, Stage::Fetch));
        match self.site.take(journal) {
            Some(Some(data)) => {
                let own = journal.split(&self.site);
                Some(Guard::new(self, data, own))
            },
            _ => {
                self.site.store_release(false, journal);
                None
            },
        }
    }

    /// Moves the data back and releases the lock, or returns the data if another
    /// thread is at the cell.
    fn give_back(&self, data: T, journal: &mut FlagJournal<K, T>) -> (kept: Option<T>)
        ensures
            follows(
                Stage::Return(data),
                self.site(),
                old(journal)@,
                final(journal)@,
                match kept {
                    Some(kept) => Stage::Held(kept),
                    None => Stage::Released,
                },
            ),
            kept matches Some(kept) ==> kept == data,
            final(journal).standing() == old(journal).standing(),
        opens_invariants none
        no_unwind
    {
        let ghost start = Stage::Return(data);
        assert(follows(start, self.site, journal@, journal@, start));
        match self.site.put(data, journal) {
            Ok(()) => {
                // Release ordering makes all changes of the data visible to the
                // next thread that acquires the lock.
                self.site.store_release(false, journal);
                None
            },
            Err(data) => Some(data),
        }
    }

    /// Returns `true` if the lock is currently held by a thread.
    ///
    /// That may have changed by the time the caller looks at the answer.
    pub fn is_locked(&self, journal: &mut FlagJournal<K, T>) -> (held: bool)
        ensures
            follows(
                Stage::Ask,
                self.site(),
                old(journal)@,
                final(journal)@,
                Stage::<T>::Answer(held),
            ),
            final(journal).standing() == old(journal).standing(),
    {
        assert(follows(Stage::<T>::Ask, self.site, journal@, journal@, Stage::Ask));
        self.site.load_relaxed(journal)
    }
}

impl<K, T> From<T> for SpinLock<K, T> {
    /// Makes a lock that protects `data` and is free.
    fn from(data: T) -> (lock: Self)
        ensures
            lock.site().origin() == Memory::initial(false, Some(data)),
    {
        SpinLock::new(data)
    }
}

impl<K, T> vstd::std_specs::convert::FromSpecImpl<T> for SpinLock<K, T> {
    open spec fn obeys_from_spec() -> bool {
        false
    }

    open spec fn from_spec(data: T) -> Self {
        arbitrary()
    }
}

impl<'a, K, T> Guard<'a, K, T> {
    /// Releases the lock at once.
    ///
    /// Letting the guard fall out of scope does the same.
    pub fn unlock(self, journal: &mut FlagJournal<K, T>)
        requires
            self.holds(),
        ensures
            ({
                let site = self.lock().site();
                let start = Stage::Return(self@);
                ||| follows(start, site, old(journal)@, final(journal)@, Stage::Released)
                ||| follows(start, site, old(journal)@, final(journal)@, Stage::Held(self@))
            }),
            final(journal).standing() == old(journal).standing(),
    {
        let mut guard = self;
        guard.release(journal);
    }
}

} // verus!
