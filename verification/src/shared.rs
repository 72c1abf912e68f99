//! A site that threads share: an atomic word or flag, and a cell for a value.
//!
//! All calls into code that is not verified stand here. Each of them that touches
//! a site adds what it did to a record.
use core::marker::PhantomData;
use core::sync::atomic::{AtomicBool, AtomicU32, Ordering};
use std::sync::{Mutex, MutexGuard, TryLockError};

use vstd::prelude::*;

use crate::journal::{Journal, Standing};
use crate::memory::{Event, Memory, Op, Order};

verus! {

/// [`Mutex`], of which nothing is known but its type.
#[verifier::external_type_specification]
#[verifier::external_body]
#[verifier::reject_recursive_types(T)]
pub struct ExMutex<T: ?Sized>(Mutex<T>);

/// [`MutexGuard`], of which nothing is known but its type.
#[verifier::external_type_specification]
#[verifier::external_body]
#[verifier::reject_recursive_types(T)]
pub struct ExMutexGuard<'a, T: ?Sized + 'a>(MutexGuard<'a, T>);

/// An atomic integer on which threads can wait.
pub struct Word {
    inner: AtomicU32,
    origin: Ghost<u32>,
}

impl Word {
    /// The integer that the word was made with.
    pub closed spec fn origin(self) -> u32 {
        self.origin@
    }
}

/// Calls [`AtomicU32::new`], which makes an atomic that holds `value`.
#[verifier::external_body]
fn new_word(value: u32) -> (word: Word)
    ensures
        word.origin() == value,
{
    Word { inner: AtomicU32::new(value), origin: Ghost(value) }
}

/// An atomic boolean.
pub struct Flag {
    inner: AtomicBool,
    origin: Ghost<bool>,
}

impl Flag {
    /// The boolean that the flag was made with.
    pub closed spec fn origin(self) -> bool {
        self.origin@
    }
}

/// Calls [`AtomicBool::new`], which makes an atomic that holds `value`.
#[verifier::external_body]
fn new_flag(value: bool) -> (flag: Flag)
    ensures
        flag.origin() == value,
{
    Flag { inner: AtomicBool::new(value), origin: Ghost(value) }
}

/// A cell for a value, which threads put in and take out.
///
/// The word or flag beside a cell says which thread may touch it, so the mutex
/// in it is there for the compiler: it is never found locked.
#[verifier::reject_recursive_types(T)]
pub struct Exchange<T> {
    inner: Mutex<Option<T>>,
    origin: Ghost<Option<T>>,
}

impl<T> Exchange<T> {
    /// What the cell was made with.
    pub closed spec fn origin(self) -> Option<T> {
        self.origin@
    }
}

/// Calls [`Mutex::new`], which makes a mutex around `value`.
#[verifier::external_body]
fn new_cell<T>(value: Option<T>) -> (cell: Exchange<T>)
    ensures
        cell.origin() == value,
{
    Exchange { origin: Ghost(value), inner: Mutex::new(value) }
}

/// A word or flag, and the cell beside it. Operations on it go to records of the
/// key type `K`.
#[verifier::reject_recursive_types(T)]
pub struct Site<K, A, T> {
    word: A,
    cell: Exchange<T>,
    key: PhantomData<K>,
}

/// What a channel is made of.
pub type WordSite<K, T> = Site<K, Word, T>;

/// What a lock is made of.
pub type FlagSite<K, T> = Site<K, Flag, T>;

/// A record of what is done to channels.
pub type WordJournal<K, T> = Journal<K, WordSite<K, T>, u32, T>;

/// A record of what is done to locks.
pub type FlagJournal<K, T> = Journal<K, FlagSite<K, T>, bool, T>;

impl<K, A, T> Site<K, A, T> {
    /// The word or flag.
    pub closed spec fn word(self) -> A {
        self.word
    }

    /// The cell beside it.
    pub closed spec fn cell(self) -> Exchange<T> {
        self.cell
    }
}

/// A site begins with what its word, or its flag, and its cell were made with.
pub proof fn law_site_begins_as_made<K, T>(channel: WordSite<K, T>, lock: FlagSite<K, T>)
    ensures
        channel.origin().word == channel.word().origin(),
        channel.origin().cell == channel.cell().origin(),
        lock.origin().word == lock.word().origin(),
        lock.origin().cell == lock.cell().origin(),
{
}

impl<K, T> Site<K, Word, T> {
    /// The word and the cell as the site was made.
    pub closed spec fn origin(self) -> Memory<u32, T> {
        Memory::initial(self.word.origin(), self.cell.origin())
    }

    /// A site whose word and cell hold this.
    pub fn new(word: u32, cell: Option<T>) -> (site: Self)
        ensures
            site.origin() == Memory::initial(word, cell),
    {
        Site { word: new_word(word), cell: new_cell(cell), key: PhantomData }
    }

    /// Calls [`AtomicU32::load`] with acquire ordering, which does not panic, and
    /// records what it returned. That is up to the other threads.
    #[verifier::external_body]
    pub(crate) fn load_acquire(&self, journal: &mut WordJournal<K, T>) -> (value: u32)
        ensures
            final(journal).standing() == old(journal).standing(),
            final(journal)@ == old(journal)@.push(
                Event { site: *self, op: Op::Load { order: Order::Acquire, value } },
            ),
    {
        self.word.inner.load(Ordering::Acquire)
    }

    /// Calls [`AtomicU32::store`] and records it. It panics on acquire ordering.
    #[verifier::external_body]
    pub(crate) fn store(&self, value: u32, order: Order, journal: &mut WordJournal<K, T>)
        requires
            !(order is Acquire),
        ensures
            final(journal).standing() == old(journal).standing(),
            final(journal)@ == old(journal)@.push(
                Event { site: *self, op: Op::Store { order, value } },
            ),
    {
        let order = match order {
            Order::Relaxed => Ordering::Relaxed,
            Order::Acquire => Ordering::Acquire,
            Order::Release => Ordering::Release,
        };
        self.word.inner.store(value, order)
    }

    /// Calls [`AtomicU32::compare_exchange`] with relaxed orderings, which does
    /// not panic, and records it. It stores `new` if the word holds `current` and
    /// returns what the word held, as `Ok` if it stored and as `Err` if not.
    #[verifier::external_body]
    pub(crate) fn compare_exchange(
        &self,
        current: u32,
        new: u32,
        journal: &mut WordJournal<K, T>,
    ) -> (result: Result<u32, u32>)
        ensures
            final(journal).standing() == old(journal).standing(),
            match result {
                Ok(seen) => seen == current,
                Err(seen) => seen != current,
            },
            final(journal)@ == old(journal)@.push(
                Event {
                    site: *self,
                    op: Op::CompareExchange {
                        weak: false,
                        current,
                        new,
                        success: Order::Relaxed,
                        failure: Order::Relaxed,
                        result,
                    },
                },
            ),
        opens_invariants none
        no_unwind
    {
        self.word.inner.compare_exchange(current, new, Ordering::Relaxed, Ordering::Relaxed)
    }

    /// Calls [`atomic_wait::wait`] and records it. It suspends the thread if the
    /// word holds `value`, and returns when the thread is woken up, when the word
    /// holds something else, or for no reason at all; so nothing is known of the
    /// word afterwards.
    #[verifier::external_body]
    pub(crate) fn wait(&self, value: u32, journal: &mut WordJournal<K, T>)
        ensures
            final(journal).standing() == old(journal).standing(),
            final(journal)@ == old(journal)@.push(Event { site: *self, op: Op::Wait { value } }),
    {
        atomic_wait::wait(&self.word.inner, value)
    }

    /// Calls [`atomic_wait::wake_one`] and records it. It wakes up one thread that
    /// waits on the word, if there is one, and does not panic.
    #[verifier::external_body]
    pub(crate) fn wake_one(&self, journal: &mut WordJournal<K, T>)
        ensures
            final(journal).standing() == old(journal).standing(),
            final(journal)@ == old(journal)@.push(Event { site: *self, op: Op::WakeOne }),
        opens_invariants none
        no_unwind
    {
        atomic_wait::wake_one(&self.word.inner)
    }
}

impl<K, T> Site<K, Flag, T> {
    /// The flag and the cell as the site was made.
    pub closed spec fn origin(self) -> Memory<bool, T> {
        Memory::initial(self.word.origin(), self.cell.origin())
    }

    /// A site whose flag and cell hold this.
    pub fn new(flag: bool, cell: Option<T>) -> (site: Self)
        ensures
            site.origin() == Memory::initial(flag, cell),
    {
        Site { word: new_flag(flag), cell: new_cell(cell), key: PhantomData }
    }

    /// Calls [`AtomicBool::load`] with relaxed ordering, which does not panic, and
    /// records what it returned. That is up to the other threads.
    #[verifier::external_body]
    pub(crate) fn load_relaxed(&self, journal: &mut FlagJournal<K, T>) -> (value: bool)
        ensures
            final(journal).standing() == old(journal).standing(),
            final(journal)@ == old(journal)@.push(
                Event { site: *self, op: Op::Load { order: Order::Relaxed, value } },
            ),
    {
        self.word.inner.load(Ordering::Relaxed)
    }

    /// Calls [`AtomicBool::compare_exchange_weak`] with acquire ordering on success
    /// and relaxed ordering on failure, which does not panic, and records it. It
    /// stores `new` if the flag holds `current`, but may also fail for no reason,
    /// and returns what the flag held, as `Ok` if it stored and as `Err` if not.
    #[verifier::external_body]
    pub(crate) fn compare_exchange_weak(
        &self,
        current: bool,
        new: bool,
        journal: &mut FlagJournal<K, T>,
    ) -> (result: Result<bool, bool>)
        ensures
            final(journal).standing() == old(journal).standing(),
            result matches Ok(seen) ==> seen == current,
            final(journal)@ == old(journal)@.push(
                Event {
                    site: *self,
                    op: Op::CompareExchange {
                        weak: true,
                        current,
                        new,
                        success: Order::Acquire,
                        failure: Order::Relaxed,
                        result,
                    },
                },
            ),
    {
        self.word.inner.compare_exchange_weak(current, new, Ordering::Acquire, Ordering::Relaxed)
    }

    /// Calls [`AtomicBool::store`] with release ordering, which does not panic, and
    /// records it.
    #[verifier::external_body]
    pub(crate) fn store_release(&self, value: bool, journal: &mut FlagJournal<K, T>)
        ensures
            final(journal).standing() == old(journal).standing(),
            final(journal)@ == old(journal)@.push(
                Event { site: *self, op: Op::Store { order: Order::Release, value } },
            ),
        opens_invariants none
        no_unwind
    {
        self.word.inner.store(value, Ordering::Release)
    }

    /// Calls [`core::hint::spin_loop`], which tells the processor that the thread
    /// spins, and records it.
    #[verifier::external_body]
    pub(crate) fn spin_hint(&self, journal: &mut FlagJournal<K, T>)
        ensures
            final(journal).standing() == old(journal).standing(),
            final(journal)@ == old(journal)@.push(Event { site: *self, op: Op::SpinHint }),
    {
        core::hint::spin_loop()
    }
}

/// The right to one access to the cell of a site.
#[verifier::reject_recursive_types(T)]
struct Access<'a, K, A, T> {
    guard: MutexGuard<'a, Option<T>>,
    site: &'a Site<K, A, T>,
}

impl<'a, K, A, T> Access<'a, K, A, T> {
    /// The site whose cell it is.
    spec fn site(self) -> Site<K, A, T> {
        *self.site
    }

    /// Calls [`Option::replace`] on what the mutex holds, and records it. What
    /// was there before is up to the other threads. The mutex is unlocked, and the
    /// record has one cell less open.
    #[verifier::external_body]
    fn put<W>(self, value: T, journal: &mut Journal<K, Site<K, A, T>, W, T>) -> (previous: Option<
        T,
    >)
        ensures
            final(journal).standing() == (Standing {
                opened: old(journal).standing().opened - 1,
                ..old(journal).standing()
            }),
            final(journal)@ == old(journal)@.push(
                Event { site: self.site(), op: Op::Put { value } },
            ),
        opens_invariants none
        no_unwind
    {
        let mut guard = self.guard;
        guard.replace(value)
    }

    /// Calls [`Option::take`] on what the mutex holds, and records what was there.
    /// That is up to the other threads. The mutex is unlocked, and the record has
    /// one cell less open.
    #[verifier::external_body]
    fn take<W>(self, journal: &mut Journal<K, Site<K, A, T>, W, T>) -> (value: Option<T>)
        ensures
            final(journal).standing() == (Standing {
                opened: old(journal).standing().opened - 1,
                ..old(journal).standing()
            }),
            final(journal)@ == old(journal)@.push(
                Event { site: self.site(), op: Op::Take { value } },
            ),
    {
        let mut guard = self.guard;
        guard.take()
    }
}

impl<K, A, T> Site<K, A, T> {
    /// Calls [`Mutex::try_lock`], which neither panics nor blocks. It returns a
    /// guard, also where a thread panicked that held the mutex, and the record then
    /// has one more cell open, until the guard is used up by an access. If the mutex
    /// is locked there is no guard, and this is recorded.
    #[verifier::external_body]
    fn open<W>(&self, journal: &mut Journal<K, Site<K, A, T>, W, T>) -> (access: Option<
        Access<'_, K, A, T>,
    >)
        ensures
            match access {
                Some(access) => access.site() == *self && final(journal)@ == old(journal)@
                    && final(journal).standing() == (Standing {
                    opened: old(journal).standing().opened + 1,
                    ..old(journal).standing()
                }),
                None => final(journal)@ == old(journal)@.push(Event { site: *self, op: Op::Busy })
                    && final(journal).standing() == old(journal).standing(),
            },
        opens_invariants none
        no_unwind
    {
        match self.cell.inner.try_lock() {
            Ok(guard) => Some(Access { guard, site: self }),
            Err(TryLockError::Poisoned(error)) => {
                Some(Access { guard: error.into_inner(), site: self })
            },
            Err(TryLockError::WouldBlock) => None,
        }
    }

    /// Writes `value` into the cell, or gives it back if another thread is at the
    /// cell. The caller has as many cells open afterwards as before, so it is never in
    /// its own way.
    pub(crate) fn put<W>(&self, value: T, journal: &mut Journal<K, Site<K, A, T>, W, T>) -> (result:
        Result<(), T>)
        ensures
            final(journal).standing() == old(journal).standing(),
            match result {
                Ok(()) => final(journal)@ == old(journal)@.push(
                    Event { site: *self, op: Op::Put { value } },
                ),
                Err(back) => back == value && final(journal)@ == old(journal)@.push(
                    Event { site: *self, op: Op::Busy },
                ),
            },
        opens_invariants none
        no_unwind
    {
        match self.open(journal) {
            Some(access) => {
                let _ = access.put(value, journal);
                Ok(())
            },
            None => Err(value),
        }
    }

    /// Moves what the cell holds out of it, or returns `None` if another thread is
    /// at the cell.
    pub(crate) fn take<W>(&self, journal: &mut Journal<K, Site<K, A, T>, W, T>) -> (result: Option<
        Option<T>,
    >)
        ensures
            final(journal).standing() == old(journal).standing(),
            match result {
                Some(value) => final(journal)@ == old(journal)@.push(
                    Event { site: *self, op: Op::Take { value } },
                ),
                None => final(journal)@ == old(journal)@.push(
                    Event { site: *self, op: Op::Busy },
                ),
            },
    {
        match self.open(journal) {
            Some(access) => Some(access.take(journal)),
            None => None,
        }
    }
}

} // verus!
