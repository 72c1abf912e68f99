//! The two ends of a channel.
//!
//! Each has a record of its own for what is done as it is dropped. Only this module
//! can use it, and all that it lends of an end is the slot.
use std::sync::Arc;

use vstd::prelude::*;

use super::protocol::{ReceiverStage, SenderStage, CLOSED, EMPTY};
use super::Slot;
use crate::journal::Standing;
use crate::memory::{follows, group_follows, Event};
use crate::shared::{WordJournal, WordSite};

verus! {

broadcast use group_follows;

/// The sending end of a channel.
///
/// Dropping it closes the channel if nothing was sent.
#[verifier::reject_recursive_types(T)]
pub struct Sender<K, T> {
    slot: Arc<Slot<K, T>>,
    journal: WordJournal<K, T>,
}

impl<K, T> Sender<K, T> {
    /// What this end shares with the other.
    pub closed spec fn slot(self) -> Slot<K, T> {
        *self.slot
    }

    /// What was done as this end was dropped.
    pub closed spec fn record(self) -> Seq<Event<WordSite<K, T>, u32, T>> {
        self.journal@
    }

    /// Which record that is.
    pub closed spec fn standing(self) -> Standing {
        self.journal.standing()
    }

    pub(super) fn new(slot: Arc<Slot<K, T>>, journal: WordJournal<K, T>) -> (sender: Self)
        ensures
            sender.slot() == *slot,
            sender.record() == journal@,
            sender.standing() == journal.standing(),
    {
        Sender { slot, journal }
    }

    /// Lends what this end shares with the other, for as long as this end lives.
    pub(super) fn share(&self) -> (slot: &Slot<K, T>)
        ensures
            *slot == self.slot(),
    {
        &self.slot
    }
}

impl<K, T> Drop for Sender<K, T> {
    /// Closes the channel if nothing was sent, and then wakes up the receiver.
    fn drop(&mut self)
        ensures
            final(self).slot() == old(self).slot(),
            final(self).standing() == old(self).standing(),
            follows(
                SenderStage::Close,
                old(self).slot().site(),
                old(self).record(),
                final(self).record(),
                SenderStage::Gone,
            ),
        opens_invariants none
        no_unwind
    {
        assert(follows(
            SenderStage::Close,
            self.slot.site,
            self.journal@,
            self.journal@,
            SenderStage::Close,
        ));
        match self.slot.site.compare_exchange(EMPTY, CLOSED, &mut self.journal) {
            Ok(_) => self.slot.site.wake_one(&mut self.journal),
            Err(_) => {},
        }
    }
}

/// The receiving end of a channel.
///
/// Dropping it closes the channel if nothing was sent.
#[verifier::reject_recursive_types(T)]
pub struct Receiver<K, T> {
    slot: Arc<Slot<K, T>>,
    journal: WordJournal<K, T>,
}

impl<K, T> Receiver<K, T> {
    /// What this end shares with the other.
    pub closed spec fn slot(self) -> Slot<K, T> {
        *self.slot
    }

    /// What was done as this end was dropped.
    pub closed spec fn record(self) -> Seq<Event<WordSite<K, T>, u32, T>> {
        self.journal@
    }

    /// Which record that is.
    pub closed spec fn standing(self) -> Standing {
        self.journal.standing()
    }

    pub(super) fn new(slot: Arc<Slot<K, T>>, journal: WordJournal<K, T>) -> (receiver: Self)
        ensures
            receiver.slot() == *slot,
            receiver.record() == journal@,
            receiver.standing() == journal.standing(),
    {
        Receiver { slot, journal }
    }

    /// Lends what this end shares with the other, for as long as this end lives.
    pub(super) fn share(&self) -> (slot: &Slot<K, T>)
        ensures
            *slot == self.slot(),
    {
        &self.slot
    }
}

impl<K, T> Drop for Receiver<K, T> {
    /// Closes the channel if nothing was sent. The sender never waits, so there
    /// is nobody to wake up.
    fn drop(&mut self)
        ensures
            final(self).slot() == old(self).slot(),
            final(self).standing() == old(self).standing(),
            follows(
                ReceiverStage::Close,
                old(self).slot().site(),
                old(self).record(),
                final(self).record(),
                ReceiverStage::Gone,
            ),
        opens_invariants none
        no_unwind
    {
        assert(follows(
            ReceiverStage::Close,
            self.slot.site,
            self.journal@,
            self.journal@,
            ReceiverStage::Close,
        ));
        let _ = self.slot.site.compare_exchange(EMPTY, CLOSED, &mut self.journal);
    }
}

} // verus!
