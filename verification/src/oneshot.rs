//! A single-use channel with one sender and one receiver.
use std::sync::Arc;

use vstd::prelude::*;

use crate::memory::{follows, group_follows, Event, Memory, Op, Order};
use crate::shared::{WordJournal, WordSite};

mod ends;
pub mod laws;
pub mod protocol;
pub mod records;

pub use ends::{Receiver, Sender};

use protocol::{
    poll, received, send_outcome, ReceiveOutcome, ReceiverStage, SenderStage, CLOSED, EMPTY,
    RECEIVED, SENT, WRITING,
};

verus! {

broadcast use group_follows;

/// Makes a channel.
///
/// It has exactly one sender and one receiver: neither can be cloned. Each has a
/// record of its own, for what is done as it is dropped.
pub fn channel<K, T>(journal: &mut WordJournal<K, T>) -> (ends: (Sender<K, T>, Receiver<K, T>))
    ensures
        ends.0.slot().site().origin() == Memory::<u32, T>::initial(EMPTY, None),
        ends.1.slot() == ends.0.slot(),
        ends.0.record() == Seq::<Event<WordSite<K, T>, u32, T>>::empty(),
        ends.1.record() == Seq::<Event<WordSite<K, T>, u32, T>>::empty(),
        final(journal)@ == old(journal)@.push(
            Event { site: ends.0.slot().site(), op: Op::Split },
        ).push(Event { site: ends.0.slot().site(), op: Op::Split }),
        final(journal).standing() == old(journal).standing(),
        ends.0.standing() == old(journal).standing().child(old(journal)@.len()),
        ends.1.standing() == old(journal).standing().child(old(journal)@.len() + 1),
{
    let slot = Arc::new(Slot::new());
    let to_send = journal.split(&slot.site);
    let to_receive = journal.split(&slot.site);
    (Sender::new(slot.clone(), to_send), Receiver::new(slot, to_receive))
}

/// What the two ends of a channel share.
///
/// The state says what the cell holds and who may touch it:
/// - `EMPTY`: nothing, and nobody touches it;
/// - `WRITING`: the sender is about to write the value;
/// - `SENT`: the value;
/// - `RECEIVED`: nothing, for the receiver has moved the value out;
/// - `CLOSED`: nothing, and there will be nothing.
///
/// The receiver waits while the state is `EMPTY` or `WRITING`. A value that is
/// still in the cell when both ends are gone is dropped with the slot.
#[verifier::reject_recursive_types(T)]
pub struct Slot<K, T> {
    site: WordSite<K, T>,
}

impl<K, T> Slot<K, T> {
    /// The state and the cell.
    pub closed spec fn site(self) -> WordSite<K, T> {
        self.site
    }

    /// An empty slot.
    pub fn new() -> (slot: Self)
        ensures
            slot.site().origin() == Memory::<u32, T>::initial(EMPTY, None),
    {
        Slot { site: WordSite::new(EMPTY, None) }
    }

    /// Waits for the state to change from `state`, or less long.
    ///
    /// The wait may end early, and a wake-up only says that the state may have
    /// changed. If nobody wakes up the thread, it may also never end.
    pub fn wait_for_change(&self, state: u32, journal: &mut WordJournal<K, T>)
        ensures
            final(journal)@ == old(journal)@.push(
                Event { site: self.site(), op: Op::Wait { value: state } },
            ),
            final(journal).standing() == old(journal).standing(),
    {
        self.site.wait(state, journal);
    }

    /// Publishes a value and wakes up the receiver, or gives the value back if the
    /// receiver is gone.
    fn send(&self, value: T, journal: &mut WordJournal<K, T>) -> (result: Result<(), T>)
        ensures
            sends(*self, value, old(journal)@, final(journal)@, result),
            final(journal).standing() == old(journal).standing(),
    {
        let site = &self.site;
        let ghost start = SenderStage::Claim(value);
        assert(follows(start, *site, journal@, journal@, start));
        match site.compare_exchange(EMPTY, WRITING, journal) {
            Ok(_) => {},
            Err(_) => return Err(value),
        }
        match site.put(value, journal) {
            Ok(()) => {},
            Err(back) => {
                site.store(CLOSED, Order::Relaxed, journal);
                site.wake_one(journal);
                return Err(back);
            },
        }
        // The receiver may move the value out once it has acquired `SENT`.
        site.store(SENT, Order::Release, journal);
        site.wake_one(journal);
        Ok(())
    }

    /// Looks at the state at most `rounds` times, waiting after each look that finds
    /// no answer, and moves the value out. Returns `None` if the rounds are used up
    /// and `Some(None)` if the channel is closed.
    fn receive(&self, rounds: u64, journal: &mut WordJournal<K, T>) -> (result: Option<Option<T>>)
        ensures
            receives(*self, rounds as nat, old(journal)@, final(journal)@, result),
            final(journal).standing() == old(journal).standing(),
    {
        let ghost site = self.site();
        let ghost start = poll::<T>(rounds as nat);
        let mut left: u64 = rounds;
        assert(follows(start, site, journal@, journal@, start));
        while left > 0
            invariant
                left <= rounds,
                site == self.site(),
                start == poll::<T>(rounds as nat),
                follows(start, site, old(journal)@, journal@, poll(left as nat)),
                journal.standing() == old(journal).standing(),
            decreases left,
        {
            let state: u32 = self.site.load_acquire(journal);
            if state == EMPTY || state == WRITING {
                self.wait_for_change(state, journal);
            } else if state == SENT {
                match self.site.take(journal) {
                    Some(value) => {
                        // Relaxed is enough: this publishes nothing.
                        self.site.store(RECEIVED, Order::Relaxed, journal);
                        return Some(value);
                    },
                    None => {},
                }
            } else {
                return Some(None);
            }
            left = left - 1;
        }
        None
    }
}

/// What is added to a record by a send that ends with `result`: the operations of
/// the sender's program, on this slot. A value that comes back is the one that was
/// to be sent.
pub open spec fn sends<K, T>(
    slot: Slot<K, T>,
    value: T,
    before: Seq<Event<WordSite<K, T>, u32, T>>,
    after: Seq<Event<WordSite<K, T>, u32, T>>,
    result: Result<(), T>,
) -> bool {
    &&& follows(
        SenderStage::Claim(value),
        slot.site(),
        before,
        after,
        SenderStage::Holding(send_outcome(value, result)),
    )
    &&& result matches Err(back) ==> back == value
}

/// What is added to a record by a receive with so many rounds that ends with
/// `result`: the operations of the receiver's program, on this slot. The result is
/// `None` if the rounds are used up.
pub open spec fn receives<K, T>(
    slot: Slot<K, T>,
    rounds: nat,
    before: Seq<Event<WordSite<K, T>, u32, T>>,
    after: Seq<Event<WordSite<K, T>, u32, T>>,
    result: Option<Option<T>>,
) -> bool {
    &&& follows(
        poll(rounds),
        slot.site(),
        before,
        after,
        ReceiverStage::Holding(
            match result {
                Some(value) => received(value),
                None => ReceiveOutcome::Unused,
            },
        ),
    )
    &&& rounds == 0 ==> result is None
}

impl<K, T> Sender<K, T> {
    /// Sends a value into the channel.
    ///
    /// Returns `Ok(())` if the value was published and `Err(value)` if the
    /// receiver is gone. Never waits. The sender is dropped when that is done.
    pub fn send(self, value: T, journal: &mut WordJournal<K, T>) -> (result: Result<(), T>)
        ensures
            sends(self.slot(), value, old(journal)@, final(journal)@, result),
            final(journal).standing() == old(journal).standing(),
    {
        self.share().send(value, journal)
    }
}

impl<K, T> Receiver<K, T> {
    /// Receives the value from the channel, waiting for it if need be.
    ///
    /// Returns `Ok(None)` if the sender was dropped without sending. The
    /// receiver looks at the channel at most `rounds` times and waits after
    /// each look that finds no answer; if that was not enough, it comes back as
    /// `Err`, and nothing has changed. Otherwise it is dropped when that is done.
    pub fn receive(self, rounds: u64, journal: &mut WordJournal<K, T>) -> (result: Result<
        Option<T>,
        Self,
    >)
        ensures
            receives(
                self.slot(),
                rounds as nat,
                old(journal)@,
                final(journal)@,
                match result {
                    Ok(value) => Some(value),
                    Err(_) => None,
                },
            ),
            result matches Err(back) ==> back == self,
            final(journal).standing() == old(journal).standing(),
    {
        match self.share().receive(rounds, journal) {
            Some(value) => Ok(value),
            None => Err(self),
        }
    }
}

} // verus!
