//! What the record shows of each call on an end of a channel: for every slot, value,
//! number of rounds and result, and whatever the record held before.
use vstd::prelude::*;

use super::laws::{
    law_what_a_receiver_drop_performs, law_what_a_send_performs, law_what_a_sender_drop_performs,
    lemma_receive_stage, lemma_waits, waits,
};
use super::protocol::{
    poll, received, send_outcome, ReceiveOutcome, ReceiverStage, SenderStage, CLOSED, EMPTY,
    RECEIVED, SENT, WRITING,
};
use super::{receives, sends, Slot};
use crate::journal::{comes_later, is_family, law_untouched_records_are_all_there_are, Standing};
use crate::memory::{
    all_on, follows, law_record_is_kept_and_goes_on, lemma_run_one_step, ops, Event, Memory, Op,
    Order,
};
use crate::shared::WordSite;

verus! {

/// A send tries to reserve the slot. If that fails, it does nothing else and gives
/// the value back. Otherwise it writes the value, publishes it, wakes up one thread
/// and succeeds; only if another thread is at the cell it closes the channel, wakes
/// up one thread and gives the value back.
pub proof fn law_record_of_a_send<K, T>(
    slot: Slot<K, T>,
    value: T,
    before: Seq<Event<WordSite<K, T>, u32, T>>,
    after: Seq<Event<WordSite<K, T>, u32, T>>,
    result: Result<(), T>,
)
    requires
        sends(slot, value, before, after, result),
    ensures
        ({
            let n = before.len() as int;
            let claimed = after[n].op->result;
            let reserve = Op::CompareExchange {
                weak: false,
                current: EMPTY,
                new: WRITING,
                success: Order::Relaxed,
                failure: Order::Relaxed,
                result: claimed,
            };
            let succeeded = seq![
                reserve,
                Op::Put { value },
                Op::Store { order: Order::Release, value: SENT },
                Op::WakeOne,
            ];
            let gave_way = seq![
                reserve,
                Op::Busy,
                Op::Store { order: Order::Relaxed, value: CLOSED },
                Op::WakeOne,
            ];
            if claimed is Err {
                result == Err::<(), T>(value) && after == before + all_on(
                    slot.site(),
                    seq![reserve],
                )
            } else if after[n + 1].op is Busy {
                result == Err::<(), T>(value) && after == before + all_on(slot.site(), gave_way)
            } else {
                result is Ok && after == before + all_on(slot.site(), succeeded)
            }
        }),
{
    let start = SenderStage::Claim(value);
    let end = SenderStage::Holding(send_outcome(value, result));
    let done = law_record_is_kept_and_goes_on(start, slot.site(), before, after, end);
    law_what_a_send_performs(value, done, send_outcome(value, result));
    let n = before.len() as int;
    assert(after[n] == all_on(slot.site(), done)[0]);
    let reserve = done[0];
    if done.len() > 1 {
        assert(after[n + 1] == all_on(slot.site(), done)[1]);
        if result is Ok {
            assert(done =~= seq![
                reserve,
                Op::Put { value },
                Op::Store { order: Order::Release, value: SENT },
                Op::WakeOne,
            ]);
        } else {
            assert(done =~= seq![
                reserve,
                Op::Busy,
                Op::Store { order: Order::Relaxed, value: CLOSED },
                Op::WakeOne,
            ]);
        }
    } else {
        assert(done =~= seq![reserve]);
    }
}

/// What a receive has in its record at one place, by what stands before and behind
/// it there and by what the receive returns.
///
/// There are looks, waits, moves out of the cell, marks, and accesses that found the
/// cell busy, and nothing else: above all no second record was split off.
/// - A look that finds no value yet is followed by a wait for that state to change.
/// - A look that finds `SENT` is followed by an access to the cell.
/// - A look that finds any other state is the last operation, and nothing is received.
/// - What is moved out is what is received, and the mark comes next and last.
pub proof fn law_record_of_a_receive<K, T>(
    slot: Slot<K, T>,
    rounds: nat,
    before: Seq<Event<WordSite<K, T>, u32, T>>,
    after: Seq<Event<WordSite<K, T>, u32, T>>,
    result: Option<Option<T>>,
    i: int,
)
    requires
        receives(slot, rounds, before, after, result),
        before.len() <= i < after.len(),
    ensures
        before.is_prefix_of(after),
        after[i].site == slot.site(),
        ({
            let is_first = i == before.len();
            let is_last = i + 1 == after.len();
            let earlier = after[i - 1].op;
            let later = after[i + 1].op;
            let found = Op::<u32, T>::Load { order: Order::Acquire, value: SENT };
            match after[i].op {
                Op::Load { order, value } => order is Acquire && if value == EMPTY || value
                    == WRITING {
                    !is_last && later == (Op::<u32, T>::Wait { value })
                } else if value == SENT {
                    !is_last && (later is Take || later is Busy)
                } else {
                    is_last && result == Some(None::<T>)
                },
                Op::Wait { value } => !is_first && earlier == (Op::<u32, T>::Load {
                    order: Order::Acquire,
                    value,
                }) && (value == EMPTY || value == WRITING) && if is_last {
                    result is None
                } else {
                    later is Load
                },
                Op::Take { value } => !is_first && earlier == found && i + 2 == after.len()
                    && later == (Op::<u32, T>::Store { order: Order::Relaxed, value: RECEIVED })
                    && result == Some(value),
                Op::Busy => !is_first && earlier == found && if is_last {
                    result is None
                } else {
                    later is Load
                },
                Op::Store { order, value } => !is_first && is_last && earlier is Take
                    && order is Relaxed && value == RECEIVED,
                _ => false,
            }
        }),
{
    let start = poll::<T>(rounds);
    let end = ReceiverStage::Holding(
        match result {
            Some(value) => received(value),
            None => ReceiveOutcome::Unused,
        },
    );
    let done = law_record_is_kept_and_goes_on(start, slot.site(), before, after, end);
    let n = before.len() as int;
    let k = i - n;
    assert(before.is_prefix_of(after));
    assert(after[i] == all_on(slot.site(), done)[k]);
    if k > 0 {
        assert(after[i - 1] == all_on(slot.site(), done)[k - 1]);
    }
    lemma_run_one_step(start, done, k);
    lemma_receive_stage(rounds, done.take(k));
    lemma_waits(rounds, done.take(k));
    lemma_receive_stage(rounds, done.take(k + 1));
    if k > 0 {
        lemma_run_one_step(start, done, k - 1);
        assert(done.take(k)[k - 1] == done[k - 1]);
        assert(done.take(k + 1)[k - 1] == done[k - 1]);
    }
    if k + 1 < done.len() {
        assert(after[i + 1] == all_on(slot.site(), done)[k + 1]);
        lemma_run_one_step(start, done, k + 1);
        if k + 2 < done.len() {
            lemma_run_one_step(start, done, k + 2);
        }
    }
}

/// A receive begins with a look, if it has rounds, and performs nothing if it has
/// none. It returns without an answer if and only if it has waited, or found the
/// cell busy, once for each round.
pub proof fn law_rounds_of_a_receive<K, T>(
    slot: Slot<K, T>,
    rounds: nat,
    before: Seq<Event<WordSite<K, T>, u32, T>>,
    after: Seq<Event<WordSite<K, T>, u32, T>>,
    result: Option<Option<T>>,
)
    requires
        receives(slot, rounds, before, after, result),
    ensures
        rounds == 0 ==> after == before && result is None,
        rounds > 0 ==> after.len() > before.len() && after[before.len() as int].op is Load,
        ({
            let used = waits(ops(after.skip(before.len() as int)));
            if result is None {
                used == rounds
            } else {
                used < rounds
            }
        }),
{
    let start = poll::<T>(rounds);
    let end = ReceiverStage::Holding(
        match result {
            Some(value) => received(value),
            None => ReceiveOutcome::Unused,
        },
    );
    let done = law_record_is_kept_and_goes_on(start, slot.site(), before, after, end);
    assert(ops(after.skip(before.len() as int)) =~= done);
    lemma_waits(rounds, done);
    if done.len() > 0 {
        lemma_run_one_step(start, done, 0);
        assert(after[before.len() as int] == all_on(slot.site(), done)[0]);
    }
}

/// Neither a send nor a receive uses any record but the one that it is given: none
/// was split off this one meanwhile, so it shows all that was done to the slot.
pub proof fn law_calls_use_one_record<K, T>(
    slot: Slot<K, T>,
    before: Seq<Event<WordSite<K, T>, u32, T>>,
    records: Map<Seq<nat>, Seq<Event<WordSite<K, T>, u32, T>>>,
    own: Standing,
    lineage: Seq<nat>,
)
    requires
        is_family(records),
        records.dom().contains(own.lineage),
        records.dom().contains(lineage),
        ({
            let after = records[own.lineage];
            ||| exists|value: T, result: Result<(), T>| sends(slot, value, before, after, result)
            ||| exists|rounds: nat, result: Option<Option<T>>|
                receives(slot, rounds, before, after, result)
        }),
    ensures
        !comes_later(own, before.len(), lineage),
{
    let after = records[own.lineage];
    assert forall|i: int| before.len() <= i < after.len() implies !((
    #[trigger] after[i]).op is Split) by {
        if exists|value: T, result: Result<(), T>| sends(slot, value, before, after, result) {
            let (value, result) = choose|value: T, result: Result<(), T>|
                sends(slot, value, before, after, result);
            law_record_of_a_send(slot, value, before, after, result);
        } else {
            let (rounds, result) = choose|rounds: nat, result: Option<Option<T>>|
                receives(slot, rounds, before, after, result);
            law_record_of_a_receive(slot, rounds, before, after, result, i);
        }
    }
    assert forall|at: nat|
        before.len() <= at < after.len() && records.dom().contains(
            #[trigger] own.child(at).lineage,
        ) implies records[own.child(at).lineage].len() == 0 by {
        let child = own.child(at).lineage;
        assert(child.drop_last() =~= own.lineage);
        assert(child.last() == at);
        assert(after[at as int].op is Split);
    }
    if comes_later(own, before.len(), lineage) {
        law_untouched_records_are_all_there_are(records, own, before.len(), lineage);
        assert(after[lineage[own.lineage.len() as int] as int].op is Split);
    }
}

/// When a channel is handed out, nothing has been done to its slot but that the
/// records of the two ends were split off the given one: these are empty, they are
/// two, and there is no other record. So the slot is as it was made.
pub proof fn law_channel_is_handed_out_untouched<K, T>(
    slot: Slot<K, T>,
    before: Seq<Event<WordSite<K, T>, u32, T>>,
    records: Map<Seq<nat>, Seq<Event<WordSite<K, T>, u32, T>>>,
    given: Standing,
    sender: Standing,
    receiver: Standing,
    lineage: Seq<nat>,
    thread: int,
)
    requires
        is_family(records),
        records.dom().contains(lineage),
        slot.site().origin() == Memory::<u32, T>::initial(EMPTY, None),
        records[given.lineage] == before.push(Event { site: slot.site(), op: Op::Split }).push(
            Event { site: slot.site(), op: Op::Split },
        ),
        sender == given.child(before.len()),
        receiver == given.child(before.len() + 1),
        records[sender.lineage].len() == 0,
        records[receiver.lineage].len() == 0,
    ensures
        sender.lineage != receiver.lineage,
        comes_later(given, before.len(), lineage) ==> (lineage == sender.lineage || lineage
            == receiver.lineage) && records[lineage].len() == 0,
        ({
            let made = slot.site().origin();
            &&& made.word == EMPTY && made.cell is None
            &&& made.step(thread, Op::Split) == Some(made)
        }),
{
    assert(sender.lineage.last() != receiver.lineage.last());
    let after = records[given.lineage];
    assert forall|at: nat|
        before.len() <= at < after.len() && records.dom().contains(
            #[trigger] given.child(at).lineage,
        ) implies records[given.child(at).lineage].len() == 0 by {
        assert(at == before.len() || at == before.len() + 1);
    }
    if comes_later(given, before.len(), lineage) {
        law_untouched_records_are_all_there_are(records, given, before.len(), lineage);
        let at = lineage[given.lineage.len() as int];
        assert(at == before.len() || at == before.len() + 1);
    }
}

/// A sender that is dropped tries once to close the channel, and wakes up one thread
/// if and only if it has closed it.
pub proof fn law_record_of_a_sender_drop<K, T>(
    slot: Slot<K, T>,
    before: Seq<Event<WordSite<K, T>, u32, T>>,
    after: Seq<Event<WordSite<K, T>, u32, T>>,
)
    requires
        follows(SenderStage::<T>::Close, slot.site(), before, after, SenderStage::Gone),
    ensures
        ({
            let result = after[before.len() as int].op->result;
            let close = Op::CompareExchange {
                weak: false,
                current: EMPTY,
                new: CLOSED,
                success: Order::Relaxed,
                failure: Order::Relaxed,
                result,
            };
            after == before + all_on(
                slot.site(),
                if result is Ok {
                    seq![close, Op::WakeOne]
                } else {
                    seq![close]
                },
            )
        }),
{
    let done = law_record_is_kept_and_goes_on(
        SenderStage::<T>::Close,
        slot.site(),
        before,
        after,
        SenderStage::Gone,
    );
    law_what_a_sender_drop_performs(done);
    assert(after[before.len() as int].op == done[0]);
}

/// A receiver that is dropped tries once to close the channel, and does nothing
/// else.
pub proof fn law_record_of_a_receiver_drop<K, T>(
    slot: Slot<K, T>,
    before: Seq<Event<WordSite<K, T>, u32, T>>,
    after: Seq<Event<WordSite<K, T>, u32, T>>,
)
    requires
        follows(ReceiverStage::<T>::Close, slot.site(), before, after, ReceiverStage::Gone),
    ensures
        ({
            let close = Op::CompareExchange {
                weak: false,
                current: EMPTY,
                new: CLOSED,
                success: Order::Relaxed,
                failure: Order::Relaxed,
                result: after[before.len() as int].op->result,
            };
            after == before + all_on(slot.site(), seq![close])
        }),
{
    let done = law_record_is_kept_and_goes_on(
        ReceiverStage::<T>::Close,
        slot.site(),
        before,
        after,
        ReceiverStage::Gone,
    );
    law_what_a_receiver_drop_performs(done);
    assert(after[before.len() as int].op == done[0]);
}

} // verus!
