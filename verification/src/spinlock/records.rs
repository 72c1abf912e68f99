//! What the record shows of each call on a lock or on a guard: for every lock, data,
//! number of rounds and result, and whatever the record held before.
use vstd::prelude::*;

use super::laws::{
    failures, law_what_a_release_performs, law_what_an_ask_performs, lemma_acquire_end,
    lemma_acquire_stage, lemma_failures,
};
use super::protocol::{acquire, Stage, Strategy};
use super::{Guard, SpinLock};
use crate::journal::{comes_later, is_family, law_untouched_records_are_all_there_are, Standing};
use crate::memory::{
    all_on, follows, law_record_is_kept_and_goes_on, lemma_run_one_step, ops, Event, Op, Order,
};
use crate::shared::FlagSite;

verus! {

/// Where a call stands that is to acquire a lock, when it has got a guard with these
/// data or none.
pub open spec fn acquired<T>(found: Option<T>) -> Stage<T> {
    match found {
        Some(found) => Stage::Held(found),
        None => Stage::GaveUp,
    }
}

/// What a call that acquires a lock has in its record at one place, by what stands
/// before and behind it there and by whether it gets a guard.
///
/// There are looks at the flag, attempts to set it, pauses, and, once it is set, an
/// access to the cell and what that leads to, and nothing else.
/// - The flag is set only right after it was seen clear, or at first by an optimist.
/// - A look that finds it set is followed by a pause. So is an attempt that fails,
///   but for an optimist, which looks next.
/// - An attempt that succeeds is followed by the access to the cell.
/// - The data that are moved out are those of the guard. The record for the guard is
///   split off next and last, and there is no other one.
/// - Only if there are no data to be had the flag is cleared, next and last, and
///   there is no guard.
pub proof fn law_record_of_an_acquire<K, T>(
    lock: SpinLock<K, T>,
    strategy: Strategy,
    rounds: nat,
    before: Seq<Event<FlagSite<K, T>, bool, T>>,
    after: Seq<Event<FlagSite<K, T>, bool, T>>,
    found: Option<T>,
    i: int,
)
    requires
        follows(acquire(strategy, rounds), lock.site(), before, after, acquired(found)),
        before.len() <= i < after.len(),
    ensures
        before.is_prefix_of(after),
        after[i].site == lock.site(),
        ({
            let is_first = i == before.len();
            let is_last = i + 1 == after.len();
            let earlier = after[i - 1].op;
            let later = after[i + 1].op;
            let is_set = !is_first && earlier is CompareExchange && earlier->result is Ok;
            let cleared = i + 2 == after.len() && found is None && later == (Op::<
                bool,
                T,
            >::Store { order: Order::Release, value: false });
            match after[i].op {
                Op::Load { order, value } => order is Relaxed && !is_last && if value {
                    later is SpinHint
                } else {
                    later is CompareExchange
                },
                Op::CompareExchange { weak, current, new, success, failure, result } => {
                    &&& weak && !current && new && success is Acquire && failure is Relaxed
                    &&& if is_first {
                        strategy is Optimistic
                    } else {
                        earlier == (Op::<bool, T>::Load { order: Order::Relaxed, value: false })
                    }
                    &&& if result is Ok {
                        !is_last && (later is Take || later is Busy)
                    } else if strategy is TestFirst {
                        !is_last && later is SpinHint
                    } else if is_last {
                        found is None
                    } else {
                        later is Load
                    }
                },
                Op::SpinHint => {
                    &&& !is_first
                    &&& earlier == (Op::<bool, T>::Load { order: Order::Relaxed, value: true })
                        || strategy is TestFirst && earlier is CompareExchange
                        && earlier->result is Err
                    &&& if is_last {
                        found is None
                    } else {
                        later is Load
                    }
                },
                Op::Take { value } => is_set && match value {
                    Some(data) => i + 2 == after.len() && later is Split && found == Some(data),
                    None => cleared,
                },
                Op::Busy => is_set && cleared,
                Op::Split => !is_first && is_last && found is Some && earlier == (Op::<
                    bool,
                    T,
                >::Take { value: found }),
                Op::Store { order, value } => !is_first && is_last && found is None && (earlier
                    == (Op::<bool, T>::Take { value: None }) || earlier is Busy)
                    && order is Release && !value,
                _ => false,
            }
        }),
{
    let start = acquire::<T>(strategy, rounds);
    let done = law_record_is_kept_and_goes_on(start, lock.site(), before, after, acquired(found));
    let n = before.len() as int;
    let k = i - n;
    assert(before.is_prefix_of(after));
    assert(after[i] == all_on(lock.site(), done)[k]);
    if k > 0 {
        assert(after[i - 1] == all_on(lock.site(), done)[k - 1]);
    }
    lemma_run_one_step(start, done, k);
    lemma_acquire_stage(strategy, rounds, done.take(k));
    lemma_acquire_end(strategy, rounds, done.take(k));
    lemma_acquire_end(strategy, rounds, done.take(k + 1));
    lemma_failures(strategy, rounds, done.take(k));
    if k > 0 {
        lemma_run_one_step(start, done, k - 1);
        assert(done.take(k)[k - 1] == done[k - 1]);
        assert(done.take(k).last() == done[k - 1]);
        assert(done.take(k + 1)[k - 1] == done[k - 1]);
    }
    if k + 1 < done.len() {
        assert(after[i + 1] == all_on(lock.site(), done)[k + 1]);
        lemma_run_one_step(start, done, k + 1);
        if k + 2 < done.len() {
            lemma_run_one_step(start, done, k + 2);
        }
    }
}

/// A call that acquires a lock begins with a look at the flag, or with an attempt to
/// set it if it is optimistic, and performs nothing if it has no rounds. If it gives
/// no guard, then it failed once for each round, or it had to clear the flag again;
/// if it gives one, then it failed less often.
pub proof fn law_rounds_of_an_acquire<K, T>(
    lock: SpinLock<K, T>,
    strategy: Strategy,
    rounds: nat,
    before: Seq<Event<FlagSite<K, T>, bool, T>>,
    after: Seq<Event<FlagSite<K, T>, bool, T>>,
    found: Option<T>,
)
    requires
        follows(acquire(strategy, rounds), lock.site(), before, after, acquired(found)),
    ensures
        rounds == 0 ==> after == before && found is None,
        rounds > 0 ==> after.len() > before.len() && match strategy {
            Strategy::TestFirst => after[before.len() as int].op is Load,
            Strategy::Optimistic => after[before.len() as int].op is CompareExchange,
        },
        ({
            let failed = failures(ops(after.skip(before.len() as int)));
            if found is Some || rounds > 0 && after.last().op is Store {
                failed < rounds
            } else {
                failed == rounds
            }
        }),
{
    let start = acquire::<T>(strategy, rounds);
    let done = law_record_is_kept_and_goes_on(start, lock.site(), before, after, acquired(found));
    assert(ops(after.skip(before.len() as int)) =~= done);
    lemma_failures(strategy, rounds, done);
    if done.len() > 0 {
        lemma_run_one_step(start, done, 0);
        lemma_run_one_step(start, done, done.len() - 1);
        lemma_failures(strategy, rounds, done.drop_last());
        assert(done.take(done.len() - 1) =~= done.drop_last());
        assert(after[before.len() as int] == all_on(lock.site(), done)[0]);
        assert(after.last() == all_on(lock.site(), done)[done.len() - 1]);
    }
}

/// A call that acquires a lock splits one record off if it gives a guard, as the last
/// thing that it does, and none otherwise.
pub proof fn law_one_record_for_a_guard<K, T>(
    lock: SpinLock<K, T>,
    strategy: Strategy,
    rounds: nat,
    before: Seq<Event<FlagSite<K, T>, bool, T>>,
    after: Seq<Event<FlagSite<K, T>, bool, T>>,
    found: Option<T>,
)
    requires
        follows(acquire(strategy, rounds), lock.site(), before, after, acquired(found)),
    ensures
        found is Some ==> after.len() > before.len(),
        forall|i: int|
            before.len() <= i < after.len() ==> ((#[trigger] after[i]).op is Split <==> found
                is Some && i + 1 == after.len()),
{
    if found is Some && after.len() == before.len() {
        law_rounds_of_an_acquire(lock, strategy, rounds, before, after, found);
    }
    assert forall|i: int| before.len() <= i < after.len() implies ((#[trigger] after[i]).op is Split
        <==> found is Some && i + 1 == after.len()) by {
        law_record_of_an_acquire(lock, strategy, rounds, before, after, found, i);
        law_record_of_an_acquire(lock, strategy, rounds, before, after, found, after.len() - 1);
    }
}

/// When a lock gives a guard, the record that was split off for the guard is the only
/// other one, and it is empty. When it gives none, there is no other record. So the
/// given record shows all that was done to the lock meanwhile.
pub proof fn law_guard_has_the_only_other_record<K, T>(
    lock: SpinLock<K, T>,
    strategy: Strategy,
    rounds: nat,
    before: Seq<Event<FlagSite<K, T>, bool, T>>,
    guard: Option<Guard<'_, K, T>>,
    records: Map<Seq<nat>, Seq<Event<FlagSite<K, T>, bool, T>>>,
    given: Standing,
    lineage: Seq<nat>,
)
    requires
        is_family(records),
        records.dom().contains(lineage),
        follows(
            acquire(strategy, rounds),
            lock.site(),
            before,
            records[given.lineage],
            match guard {
                Some(guard) => Stage::Held(guard@),
                None => Stage::GaveUp,
            },
        ),
        guard matches Some(guard) ==> {
            &&& guard.is_new(lock)
            &&& guard.standing() == given.child((records[given.lineage].len() - 1) as nat)
            &&& records[guard.standing().lineage] == guard.record()
        },
        comes_later(given, before.len(), lineage),
    ensures
        guard is Some,
        guard->0.holds() && guard->0.lock() == lock,
        lineage == guard->0.standing().lineage,
        records[lineage].len() == 0,
{
    let found = match guard {
        Some(guard) => Some(guard@),
        None => None,
    };
    let after = records[given.lineage];
    law_one_record_for_a_guard(lock, strategy, rounds, before, after, found);
    assert forall|at: nat|
        before.len() <= at < after.len() && records.dom().contains(
            #[trigger] given.child(at).lineage,
        ) implies records[given.child(at).lineage].len() == 0 by {
        let child = given.child(at).lineage;
        assert(child.drop_last() =~= given.lineage);
        assert(child.last() == at);
        assert(after[at as int].op is Split);
    }
    law_untouched_records_are_all_there_are(records, given, before.len(), lineage);
    assert(after[lineage[given.lineage.len() as int] as int].op is Split);
}

/// Neither a release nor a question uses any record but the one that it is given.
pub proof fn law_release_and_ask_use_one_record<K, T>(
    lock: SpinLock<K, T>,
    start: Stage<T>,
    before: Seq<Event<FlagSite<K, T>, bool, T>>,
    end: Stage<T>,
    records: Map<Seq<nat>, Seq<Event<FlagSite<K, T>, bool, T>>>,
    given: Standing,
    lineage: Seq<nat>,
)
    requires
        is_family(records),
        records.dom().contains(lineage),
        follows(start, lock.site(), before, records[given.lineage], end),
        start is Return && (end is Released || end is Held) || start is Ask && end is Answer,
    ensures
        !comes_later(given, before.len(), lineage),
{
    let after = records[given.lineage];
    match (start, end) {
        (Stage::Return(data), Stage::Held(kept)) => {
            law_record_of_a_release(lock, data, before, after, Some(kept));
        },
        (Stage::Return(data), _) => {
            law_record_of_a_release(lock, data, before, after, None);
        },
        (_, Stage::Answer(held)) => {
            law_record_of_an_ask(lock, before, after, held);
        },
        _ => {},
    }
    assert(forall|i: int| before.len() <= i < after.len() ==> !((#[trigger] after[i]).op is Split));
    assert forall|at: nat|
        before.len() <= at < after.len() && records.dom().contains(
            #[trigger] given.child(at).lineage,
        ) implies records[given.child(at).lineage].len() == 0 by {
        let child = given.child(at).lineage;
        assert(child.drop_last() =~= given.lineage);
        assert(child.last() == at);
        assert(after[at as int].op is Split);
    }
    if comes_later(given, before.len(), lineage) {
        law_untouched_records_are_all_there_are(records, given, before.len(), lineage);
        assert(after[lineage[given.lineage.len() as int] as int].op is Split);
    }
}

/// A release moves the data back and then clears the flag, or finds another thread
/// at the cell. It does nothing else.
pub proof fn law_record_of_a_release<K, T>(
    lock: SpinLock<K, T>,
    data: T,
    before: Seq<Event<FlagSite<K, T>, bool, T>>,
    after: Seq<Event<FlagSite<K, T>, bool, T>>,
    kept: Option<T>,
)
    requires
        follows(
            Stage::Return(data),
            lock.site(),
            before,
            after,
            match kept {
                Some(kept) => Stage::Held(kept),
                None => Stage::Released,
            },
        ),
    ensures
        kept is None ==> after == before + all_on(
            lock.site(),
            seq![Op::Put { value: data }, Op::Store { order: Order::Release, value: false }],
        ),
        kept is Some ==> kept == Some(data) && after == before + all_on(
            lock.site(),
            seq![Op::Busy],
        ),
{
    let end = match kept {
        Some(kept) => Stage::Held(kept),
        None => Stage::Released,
    };
    let done = law_record_is_kept_and_goes_on(
        Stage::Return(data),
        lock.site(),
        before,
        after,
        end,
    );
    law_what_a_release_performs(data, done, end);
}

/// To ask whether a lock is held is one look at its flag, and the answer is what that
/// look found.
pub proof fn law_record_of_an_ask<K, T>(
    lock: SpinLock<K, T>,
    before: Seq<Event<FlagSite<K, T>, bool, T>>,
    after: Seq<Event<FlagSite<K, T>, bool, T>>,
    held: bool,
)
    requires
        follows(Stage::<T>::Ask, lock.site(), before, after, Stage::<T>::Answer(held)),
    ensures
        after == before.push(
            Event { site: lock.site(), op: Op::Load { order: Order::Relaxed, value: held } },
        ),
{
    let done = law_record_is_kept_and_goes_on(
        Stage::<T>::Ask,
        lock.site(),
        before,
        after,
        Stage::<T>::Answer(held),
    );
    law_what_an_ask_performs(done, held);
    assert(after =~= before.push(
        Event { site: lock.site(), op: Op::Load { order: Order::Relaxed, value: held } },
    ));
}

} // verus!
