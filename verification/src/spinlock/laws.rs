//! What holds of a spin lock however those who use it interleave.
use vstd::prelude::*;

use super::protocol::{acquire, test_and_set, Stage, Strategy};
use crate::memory::{lemma_run_of_prefix, lemma_run_one_step, run, Memory, Op, Order, Program};

verus! {

/// One step of one user.
pub enum Move<T> {
    /// It sets out to acquire the lock, with so many rounds.
    Acquire(Strategy, nat),
    /// It changes the data, while it holds the lock.
    Change(T),
    /// It passes the guard on to another user, while it holds the lock.
    Pass(int),
    /// It sets out to release the lock, which it holds.
    Release,
    /// It sets out to ask whether the lock is held.
    Ask,
    /// It performs an operation.
    Perform(Op<bool, T>),
}

/// Whether a user that has come this far has the lock: it has set the flag
/// and has not cleared it again.
pub open spec fn has_lock<T>(stage: Stage<T>) -> bool {
    match stage {
        Stage::Fetch | Stage::Undo | Stage::Hand(_) => true,
        Stage::Held(_) | Stage::Return(_) | Stage::Clear => true,
        _ => false,
    }
}

/// Whether a user that has come this far has finished what it set out to do
/// and does not hold the lock.
pub open spec fn is_idle<T>(stage: Stage<T>) -> bool {
    match stage {
        Stage::GaveUp | Stage::Released | Stage::Answer(_) => true,
        _ => false,
    }
}

/// A spin lock and its users.
///
/// A user is what one thread does with the lock in one call after the other, each
/// of which begins when the guard of the one before is gone. A thread that makes a
/// call while it holds a guard, to ask or to acquire the lock again, is a second
/// user by that. What it knows of the data as the first one is not counted.
pub struct Users<T> {
    pub memory: Memory<bool, T>,
    pub stages: spec_fn(int) -> Stage<T>,
}

impl<T> Users<T> {
    /// A new lock that protects `data`.
    pub open spec fn initial(data: T) -> Self {
        Users {
            memory: Memory::initial(false, Some(data)),
            stages: |user: int| Stage::Released,
        }
    }

    /// The lock after `user` has come to `stage`.
    pub open spec fn at(self, user: int, stage: Stage<T>) -> Self {
        Users {
            stages: |other: int|
                if other == user {
                    stage
                } else {
                    (self.stages)(other)
                },
            ..self
        }
    }

    /// The lock after a move of `user`, or `None` if the move is not possible.
    pub open spec fn step(self, user: int, m: Move<T>) -> Option<Self> {
        let stage = (self.stages)(user);
        match m {
            Move::Acquire(strategy, rounds) => if is_idle(stage) {
                Some(self.at(user, acquire(strategy, rounds)))
            } else {
                None
            },
            Move::Change(data) => if stage is Held {
                Some(self.at(user, Stage::Held(data)))
            } else {
                None
            },
            Move::Pass(other) => match stage {
                Stage::Held(data) if is_idle((self.stages)(other)) => Some(
                    // What one user hands to another happens before the other
                    // goes on.
                    Users {
                        memory: self.memory.told(other, (self.memory.known)(user)),
                        ..self.at(user, Stage::Released).at(other, Stage::Held(data))
                    },
                ),
                _ => None,
            },
            Move::Release => match stage {
                Stage::Held(data) => Some(self.at(user, Stage::Return(data))),
                _ => None,
            },
            Move::Ask => if is_idle(stage) {
                Some(self.at(user, Stage::Ask))
            } else {
                None
            },
            Move::Perform(op) => match (self.memory.step(user, op), stage.next(op)) {
                (Some(memory), Some(next)) => Some(Users { memory, ..self.at(user, next) }),
                _ => None,
            },
        }
    }

    /// What every move keeps; `data` are those that were moved into the cell
    /// last.
    spec fn inv(self, data: T) -> bool {
        let memory = self.memory;
        let known = memory.known;
        &&& !memory.raced
        &&& memory.published <= memory.accesses
        &&& forall|user: int| #[trigger] known(user) <= memory.accesses
        &&& memory.word <==> exists|user: int| has_lock(#[trigger] (self.stages)(user))
        &&& forall|one: int, other: int|
            has_lock(#[trigger] (self.stages)(one)) && has_lock(#[trigger] (self.stages)(other))
                ==> one == other
        &&& !memory.word ==> memory.cell == Some(data) && memory.published == memory.accesses
        &&& forall|user: int|
            match #[trigger] (self.stages)(user) {
                Stage::Fetch | Stage::Clear => memory.cell == Some(data) && known(user)
                    == memory.accesses,
                Stage::Hand(_) | Stage::Held(_) | Stage::Return(_) => memory.cell is None && known(
                    user,
                ) == memory.accesses,
                Stage::Undo => false,
                _ => true,
            }
    }
}

/// The lock after so many moves, each with the user that makes it, or `None`
/// if they are not possible.
pub open spec fn play<T>(data: T, moves: Seq<(int, Move<T>)>) -> Option<Users<T>>
    decreases moves.len(),
{
    if moves.len() == 0 {
        Some(Users::initial(data))
    } else {
        match play(data, moves.drop_last()) {
            Some(users) => users.step(moves.last().0, moves.last().1),
            None => None,
        }
    }
}

/// The data as the last user that released the lock left them, or as they
/// were at first.
pub open spec fn last_data<T>(data: T, moves: Seq<(int, Move<T>)>) -> T
    decreases moves.len(),
{
    if moves.len() == 0 {
        data
    } else {
        match moves.last().1 {
            Move::Perform(Op::Put { value }) => value,
            _ => last_data(data, moves.drop_last()),
        }
    }
}

/// The operations that `user` performs in some moves.
pub open spec fn ops_of<T>(user: int, moves: Seq<(int, Move<T>)>) -> Seq<Op<bool, T>>
    decreases moves.len(),
{
    if moves.len() == 0 {
        Seq::empty()
    } else {
        let others = ops_of(user, moves.drop_last());
        match moves.last() {
            (mover, Move::Perform(op)) => if mover == user {
                others.push(op)
            } else {
                others
            },
            _ => others,
        }
    }
}

proof fn lemma_step_keeps_inv<T>(users: Users<T>, data: T, user: int, m: Move<T>)
    requires
        users.inv(data),
        users.step(user, m) is Some,
    ensures
        users.step(user, m)->0.inv(
            match m {
                Move::Perform(Op::Put { value }) => value,
                _ => data,
            },
        ),
{
    let after = users.step(user, m)->0;
    let to = match m {
        Move::Pass(other) => other,
        _ => user,
    };
    assert(forall|other: int|
        other != user && other != to ==> (after.stages)(other) == #[trigger] (users.stages)(
            other,
        ));
    if after.memory.word {
        if !has_lock((after.stages)(to)) {
            let owner = choose|owner: int| has_lock(#[trigger] (users.stages)(owner));
            assert(has_lock((after.stages)(owner)));
        }
        assert(exists|owner: int| has_lock(#[trigger] (after.stages)(owner)));
    } else {
        assert forall|other: int| !has_lock(#[trigger] (after.stages)(other)) by {
            assert(has_lock((users.stages)(user)) && has_lock((users.stages)(other)) ==> other
                == user);
        }
    }
}

proof fn lemma_inv<T>(data: T, moves: Seq<(int, Move<T>)>)
    requires
        play(data, moves) is Some,
    ensures
        play(data, moves)->0.inv(last_data(data, moves)),
    decreases moves.len(),
{
    if moves.len() > 0 {
        let earlier = moves.drop_last();
        lemma_inv(data, earlier);
        lemma_step_keeps_inv(
            play(data, earlier)->0,
            last_data(data, earlier),
            moves.last().0,
            moves.last().1,
        );
    }
}

/// At most one user has the lock.
pub proof fn law_mutual_exclusion<T>(data: T, moves: Seq<(int, Move<T>)>, one: int, other: int)
    requires
        play(data, moves) is Some,
        has_lock((play(data, moves)->0.stages)(one)),
        has_lock((play(data, moves)->0.stages)(other)),
    ensures
        one == other,
{
    lemma_inv(data, moves);
}

/// A look at the flag says whether some user has the lock at that moment.
pub proof fn law_flag_tells_whether_held<T>(
    data: T,
    moves: Seq<(int, Move<T>)>,
    user: int,
    order: Order,
    held: bool,
)
    requires
        play(data, moves.push((user, Move::Perform(Op::Load { order, value: held })))) is Some,
    ensures
        held <==> exists|owner: int| has_lock(#[trigger] (play(data, moves)->0.stages)(owner)),
{
    let m = (user, Move::Perform(Op::Load { order, value: held }));
    assert(moves.push(m).drop_last() =~= moves);
    lemma_inv(data, moves);
}

/// A user that asks looks at the flag once, and the answer is what it saw: it is
/// `true` if and only if some user has the lock at that moment.
pub proof fn law_answer_tells_whether_held<T>(
    data: T,
    moves: Seq<(int, Move<T>)>,
    user: int,
    op: Op<bool, T>,
    held: bool,
)
    requires
        play(data, moves.push((user, Move::Perform(op)))) is Some,
        (play(data, moves)->0.stages)(user) is Ask,
        (play(data, moves.push((user, Move::Perform(op))))->0.stages)(user) == Stage::<T>::Answer(
            held,
        ),
    ensures
        op == (Op::<bool, T>::Load { order: Order::Relaxed, value: held }),
        held <==> exists|owner: int| has_lock(#[trigger] (play(data, moves)->0.stages)(owner)),
        held <==> play(data, moves)->0.memory.word,
{
    assert(moves.push((user, Move::Perform(op))).drop_last() =~= moves);
    lemma_inv(data, moves);
}

/// A user that asks gets an answer from its first look, and it needs no other one.
pub proof fn law_what_an_ask_performs<T>(ops: Seq<Op<bool, T>>, held: bool)
    requires
        run(Stage::<T>::Ask, ops) == Some(Stage::<T>::Answer(held)),
    ensures
        ops == seq![Op::<bool, T>::Load { order: Order::Relaxed, value: held }],
{
    let start = Stage::<T>::Ask;
    lemma_run_one_step(start, ops, 0);
    if ops.len() > 1 {
        lemma_run_one_step(start, ops, 1);
    }
    assert(ops =~= seq![Op::<bool, T>::Load { order: Order::Relaxed, value: held }]);
}

/// A user that moves the data out of the cell finds them as the last user
/// that released the lock left them, or as they were at first, and it then
/// gets a guard with these data.
pub proof fn law_holder_finds_last_data<T>(
    data: T,
    moves: Seq<(int, Move<T>)>,
    user: int,
    found: Option<T>,
)
    requires
        play(data, moves.push((user, Move::Perform(Op::Take { value: found })))) is Some,
    ensures
        found == Some(last_data(data, moves)),
        (play(data, moves.push((user, Move::Perform(Op::Take { value: found }))))->0.stages)(
            user,
        ) == Stage::Hand(last_data(data, moves)),
{
    let m = (user, Move::Perform(Op::Take { value: found }));
    assert(moves.push(m).drop_last() =~= moves);
    lemma_inv(data, moves);
}

/// A user that releases the lock leaves the data as it has changed them.
pub proof fn law_release_leaves_data<T>(
    data: T,
    moves: Seq<(int, Move<T>)>,
    user: int,
    op: Op<bool, T>,
    left: T,
)
    requires
        play(data, moves) is Some,
        (play(data, moves)->0.stages)(user) == Stage::Return(left),
        play(data, moves.push((user, Move::Perform(op)))) is Some,
    ensures
        last_data(data, moves.push((user, Move::Perform(op)))) == left,
{
    assert(moves.push((user, Move::Perform(op))).drop_last() =~= moves);
    lemma_inv(data, moves);
}

/// The next guard sees the change: if a user moved `left` back and none has moved
/// data back since, then the next user that moves the data out finds `left`.
pub proof fn law_next_guard_sees_the_change<T>(
    data: T,
    moves: Seq<(int, Move<T>)>,
    user: int,
    left: T,
    later: Seq<(int, Move<T>)>,
    next: int,
    found: Option<T>,
)
    requires
        ({
            let put = (user, Move::Perform(Op::Put { value: left }));
            let take = (next, Move::Perform(Op::Take { value: found }));
            play(data, (moves.push(put) + later).push(take)) is Some
        }),
        forall|i: int|
            0 <= i < later.len() ==> !((#[trigger] later[i]).1 is Perform
                && later[i].1->Perform_0 is Put),
    ensures
        found == Some(left),
{
    let put = (user, Move::Perform(Op::Put { value: left }));
    law_holder_finds_last_data(data, moves.push(put) + later, next, found);
    lemma_last_data_stays(data, moves.push(put), later);
}

proof fn lemma_last_data_stays<T>(
    data: T,
    moves: Seq<(int, Move<T>)>,
    later: Seq<(int, Move<T>)>,
)
    requires
        forall|i: int|
            0 <= i < later.len() ==> !((#[trigger] later[i]).1 is Perform
                && later[i].1->Perform_0 is Put),
    ensures
        last_data(data, moves + later) == last_data(data, moves),
    decreases later.len(),
{
    if later.len() == 0 {
        assert(moves + later =~= moves);
    } else {
        let earlier = later.drop_last();
        assert forall|i: int| 0 <= i < earlier.len() implies !((#[trigger] earlier[i]).1 is Perform
            && earlier[i].1->Perform_0 is Put) by {
            assert(earlier[i] == later[i]);
        }
        lemma_last_data_stays(data, moves, earlier);
        assert((moves + later).drop_last() =~= moves + earlier);
        assert(later[later.len() - 1] == later.last());
    }
}

/// After a release the lock is free, and the data are in the cell.
pub proof fn law_release_frees<T>(
    data: T,
    moves: Seq<(int, Move<T>)>,
    user: int,
    op: Op<bool, T>,
)
    requires
        play(data, moves) is Some,
        (play(data, moves)->0.stages)(user) is Clear,
        play(data, moves.push((user, Move::Perform(op)))) is Some,
    ensures
        ({
            let users = play(data, moves.push((user, Move::Perform(op))))->0;
            &&& !users.memory.word
            &&& users.memory.cell == Some(last_data(data, moves))
            &&& forall|other: int| !has_lock(#[trigger] (users.stages)(other))
        }),
{
    let m = (user, Move::Perform(op));
    assert(moves.push(m).drop_last() =~= moves);
    lemma_inv(data, moves);
    lemma_inv(data, moves.push(m));
}

/// A user that has set the flag never finds the cell empty or busy, so it never
/// has to clear the flag again without having held the lock, and it never fails to
/// release it.
pub proof fn law_data_are_always_there<T>(data: T, moves: Seq<(int, Move<T>)>, user: int)
    requires
        play(data, moves) is Some,
    ensures
        !((play(data, moves)->0.stages)(user) is Undo),
        (play(data, moves)->0.stages)(user) is Fetch ==> play(data, moves)->0.memory.cell is Some,
        play(data, moves)->0.step(user, Move::Perform(Op::Busy)) is None,
{
    lemma_inv(data, moves);
}

/// While a user has the data, the cell is empty. So to give them back overwrites
/// nothing and drops nothing.
pub proof fn law_cell_is_empty_while_held<T>(data: T, moves: Seq<(int, Move<T>)>, user: int)
    requires
        play(data, moves) is Some,
        ({
            let stage = (play(data, moves)->0.stages)(user);
            stage is Hand || stage is Held || stage is Return
        }),
    ensures
        play(data, moves)->0.memory.cell is None,
{
    lemma_inv(data, moves);
}

/// Users never touch the data at the same time: every access happens after
/// all those before it, and so sees what they have done.
pub proof fn law_no_data_race<T>(data: T, moves: Seq<(int, Move<T>)>)
    requires
        play(data, moves) is Some,
    ensures
        !play(data, moves)->0.memory.raced,
{
    lemma_inv(data, moves);
}

/// A user that does not have the lock changes neither the flag nor the data,
/// unless it gets the lock by that.
pub proof fn law_trying_changes_nothing<T>(
    data: T,
    moves: Seq<(int, Move<T>)>,
    user: int,
    m: Move<T>,
)
    requires
        play(data, moves.push((user, m))) is Some,
        !has_lock((play(data, moves)->0.stages)(user)),
        !has_lock((play(data, moves.push((user, m)))->0.stages)(user)),
    ensures
        play(data, moves.push((user, m)))->0.memory.word == play(data, moves)->0.memory.word,
        play(data, moves.push((user, m)))->0.memory.cell == play(data, moves)->0.memory.cell,
{
    assert(moves.push((user, m)).drop_last() =~= moves);
}

/// What a user does that acquires a free lock undisturbed, with either
/// strategy.
pub open spec fn undisturbed<T>(strategy: Strategy, data: T) -> Seq<Op<bool, T>> {
    let set = seq![test_and_set(Ok(false)), Op::Take { value: Some(data) }, Op::Split];
    match strategy {
        Strategy::TestFirst => seq![Op::Load { order: Order::Relaxed, value: false }] + set,
        Strategy::Optimistic => set,
    }
}

/// The moves of a user that performs so many operations.
pub open spec fn performed<T>(user: int, ops: Seq<Op<bool, T>>) -> Seq<(int, Move<T>)> {
    Seq::new(ops.len(), |i: int| (user, Move::Perform(ops[i])))
}

/// A user that sets out to acquire a free lock with at least one round can
/// get it in its first round, with the data as they were left.
pub proof fn law_free_lock_can_be_acquired<T>(
    data: T,
    moves: Seq<(int, Move<T>)>,
    user: int,
    strategy: Strategy,
    rounds: nat,
)
    requires
        play(data, moves) is Some,
        !play(data, moves)->0.memory.word,
        rounds > 0,
        (play(data, moves)->0.stages)(user) == acquire::<T>(strategy, rounds),
    ensures
        ({
            let found = last_data(data, moves);
            let more = moves + performed(user, undisturbed(strategy, found));
            &&& play(data, more) is Some
            &&& (play(data, more)->0.stages)(user) == Stage::Held(found)
        }),
{
    lemma_inv(data, moves);
    let found = last_data(data, moves);
    let ops = undisturbed(strategy, found);
    let more = moves + performed(user, ops);
    assert(more.take(moves.len() as int) =~= moves);
    let one = more.take(moves.len() as int + 1);
    let two = more.take(moves.len() as int + 2);
    assert(one.drop_last() =~= moves);
    assert(two.drop_last() =~= one);
    assert(one.last() == (user, Move::Perform(ops[0])));
    assert(two.last() == (user, Move::Perform(ops[1])));
    assert(play(data, one) is Some);
    assert(play(data, two) is Some);
    let three = more.take(moves.len() as int + 3);
    assert(three.drop_last() =~= two);
    assert(three.last() == (user, Move::Perform(ops[2])));
    assert(play(data, three) is Some);
    if strategy is TestFirst {
        assert(more.drop_last() =~= three);
    } else {
        assert(more =~= three);
    }
}

/// A user that looks first tries to set the flag only right after it has seen
/// it clear.
pub proof fn law_test_comes_before_set<T>(rounds: nat, ops: Seq<Op<bool, T>>, i: int)
    requires
        run(acquire::<T>(Strategy::TestFirst, rounds), ops) is Some,
        0 <= i < ops.len(),
        ops[i] is CompareExchange,
    ensures
        i > 0,
        ops[i - 1] == (Op::<bool, T>::Load { order: Order::Relaxed, value: false }),
{
    lemma_run_of_prefix(acquire::<T>(Strategy::TestFirst, rounds), ops, i + 1);
    lemma_run_of_prefix(acquire::<T>(Strategy::TestFirst, rounds), ops, i);
    let before = ops.take(i);
    assert(ops.take(i + 1).drop_last() =~= before);
    lemma_acquire_stage(Strategy::TestFirst, rounds, before);
}

/// An optimistic user tries to set the flag at once, and after that only right
/// after it has seen it clear.
pub proof fn law_optimist_sets_first<T>(rounds: nat, ops: Seq<Op<bool, T>>, i: int)
    requires
        run(acquire::<T>(Strategy::Optimistic, rounds), ops) is Some,
        0 <= i < ops.len(),
    ensures
        ops[0] is CompareExchange,
        i > 0 && ops[i] is CompareExchange ==> ops[i - 1] == (Op::<bool, T>::Load {
            order: Order::Relaxed,
            value: false,
        }),
{
    let start = acquire::<T>(Strategy::Optimistic, rounds);
    lemma_run_of_prefix(start, ops, 1);
    assert(ops.take(1).drop_last() =~= Seq::<Op<bool, T>>::empty());
    assert(run(start, ops.take(1).drop_last()) == Some(start));
    lemma_run_of_prefix(start, ops, i + 1);
    lemma_run_of_prefix(start, ops, i);
    assert(ops.take(i + 1).drop_last() =~= ops.take(i));
    lemma_acquire_stage(Strategy::Optimistic, rounds, ops.take(i));
}

/// How often a user has failed: it saw the flag set, or could not set it.
pub open spec fn failures<T>(ops: Seq<Op<bool, T>>) -> nat
    decreases ops.len(),
{
    if ops.len() == 0 {
        0
    } else {
        failures(ops.drop_last()) + match ops.last() {
            Op::Load { value: true, .. } => 1nat,
            Op::CompareExchange { result: Err(_), .. } => 1nat,
            _ => 0nat,
        }
    }
}

/// A user that gives up without having set the flag has failed as often as it
/// was allowed to.
pub proof fn law_rounds_are_used_up<T>(strategy: Strategy, rounds: nat, ops: Seq<Op<bool, T>>)
    requires
        run(acquire::<T>(strategy, rounds), ops) == Some(Stage::<T>::GaveUp),
        ops.len() > 0 ==> !(ops.last() is Store),
    ensures
        failures(ops) == rounds,
{
    lemma_failures(strategy, rounds, ops);
}

/// How many rounds are left to a user that acquires the lock.
pub(super) proof fn lemma_failures<T>(strategy: Strategy, rounds: nat, ops: Seq<Op<bool, T>>)
    requires
        run(acquire::<T>(strategy, rounds), ops) is Some,
    ensures
        match run(acquire::<T>(strategy, rounds), ops)->0 {
            Stage::Grab { left, .. } => left > 0 && failures(ops) + left == rounds,
            Stage::Test { left, .. } => left > 0 && failures(ops) + left == rounds,
            Stage::Pause { left, .. } => failures(ops) + left == rounds,
            Stage::GaveUp => failures(ops) == rounds || ops.last() is Store,
            Stage::Fetch | Stage::Undo | Stage::Hand(_) | Stage::Held(_) => failures(ops) < rounds,
            _ => false,
        },
        ops.len() == 0 ==> failures(ops) == 0,
    decreases ops.len(),
{
    if ops.len() > 0 {
        lemma_failures(strategy, rounds, ops.drop_last());
    }
}

/// Where a user stands that acquires the lock, and what it did last if it is
/// about to set the flag.
pub(super) proof fn lemma_acquire_stage<T>(strategy: Strategy, rounds: nat, ops: Seq<Op<bool, T>>)
    requires
        run(acquire::<T>(strategy, rounds), ops) is Some,
    ensures
        match run(acquire::<T>(strategy, rounds), ops)->0 {
            Stage::Grab { strategy: s, left } => s == strategy && if ops.len() == 0 {
                strategy is Optimistic
            } else {
                ops.last() == (Op::<bool, T>::Load { order: Order::Relaxed, value: false })
            },
            Stage::Test { strategy: s, left } => s == strategy,
            Stage::Pause { strategy: s, left } => s == strategy,
            Stage::Return(_) | Stage::Clear | Stage::Ask | Stage::Answer(_) => false,
            _ => true,
        },
    decreases ops.len(),
{
    if ops.len() > 0 {
        lemma_acquire_stage(strategy, rounds, ops.drop_last());
    }
}

/// Whether `user` does nothing in some moves but perform operations, and is not
/// passed a guard.
pub open spec fn only_performs<T>(user: int, moves: Seq<(int, Move<T>)>) -> bool {
    forall|i: int|
        0 <= i < moves.len() ==> {
            &&& (#[trigger] moves[i]).0 == user ==> moves[i].1 is Perform
            &&& moves[i].1 != Move::<T>::Pass(user)
        }
}

/// Within one call, the operations that a user performs are those of its
/// program, whatever the other users do in between.
pub proof fn law_user_follows_its_program<T>(
    data: T,
    moves: Seq<(int, Move<T>)>,
    later: Seq<(int, Move<T>)>,
    user: int,
)
    requires
        play(data, moves + later) is Some,
        only_performs(user, later),
    ensures
        run((play(data, moves)->0.stages)(user), ops_of(user, later)) == Some(
            (play(data, moves + later)->0.stages)(user),
        ),
    decreases later.len(),
{
    if later.len() == 0 {
        assert(moves + later =~= moves);
    } else {
        let earlier = later.drop_last();
        lemma_one_move_less(user, moves, later);
        law_user_follows_its_program(data, moves, earlier, user);
        if later.last().0 == user {
            assert(ops_of(user, later).drop_last() =~= ops_of(user, earlier));
        }
    }
}

proof fn lemma_one_move_less<T>(
    user: int,
    moves: Seq<(int, Move<T>)>,
    later: Seq<(int, Move<T>)>,
)
    requires
        later.len() > 0,
        only_performs(user, later),
    ensures
        (moves + later).drop_last() == moves + later.drop_last(),
        (moves + later).last() == later.last(),
        only_performs(user, later.drop_last()),
        later.last().0 == user ==> later.last().1 is Perform,
        later.last().1 != Move::<T>::Pass(user),
{
    let earlier = later.drop_last();
    assert((moves + later).drop_last() =~= moves + earlier);
    assert(later[later.len() - 1] == later.last());
    assert forall|i: int| 0 <= i < earlier.len() implies {
        &&& (#[trigger] earlier[i]).0 == user ==> earlier[i].1 is Perform
        &&& earlier[i].1 != Move::<T>::Pass(user)
    } by {
        assert(earlier[i] == later[i]);
    }
}

/// A call of `lock` or `optimistic_lock` that has failed less often than it has
/// rounds when it ends gives a guard.
pub proof fn law_rounds_left_give_a_guard<T>(
    data: T,
    moves: Seq<(int, Move<T>)>,
    later: Seq<(int, Move<T>)>,
    user: int,
    strategy: Strategy,
    rounds: nat,
    end: Stage<T>,
)
    requires
        play(data, moves + later) is Some,
        (play(data, moves)->0.stages)(user) == acquire::<T>(strategy, rounds),
        only_performs(user, later),
        run(acquire::<T>(strategy, rounds), ops_of(user, later)) == Some(end),
        end is Held || end is GaveUp,
        failures(ops_of(user, later)) < rounds,
    ensures
        end is Held,
{
    lemma_failures(strategy, rounds, ops_of(user, later));
    lemma_never_undone(data, moves, later, user, strategy, rounds);
    let n = ops_of(user, later).len();
    if n > 0 {
        assert(!(ops_of(user, later)[n - 1] is Store));
    }
}

/// A user that acquires the lock never stores to the flag.
proof fn lemma_never_undone<T>(
    data: T,
    moves: Seq<(int, Move<T>)>,
    later: Seq<(int, Move<T>)>,
    user: int,
    strategy: Strategy,
    rounds: nat,
)
    requires
        play(data, moves + later) is Some,
        (play(data, moves)->0.stages)(user) == acquire::<T>(strategy, rounds),
        only_performs(user, later),
    ensures
        forall|i: int|
            0 <= i < ops_of(user, later).len() ==> !(#[trigger] ops_of(user, later)[i] is Store),
    decreases later.len(),
{
    if later.len() > 0 {
        let earlier = later.drop_last();
        lemma_one_move_less(user, moves, later);
        lemma_never_undone(data, moves, earlier, user, strategy, rounds);
        law_user_follows_its_program(data, moves, earlier, user);
        lemma_failures(strategy, rounds, ops_of(user, earlier));
        law_data_are_always_there(data, moves + earlier, user);
    }
}

/// After a call of `lock` or `optimistic_lock` that gave a guard, whatever the other
/// users did meanwhile: this user has the lock and no other one has, the flag is
/// set, and the guard has the data as they were left last.
pub proof fn law_lock_is_held_with_the_last_data<T>(
    data: T,
    moves: Seq<(int, Move<T>)>,
    later: Seq<(int, Move<T>)>,
    user: int,
    strategy: Strategy,
    rounds: nat,
    found: T,
)
    requires
        play(data, moves + later) is Some,
        (play(data, moves)->0.stages)(user) == acquire::<T>(strategy, rounds),
        only_performs(user, later),
        run(acquire::<T>(strategy, rounds), ops_of(user, later)) == Some(Stage::Held(found)),
    ensures
        ({
            let users = play(data, moves + later)->0;
            &&& users.memory.word
            &&& (users.stages)(user) == Stage::Held(found)
            &&& forall|other: int|
                has_lock(#[trigger] (users.stages)(other)) ==> other == user
            &&& found == last_data(data, moves + later)
        }),
{
    law_user_follows_its_program(data, moves, later, user);
    lemma_inv(data, moves + later);
    lemma_held_data(data, moves, later, user);
}

proof fn lemma_held_data<T>(
    data: T,
    moves: Seq<(int, Move<T>)>,
    later: Seq<(int, Move<T>)>,
    user: int,
)
    requires
        play(data, moves + later) is Some,
        !((play(data, moves)->0.stages)(user) is Hand),
        !((play(data, moves)->0.stages)(user) is Held),
        !((play(data, moves)->0.stages)(user) is Return),
        only_performs(user, later),
    ensures
        match (play(data, moves + later)->0.stages)(user) {
            Stage::Hand(found) | Stage::Held(found) => found == last_data(data, moves + later),
            Stage::Return(_) => false,
            _ => true,
        },
    decreases later.len(),
{
    if later.len() == 0 {
        assert(moves + later =~= moves);
    } else {
        let earlier = moves + later.drop_last();
        lemma_one_move_less(user, moves, later);
        lemma_held_data(data, moves, later.drop_last(), user);
        lemma_inv(data, earlier);
        let users = play(data, earlier)->0;
        assert(has_lock((users.stages)(user)) && has_lock((users.stages)(later.last().0))
            ==> later.last().0 == user);
    }
}

/// A release moves the data back and then clears the flag, and does nothing else;
/// or it finds the cell busy, and nothing has changed.
pub proof fn law_what_a_release_performs<T>(data: T, ops: Seq<Op<bool, T>>, end: Stage<T>)
    requires
        run(Stage::Return(data), ops) == Some(end),
        end is Released || end is Held,
    ensures
        end is Released ==> ops =~= seq![
            Op::Put { value: data },
            Op::Store { order: Order::Release, value: false },
        ],
        end is Held ==> end == Stage::Held(data) && ops =~= seq![Op::Busy],
{
    let start = Stage::Return(data);
    lemma_release_stage(data, ops);
    assert(run(start, Seq::<Op<bool, T>>::empty()) == Some(start));
    if ops.len() == 2 {
        assert(ops.drop_last().drop_last() =~= Seq::<Op<bool, T>>::empty());
        assert(run(start, ops.drop_last()) is Some);
        assert(ops.drop_last().last() == ops[0]);
    } else {
        assert(ops.drop_last() =~= Seq::<Op<bool, T>>::empty());
    }
}

proof fn lemma_release_stage<T>(data: T, ops: Seq<Op<bool, T>>)
    requires
        run(Stage::Return(data), ops) is Some,
    ensures
        match run(Stage::Return(data), ops)->0 {
            Stage::Return(_) => ops.len() == 0,
            Stage::Clear => ops.len() == 1,
            Stage::Held(_) => ops.len() == 1,
            Stage::Released => ops.len() == 2,
            _ => false,
        },
    decreases ops.len(),
{
    if ops.len() > 0 {
        lemma_release_stage(data, ops.drop_last());
    }
}

/// A call of `unlock`, or the drop of a guard, releases the lock, whatever the other
/// users did meanwhile: it moves back the data that the guard had, clears the flag,
/// and does not have the lock any more.
pub proof fn law_lock_is_released<T>(
    data: T,
    moves: Seq<(int, Move<T>)>,
    later: Seq<(int, Move<T>)>,
    user: int,
    left: T,
    end: Stage<T>,
)
    requires
        play(data, moves + later) is Some,
        (play(data, moves)->0.stages)(user) == Stage::Return(left),
        only_performs(user, later),
        run(Stage::Return(left), ops_of(user, later)) == Some(end),
        end is Released || end is Held,
    ensures
        end is Released,
        ops_of(user, later) =~= seq![
            Op::Put { value: left },
            Op::Store { order: Order::Release, value: false },
        ],
        !has_lock((play(data, moves + later)->0.stages)(user)),
{
    law_what_a_release_performs(left, ops_of(user, later), end);
    law_user_follows_its_program(data, moves, later, user);
    lemma_never_busy(data, moves, later, user);
    if end is Held {
        assert(ops_of(user, later)[0] is Busy);
    }
}

/// A guard that is dropped leaves the lock free, with the data as they are then.
/// That is so too where a panic drops the guard: nothing remembers it.
pub proof fn law_dropped_guard_leaves_the_lock_free<T>(
    data: T,
    moves: Seq<(int, Move<T>)>,
    user: int,
    left: T,
)
    requires
        play(data, moves) is Some,
        (play(data, moves)->0.stages)(user) == Stage::Held(left),
    ensures
        ({
            let release = seq![
                Op::Put { value: left },
                Op::Store { order: Order::Release, value: false },
            ];
            let more = moves.push((user, Move::Release)) + performed(user, release);
            &&& play(data, more) is Some
            &&& !play(data, more)->0.memory.word
            &&& play(data, more)->0.memory.cell == Some(left)
            &&& last_data(data, more) == left
        }),
{
    let begun = moves.push((user, Move::Release));
    let put = (user, Move::Perform(Op::Put { value: left }));
    let clear = (user, Move::Perform(Op::Store { order: Order::Release, value: false }));
    let release = seq![
        Op::Put { value: left },
        Op::Store { order: Order::Release, value: false },
    ];
    assert(begun.drop_last() =~= moves);
    assert(begun.push(put).drop_last() =~= begun);
    assert(begun.push(put).push(clear).drop_last() =~= begun.push(put));
    assert(begun + performed(user, release) =~= begun.push(put).push(clear));
    assert(play(data, begun) is Some);
    assert(play(data, begun.push(put)) is Some);
    assert(last_data(data, begun.push(put)) == left);
}

proof fn lemma_never_busy<T>(
    data: T,
    moves: Seq<(int, Move<T>)>,
    later: Seq<(int, Move<T>)>,
    user: int,
)
    requires
        play(data, moves + later) is Some,
    ensures
        forall|i: int|
            0 <= i < ops_of(user, later).len() ==> !(#[trigger] ops_of(user, later)[i] is Busy),
    decreases later.len(),
{
    if later.len() > 0 {
        let earlier = later.drop_last();
        assert((moves + later).drop_last() =~= moves + earlier);
        lemma_never_busy(data, moves, earlier, user);
        law_data_are_always_there(data, moves + earlier, user);
    }
}

/// With either strategy, a call that gives a guard ends with the flag set, the data
/// moved out and a record for the guard.
pub proof fn law_both_strategies_end_alike<T>(
    strategy: Strategy,
    rounds: nat,
    ops: Seq<Op<bool, T>>,
    found: T,
)
    requires
        run(acquire::<T>(strategy, rounds), ops) == Some(Stage::Held(found)),
    ensures
        ops.len() >= 3,
        ops.last() is Split,
        ops[ops.len() - 2] == (Op::<bool, T>::Take { value: Some(found) }),
        ops[ops.len() - 3] == test_and_set::<T>(ops[ops.len() - 3]->result),
        ops[ops.len() - 3]->result is Ok,
{
    lemma_acquire_end(strategy, rounds, ops);
}

pub(super) proof fn lemma_acquire_end<T>(strategy: Strategy, rounds: nat, ops: Seq<Op<bool, T>>)
    requires
        run(acquire::<T>(strategy, rounds), ops) is Some,
    ensures
        ({
            let n = ops.len() as int;
            match run(acquire::<T>(strategy, rounds), ops)->0 {
                Stage::Fetch => n >= 1 && ops[n - 1] == test_and_set::<T>(ops[n - 1]->result)
                    && ops[n - 1]->result is Ok,
                Stage::Hand(found) => n >= 2 && ops[n - 1] == (Op::<bool, T>::Take {
                    value: Some(found),
                }) && ops[n - 2] == test_and_set::<T>(ops[n - 2]->result)
                    && ops[n - 2]->result is Ok,
                Stage::Held(found) => n >= 3 && ops[n - 1] is Split && ops[n - 2] == (Op::<
                    bool,
                    T,
                >::Take { value: Some(found) }) && ops[n - 3] == test_and_set::<T>(
                    ops[n - 3]->result,
                ) && ops[n - 3]->result is Ok,
                Stage::Undo => n >= 2 && (ops[n - 1] == (Op::<bool, T>::Take { value: None })
                    || ops[n - 1] is Busy) && ops[n - 2] == test_and_set::<T>(ops[n - 2]->result)
                    && ops[n - 2]->result is Ok,
                Stage::Pause { strategy: s, .. } => s == strategy && n >= 1 && (ops[n - 1] == (
                Op::<bool, T>::Load { order: Order::Relaxed, value: true }) || strategy is TestFirst
                    && ops[n - 1] is CompareExchange && ops[n - 1]->result is Err),
                Stage::Grab { strategy: s, .. } => s == strategy,
                Stage::Test { strategy: s, .. } => s == strategy && (n == 0 ==> strategy
                    is TestFirst),
                Stage::Return(_) | Stage::Clear | Stage::Ask | Stage::Answer(_) => false,
                _ => true,
            }
        }),
    decreases ops.len(),
{
    if ops.len() > 0 {
        lemma_acquire_end(strategy, rounds, ops.drop_last());
    }
}

/// An attempt to set the flag of a free lock fails only for no reason. So a user
/// that still has rounds when such failures end has the lock.
pub proof fn law_free_lock_fails_only_for_no_reason<T>(
    data: T,
    moves: Seq<(int, Move<T>)>,
    user: int,
    result: Result<bool, bool>,
)
    requires
        play(data, moves.push((user, Move::Perform(test_and_set(result))))) is Some,
        !play(data, moves)->0.memory.word,
    ensures
        result == Ok::<bool, bool>(false) || result == Err::<bool, bool>(false),
        result is Ok ==> has_lock(
            (play(data, moves.push((user, Move::Perform(test_and_set(result)))))->0.stages)(
                user,
            ),
        ),
{
    assert(moves.push((user, Move::Perform(test_and_set(result)))).drop_last() =~= moves);
}

/// As long as no user has moved data back, they are the ones that the lock was
/// made with: the first guard finds them. Before any move a look finds the lock
/// free.
pub proof fn law_first_guard_finds_the_data<T>(data: T, moves: Seq<(int, Move<T>)>)
    requires
        forall|i: int|
            0 <= i < moves.len() ==> !((#[trigger] moves[i]).1 is Perform
                && moves[i].1->Perform_0 is Put),
    ensures
        last_data(data, moves) == data,
        !play(data, Seq::<(int, Move<T>)>::empty())->0.memory.word,
{
    let none = Seq::<(int, Move<T>)>::empty();
    lemma_last_data_stays(data, none, moves);
    assert(none + moves =~= moves);
}

/// A guard that is passed on stays the only one, keeps its data, and is released by
/// the user that has it then.
pub proof fn law_guard_can_be_passed_on<T>(
    data: T,
    moves: Seq<(int, Move<T>)>,
    user: int,
    other: int,
)
    requires
        play(data, moves.push((user, Move::Pass(other)))) is Some,
    ensures
        ({
            let before = play(data, moves)->0;
            let users = play(data, moves.push((user, Move::Pass(other))))->0;
            &&& (before.stages)(user) is Held
            &&& (users.stages)(other) == (before.stages)(user)
            &&& users.memory.word
            &&& forall|third: int| has_lock(#[trigger] (users.stages)(third)) ==> third == other
            &&& users.step(other, Move::Release) is Some
        }),
{
    assert(moves.push((user, Move::Pass(other))).drop_last() =~= moves);
    lemma_inv(data, moves);
    lemma_inv(data, moves.push((user, Move::Pass(other))));
}

} // verus!
