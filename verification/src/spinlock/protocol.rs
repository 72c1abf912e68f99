//! What a thread does to a spin lock, operation by operation.
use vstd::prelude::*;

use crate::memory::{Op, Order, Program};

verus! {

/// How a thread goes about acquiring a lock.
pub enum Strategy {
    /// Look at the flag first, and try to set it once it looks free.
    TestFirst,
    /// Try to set the flag first, and look at it only after that failed.
    Optimistic,
}

/// An attempt to set the flag.
pub open spec fn test_and_set<T>(result: Result<bool, bool>) -> Op<bool, T> {
    Op::CompareExchange {
        weak: true,
        current: false,
        new: true,
        success: Order::Acquire,
        failure: Order::Relaxed,
        result,
    }
}

/// Where a thread stands, by what it does next.
pub enum Stage<T> {
    /// Acquiring, with `left` rounds to go: look at the flag.
    Test { strategy: Strategy, left: nat },
    /// Acquiring, with `left` rounds to go: try to set the flag.
    Grab { strategy: Strategy, left: nat },
    /// Acquiring: pause, and then go on with `left` rounds.
    Pause { strategy: Strategy, left: nat },
    /// The flag is set: move the data out of the cell.
    Fetch,
    /// The data cannot be had: clear the flag again.
    Undo,
    /// The rounds are used up.
    GaveUp,
    /// The data are moved out: give the guard a record of its own.
    Hand(T),
    /// The lock is held, and this is the data.
    Held(T),
    /// Releasing: move the data back into the cell.
    Return(T),
    /// Releasing: clear the flag.
    Clear,
    /// The lock was released.
    Released,
    /// Asking whether the lock is held: look at the flag.
    Ask,
    /// What the flag said.
    Answer(bool),
}

/// How a thread starts to acquire a lock with so many rounds.
pub open spec fn acquire<T>(strategy: Strategy, rounds: nat) -> Stage<T> {
    if rounds == 0 {
        Stage::GaveUp
    } else {
        match strategy {
            Strategy::TestFirst => Stage::Test { strategy, left: rounds },
            Strategy::Optimistic => Stage::Grab { strategy, left: rounds },
        }
    }
}

/// How a thread goes on after a round that failed.
pub open spec fn again<T>(strategy: Strategy, left: nat) -> Stage<T> {
    if left == 0 {
        Stage::GaveUp
    } else {
        Stage::Test { strategy, left }
    }
}

impl<T> Program<bool, T> for Stage<T> {
    open spec fn next(self, op: Op<bool, T>) -> Option<Self> {
        match (self, op) {
            (Stage::Test { strategy, left }, Op::Load { order: Order::Relaxed, value }) => Some(
                if value {
                    Stage::Pause { strategy, left: (left - 1) as nat }
                } else {
                    Stage::Grab { strategy, left }
                },
            ),
            (
                Stage::Grab { strategy, left },
                Op::CompareExchange { result, .. },
            ) if op == test_and_set::<T>(result) => Some(
                if result is Ok {
                    Stage::Fetch
                } else if strategy is TestFirst {
                    Stage::Pause { strategy, left: (left - 1) as nat }
                } else {
                    again(strategy, (left - 1) as nat)
                },
            ),
            (Stage::Pause { strategy, left }, Op::SpinHint) => Some(again(strategy, left)),
            (Stage::Fetch, Op::Take { value }) => Some(
                match value {
                    Some(data) => Stage::Hand(data),
                    None => Stage::Undo,
                },
            ),
            (Stage::Hand(data), Op::Split) => Some(Stage::Held(data)),
            (Stage::Fetch, Op::Busy) => Some(Stage::Undo),
            (Stage::Undo, Op::Store { order: Order::Release, value: false }) => Some(Stage::GaveUp),
            (Stage::Return(data), Op::Put { value }) if value == data => Some(Stage::Clear),
            (Stage::Return(data), Op::Busy) => Some(Stage::Held(data)),
            (Stage::Clear, Op::Store { order: Order::Release, value: false }) => Some(
                Stage::Released,
            ),
            (Stage::Ask, Op::Load { order: Order::Relaxed, value }) => Some(Stage::Answer(value)),
            _ => None,
        }
    }
}

} // verus!
