//! What the two ends of a channel do to its slot, operation by operation.
use vstd::prelude::*;

use crate::memory::{Op, Order, Program};

verus! {

/// Nothing has been sent, and both ends are there.
pub const EMPTY: u32 = 0;

/// The sender has reserved the slot and has not published a value yet.
pub const WRITING: u32 = 1;

/// The slot holds a value.
pub const SENT: u32 = 2;

/// The receiver has moved the value out.
pub const RECEIVED: u32 = 3;

/// One end is gone, and there is no value and will be none.
pub const CLOSED: u32 = 4;

/// An attempt to move the state from `EMPTY` to `new`.
pub open spec fn from_empty<T>(new: u32, result: Result<u32, u32>) -> Op<u32, T> {
    Op::CompareExchange {
        weak: false,
        current: EMPTY,
        new,
        success: Order::Relaxed,
        failure: Order::Relaxed,
        result,
    }
}

/// What has come of a sender.
pub enum SendOutcome<T> {
    /// Nothing was sent so far.
    Unused,
    /// The value was published.
    Sent(T),
    /// The channel was closed, and the value came back.
    Refused(T),
}

/// What has come of a sender that was to send `value` and returned `result`.
pub open spec fn send_outcome<T>(value: T, result: Result<(), T>) -> SendOutcome<T> {
    match result {
        Ok(()) => SendOutcome::Sent(value),
        Err(back) => SendOutcome::Refused(back),
    }
}

/// Where the sending end stands, by what it does next.
pub enum SenderStage<T> {
    /// Between calls.
    Holding(SendOutcome<T>),
    /// Sending: reserve the slot.
    Claim(T),
    /// Sending: write the value.
    Fill(T),
    /// Sending: publish the value, which is written.
    Publish(T),
    /// Sending: wake up the receiver.
    Wake(T),
    /// Sending, but the cell cannot be written: close the channel.
    Abandon(T),
    /// Sending, but the cell cannot be written: wake up the receiver.
    AbandonWake(T),
    /// Dropped: close the channel, if nothing was sent.
    Close,
    /// Dropped: wake up the receiver.
    CloseWake,
    /// Dropped.
    Gone,
}

impl<T> Program<u32, T> for SenderStage<T> {
    open spec fn next(self, op: Op<u32, T>) -> Option<Self> {
        match (self, op) {
            (
                SenderStage::Claim(value),
                Op::CompareExchange { result, .. },
            ) if op == from_empty::<T>(WRITING, result) => Some(
                if result is Ok {
                    SenderStage::Fill(value)
                } else {
                    SenderStage::Holding(SendOutcome::Refused(value))
                },
            ),
            (SenderStage::Fill(value), Op::Put { value: written }) if written == value => Some(
                SenderStage::Publish(value),
            ),
            (
                SenderStage::Publish(value),
                Op::Store { order: Order::Release, value: state },
            ) if state == SENT => Some(SenderStage::Wake(value)),
            (SenderStage::Wake(value), Op::WakeOne) => Some(
                SenderStage::Holding(SendOutcome::Sent(value)),
            ),
            (SenderStage::Fill(value), Op::Busy) => Some(SenderStage::Abandon(value)),
            (
                SenderStage::Abandon(value),
                Op::Store { order: Order::Relaxed, value: state },
            ) if state == CLOSED => Some(SenderStage::AbandonWake(value)),
            (SenderStage::AbandonWake(value), Op::WakeOne) => Some(
                SenderStage::Holding(SendOutcome::Refused(value)),
            ),
            (
                SenderStage::Close,
                Op::CompareExchange { result, .. },
            ) if op == from_empty::<T>(CLOSED, result) => Some(
                if result is Ok {
                    SenderStage::CloseWake
                } else {
                    SenderStage::Gone
                },
            ),
            (SenderStage::CloseWake, Op::WakeOne) => Some(SenderStage::Gone),
            _ => None,
        }
    }
}

/// What has come of a receiver.
pub enum ReceiveOutcome<T> {
    /// Nothing was received so far.
    Unused,
    /// The value was received.
    Received(T),
    /// The channel was closed without a value.
    Nothing,
}

/// Where the receiving end stands, by what it does next.
pub enum ReceiverStage<T> {
    /// Between calls.
    Holding(ReceiveOutcome<T>),
    /// Receiving, with `left` rounds to go: look at the state.
    Poll { left: nat },
    /// Receiving: wait for the state to change from `state`.
    Wait { state: u32, left: nat },
    /// Receiving, with `left` rounds to go: move the value out.
    Take { left: nat },
    /// Receiving: mark the value as moved out.
    Mark(Option<T>),
    /// Dropped: close the channel, if nothing was sent.
    Close,
    /// Dropped.
    Gone,
}

/// What a receiver does that has `left` rounds to go.
pub open spec fn poll<T>(left: nat) -> ReceiverStage<T> {
    if left == 0 {
        ReceiverStage::Holding(ReceiveOutcome::Unused)
    } else {
        ReceiverStage::Poll { left }
    }
}

/// What has come of a receiver that returned `value`.
pub open spec fn received<T>(value: Option<T>) -> ReceiveOutcome<T> {
    match value {
        Some(value) => ReceiveOutcome::Received(value),
        None => ReceiveOutcome::Nothing,
    }
}

impl<T> Program<u32, T> for ReceiverStage<T> {
    open spec fn next(self, op: Op<u32, T>) -> Option<Self> {
        match (self, op) {
            (
                ReceiverStage::Poll { left },
                Op::Load { order: Order::Acquire, value: state },
            ) => Some(
                if state == EMPTY || state == WRITING {
                    ReceiverStage::Wait { state, left: (left - 1) as nat }
                } else if state == SENT {
                    ReceiverStage::Take { left }
                } else {
                    ReceiverStage::Holding(ReceiveOutcome::Nothing)
                },
            ),
            (ReceiverStage::Wait { state, left }, Op::Wait { value }) if value == state => Some(
                poll(left),
            ),
            (ReceiverStage::Take { .. }, Op::Take { value }) => Some(ReceiverStage::Mark(value)),
            (ReceiverStage::Take { left }, Op::Busy) => Some(poll((left - 1) as nat)),
            (
                ReceiverStage::Mark(taken),
                Op::Store { order: Order::Relaxed, value: state },
            ) if state == RECEIVED => Some(ReceiverStage::Holding(received(taken))),
            (
                ReceiverStage::Close,
                Op::CompareExchange { result, .. },
            ) if op == from_empty::<T>(CLOSED, result) => Some(ReceiverStage::Gone),
            _ => None,
        }
    }
}

} // verus!
