//! What holds of a channel however its two ends interleave.
use vstd::prelude::*;

use super::protocol::{
    from_empty, poll, received, send_outcome, ReceiveOutcome, ReceiverStage, SendOutcome,
    SenderStage, CLOSED, EMPTY, RECEIVED, SENT, WRITING,
};
use crate::memory::{lemma_run_of_prefix, run, Memory, Op, Order, Program};

verus! {

/// The thread of the sender.
pub open spec fn sender_thread() -> int {
    0
}

/// The thread of the receiver.
pub open spec fn receiver_thread() -> int {
    1
}

/// One step of one end, or of the system under them.
pub enum Move<T> {
    /// The sender is told to send a value.
    Send(T),
    /// The sender is dropped.
    DropSender,
    /// The sender performs an operation.
    SenderOp(Op<u32, T>),
    /// The receiver is told to receive, with so many rounds.
    Receive(nat),
    /// The receiver is dropped.
    DropReceiver,
    /// The receiver performs an operation.
    ReceiverOp(Op<u32, T>),
    /// A wait of the receiver suspends its thread.
    FallAsleep,
    /// A wait of the receiver ends for no reason.
    WakeUp,
}

/// A channel and its two ends.
pub struct Channel<T> {
    pub memory: Memory<u32, T>,
    pub sender: SenderStage<T>,
    /// What had come of the sender when it was dropped.
    pub sent: SendOutcome<T>,
    pub receiver: ReceiverStage<T>,
    /// What had come of the receiver when it was dropped.
    pub got: ReceiveOutcome<T>,
    /// Whether the receiver's thread is suspended.
    pub asleep: bool,
}

impl<T> Channel<T> {
    /// A new channel.
    pub open spec fn initial() -> Self {
        Channel {
            memory: Memory::initial(EMPTY, None),
            sender: SenderStage::Holding(SendOutcome::Unused),
            sent: SendOutcome::Unused,
            receiver: ReceiverStage::Holding(ReceiveOutcome::Unused),
            got: ReceiveOutcome::Unused,
            asleep: false,
        }
    }

    /// The channel after a move, or `None` if the move is not possible.
    ///
    /// The ends perform the operations of their programs, one at a time. A wait
    /// suspends the receiver only if the state is still the one it saw, and a
    /// suspended receiver does nothing until it is woken up.
    pub open spec fn step(self, m: Move<T>) -> Option<Self> {
        match m {
            Move::Send(value) => if self.sender == SenderStage::<T>::Holding(SendOutcome::Unused) {
                Some(Channel { sender: SenderStage::Claim(value), ..self })
            } else {
                None
            },
            Move::DropSender => match self.sender {
                SenderStage::Holding(sent) => Some(
                    Channel { sender: SenderStage::Close, sent, ..self },
                ),
                _ => None,
            },
            Move::SenderOp(op) => match (
                self.memory.step(sender_thread(), op),
                self.sender.next(op),
            ) {
                (Some(memory), Some(sender)) => Some(
                    Channel { memory, sender, asleep: self.asleep && !(op is WakeOne), ..self },
                ),
                _ => None,
            },
            Move::Receive(rounds) => if self.receiver == ReceiverStage::<T>::Holding(
                ReceiveOutcome::Unused,
            ) {
                Some(Channel { receiver: poll(rounds), ..self })
            } else {
                None
            },
            Move::DropReceiver => match self.receiver {
                ReceiverStage::Holding(got) => Some(
                    Channel { receiver: ReceiverStage::Close, got, ..self },
                ),
                _ => None,
            },
            Move::ReceiverOp(op) => match (
                self.memory.step(receiver_thread(), op),
                self.receiver.next(op),
            ) {
                (Some(memory), Some(receiver)) if !self.asleep => Some(
                    Channel { memory, receiver, ..self },
                ),
                _ => None,
            },
            Move::FallAsleep => match self.receiver {
                ReceiverStage::Wait { state, .. } => if self.memory.word == state {
                    Some(Channel { asleep: true, ..self })
                } else {
                    None
                },
                _ => None,
            },
            Move::WakeUp => Some(Channel { asleep: false, ..self }),
        }
    }

    /// What has come of the sender.
    pub open spec fn send_outcome(self) -> SendOutcome<T> {
        match self.sender {
            SenderStage::Holding(outcome) => outcome,
            SenderStage::Close | SenderStage::CloseWake | SenderStage::Gone => self.sent,
            _ => SendOutcome::Unused,
        }
    }

    /// What has come of the receiver.
    pub open spec fn receive_outcome(self) -> ReceiveOutcome<T> {
        match self.receiver {
            ReceiverStage::Holding(outcome) => outcome,
            ReceiverStage::Close | ReceiverStage::Gone => self.got,
            _ => ReceiveOutcome::Unused,
        }
    }

    /// The value that was published: sent, or sent but for the wake-up.
    pub open spec fn published(self) -> Option<T> {
        match self.sender {
            SenderStage::Wake(value) => Some(value),
            _ => match self.send_outcome() {
                SendOutcome::Sent(value) => Some(value),
                _ => None,
            },
        }
    }

    /// The value that the sender was told to send.
    pub open spec fn offered(self) -> Option<T> {
        match self.sender {
            SenderStage::Claim(value) => Some(value),
            SenderStage::Fill(value) => Some(value),
            SenderStage::Publish(value) => Some(value),
            SenderStage::Wake(value) => Some(value),
            SenderStage::Abandon(value) => Some(value),
            SenderStage::AbandonWake(value) => Some(value),
            _ => match self.send_outcome() {
                SendOutcome::Unused => None,
                SendOutcome::Sent(value) => Some(value),
                SendOutcome::Refused(value) => Some(value),
            },
        }
    }

    /// Whether the sender has neither begun to send nor begun to close.
    spec fn sender_is_idle(self) -> bool {
        match self.sender {
            SenderStage::Holding(outcome) => outcome is Unused,
            SenderStage::Claim(_) => true,
            SenderStage::Close => self.sent is Unused,
            _ => false,
        }
    }

    /// Whether the receiver has neither looked with success nor closed.
    spec fn receiver_is_idle(self) -> bool {
        match self.receiver {
            ReceiverStage::Holding(outcome) => outcome is Unused,
            ReceiverStage::Poll { .. } => true,
            ReceiverStage::Wait { .. } => true,
            ReceiverStage::Close => self.got is Unused,
            _ => false,
        }
    }

    /// Whether the sender closed the channel.
    spec fn closed_by_sender(self) -> bool {
        (self.sender is CloseWake || self.sender is Gone) && self.sent is Unused
    }

    /// Whether the receiver was dropped without having received anything.
    spec fn receiver_left(self) -> bool {
        self.receiver is Gone && self.got is Unused
    }

    /// What every move keeps, state by state.
    spec fn inv(self) -> bool {
        let memory = self.memory;
        let known = memory.known;
        &&& !memory.raced
        &&& memory.published <= memory.accesses
        &&& known(receiver_thread()) <= memory.accesses
        &&& self.receiver matches ReceiverStage::Wait { state, .. } ==> state == EMPTY || state
            == WRITING
        &&& self.asleep ==> self.receiver is Wait
        &&& self.asleep ==> memory.word == EMPTY || memory.word == WRITING || self.sender is Wake
            || self.sender is CloseWake
        &&& if memory.word == EMPTY {
            &&& self.sender_is_idle() && self.receiver_is_idle()
            &&& memory.cell is None && memory.accesses == 0
            &&& known(sender_thread()) == 0
        } else if memory.word == WRITING {
            &&& self.receiver_is_idle() || self.receiver_left()
            &&& match self.sender {
                SenderStage::Fill(value) => memory.cell is None && memory.accesses == 0
                    && known(sender_thread()) == 0,
                SenderStage::Publish(value) => memory.cell == Some(value) && memory.accesses == 1
                    && known(sender_thread()) == 1,
                _ => false,
            }
        } else if memory.word == SENT {
            &&& self.published() is Some
            &&& match self.receiver {
                ReceiverStage::Take { .. } => memory.cell == self.published()
                    && known(receiver_thread()) == memory.accesses,
                ReceiverStage::Mark(value) => memory.cell is None && value == self.published(),
                _ => {
                    &&& self.receiver_is_idle() || self.receiver_left()
                    &&& memory.cell == self.published() && memory.accesses == memory.published
                },
            }
        } else if memory.word == RECEIVED {
            &&& self.published() is Some
            &&& self.receive_outcome() == ReceiveOutcome::Received(self.published()->0)
            &&& memory.cell is None
        } else {
            &&& memory.word == CLOSED
            &&& memory.cell is None
            &&& self.closed_by_sender() || self.receiver_left()
            &&& self.closed_by_sender() || self.sender_is_idle() || self.send_outcome() is Refused
            &&& self.send_outcome() is Refused ==> self.receiver_left()
            &&& self.receiver_is_idle() || self.receiver_left() || self.receive_outcome() is Nothing
            &&& self.receive_outcome() is Nothing ==> self.closed_by_sender()
        }
    }
}

/// The channel after so many moves, or `None` if they are not possible.
pub open spec fn play<T>(moves: Seq<Move<T>>) -> Option<Channel<T>>
    decreases moves.len(),
{
    if moves.len() == 0 {
        Some(Channel::initial())
    } else {
        match play(moves.drop_last()) {
            Some(channel) => channel.step(moves.last()),
            None => None,
        }
    }
}

/// What the programs of the two ends have in common.
pub trait End<T>: Program<u32, T> {
    /// The operation that this end performs with a move, if it performs one.
    spec fn op_in(m: Move<T>) -> Option<Op<u32, T>>;

    /// Whether this end is told to do something with a move.
    spec fn is_told(m: Move<T>) -> bool;

    /// Where this end of a channel stands.
    spec fn stage(channel: Channel<T>) -> Self;

    /// Whether the end stands between calls.
    spec fn rests(self) -> bool;

    /// An end performs the operations of its program, is told to do something only
    /// between calls, and stays where it is otherwise.
    proof fn lemma_step(channel: Channel<T>, m: Move<T>)
        requires
            channel.step(m) is Some,
        ensures
            match Self::op_in(m) {
                Some(op) => Self::stage(channel).next(op) == Some(
                    Self::stage(channel.step(m)->0),
                ),
                None => if Self::is_told(m) {
                    Self::stage(channel).rests()
                } else {
                    Self::stage(channel.step(m)->0) == Self::stage(channel)
                },
            },
    ;

    /// Between calls an end performs nothing.
    proof fn lemma_rests(self, op: Op<u32, T>)
        requires
            self.rests(),
        ensures
            self.next(op) is None,
    ;
}

impl<T> End<T> for SenderStage<T> {
    open spec fn op_in(m: Move<T>) -> Option<Op<u32, T>> {
        match m {
            Move::SenderOp(op) => Some(op),
            _ => None,
        }
    }

    open spec fn is_told(m: Move<T>) -> bool {
        m is Send || m is DropSender
    }

    open spec fn stage(channel: Channel<T>) -> Self {
        channel.sender
    }

    open spec fn rests(self) -> bool {
        self is Holding
    }

    proof fn lemma_step(channel: Channel<T>, m: Move<T>) {
    }

    proof fn lemma_rests(self, op: Op<u32, T>) {
    }
}

impl<T> End<T> for ReceiverStage<T> {
    open spec fn op_in(m: Move<T>) -> Option<Op<u32, T>> {
        match m {
            Move::ReceiverOp(op) => Some(op),
            _ => None,
        }
    }

    open spec fn is_told(m: Move<T>) -> bool {
        m is Receive || m is DropReceiver
    }

    open spec fn stage(channel: Channel<T>) -> Self {
        channel.receiver
    }

    open spec fn rests(self) -> bool {
        self is Holding
    }

    proof fn lemma_step(channel: Channel<T>, m: Move<T>) {
    }

    proof fn lemma_rests(self, op: Op<u32, T>) {
    }
}

/// The operations that an end performs in some moves.
pub open spec fn ops_by<T, E: End<T>>(moves: Seq<Move<T>>) -> Seq<Op<u32, T>>
    decreases moves.len(),
{
    if moves.len() == 0 {
        Seq::empty()
    } else {
        match E::op_in(moves.last()) {
            Some(op) => ops_by::<T, E>(moves.drop_last()).push(op),
            None => ops_by::<T, E>(moves.drop_last()),
        }
    }
}

/// The operations that the sender performs in some moves.
pub open spec fn sender_ops<T>(moves: Seq<Move<T>>) -> Seq<Op<u32, T>> {
    ops_by::<T, SenderStage<T>>(moves)
}

/// The operations that the receiver performs in some moves.
pub open spec fn receiver_ops<T>(moves: Seq<Move<T>>) -> Seq<Op<u32, T>> {
    ops_by::<T, ReceiverStage<T>>(moves)
}

proof fn lemma_step_keeps_inv<T>(channel: Channel<T>, m: Move<T>)
    requires
        channel.inv(),
        channel.step(m) is Some,
    ensures
        channel.step(m)->0.inv(),
{
}

proof fn lemma_inv<T>(moves: Seq<Move<T>>)
    requires
        play(moves) is Some,
    ensures
        play(moves)->0.inv(),
    decreases moves.len(),
{
    if moves.len() > 0 {
        lemma_inv(moves.drop_last());
        lemma_step_keeps_inv(play(moves.drop_last())->0, moves.last());
    }
}

/// The value that a sender was told to send stays the one that it deals with.
proof fn lemma_offered<T>(moves: Seq<Move<T>>)
    requires
        play(moves) is Some,
        play(moves)->0.offered() is Some,
    ensures
        moves.contains(Move::Send(play(moves)->0.offered()->0)),
    decreases moves.len(),
{
    let earlier = moves.drop_last();
    let channel = play(earlier)->0;
    if channel.offered() is Some {
        lemma_offered(earlier);
        let value = channel.offered()->0;
        let i = choose|i: int| 0 <= i < earlier.len() && earlier[i] == Move::Send(value);
        assert(moves[i] == Move::Send(value));
    } else {
        assert(moves[moves.len() - 1] == moves.last());
    }
}

/// What a receiver receives is the value that the sender was told to send, and
/// the sender has published it: its send returns `Ok` or has done so.
pub proof fn law_received_is_what_was_sent<T>(moves: Seq<Move<T>>, value: T)
    requires
        play(moves) is Some,
        play(moves)->0.receive_outcome() == ReceiveOutcome::Received(value),
    ensures
        play(moves)->0.published() == Some(value),
        moves.contains(Move::Send(value)),
{
    lemma_inv(moves);
    lemma_offered(moves);
}

/// A send is refused only if the receiver was dropped before and has received
/// nothing, and it gives back the value that it was given.
pub proof fn law_refused_only_if_receiver_is_gone<T>(moves: Seq<Move<T>>, value: T)
    requires
        play(moves) is Some,
        play(moves)->0.send_outcome() == SendOutcome::Refused(value),
    ensures
        play(moves)->0.receiver is Gone,
        play(moves)->0.got is Unused,
        moves.contains(Move::Send(value)),
{
    lemma_inv(moves);
    lemma_offered(moves);
}

/// Once a receiver is gone, a sender that has not begun to send can only be
/// refused: the state is `CLOSED`, and the attempt to reserve the slot fails.
pub proof fn law_dropped_receiver_refuses<T>(
    moves: Seq<Move<T>>,
    op: Op<u32, T>,
    value: T,
)
    requires
        play(moves) is Some,
        play(moves)->0.receiver is Gone,
        play(moves)->0.sender == SenderStage::Claim(value),
        play(moves.push(Move::SenderOp(op))) is Some,
    ensures
        play(moves)->0.memory.word == CLOSED,
        play(moves.push(Move::SenderOp(op)))->0.send_outcome() == SendOutcome::Refused(value),
{
    lemma_inv(moves);
    assert(moves.push(Move::SenderOp(op)).drop_last() =~= moves);
}

/// As long as the receiver is not gone, a send succeeds: the state is `EMPTY`, and
/// the attempt to reserve the slot does not fail.
pub proof fn law_live_receiver_accepts<T>(moves: Seq<Move<T>>, op: Op<u32, T>, value: T)
    requires
        play(moves) is Some,
        !(play(moves)->0.receiver is Gone),
        play(moves)->0.sender == SenderStage::Claim(value),
        play(moves.push(Move::SenderOp(op))) is Some,
    ensures
        play(moves)->0.memory.word == EMPTY,
        play(moves.push(Move::SenderOp(op)))->0.sender == SenderStage::Fill(value),
{
    lemma_inv(moves);
    assert(moves.push(Move::SenderOp(op)).drop_last() =~= moves);
}

/// A receiver comes away with nothing only if the sender was dropped without
/// having sent anything.
pub proof fn law_nothing_only_if_sender_is_gone<T>(moves: Seq<Move<T>>)
    requires
        play(moves) is Some,
        play(moves)->0.receive_outcome() is Nothing,
    ensures
        play(moves)->0.sender is CloseWake || play(moves)->0.sender is Gone,
        play(moves)->0.sent is Unused,
{
    lemma_inv(moves);
}

/// Once a value is published, it is in the slot until the receiver moves it
/// out, and it is moved out only to be received; before, and in a channel that
/// is closed, the slot is empty. So a value is received, or left to be dropped
/// with the slot, but never both and never neither.
pub proof fn law_value_is_in_one_place<T>(moves: Seq<Move<T>>)
    requires
        play(moves) is Some,
    ensures
        ({
            let channel = play(moves)->0;
            match channel.published() {
                Some(value) => match channel.receiver {
                    ReceiverStage::Mark(taken) => channel.memory.cell is None && taken == Some(
                        value,
                    ),
                    _ => match channel.receive_outcome() {
                        ReceiveOutcome::Unused => channel.memory.cell == Some(value),
                        ReceiveOutcome::Received(received) => channel.memory.cell is None
                            && received == value,
                        ReceiveOutcome::Nothing => false,
                    },
                },
                None => channel.memory.cell is None || channel.sender is Publish,
            }
        }),
{
    lemma_inv(moves);
}

/// When both ends are gone, the state is `SENT`, `RECEIVED` or `CLOSED`. The slot
/// then holds a value if and only if the state is `SENT`, and it is the one that
/// was sent and not received.
pub proof fn law_unread_value_is_left_behind<T>(moves: Seq<Move<T>>)
    requires
        play(moves) is Some,
        play(moves)->0.sender is Gone,
        play(moves)->0.receiver is Gone,
    ensures
        ({
            let channel = play(moves)->0;
            let state = channel.memory.word;
            &&& state == SENT || state == RECEIVED || state == CLOSED
            &&& channel.memory.cell is Some <==> state == SENT
            &&& match channel.memory.cell {
                Some(value) => channel.sent == SendOutcome::Sent(value) && channel.got is Unused,
                None => !(channel.sent is Sent && channel.got is Unused),
            }
        }),
{
    lemma_inv(moves);
}

/// When both ends are gone, a value that was to be sent has exactly one owner: it
/// was given back by the send that refused it, or it was received, or it is left
/// in the slot and dropped with it. The slot holds no other value.
pub proof fn law_value_has_one_owner<T>(moves: Seq<Move<T>>)
    requires
        play(moves) is Some,
        play(moves)->0.sender is Gone,
        play(moves)->0.receiver is Gone,
    ensures
        ({
            let channel = play(moves)->0;
            match channel.sent {
                SendOutcome::Unused => channel.memory.cell is None && !(channel.got is Received),
                SendOutcome::Refused(_) => channel.memory.cell is None && !(
                channel.got is Received),
                SendOutcome::Sent(value) => {
                    ||| channel.memory.cell is None && channel.got == ReceiveOutcome::Received(
                        value,
                    )
                    ||| channel.memory.cell == Some(value) && channel.got is Unused
                },
            }
        }),
{
    lemma_inv(moves);
}

/// The state tells what the slot holds: nothing if it is `EMPTY`, `RECEIVED` or
/// `CLOSED`, and the published value if it is `SENT`, unless the receiver has moved
/// it out and is about to mark that.
pub proof fn law_state_tells_what_the_slot_holds<T>(moves: Seq<Move<T>>)
    requires
        play(moves) is Some,
    ensures
        ({
            let channel = play(moves)->0;
            let state = channel.memory.word;
            &&& state == EMPTY || state == RECEIVED || state == CLOSED
                ==> channel.memory.cell is None
            &&& state == SENT ==> channel.published() is Some
            &&& state == SENT && !(channel.receiver is Mark) ==> channel.memory.cell
                == channel.published()
            &&& state == SENT && channel.receiver is Mark ==> channel.memory.cell is None
                && channel.receiver == ReceiverStage::Mark(channel.published())
        }),
{
    lemma_inv(moves);
}

/// Two ends that are dropped unused, in either order, leave the channel closed
/// and the slot empty.
pub proof fn law_unused_channel_is_closed<T>(moves: Seq<Move<T>>)
    requires
        play(moves) is Some,
        play(moves)->0.sender is Gone,
        play(moves)->0.sent is Unused,
        play(moves)->0.receiver is Gone,
    ensures
        play(moves)->0.memory.word == CLOSED,
        play(moves)->0.memory.cell is None,
        !(play(moves)->0.got is Received),
{
    lemma_inv(moves);
}

/// What came of the two ends always fits together. After a send that succeeded,
/// a receive that gives an answer gives the value; after a sender that was
/// dropped unused, it gives nothing; and after a send that was refused, no
/// receive gives an answer any more.
pub proof fn law_outcomes_agree<T>(moves: Seq<Move<T>>)
    requires
        play(moves) is Some,
    ensures
        ({
            let channel = play(moves)->0;
            match channel.receive_outcome() {
                ReceiveOutcome::Unused => true,
                ReceiveOutcome::Received(value) => channel.sender == SenderStage::Wake(value)
                    || channel.send_outcome() == SendOutcome::Sent(value),
                ReceiveOutcome::Nothing => channel.send_outcome() is Unused && (
                channel.sender is CloseWake || channel.sender is Gone),
            }
        }),
{
    lemma_inv(moves);
}

/// The state never surprises: a sender that reserves the slot finds it `EMPTY`
/// or `CLOSED`, a receiver that looks never finds `RECEIVED`, one that finds
/// `SENT` finds a value, and neither end finds the other at the cell.
pub proof fn law_states_are_expected<T>(moves: Seq<Move<T>>)
    requires
        play(moves) is Some,
    ensures
        ({
            let channel = play(moves)->0;
            let state = channel.memory.word;
            &&& channel.sender is Claim ==> state == EMPTY || state == CLOSED
            &&& channel.receiver is Poll ==> state == EMPTY || state == WRITING || state == SENT
                || state == CLOSED
            &&& channel.receiver is Take ==> channel.memory.cell is Some
            &&& channel.step(Move::SenderOp(Op::Busy)) is None
            &&& channel.step(Move::ReceiverOp(Op::Busy)) is None
            &&& !(channel.sender is Abandon) && !(channel.sender is AbandonWake)
            &&& state == EMPTY || state == WRITING || state == SENT || state == RECEIVED || state
                == CLOSED
        }),
{
    lemma_inv(moves);
}

/// The state only moves from `EMPTY` over `WRITING` and `SENT` to `RECEIVED`, or
/// from `EMPTY` to `CLOSED`.
pub proof fn law_state_moves_forward<T>(moves: Seq<Move<T>>, m: Move<T>)
    requires
        play(moves.push(m)) is Some,
    ensures
        ({
            let before = play(moves)->0.memory.word;
            let after = play(moves.push(m))->0.memory.word;
            ||| after == before
            ||| before == EMPTY && (after == WRITING || after == CLOSED)
            ||| before == WRITING && after == SENT
            ||| before == SENT && after == RECEIVED
        }),
{
    assert(moves.push(m).drop_last() =~= moves);
    lemma_inv(moves);
}

/// The two ends never touch the cell at the same time: every access happens
/// after all those before it.
pub proof fn law_no_data_race<T>(moves: Seq<Move<T>>)
    requires
        play(moves) is Some,
    ensures
        !play(moves)->0.memory.raced,
{
    lemma_inv(moves);
}

/// No wake-up is lost: if the receiver sleeps although there is a value or the
/// channel is closed, then the sender is about to wake it up.
pub proof fn law_no_wake_up_is_lost<T>(moves: Seq<Move<T>>)
    requires
        play(moves) is Some,
        play(moves)->0.asleep,
    ensures
        ({
            let channel = play(moves)->0;
            ||| channel.memory.word == EMPTY
            ||| channel.memory.word == WRITING
            ||| channel.sender is Wake
            ||| channel.sender is CloseWake
        }),
{
    lemma_inv(moves);
}

/// Once the sender has sent or is gone, the receiver does not sleep and does not
/// fall asleep any more, and its next look finds the value or finds the channel
/// closed.
pub proof fn law_receiver_is_not_kept_waiting<T>(moves: Seq<Move<T>>)
    requires
        play(moves) is Some,
        play(moves)->0.sender is Gone || play(moves)->0.send_outcome() is Sent,
    ensures
        ({
            let channel = play(moves)->0;
            &&& !channel.asleep
            &&& channel.step(Move::FallAsleep) is None
            &&& channel.receiver is Poll && channel.send_outcome() is Sent
                ==> channel.memory.word == SENT
            &&& channel.receiver is Poll && !(channel.send_outcome() is Sent)
                ==> channel.memory.word == CLOSED
        }),
{
    lemma_inv(moves);
}

/// A send performs at most four operations and never waits.
pub proof fn law_send_does_not_wait<T>(value: T, ops: Seq<Op<u32, T>>)
    requires
        run(SenderStage::Claim(value), ops) is Some,
    ensures
        ops.len() <= 4,
        forall|i: int| 0 <= i < ops.len() ==> !(ops[i] is Wait),
{
    lemma_send_stage(value, ops);
}

/// The first few steps of a program.
proof fn lemma_unfold<P: Program<u32, T>, T>(start: P, ops: Seq<Op<u32, T>>)
    requires
        run(start, ops) is Some,
        ops.len() <= 4,
    ensures
        run(start, Seq::<Op<u32, T>>::empty()) == Some(start),
        forall|n: int|
            0 <= n < ops.len() ==> #[trigger] run(start, ops.take(n)) is Some && run(
                start,
                ops.take(n + 1),
            ) == run(start, ops.take(n))->0.next(ops[n]),
        ops.take(0) =~= Seq::<Op<u32, T>>::empty(),
        ops.take(ops.len() as int) =~= ops,
{
    assert forall|n: int| 0 <= n < ops.len() implies #[trigger] run(start, ops.take(n)) is Some
        && run(start, ops.take(n + 1)) == run(start, ops.take(n))->0.next(ops[n]) by {
        lemma_run_of_prefix(start, ops, n);
        assert(ops.take(n + 1).drop_last() =~= ops.take(n));
    }
}

/// Where a sender stands that is dropped.
proof fn lemma_close_stage<T>(ops: Seq<Op<u32, T>>)
    requires
        run(SenderStage::<T>::Close, ops) is Some,
    ensures
        match run(SenderStage::<T>::Close, ops)->0 {
            SenderStage::Close => ops.len() == 0,
            SenderStage::CloseWake => ops.len() == 1,
            SenderStage::Gone => 1 <= ops.len() <= 2,
            _ => false,
        },
    decreases ops.len(),
{
    if ops.len() > 0 {
        lemma_close_stage(ops.drop_last());
    }
}

/// What a receiver did last.
pub(super) proof fn lemma_receive_stage<T>(rounds: nat, ops: Seq<Op<u32, T>>)
    requires
        run(poll::<T>(rounds), ops) is Some,
    ensures
        ({
            let n = ops.len() as int;
            let look = Op::<u32, T>::Load { order: Order::Acquire, value: SENT };
            match run(poll::<T>(rounds), ops)->0 {
                ReceiverStage::Wait { state, .. } => n >= 1 && ops[n - 1] == (Op::<u32, T>::Load {
                    order: Order::Acquire,
                    value: state,
                }) && (state == EMPTY || state == WRITING),
                ReceiverStage::Take { .. } => n >= 1 && ops[n - 1] == look,
                ReceiverStage::Mark(value) => n >= 2 && ops[n - 2] == look && ops[n - 1] == (
                Op::<u32, T>::Take { value }),
                ReceiverStage::Holding(ReceiveOutcome::Received(value)) => n >= 3 && ops[n - 3]
                    == look && ops[n - 2] == (Op::<u32, T>::Take { value: Some(value) }) && ops[n
                    - 1] == (Op::<u32, T>::Store { order: Order::Relaxed, value: RECEIVED }),
                ReceiverStage::Holding(ReceiveOutcome::Nothing) => (n >= 3 && ops[n - 3] == look
                    && ops[n - 2] == (Op::<u32, T>::Take { value: None }) && ops[n - 1] == (Op::<
                    u32,
                    T,
                >::Store { order: Order::Relaxed, value: RECEIVED })) || (n >= 1 && ops[n
                    - 1] is Load && ops[n - 1]->Load_value != EMPTY && ops[n - 1]->Load_value
                    != WRITING && ops[n - 1]->Load_value != SENT),
                ReceiverStage::Close | ReceiverStage::Gone => false,
                _ => true,
            }
        }),
    decreases ops.len(),
{
    if ops.len() > 0 {
        lemma_receive_stage(rounds, ops.drop_last());
    }
}

/// Where a send stands after so many operations.
proof fn lemma_send_stage<T>(value: T, ops: Seq<Op<u32, T>>)
    requires
        run(SenderStage::Claim(value), ops) is Some,
    ensures
        forall|i: int| 0 <= i < ops.len() ==> !(ops[i] is Wait),
        match run(SenderStage::Claim(value), ops)->0 {
            SenderStage::Claim(v) => ops.len() == 0,
            SenderStage::Fill(v) => ops.len() == 1,
            SenderStage::Publish(v) => ops.len() == 2,
            SenderStage::Wake(v) => ops.len() == 3,
            SenderStage::Abandon(v) => ops.len() == 2,
            SenderStage::AbandonWake(v) => ops.len() == 3,
            SenderStage::Holding(outcome) => ops.len() <= 4,
            _ => false,
        },
    decreases ops.len(),
{
    if ops.len() > 0 {
        lemma_send_stage(value, ops.drop_last());
        assert forall|i: int| 0 <= i < ops.len() implies !(ops[i] is Wait) by {
            if i < ops.len() - 1 {
                assert(ops[i] == ops.drop_last()[i]);
            }
        }
    }
}

/// A send that succeeds reserves the slot, writes the value, publishes it and then
/// wakes up one thread, each exactly once. One that is refused performs nothing
/// but the attempt to reserve the slot, unless it found the cell busy.
pub proof fn law_what_a_send_performs<T>(value: T, ops: Seq<Op<u32, T>>, outcome: SendOutcome<T>)
    requires
        run(SenderStage::Claim(value), ops) == Some(SenderStage::Holding(outcome)),
    ensures
        ({
            let claim = from_empty::<T>(WRITING, ops[0]->result);
            match outcome {
                SendOutcome::Unused => false,
                SendOutcome::Sent(sent) => sent == value && ops[0]->result is Ok && ops =~= seq![
                    claim,
                    Op::Put { value },
                    Op::Store { order: Order::Release, value: SENT },
                    Op::WakeOne,
                ],
                SendOutcome::Refused(back) => back == value && (ops =~= seq![claim]
                    && ops[0]->result is Err || ops[0]->result is Ok && ops =~= seq![
                    claim,
                    Op::Busy,
                    Op::Store { order: Order::Relaxed, value: CLOSED },
                    Op::WakeOne,
                ]),
            }
        }),
{
    let start = SenderStage::Claim(value);
    law_send_does_not_wait(value, ops);
    lemma_send_stage(value, ops);
    lemma_unfold(start, ops);
}

/// A sender that is dropped tries to close the channel, and wakes up one thread if
/// and only if it has closed it.
pub proof fn law_what_a_sender_drop_performs<T>(ops: Seq<Op<u32, T>>)
    requires
        run(SenderStage::<T>::Close, ops) == Some(SenderStage::<T>::Gone),
    ensures
        ({
            let close = from_empty::<T>(CLOSED, ops[0]->result);
            if ops[0]->result is Ok {
                ops =~= seq![close, Op::WakeOne]
            } else {
                ops =~= seq![close]
            }
        }),
{
    let start = SenderStage::<T>::Close;
    lemma_close_stage(ops);
    lemma_unfold(start, ops);
}

/// A receiver that is dropped tries to close the channel, and does nothing else.
pub proof fn law_what_a_receiver_drop_performs<T>(ops: Seq<Op<u32, T>>)
    requires
        run(ReceiverStage::<T>::Close, ops) == Some(ReceiverStage::<T>::Gone),
    ensures
        ops =~= seq![from_empty::<T>(CLOSED, ops[0]->result)],
{
    if ops.len() > 1 {
        lemma_run_of_prefix(ReceiverStage::<T>::Close, ops, ops.len() - 1);
        lemma_run_of_prefix(ReceiverStage::<T>::Close, ops, 1);
        lemma_unfold(ReceiverStage::<T>::Close, ops.take(1));
        lemma_run_of_prefix(ReceiverStage::<T>::Close, ops, 2);
        assert(ops.take(2).drop_last() =~= ops.take(1));
    }
    lemma_unfold(ReceiverStage::<T>::Close, ops);
}

/// A receive that gives a value ends with a look that finds `SENT`, the move and
/// the mark; one that gives nothing ends with a look that finds the channel
/// closed, unless it moved nothing out.
pub proof fn law_how_a_receive_ends<T>(rounds: nat, ops: Seq<Op<u32, T>>, result: Option<T>)
    requires
        run(poll::<T>(rounds), ops) == Some(ReceiverStage::Holding(received(result))),
    ensures
        ({
            let n = ops.len() as int;
            let moved = n >= 3 && ops.skip(n - 3) =~= seq![
                Op::Load { order: Order::Acquire, value: SENT },
                Op::Take { value: result },
                Op::Store { order: Order::Relaxed, value: RECEIVED },
            ];
            match result {
                Some(value) => moved,
                None => moved || (n >= 1 && ops.last() is Load && ops.last()->Load_value != EMPTY
                    && ops.last()->Load_value != WRITING && ops.last()->Load_value != SENT),
            }
        }),
{
    lemma_receive_stage(rounds, ops);
}

/// How often a receiver has waited, or has found the cell busy.
pub open spec fn waits<T>(ops: Seq<Op<u32, T>>) -> nat
    decreases ops.len(),
{
    if ops.len() == 0 {
        0
    } else {
        waits(ops.drop_last()) + if ops.last() is Wait || ops.last() is Busy {
            1nat
        } else {
            0nat
        }
    }
}

/// A receiver that comes back without an answer has waited, or has found the cell
/// busy, as often as it was allowed to.
pub proof fn law_rounds_are_used_up<T>(rounds: nat, ops: Seq<Op<u32, T>>)
    requires
        run(poll::<T>(rounds), ops) == Some(ReceiverStage::<T>::Holding(ReceiveOutcome::Unused)),
    ensures
        waits(ops) == rounds,
{
    lemma_waits(rounds, ops);
}

/// How many rounds are left to a receiver.
pub(super) proof fn lemma_waits<T>(rounds: nat, ops: Seq<Op<u32, T>>)
    requires
        run(poll::<T>(rounds), ops) is Some,
    ensures
        match run(poll::<T>(rounds), ops)->0 {
            ReceiverStage::Poll { left } => left > 0 && waits(ops) + left == rounds,
            ReceiverStage::Take { left } => left > 0 && waits(ops) + left == rounds,
            ReceiverStage::Wait { left, .. } => waits(ops) + left + 1 == rounds,
            ReceiverStage::Mark(_) => waits(ops) < rounds,
            ReceiverStage::Holding(outcome) => if outcome is Unused {
                waits(ops) == rounds
            } else {
                waits(ops) < rounds
            },
            ReceiverStage::Close | ReceiverStage::Gone => false,
        },
    decreases ops.len(),
{
    if ops.len() > 0 {
        lemma_waits(rounds, ops.drop_last());
    }
}

/// A receiver waits only for the state to change that it has just seen, and that is
/// `EMPTY` or `WRITING`.
pub proof fn law_wait_is_for_the_state_just_seen<T>(rounds: nat, ops: Seq<Op<u32, T>>, i: int)
    requires
        run(poll::<T>(rounds), ops) is Some,
        0 <= i < ops.len(),
        ops[i] is Wait,
    ensures
        i > 0,
        ops[i - 1] == (Op::<u32, T>::Load { order: Order::Acquire, value: ops[i]->Wait_value }),
        ops[i]->Wait_value == EMPTY || ops[i]->Wait_value == WRITING,
{
    lemma_run_of_prefix(poll::<T>(rounds), ops, i);
    lemma_run_of_prefix(poll::<T>(rounds), ops, i + 1);
    assert(ops.take(i + 1).drop_last() =~= ops.take(i));
    lemma_receive_stage(rounds, ops.take(i));
}

/// Within one call, the operations that an end performs are those of its program,
/// whatever the other end does in between.
pub proof fn law_end_follows_its_program<T, E: End<T>>(moves: Seq<Move<T>>, later: Seq<Move<T>>)
    requires
        play(moves + later) is Some,
        forall|i: int| 0 <= i < later.len() ==> !E::is_told(#[trigger] later[i]),
    ensures
        run(E::stage(play(moves)->0), ops_by::<T, E>(later)) == Some(
            E::stage(play(moves + later)->0),
        ),
    decreases later.len(),
{
    if later.len() == 0 {
        assert(moves + later =~= moves);
    } else {
        let earlier = later.drop_last();
        assert((moves + later).drop_last() =~= moves + earlier);
        assert(later[later.len() - 1] == later.last());
        assert forall|i: int| 0 <= i < earlier.len() implies !E::is_told(#[trigger] earlier[i]) by {
            assert(earlier[i] == later[i]);
        }
        law_end_follows_its_program::<T, E>(moves, earlier);
        E::lemma_step(play(moves + earlier)->0, later.last());
        if let Some(op) = E::op_in(later.last()) {
            assert(ops_by::<T, E>(later).drop_last() =~= ops_by::<T, E>(earlier));
        }
    }
}

/// A wake-up for no reason changes nothing but that the receiver is awake. So it
/// has no part in what a receive gives.
pub proof fn law_spurious_wake_up_changes_nothing<T>(moves: Seq<Move<T>>)
    requires
        play(moves) is Some,
    ensures
        play(moves.push(Move::WakeUp)) == Some(Channel { asleep: false, ..play(moves)->0 }),
{
    assert(moves.push(Move::WakeUp).drop_last() =~= moves);
}

/// A receive that begins when there is a value, or when the channel is closed, does
/// not wait.
pub proof fn law_no_wait_if_the_answer_is_there<T>(
    moves: Seq<Move<T>>,
    later: Seq<Move<T>>,
    i: int,
)
    requires
        play(moves + later) is Some,
        play(moves)->0.receiver is Poll,
        play(moves)->0.memory.word == SENT || play(moves)->0.memory.word == CLOSED,
        forall|j: int|
            0 <= j < later.len() ==> !(#[trigger] later[j] is Receive) && !(
            later[j] is DropReceiver),
        0 <= i < receiver_ops(later).len(),
    ensures
        !(receiver_ops(later)[i] is Wait),
{
    lemma_no_wait(moves, later);
}

proof fn lemma_no_wait<T>(moves: Seq<Move<T>>, later: Seq<Move<T>>)
    requires
        play(moves + later) is Some,
        play(moves)->0.receiver is Poll,
        play(moves)->0.memory.word == SENT || play(moves)->0.memory.word == CLOSED,
        forall|j: int|
            0 <= j < later.len() ==> !(#[trigger] later[j] is Receive) && !(
            later[j] is DropReceiver),
    ensures
        forall|i: int|
            0 <= i < receiver_ops(later).len() ==> !(#[trigger] receiver_ops(later)[i] is Wait),
        ({
            let channel = play(moves + later)->0;
            let state = channel.memory.word;
            &&& state == SENT || state == CLOSED || state == RECEIVED
            &&& match channel.receiver {
                ReceiverStage::Poll { .. } | ReceiverStage::Take { .. } | ReceiverStage::Mark(
                    _,
                ) => true,
                ReceiverStage::Holding(outcome) => !(outcome is Unused),
                _ => false,
            }
        }),
    decreases later.len(),
{
    if later.len() == 0 {
        assert(moves + later =~= moves);
    } else {
        let earlier = later.drop_last();
        assert((moves + later).drop_last() =~= moves + earlier);
        assert(later[later.len() - 1] == later.last());
        assert forall|j: int| 0 <= j < earlier.len() implies !(#[trigger] earlier[j] is Receive)
            && !(earlier[j] is DropReceiver) by {
            assert(earlier[j] == later[j]);
        }
        lemma_no_wait(moves, earlier);
        lemma_inv(moves + earlier);
    }
}

/// A receive that begins when there is a value, or when the channel is closed, gives
/// the answer: the value that was published, or nothing. One round is enough.
pub proof fn law_receive_gives_the_answer_that_is_there<T>(
    moves: Seq<Move<T>>,
    later: Seq<Move<T>>,
    rounds: nat,
    outcome: ReceiveOutcome<T>,
)
    requires
        play(moves + later) is Some,
        rounds > 0,
        play(moves)->0.receiver == poll::<T>(rounds),
        play(moves)->0.memory.word == SENT || play(moves)->0.memory.word == CLOSED,
        forall|j: int|
            0 <= j < later.len() ==> !(#[trigger] later[j] is Receive) && !(
            later[j] is DropReceiver),
        run(poll::<T>(rounds), receiver_ops(later)) == Some(ReceiverStage::Holding(outcome)),
    ensures
        outcome == received(play(moves)->0.published()),
{
    assert forall|i: int| 0 <= i < later.len() implies !<ReceiverStage<T> as End<T>>::is_told(
        #[trigger] later[i],
    ) by {}
    law_end_follows_its_program::<T, ReceiverStage<T>>(moves, later);
    lemma_no_wait(moves, later);
    lemma_play_of_prefix(moves + later, moves.len() as int);
    assert((moves + later).take(moves.len() as int) =~= moves);
    lemma_inv(moves);
    lemma_inv(moves + later);
    if play(moves)->0.memory.word == SENT {
        lemma_published_stays(moves, later);
    } else {
        law_closed_channel_stays_closed(moves + later, moves.len() as int);
    }
}

/// A value that is published stays the published one.
proof fn lemma_published_stays<T>(moves: Seq<Move<T>>, later: Seq<Move<T>>)
    requires
        play(moves + later) is Some,
        play(moves)->0.published() is Some,
    ensures
        play(moves + later)->0.published() == play(moves)->0.published(),
    decreases later.len(),
{
    if later.len() == 0 {
        assert(moves + later =~= moves);
    } else {
        let earlier = later.drop_last();
        assert((moves + later).drop_last() =~= moves + earlier);
        lemma_published_stays(moves, earlier);
    }
}

/// An end that was to do something with the `k`th move, and whose operations since
/// then begin with those of the whole call, has come to the end of the call.
proof fn lemma_call_ends<T, E: End<T>>(
    moves: Seq<Move<T>>,
    k: int,
    start: E,
    call: Seq<Op<u32, T>>,
    end: E,
)
    requires
        play(moves) is Some,
        0 <= k < moves.len(),
        E::stage(play(moves.take(k + 1))->0) == start,
        run(start, call) == Some(end),
    ensures
        ({
            let done = ops_by::<T, E>(moves.skip(k + 1));
            &&& call.is_prefix_of(done) ==> exists|n: int|
                k < n <= moves.len() && E::stage(play(#[trigger] moves.take(n))->0) == end
            &&& done.is_prefix_of(call) && done.len() < call.len() ==> run(start, done) == Some(
                E::stage(play(moves)->0),
            )
        }),
    decreases moves.len(),
{
    let done = ops_by::<T, E>(moves.skip(k + 1));
    if k == moves.len() - 1 {
        assert(moves.take(k + 1) =~= moves);
        assert(moves.skip(k + 1) =~= Seq::<Move<T>>::empty());
        assert(done =~= Seq::<Op<u32, T>>::empty());
        if call.is_prefix_of(done) {
            assert(call =~= done);
            assert(E::stage(play(moves.take(moves.len() as int))->0) == end);
        }
    } else {
        let earlier = moves.drop_last();
        let before = ops_by::<T, E>(earlier.skip(k + 1));
        assert(earlier.take(k + 1) =~= moves.take(k + 1));
        assert(moves.skip(k + 1).drop_last() =~= earlier.skip(k + 1));
        assert(moves.skip(k + 1).last() == moves.last());
        lemma_call_ends::<T, E>(earlier, k, start, call, end);
        if call.is_prefix_of(before) {
            let n = choose|n: int|
                k < n <= earlier.len() && E::stage(play(#[trigger] earlier.take(n))->0) == end;
            assert(moves.take(n) =~= earlier.take(n));
            assert(E::stage(play(moves.take(n))->0) == end);
        }
        E::lemma_step(play(earlier)->0, moves.last());
        match E::op_in(moves.last()) {
            Some(op) => {
                assert(done.drop_last() =~= before);
                if done.is_prefix_of(call) {
                    assert(before.is_prefix_of(call));
                    lemma_run_of_prefix(start, call, done.len() as int);
                    assert(call.take(done.len() as int) =~= done);
                    if call.is_prefix_of(done) {
                        assert(call =~= done);
                        assert(moves.take(moves.len() as int) =~= moves);
                        assert(E::stage(play(moves.take(moves.len() as int))->0) == end);
                    }
                } else if call.is_prefix_of(done) {
                    assert(call.is_prefix_of(before));
                }
            },
            None => {
                assert(done =~= before);
                if done.is_prefix_of(call) && done.len() < call.len() {
                    lemma_run_of_prefix(start, call, done.len() as int + 1);
                    assert(call.take(done.len() as int + 1).drop_last() =~= done);
                    if E::is_told(moves.last()) {
                        E::stage(play(earlier)->0).lemma_rests(call[done.len() as int]);
                    }
                }
            },
        }
    }
}

/// What has come of an end does not change any more.
proof fn lemma_outcomes_stay<T>(moves: Seq<Move<T>>, n: int)
    requires
        play(moves) is Some,
        0 <= n <= moves.len(),
    ensures
        ({
            let before = play(moves.take(n))->0;
            let after = play(moves)->0;
            &&& !(before.send_outcome() is Unused) ==> after.send_outcome()
                == before.send_outcome()
            &&& !(before.receive_outcome() is Unused) ==> after.receive_outcome()
                == before.receive_outcome()
        }),
    decreases moves.len(),
{
    if n == moves.len() {
        assert(moves.take(n) =~= moves);
    } else {
        let earlier = moves.drop_last();
        assert(earlier.take(n) =~= moves.take(n));
        lemma_outcomes_stay(earlier, n);
    }
}

/// The sender was told to send `value` with the `j`th move, and the operations that
/// it then performed begin with `sent`: a send with this record, and with this
/// result, took place.
pub open spec fn sent_in<T>(
    moves: Seq<Move<T>>,
    j: int,
    value: T,
    sent: Seq<Op<u32, T>>,
    result: Result<(), T>,
) -> bool {
    &&& 0 <= j < moves.len()
    &&& moves[j] == Move::Send(value)
    &&& sent.is_prefix_of(sender_ops(moves.skip(j + 1)))
    &&& run(SenderStage::Claim(value), sent) == Some(
        SenderStage::Holding(send_outcome(value, result)),
    )
}

/// The receiver was told to receive with the `k`th move, and the operations that it
/// then performed begin with `got`: a receive with this record, and with this
/// result, took place.
pub open spec fn received_in<T>(
    moves: Seq<Move<T>>,
    k: int,
    rounds: nat,
    got: Seq<Op<u32, T>>,
    result: Option<T>,
) -> bool {
    &&& 0 <= k < moves.len()
    &&& moves[k] == Move::<T>::Receive(rounds)
    &&& got.is_prefix_of(receiver_ops(moves.skip(k + 1)))
    &&& run(poll::<T>(rounds), got) == Some(ReceiverStage::Holding(received(result)))
}

/// What a send returned is what has come of the sender from then on.
pub proof fn law_send_result_is_the_outcome<T>(
    moves: Seq<Move<T>>,
    j: int,
    value: T,
    sent: Seq<Op<u32, T>>,
    result: Result<(), T>,
)
    requires
        play(moves) is Some,
        sent_in(moves, j, value, sent, result),
    ensures
        play(moves)->0.send_outcome() == send_outcome(value, result),
{
    let end = SenderStage::Holding(send_outcome(value, result));
    lemma_play_of_prefix(moves, j + 1);
    assert(moves.take(j + 1).last() == moves[j]);
    lemma_call_ends(moves, j, SenderStage::Claim(value), sent, end);
    let n = choose|n: int| j < n <= moves.len() && play(#[trigger] moves.take(n))->0.sender == end;
    assert(SenderStage::stage(play(moves.take(n))->0) == end);
    lemma_outcomes_stay(moves, n);
}

/// What a receive gave is what has come of the receiver from then on.
pub proof fn law_receive_result_is_the_outcome<T>(
    moves: Seq<Move<T>>,
    k: int,
    rounds: nat,
    got: Seq<Op<u32, T>>,
    result: Option<T>,
)
    requires
        play(moves) is Some,
        received_in(moves, k, rounds, got, result),
    ensures
        play(moves)->0.receive_outcome() == received(result),
{
    let end = ReceiverStage::Holding(received(result));
    lemma_play_of_prefix(moves, k + 1);
    assert(moves.take(k + 1).last() == moves[k]);
    lemma_call_ends(moves, k, poll(rounds), got, end);
    let n = choose|n: int|
        k < n <= moves.len() && play(#[trigger] moves.take(n))->0.receiver == end;
    assert(ReceiverStage::stage(play(moves.take(n))->0) == end);
    lemma_outcomes_stay(moves, n);
}

/// A send that was refused and a receive that gave an answer never go together.
pub proof fn law_refused_send_excludes_an_answer<T>(
    moves: Seq<Move<T>>,
    j: int,
    value: T,
    sent: Seq<Op<u32, T>>,
    back: T,
    k: int,
    rounds: nat,
    got: Seq<Op<u32, T>>,
    result: Option<T>,
)
    requires
        play(moves) is Some,
        sent_in(moves, j, value, sent, Err(back)),
    ensures
        !received_in(moves, k, rounds, got, result),
{
    law_send_result_is_the_outcome(moves, j, value, sent, Err(back));
    lemma_inv(moves);
    if received_in(moves, k, rounds, got, result) {
        law_receive_result_is_the_outcome(moves, k, rounds, got, result);
    }
}

/// If a send returned `Ok` and a receive gave an answer, then it gave the value that
/// was sent, however the two calls interleaved.
pub proof fn law_sent_value_is_received<T>(
    moves: Seq<Move<T>>,
    j: int,
    value: T,
    sent: Seq<Op<u32, T>>,
    k: int,
    rounds: nat,
    got: Seq<Op<u32, T>>,
    result: Option<T>,
)
    requires
        play(moves) is Some,
        sent_in(moves, j, value, sent, Ok(())),
        received_in(moves, k, rounds, got, result),
    ensures
        result == Some(value),
{
    law_send_result_is_the_outcome(moves, j, value, sent, Ok(()));
    law_receive_result_is_the_outcome(moves, k, rounds, got, result);
    lemma_inv(moves);
}

/// If nothing was sent, then a receive that gave an answer gave nothing.
pub proof fn law_nothing_is_received_if_nothing_is_sent<T>(
    moves: Seq<Move<T>>,
    k: int,
    rounds: nat,
    got: Seq<Op<u32, T>>,
    result: Option<T>,
)
    requires
        play(moves) is Some,
        forall|i: int| 0 <= i < moves.len() ==> !(#[trigger] moves[i] is Send),
        received_in(moves, k, rounds, got, result),
    ensures
        result is None,
{
    law_receive_result_is_the_outcome(moves, k, rounds, got, result);
    lemma_inv(moves);
    if let Some(value) = result {
        lemma_offered(moves);
        let i = choose|i: int| 0 <= i < moves.len() && moves[i] == Move::Send(value);
        assert(moves[i] is Send);
    }
}

/// A send that begins after the receiver is gone gives the value back.
pub proof fn law_send_to_a_dropped_receiver_fails<T>(
    moves: Seq<Move<T>>,
    j: int,
    value: T,
    sent: Seq<Op<u32, T>>,
    result: Result<(), T>,
)
    requires
        play(moves) is Some,
        sent_in(moves, j, value, sent, result),
        play(moves.take(j)) is Some,
        play(moves.take(j))->0.receiver is Gone,
    ensures
        result == Err::<(), T>(value),
{
    law_send_result_is_the_outcome(moves, j, value, sent, result);
    law_what_a_send_performs(value, sent, send_outcome(value, result));
    lemma_play_of_prefix(moves, j + 1);
    assert(moves.take(j + 1).drop_last() =~= moves.take(j));
    lemma_inv(moves.take(j));
    law_closed_channel_stays_closed(moves, j);
    lemma_inv(moves);
}

/// A send that ends while the receiver is not gone succeeds.
pub proof fn law_send_to_a_live_receiver_succeeds<T>(
    moves: Seq<Move<T>>,
    j: int,
    value: T,
    sent: Seq<Op<u32, T>>,
    result: Result<(), T>,
)
    requires
        play(moves) is Some,
        sent_in(moves, j, value, sent, result),
        !(play(moves)->0.receiver is Gone),
    ensures
        result is Ok,
{
    law_send_result_is_the_outcome(moves, j, value, sent, result);
    lemma_inv(moves);
}

/// A send whose attempt to reserve the slot succeeded succeeds: it finds nobody at the
/// cell, whatever the receiver does meanwhile.
pub proof fn law_reserved_send_succeeds<T>(
    moves: Seq<Move<T>>,
    j: int,
    value: T,
    sent: Seq<Op<u32, T>>,
    result: Result<(), T>,
)
    requires
        play(moves) is Some,
        sent_in(moves, j, value, sent, result),
    ensures
        result is Ok <==> sent[0]->result is Ok,
        result is Err <==> sent[0]->result is Err,
{
    match result {
        Ok(()) => law_what_a_send_performs(value, sent, send_outcome(value, result)),
        Err(back) => law_refused_send_stores_nothing(moves, j, value, sent, back),
    }
}

/// A send that is refused finds the state `CLOSED` and performs nothing else: it
/// stores nothing and wakes up nobody.
pub proof fn law_refused_send_stores_nothing<T>(
    moves: Seq<Move<T>>,
    j: int,
    value: T,
    sent: Seq<Op<u32, T>>,
    back: T,
)
    requires
        play(moves) is Some,
        sent_in(moves, j, value, sent, Err(back)),
    ensures
        back == value,
        sent =~= seq![from_empty::<T>(WRITING, Err(CLOSED))],
{
    law_what_a_send_performs(value, sent, SendOutcome::Refused(back));
    let later = moves.skip(j + 1);
    assert(moves.take(j + 1) + later =~= moves);
    lemma_sender_ops(moves.take(j + 1), later);
    assert(sent[0] == sender_ops(later)[0]);
    if sent.len() > 1 {
        assert(sent[1] == sender_ops(later)[1]);
    }
}

/// The sender never finds the cell busy, and it fails to reserve the slot only if
/// the channel is closed.
proof fn lemma_sender_ops<T>(moves: Seq<Move<T>>, later: Seq<Move<T>>)
    requires
        play(moves + later) is Some,
    ensures
        forall|i: int|
            0 <= i < sender_ops(later).len() ==> {
                let op = #[trigger] sender_ops(later)[i];
                &&& !(op is Busy)
                &&& op == from_empty::<T>(WRITING, op->result) && op->result is Err ==> op->result
                    == Err::<u32, u32>(CLOSED)
            },
    decreases later.len(),
{
    if later.len() > 0 {
        let earlier = later.drop_last();
        assert((moves + later).drop_last() =~= moves + earlier);
        lemma_sender_ops(moves, earlier);
        lemma_inv(moves + earlier);
    }
}

/// After a send that returned `Ok`, the state is `SENT` and the slot holds the value
/// until the receiver moves it out, also when the sender is gone.
pub proof fn law_sent_value_is_kept<T>(
    moves: Seq<Move<T>>,
    j: int,
    value: T,
    sent: Seq<Op<u32, T>>,
)
    requires
        play(moves) is Some,
        sent_in(moves, j, value, sent, Ok(())),
    ensures
        ({
            let channel = play(moves)->0;
            if channel.receiver is Mark {
                channel.receiver == ReceiverStage::Mark(Some(value))
            } else if channel.receive_outcome() is Received {
                channel.memory.word == RECEIVED && channel.memory.cell is None
            } else {
                channel.memory.word == SENT && channel.memory.cell == Some(value)
            }
        }),
{
    law_send_result_is_the_outcome(moves, j, value, sent, Ok(()));
    lemma_inv(moves);
}

/// After a receive that gave a value, the state is `RECEIVED` and the slot is empty;
/// after one that gave nothing, the state is `CLOSED` and the slot is empty. That
/// does not change as the receiver is dropped.
pub proof fn law_what_a_receive_leaves<T>(
    moves: Seq<Move<T>>,
    k: int,
    rounds: nat,
    got: Seq<Op<u32, T>>,
    result: Option<T>,
)
    requires
        play(moves) is Some,
        received_in(moves, k, rounds, got, result),
    ensures
        play(moves)->0.memory.cell is None,
        play(moves)->0.memory.word == if result is Some {
            RECEIVED
        } else {
            CLOSED
        },
{
    law_receive_result_is_the_outcome(moves, k, rounds, got, result);
    lemma_inv(moves);
}

/// The first moves of a play are a play.
proof fn lemma_play_of_prefix<T>(moves: Seq<Move<T>>, n: int)
    requires
        play(moves) is Some,
        0 <= n <= moves.len(),
    ensures
        play(moves.take(n)) is Some,
    decreases moves.len(),
{
    if n == moves.len() {
        assert(moves.take(n) =~= moves);
    } else {
        lemma_play_of_prefix(moves.drop_last(), n);
        assert(moves.drop_last().take(n) =~= moves.take(n));
    }
}

/// A channel that is closed stays closed: of two ends that are dropped unused, the
/// first closes it and the second changes nothing.
pub proof fn law_closed_channel_stays_closed<T>(moves: Seq<Move<T>>, n: int)
    requires
        play(moves) is Some,
        0 <= n <= moves.len(),
        play(moves.take(n)) is Some,
        play(moves.take(n))->0.memory.word == CLOSED,
    ensures
        play(moves)->0.memory.word == CLOSED,
    decreases moves.len(),
{
    if n == moves.len() {
        assert(moves.take(n) =~= moves);
    } else {
        let earlier = moves.drop_last();
        assert(earlier.take(n) =~= moves.take(n));
        law_closed_channel_stays_closed(earlier, n);
        assert(earlier.push(moves.last()) =~= moves);
        law_state_moves_forward(earlier, moves.last());
    }
}

} // verus!
