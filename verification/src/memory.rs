//! The operations that threads perform on a shared word and a shared cell, and
//! a model of the memory on which they perform them.
//!
//! Both primitives of this crate are built from one atomic word and one cell
//! for a value. What a function does to them is described by the sequence of
//! its operations, each with the outcome that it saw; [`Memory::step`] says
//! which outcomes are possible when the operations of several threads
//! interleave.
use vstd::prelude::*;

verus! {

/// The memory ordering of an atomic operation.
pub enum Order {
    Relaxed,
    Acquire,
    Release,
}

/// One operation of one thread, together with its outcome.
///
/// `W` is the type of the word and `T` that of the value in the cell.
#[allow(inconsistent_fields)]
pub enum Op<W, T> {
    /// An atomic load that returned `value`.
    Load { order: Order, value: W },
    /// An atomic store of `value`.
    Store { order: Order, value: W },
    /// An atomic compare-and-exchange that returned `result`. A weak one may
    /// fail although the word holds `current`.
    CompareExchange {
        weak: bool,
        current: W,
        new: W,
        success: Order,
        failure: Order,
        result: Result<W, W>,
    },
    /// A write of `value` into the cell.
    Put { value: T },
    /// A move out of the cell, which held `value`.
    Take { value: Option<T> },
    /// An access to the cell that found another thread at it and did nothing.
    Busy,
    /// A wait for as long as the word holds `value`. It may also end early.
    Wait { value: W },
    /// A wake-up of one thread that waits on the word.
    WakeOne,
    /// A hint to the processor that the thread spins.
    SpinHint,
    /// The start of a second record, to which later operations may go.
    Split,
}

/// An operation and the site, the word and the cell, on which it was performed.
pub struct Event<S, W, T> {
    pub site: S,
    pub op: Op<W, T>,
}

/// The operations of some events.
pub open spec fn ops<S, W, T>(events: Seq<Event<S, W, T>>) -> Seq<Op<W, T>> {
    Seq::new(events.len(), |i: int| events[i].op)
}

/// So many operations, all of them on one site.
pub open spec fn all_on<S, W, T>(site: S, ops: Seq<Op<W, T>>) -> Seq<Event<S, W, T>> {
    Seq::new(ops.len(), |i: int| Event { site, op: ops[i] })
}

/// The operations on one site among some events.
pub open spec fn ops_on<S, W, T>(site: S, events: Seq<Event<S, W, T>>) -> Seq<Op<W, T>>
    decreases events.len(),
{
    if events.len() == 0 {
        Seq::empty()
    } else if events.last().site == site {
        ops_on(site, events.drop_last()).push(events.last().op)
    } else {
        ops_on(site, events.drop_last())
    }
}

/// A program that decides, after each operation, how to go on.
pub trait Program<W, T>: Sized {
    /// Where the program stands after `op`, or `None` if it does not perform
    /// that operation here.
    spec fn next(self, op: Op<W, T>) -> Option<Self>;
}

/// Where a program stands after `ops`, or `None` if they are not its
/// operations.
pub open spec fn run<W, T, P: Program<W, T>>(program: P, ops: Seq<Op<W, T>>) -> Option<P>
    decreases ops.len(),
{
    if ops.len() == 0 {
        Some(program)
    } else {
        match run(program, ops.drop_last()) {
            Some(stage) => stage.next(ops.last()),
            None => None,
        }
    }
}

/// `after` is `before` and then operations that take a program from `start` to
/// `end`, all of them on `site`.
pub open spec fn follows<S, W, T, P: Program<W, T>>(
    start: P,
    site: S,
    before: Seq<Event<S, W, T>>,
    after: Seq<Event<S, W, T>>,
    end: P,
) -> bool {
    &&& before.is_prefix_of(after)
    &&& forall|i: int| before.len() <= i < after.len() ==> (#[trigger] after[i]).site == site
    &&& run(start, ops(after.skip(before.len() as int))) == Some(end)
}

/// A program that performs nothing stays where it is.
pub broadcast proof fn lemma_follows_nothing<S, W, T, P: Program<W, T>>(
    start: P,
    site: S,
    events: Seq<Event<S, W, T>>,
)
    ensures
        #[trigger] follows(start, site, events, events, start),
{
}

/// One more operation of the program takes it one stage further.
pub broadcast proof fn lemma_follows_one_more<S, W, T, P: Program<W, T>>(
    start: P,
    site: S,
    before: Seq<Event<S, W, T>>,
    after: Seq<Event<S, W, T>>,
    stage: P,
    event: Event<S, W, T>,
)
    requires
        #[trigger] follows(start, site, before, after, stage),
        event.site == site,
        stage.next(event.op) is Some,
    ensures
        follows(start, site, before, #[trigger] after.push(event), stage.next(event.op)->0),
{
    let done = after.skip(before.len() as int);
    let more = after.push(event).skip(before.len() as int);
    assert(ops(more).drop_last() =~= ops(done));
    assert(ops(more).last() == event.op);
    assert(before.is_prefix_of(after.push(event)));
}

/// A program that runs on runs as one.
pub proof fn lemma_run_in_parts<W, T, P: Program<W, T>>(
    start: P,
    first: Seq<Op<W, T>>,
    middle: P,
    second: Seq<Op<W, T>>,
)
    requires
        run(start, first) == Some(middle),
    ensures
        run(start, first + second) == run(middle, second),
    decreases second.len(),
{
    if second.len() == 0 {
        assert(first + second =~= first);
    } else {
        lemma_run_in_parts(start, first, middle, second.drop_last());
        assert((first + second).drop_last() =~= first + second.drop_last());
    }
}

/// The first of the operations of a program are operations of the program.
pub proof fn lemma_run_of_prefix<W, T, P: Program<W, T>>(start: P, ops: Seq<Op<W, T>>, n: int)
    requires
        run(start, ops) is Some,
        0 <= n <= ops.len(),
    ensures
        run(start, ops.take(n)) is Some,
    decreases ops.len(),
{
    if n == ops.len() {
        assert(ops.take(n) =~= ops);
    } else {
        lemma_run_of_prefix(start, ops.drop_last(), n);
        assert(ops.drop_last().take(n) =~= ops.take(n));
    }
}

/// Each of the operations of a program is the next one where the program stands
/// after those before it.
pub proof fn lemma_run_one_step<W, T, P: Program<W, T>>(start: P, ops: Seq<Op<W, T>>, i: int)
    requires
        run(start, ops) is Some,
        0 <= i < ops.len(),
    ensures
        run(start, ops.take(i)) is Some,
        run(start, ops.take(i + 1)) is Some,
        run(start, ops.take(i + 1)) == run(start, ops.take(i))->0.next(ops[i]),
        run(start, ops.take(0)) == Some(start),
        i + 1 == ops.len() ==> run(start, ops.take(i + 1)) == run(start, ops),
{
    lemma_run_of_prefix(start, ops, i);
    lemma_run_of_prefix(start, ops, i + 1);
    assert(ops.take(i + 1).drop_last() =~= ops.take(i));
    if i + 1 == ops.len() {
        assert(ops.take(i + 1) =~= ops);
    }
}

/// What a program does in two parts it does as one.
pub broadcast proof fn lemma_follows_transitive<S, W, T, P: Program<W, T>>(
    start: P,
    site: S,
    before: Seq<Event<S, W, T>>,
    between: Seq<Event<S, W, T>>,
    after: Seq<Event<S, W, T>>,
    middle: P,
    end: P,
)
    requires
        #[trigger] follows(start, site, before, between, middle),
        #[trigger] follows(middle, site, between, after, end),
    ensures
        follows(start, site, before, after, end),
{
    let first = between.skip(before.len() as int);
    let second = after.skip(between.len() as int);
    lemma_run_in_parts(start, ops(first), middle, ops(second));
    assert(ops(after.skip(before.len() as int)) =~= ops(first) + ops(second));
    assert(before.is_prefix_of(after));
    assert forall|i: int| before.len() <= i < after.len() implies (#[trigger] after[i]).site
        == site by {
        if i < between.len() {
            assert(between[i] == after[i]);
        }
    }
}

pub broadcast group group_follows {
    lemma_follows_nothing,
    lemma_follows_one_more,
    lemma_follows_transitive,
}

/// A program leaves a record with what it held before and then with the operations
/// of the program, on its site, and with nothing else.
pub proof fn law_record_is_kept_and_goes_on<S, W, T, P: Program<W, T>>(
    start: P,
    site: S,
    before: Seq<Event<S, W, T>>,
    after: Seq<Event<S, W, T>>,
    end: P,
) -> (done: Seq<Op<W, T>>)
    requires
        follows(start, site, before, after, end),
    ensures
        after == before + all_on(site, done),
        run(start, done) == Some(end),
{
    let done = ops(after.skip(before.len() as int));
    assert forall|i: int| 0 <= i < after.len() implies after[i] == (before + all_on(
        site,
        done,
    ))[i] by {
        if i < before.len() {
            assert(before[i] == after[i]);
        }
    }
    assert(after =~= before + all_on(site, done));
    done
}

/// A program on one site leaves the record of every other site as it was, and
/// adds its operations to that of its own. So what happens at one lock or
/// channel has no part in what happens at another.
pub proof fn law_sites_are_independent<S, W, T, P: Program<W, T>>(
    start: P,
    site: S,
    before: Seq<Event<S, W, T>>,
    after: Seq<Event<S, W, T>>,
    end: P,
    other: S,
)
    requires
        follows(start, site, before, after, end),
    ensures
        other != site ==> ops_on(other, after) == ops_on(other, before),
        other == site ==> ops_on(site, after) == ops_on(site, before) + ops(
            after.skip(before.len() as int),
        ),
{
    lemma_ops_on(site, before, after, other);
}

proof fn lemma_ops_on<S, W, T>(
    site: S,
    before: Seq<Event<S, W, T>>,
    after: Seq<Event<S, W, T>>,
    other: S,
)
    requires
        before.is_prefix_of(after),
        forall|i: int| before.len() <= i < after.len() ==> (#[trigger] after[i]).site == site,
    ensures
        other != site ==> ops_on(other, after) == ops_on(other, before),
        other == site ==> ops_on(site, after) == ops_on(site, before) + ops(
            after.skip(before.len() as int),
        ),
    decreases after.len(),
{
    if after.len() == before.len() {
        assert(after =~= before);
        assert(ops_on(site, before) + ops(after.skip(before.len() as int)) =~= ops_on(
            site,
            before,
        ));
    } else {
        let earlier = after.drop_last();
        assert(before.is_prefix_of(earlier));
        assert forall|i: int| before.len() <= i < earlier.len() implies (#[trigger] earlier[i]).site
            == site by {
            assert(earlier[i] == after[i]);
        }
        assert(after[after.len() - 1] == after.last());
        lemma_ops_on(site, before, earlier, other);
        assert(ops(after.skip(before.len() as int)) =~= ops(
            earlier.skip(before.len() as int),
        ).push(after.last().op));
        assert(ops_on(site, before) + ops(after.skip(before.len() as int)) =~= (ops_on(site, before)
            + ops(earlier.skip(before.len() as int))).push(after.last().op));
    }
}

/// A word and a cell that threads share, as the operations so far have left
/// them.
///
/// All operations on the word happen in one order, and each sees what the one
/// before it left: that is what the memory model grants for a single atomic
/// location. The cell is not atomic. An access to it is free of data races only
/// if the accesses before it happen before it, and only a release that is
/// acquired carries that knowledge from thread to thread.
pub struct Memory<W, T> {
    /// What the word holds.
    pub word: W,
    /// How many accesses to the cell are known to a thread that acquires the
    /// word as it stands.
    pub published: nat,
    /// What the cell holds.
    pub cell: Option<T>,
    /// How many accesses to the cell there were.
    pub accesses: nat,
    /// How many of them are known to each thread.
    pub known: spec_fn(int) -> nat,
    /// Whether some access was made without knowledge of all those before it.
    pub raced: bool,
}

impl<W, T> Memory<W, T> {
    /// The memory before the first operation.
    pub open spec fn initial(word: W, cell: Option<T>) -> Self {
        Memory { word, published: 0, cell, accesses: 0, known: |thread: int| 0nat, raced: false }
    }

    /// The memory after `thread` has come to know of at least `count` accesses.
    pub open spec fn told(self, thread: int, count: nat) -> Self {
        Memory {
            known: |other: int|
                if other == thread && (self.known)(other) < count {
                    count
                } else {
                    (self.known)(other)
                },
            ..self
        }
    }

    /// The memory after `thread` has read the word with the given ordering.
    pub open spec fn read(self, thread: int, order: Order) -> Self {
        if order is Acquire {
            self.told(thread, self.published)
        } else {
            self
        }
    }

    /// The memory after `thread` has accessed the cell and left `cell` in it.
    pub open spec fn accessed(self, thread: int, cell: Option<T>) -> Self {
        Memory {
            cell,
            accesses: self.accesses + 1,
            raced: self.raced || (self.known)(thread) != self.accesses,
            ..self.told(thread, self.accesses + 1)
        }
    }

    /// The memory after `thread` has performed `op`, or `None` if the operation
    /// cannot have had the outcome that it records.
    pub open spec fn step(self, thread: int, op: Op<W, T>) -> Option<Self> {
        match op {
            Op::Load { order, value } => if value == self.word {
                Some(self.read(thread, order))
            } else {
                None
            },
            Op::Store { order, value } => Some(
                Memory {
                    word: value,
                    published: if order is Release {
                        (self.known)(thread)
                    } else {
                        0
                    },
                    ..self
                },
            ),
            Op::CompareExchange { weak, current, new, success, failure, result } => match result {
                Ok(seen) => if seen == current && seen == self.word {
                    let after = self.read(thread, success);
                    Some(
                        Memory {
                            word: new,
                            published: if success is Release && (self.known)(thread)
                                > self.published {
                                (self.known)(thread)
                            } else {
                                self.published
                            },
                            ..after
                        },
                    )
                } else {
                    None
                },
                Err(seen) => if seen == self.word && (weak || seen != current) {
                    Some(self.read(thread, failure))
                } else {
                    None
                },
            },
            Op::Put { value } => Some(self.accessed(thread, Some(value))),
            Op::Take { value } => if value == self.cell {
                Some(self.accessed(thread, None))
            } else {
                None
            },
            // A thread that knows of all accesses knows that they are over.
            Op::Busy => if (self.known)(thread) != self.accesses {
                Some(self)
            } else {
                None
            },
            Op::Wait { .. } => Some(self),
            Op::WakeOne => Some(self),
            Op::SpinHint => Some(self),
            Op::Split => Some(self),
        }
    }
}

/// The cell is found busy only by a thread that does not know of all accesses to it,
/// so only if another thread is at it: never before the first access, and never by
/// the thread that has just made one itself. A thread that finds it busy changes
/// nothing.
pub proof fn law_only_another_thread_is_in_the_way<W, T>(
    memory: Memory<W, T>,
    thread: int,
    op: Op<W, T>,
)
    ensures
        memory.step(thread, Op::Busy) is Some <==> (memory.known)(thread) != memory.accesses,
        memory.step(thread, Op::Busy) is Some ==> memory.step(thread, Op::Busy) == Some(memory),
        forall|word: W, cell: Option<T>|
            (#[trigger] Memory::initial(word, cell)).step(thread, Op::Busy) is None,
        (op is Put || op is Take) && memory.step(thread, op) is Some && (memory.known)(thread)
            <= memory.accesses ==> memory.step(thread, op)->0.step(thread, Op::Busy) is None,
{
}

/// What is stored is what every thread finds from then on, and nothing else; what is
/// put into the cell is what is moved out next, and then the cell is empty.
pub proof fn law_memory_holds_what_was_left<W, T>(
    memory: Memory<W, T>,
    thread: int,
    reader: int,
    stored: Order,
    loaded: Order,
    left: W,
    seen: W,
    value: T,
    moved: Option<T>,
)
    ensures
        memory.step(thread, Op::Store { order: stored, value: left }) is Some,
        memory.step(thread, Op::Store { order: stored, value: left })->0.step(
            reader,
            Op::Load { order: loaded, value: seen },
        ) is Some <==> seen == left,
        memory.step(thread, Op::Put { value }) is Some,
        memory.step(thread, Op::Put { value })->0.step(reader, Op::Take { value: moved }) is Some
            <==> moved == Some(value),
        memory.step(thread, Op::Take { value: moved }) is Some ==> memory.cell == moved
            && memory.step(thread, Op::Take { value: moved })->0.cell is None,
{
}

/// A memory begins with the word and the value that it is made with, and with no
/// access to the cell.
pub proof fn law_memory_begins_as_made<W, T>(word: W, cell: Option<T>, thread: int)
    ensures
        Memory::initial(word, cell).word == word,
        Memory::initial(word, cell).cell == cell,
        Memory::initial(word, cell).accesses == 0,
        (Memory::initial(word, cell).known)(thread) == 0,
        !Memory::initial(word, cell).raced,
{
}

} // verus!
