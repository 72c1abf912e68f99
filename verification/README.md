# sync_primitives

A spin lock and a single-use channel, verified with [Verus](https://github.com/verus-lang/verus).

| Module | What it holds |
| --- | --- |
| `spinlock` | `SpinLock` and `Guard`: a lock that protects data, for which threads spin |
| `oneshot` | `channel`, `Sender` and `Receiver`: a channel for one value |
| `shared` | the site that each is made of, a word or flag and a cell, and all calls into code that is not verified |
| `journal` | records of the operations on sites |
| `memory` | the operations that threads perform, and a model of the memory they share |

## What is proved

A function that touches a lock or a channel takes a record, a `Journal`, which
exists for proofs only and takes no space. Its contract says which operations it
adds to the record, on which site, in which order and with which memory orderings,
and what it returns for each of their outcomes. `spinlock::protocol` and
`oneshot::protocol` write this down as programs that go from stage to stage.

An operation on a lock or a channel is possible only with a record of the same key
type, and adds itself to it. To start a record takes a key, which the library does
not have: it can only split a record off one that it was given, and that is an
operation too. A sender, a receiver and a guard have such records of their own, for
what their destructors do. Only the small modules that hold these types,
`oneshot::ends` and `spinlock::guard`, can use them, and the contracts there say
that nothing but the destructors does. So the record that a function was given
shows all that it did.

`spinlock::laws` and `oneshot::laws` prove what follows when the programs of
several threads interleave in any way: mutual exclusion, that a holder finds the
data as the last one left them, that a received value is the one that was sent,
that no value is lost or dropped twice, that no wake-up is lost, and that there
are no data races.

## Waiting

Verus asks for a measure that every loop counts down, and a thread that waits
for another one has none. So `lock`, `optimistic_lock` and `receive` take the
number of rounds after which they stop trying. The crate in `app/` calls them
again until they succeed, and adds `Deref`, `DerefMut` and `Debug`.

## The cell

The value of a channel and the data of a lock are handed from thread to thread in
a cell that needs no `unsafe` code. The flag or the state word decides who may
touch it, so the mutex inside is never found locked.
