//! Two small synchronization primitives, verified with Verus.
//!
//! - [`spinlock`]: a lock that protects data, for which threads spin.
//! - [`oneshot`]: a channel for a single value, with one sender and one
//!   receiver.
//!
//! Each is an atomic word or flag and a cell ([`shared`]) on which threads
//! perform operations ([`memory`]). A function that touches them takes a record, a
//! [`journal::Journal`], which exists for proofs only. The contract says which
//! operations the function adds to the record, on which site, in which order and
//! with which memory orderings, and what it returns for each of their outcomes: the
//! `protocol` modules write this down as programs that go from stage to stage. A
//! sender, a receiver and a guard have records of their own, for what their
//! destructors do. The `records` modules say what a record shows of each call, and
//! that there is no other record than those that a caller can see. The `laws` modules
//! then prove what holds when the programs of several threads interleave.
//!
//! A function that may have to wait for another thread takes the number of
//! rounds after which it stops trying.
pub mod journal;
pub mod memory;
pub mod oneshot;
pub mod shared;
pub mod spinlock;
