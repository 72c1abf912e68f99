//! Records of the operations on shared sites.
use core::marker::PhantomData;

use vstd::prelude::*;

use crate::memory::{Event, Op};

verus! {

/// Which record one is, and how many cells are held open with it.
#[verifier::ext_equal]
pub struct Standing {
    /// The way from the first record to this one: for each record that was split
    /// off on the way, how many operations the record before it showed then.
    pub lineage: Seq<nat>,
    /// How many accesses to cells were begun with this record and are not over.
    pub opened: int,
}

impl Standing {
    /// The standing of the record that is split off when a record with this standing
    /// shows so many operations.
    pub open spec fn child(self, at: nat) -> Self {
        Standing { lineage: self.lineage.push(at), opened: 0 }
    }
}

/// No two records that are split off are the same: those of one record differ by
/// when they were split off, and those of two records by the records. Nor is one
/// that is split off the record that it comes from, or one from which that comes.
pub proof fn law_no_two_records_are_the_same(one: Standing, i: nat, other: Standing, j: nat)
    ensures
        one.child(i) == other.child(j) ==> one.lineage == other.lineage && i == j,
        one.child(i).lineage != one.lineage,
        one.child(i).child(j).lineage != one.lineage,
{
    let a = one.child(i).lineage;
    let b = other.child(j).lineage;
    assert(a.drop_last() =~= one.lineage);
    assert(b.drop_last() =~= other.lineage);
    assert(a.last() == i && b.last() == j);
    assert(one.child(i).child(j).lineage.len() == one.lineage.len() + 2);
}

/// Whether these are records that come from one first record, each under its
/// lineage: every other one was split off one of them, which shows that.
pub open spec fn is_family<S, W, T>(records: Map<Seq<nat>, Seq<Event<S, W, T>>>) -> bool {
    forall|lineage: Seq<nat>| #[trigger]
        records.dom().contains(lineage) && lineage.len() > 0 ==> {
            let parent = lineage.drop_last();
            &&& records.dom().contains(parent)
            &&& lineage.last() < records[parent].len()
            &&& records[parent][lineage.last() as int].op is Split
        }
}

/// Whether a record was split off the record of `parent`, or off one that was, after
/// the record of `parent` had shown so many operations.
pub open spec fn comes_later(parent: Standing, shown: nat, lineage: Seq<nat>) -> bool {
    &&& parent.lineage.is_prefix_of(lineage)
    &&& lineage.len() > parent.lineage.len()
    &&& lineage[parent.lineage.len() as int] >= shown
}

/// If the records that were split off a record since it had shown so many operations
/// are all empty, then there are no others: none was split off one of them, used,
/// and thrown away. So the record shows all that was done since.
pub proof fn law_untouched_records_are_all_there_are<S, W, T>(
    records: Map<Seq<nat>, Seq<Event<S, W, T>>>,
    parent: Standing,
    shown: nat,
    lineage: Seq<nat>,
)
    requires
        is_family(records),
        forall|at: nat|
            shown <= at < records[parent.lineage].len() && records.dom().contains(
                #[trigger] parent.child(at).lineage,
            ) ==> records[parent.child(at).lineage].len() == 0,
        records.dom().contains(lineage),
        comes_later(parent, shown, lineage),
    ensures
        ({
            let at = lineage[parent.lineage.len() as int];
            &&& lineage == parent.child(at).lineage
            &&& shown <= at < records[parent.lineage].len()
            &&& records[parent.lineage][at as int].op is Split
            &&& records[lineage].len() == 0
        }),
    decreases lineage.len(),
{
    let n = parent.lineage.len() as int;
    let shorter = lineage.drop_last();
    assert(records.dom().contains(shorter));
    if lineage.len() == n + 1 {
        assert(shorter =~= parent.lineage);
        assert(lineage =~= parent.child(lineage[n]).lineage);
    } else {
        assert(parent.lineage.is_prefix_of(shorter));
        assert(shorter[n] == lineage[n]);
        law_untouched_records_are_all_there_are(records, parent, shown, shorter);
        assert(false);
    }
}

/// A record of operations, each with the site that it was performed on.
///
/// An operation on a site needs a record of the same key type `K` and adds itself
/// to it, so whoever has a record has all that was done with it. To start a record
/// takes a key. Code that is generic over `K` has none: it can only use the records
/// that it is given, and a record that it splits off one of these shows there.
///
/// A record exists for proofs only and takes no space.
pub struct Journal<K, S, W, T> {
    key: PhantomData<K>,
    events: Ghost<Seq<Event<S, W, T>>>,
    standing: Ghost<Standing>,
}

impl<K, S, W, T> View for Journal<K, S, W, T> {
    type V = Seq<Event<S, W, T>>;

    closed spec fn view(&self) -> Seq<Event<S, W, T>> {
        self.events@
    }
}

impl<K, S, W, T> Journal<K, S, W, T> {
    /// Which record this is. That never changes: a function that is given a record
    /// gives back the same one.
    pub closed spec fn standing(self) -> Standing {
        self.standing@
    }

    /// Starts an empty record.
    pub fn new(key: K) -> (journal: Self)
        ensures
            journal@ == Seq::<Event<S, W, T>>::empty(),
            journal.standing() == (Standing { lineage: Seq::empty(), opened: 0 }),
    {
        Journal {
            key: PhantomData,
            events: Ghost(Seq::empty()),
            standing: Ghost(Standing { lineage: Seq::empty(), opened: 0 }),
        }
    }

    /// Starts a second record for what will be done to `site`, and says so in this
    /// one.
    pub(crate) fn split(&mut self, site: &S) -> (other: Self)
        ensures
            final(self)@ == old(self)@.push(Event { site: *site, op: Op::Split }),
            other@ == Seq::<Event<S, W, T>>::empty(),
            final(self).standing() == old(self).standing(),
            other.standing() == old(self).standing().child(old(self)@.len()),
    {
        let ghost child = self.standing@.child(self.events@.len());
        self.events = Ghost(self.events@.push(Event { site: *site, op: Op::Split }));
        Journal { key: PhantomData, events: Ghost(Seq::empty()), standing: Ghost(child) }
    }
}

} // verus!
