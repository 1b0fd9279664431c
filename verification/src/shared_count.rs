//! Counts that one thread keeps and any other may look at.
//!
//! The count stands in an atomic of `std`, of which `vstd` leaves open what it
//! holds. The one end that writes to it can be sure of that, and so can whoever
//! has that end at hand. What others see through a view depends on when they
//! look.

use core::sync::atomic::{AtomicU64, Ordering};
use std::sync::Arc;
use vstd::prelude::*;

verus! {

/// `r` is what a look at the count found: a relaxed load of `cell`, at the time
/// of the look.
pub open spec fn is_seen(cell: AtomicU64, r: u64) -> bool {
    call_ensures(AtomicU64::load, (&cell, Ordering::Relaxed), r)
}

/// `cell` was made to start at `count`.
pub open spec fn starts_at(cell: AtomicU64, count: u64) -> bool {
    call_ensures(AtomicU64::new, (count,), cell)
}

/// A live view on a count that is kept elsewhere. Every clone looks at the same
/// count.
#[derive(Debug)]
pub struct SharedCount {
    cell: Arc<AtomicU64>,
}

/// A count, in the hands of the one who keeps it. Nobody else writes to it.
pub struct Tally {
    cell: Arc<AtomicU64>,
    count: Ghost<u64>,
}

impl SharedCount {
    /// Which count this is a view on.
    pub closed spec fn cell(&self) -> AtomicU64 {
        *self.cell
    }

    /// The count, as far as the thread that keeps it has come.
    pub fn get(&self) -> (r: u64)
        ensures
            is_seen(self.cell(), r),
    {
        self.cell.load(Ordering::Relaxed)
    }

    /// Calls `AtomicU64::load` through this view, with the end that writes
    /// borrowed: if that is the end of the same count, nobody can be writing,
    /// and what is read is what was last written there. Where they are of
    /// different counts nothing is said.
    #[verifier::external_body]
    fn load_beside(&self, keeper: &Tally) -> (r: u64)
        ensures
            self.cell() == keeper.cell() ==> r == keeper.count(),
    {
        self.cell.load(Ordering::Relaxed)
    }

    /// The count seen through this view, with the one who keeps it at hand.
    pub fn get_beside(&self, keeper: &Tally) -> (r: u64)
        ensures
            self.cell() == keeper.cell() ==> r == keeper.count(),
    {
        self.load_beside(keeper)
    }
}

impl Clone for SharedCount {
    fn clone(&self) -> (r: Self)
        ensures
            r.cell() == self.cell(),
    {
        SharedCount { cell: self.cell.clone() }
    }
}

impl Tally {
    pub closed spec fn count(&self) -> u64 {
        self.count@
    }

    /// The count that views on this one look at.
    pub closed spec fn cell(&self) -> AtomicU64 {
        *self.cell
    }

    /// Calls `AtomicU64::new`: a new count, which starts at `count`.
    #[verifier::external_body]
    pub(crate) fn at(count: u64) -> (r: Self)
        ensures
            r.count() == count,
            starts_at(r.cell(), count),
    {
        Tally { cell: Arc::new(AtomicU64::new(count)), count: Ghost(count) }
    }

    /// Calls `AtomicU64::store`: the count is `count` from here on.
    #[verifier::external_body]
    pub(crate) fn set(&mut self, count: u64)
        ensures
            final(self).count() == count,
            final(self).cell() == old(self).cell(),
    {
        self.cell.store(count, Ordering::Relaxed)
    }

    pub fn get(&self) -> (r: u64)
        ensures
            r == self.count(),
    {
        self.view_on().load_beside(self)
    }

    /// Counts one more, for every view to see. The count wraps at the end of its
    /// range.
    pub(crate) fn increment(&mut self)
        ensures
            final(self).count() == (old(self).count() + 1) % 0x1_0000_0000_0000_0000,
            final(self).cell() == old(self).cell(),
    {
        let count: u64 = self.get();
        self.set(count.wrapping_add(1));
    }

    /// A view on the count.
    pub fn view_on(&self) -> (r: SharedCount)
        ensures
            r.cell() == self.cell(),
    {
        SharedCount { cell: self.cell.clone() }
    }
}

impl Default for Tally {
    fn default() -> (r: Self)
        ensures
            r.count() == 0,
            starts_at(r.cell(), 0),
    {
        Tally::at(0)
    }
}

} // verus!
