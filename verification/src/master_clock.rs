//! The clock master's frame position, against which every other device
//! measures its drift.

use crate::shared_count::{self, SharedCount, Tally};
use core::sync::atomic::AtomicU64;
use vstd::prelude::*;

verus! {

/// A running frame count, in the hands of the clock master. It wraps at the end
/// of its range.
pub struct MasterClock {
    frames: Tally,
}

/// A live view on the master's position, for the other devices' threads. Every
/// clone looks at the same clock.
#[derive(Debug)]
pub struct MasterClockHandle {
    shown: SharedCount,
}

impl Default for MasterClock {
    fn default() -> (r: Self)
        ensures
            r.position() == 0,
    {
        MasterClock { frames: Tally::default() }
    }
}

impl MasterClock {
    pub closed spec fn position(&self) -> u64 {
        self.frames.count()
    }

    /// The count that handles on this clock look at.
    pub closed spec fn cell(&self) -> AtomicU64 {
        self.frames.cell()
    }

    /// Called once per callback of the master device, or per tick of the
    /// internal clock. Every handle sees the new position.
    pub fn advance(&mut self, frames: u32)
        ensures
            final(self).position() == old(self).position().wrapping_add(frames as u64),
            final(self).cell() == old(self).cell(),
    {
        let position: u64 = self.frames.get();
        self.frames.set(position.wrapping_add(frames as u64));
    }

    pub fn frames(&self) -> (r: u64)
        ensures
            r == self.position(),
    {
        self.frames.get()
    }

    /// A view on this clock.
    pub fn handle(&self) -> (r: MasterClockHandle)
        ensures
            r.cell() == self.cell(),
    {
        MasterClockHandle { shown: self.frames.view_on() }
    }
}

impl MasterClockHandle {
    /// Which clock this is a view on.
    pub closed spec fn cell(&self) -> AtomicU64 {
        self.shown.cell()
    }

    /// The position, as far as the master has come.
    pub fn frames(&self) -> (r: u64)
        ensures
            shared_count::is_seen(self.cell(), r),
    {
        self.shown.get()
    }

    /// The position, with the clock itself at hand.
    pub fn frames_beside(&self, clock: &MasterClock) -> (r: u64)
        ensures
            self.cell() == clock.cell() ==> r == clock.position(),
    {
        self.shown.get_beside(&clock.frames)
    }
}

impl Clone for MasterClockHandle {
    fn clone(&self) -> (r: Self)
        ensures
            r.cell() == self.cell(),
    {
        MasterClockHandle { shown: self.shown.clone() }
    }
}

/// The position after a run of advances is where it started plus all of them,
/// each in full and modulo the range of the count.
pub open spec fn advanced(start: u64, steps: Seq<u32>) -> u64
    decreases steps.len(),
{
    if steps.len() == 0 {
        start
    } else {
        advanced(start, steps.drop_last()).wrapping_add(steps.last() as u64)
    }
}

/// All the steps together.
pub open spec fn total(steps: Seq<u32>) -> nat
    decreases steps.len(),
{
    if steps.len() == 0 {
        0
    } else {
        total(steps.drop_last()) + steps.last() as nat
    }
}

/// No advance is lost: after any run of them the clock stands at the sum of all
/// of them, modulo the range of the count.
pub proof fn law_no_advance_is_lost(start: u64, steps: Seq<u32>)
    ensures
        advanced(start, steps) == (start + total(steps)) % 0x1_0000_0000_0000_0000,
    decreases steps.len(),
{
    if steps.len() > 0 {
        law_no_advance_is_lost(start, steps.drop_last());
    }
}

/// The order of the advances does not matter.
pub proof fn law_order_of_advances_does_not_matter(start: u64, a: Seq<u32>, b: Seq<u32>)
    requires
        a.to_multiset() == b.to_multiset(),
    ensures
        advanced(start, a) == advanced(start, b),
{
    lemma_total_of_reordered(a, b);
    law_no_advance_is_lost(start, a);
    law_no_advance_is_lost(start, b);
}

proof fn lemma_total_without(steps: Seq<u32>, i: int)
    requires
        0 <= i < steps.len(),
    ensures
        total(steps) == total(steps.remove(i)) + steps[i],
    decreases steps.len(),
{
    if i < steps.len() - 1 {
        lemma_total_without(steps.drop_last(), i);
        assert(steps.remove(i).drop_last() =~= steps.drop_last().remove(i));
    } else {
        assert(steps.remove(i) =~= steps.drop_last());
    }
}

proof fn lemma_total_of_reordered(a: Seq<u32>, b: Seq<u32>)
    requires
        a.to_multiset() == b.to_multiset(),
    ensures
        total(a) == total(b),
    decreases a.len(),
{
    broadcast use vstd::seq_lib::group_to_multiset_ensures;

    assert(a.len() == b.len()) by {
        assert(a.to_multiset().len() == a.len());
        assert(b.to_multiset().len() == b.len());
    }
    if a.len() > 0 {
        let x = a.last();
        assert(a.contains(x)) by {
            assert(a[a.len() - 1] == x);
        }
        assert(b.to_multiset().count(x) > 0);
        assert(b.contains(x));
        let i = b.index_of(x);
        lemma_total_without(a, a.len() - 1);
        lemma_total_without(b, i);
        assert(a.remove(a.len() - 1).to_multiset() =~= a.to_multiset().remove(x));
        assert(b.remove(i).to_multiset() =~= b.to_multiset().remove(x));
        lemma_total_of_reordered(a.remove(a.len() - 1), b.remove(i));
    }
}

} // verus!
