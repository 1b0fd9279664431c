//! An input strip: where it goes, how loud, and its effects chain.

use crate::num::{self, get_whole, Sample};
use crate::strip_dsp::{HardwareChain, StripChain, VirtualChain};
use crate::NUM_BUSES;
use vstd::array::spec_array_update;
use vstd::prelude::*;

verus! {

/// The first five strips are hardware inputs.
pub fn topology_is_hardware(strip_index: usize) -> (r: bool)
    ensures
        r == (strip_index < 5),
{
    strip_index < 5
}

/// The second virtual strip is the AUX input.
pub fn topology_is_aux(strip_index: usize) -> (r: bool)
    ensures
        r == (strip_index == 6),
{
    strip_index == 6
}

pub struct Strip<S> {
    pub mute: bool,
    pub solo: bool,
    pub mono: bool,
    pub bus_assign: [bool; NUM_BUSES],
    pub gain_layer_db: [S; NUM_BUSES],
    pub chain: StripChain<S>,
}

impl<S: Sample> Strip<S> {
    /// The chain of the strip at `index`, in its neutral state.
    pub open spec fn chain_at(index: int) -> StripChain<S> {
        if index < 5 {
            StripChain::Hardware(HardwareChain::<S>::neutral())
        } else {
            StripChain::Virtual(VirtualChain::<S>::neutral(index == 6))
        }
    }

    /// The strip at `index` as it comes up: audible on the first bus only, at
    /// unity everywhere.
    pub open spec fn fresh(self, index: int) -> bool {
        &&& !self.mute && !self.solo && !self.mono
        &&& forall|b: int| 0 <= b < NUM_BUSES ==> (#[trigger] self.bus_assign@[b] <==> b == 0)
        &&& forall|b: int|
            0 <= b < NUM_BUSES ==> #[trigger] self.gain_layer_db@[b] == num::whole::<S>(0)
        &&& self.chain == Self::chain_at(index)
    }

    pub fn for_topology_index(index: usize) -> (r: Self)
        requires
            num::lawful::<S>(),
        ensures
            r.fresh(index as int),
    {
        let mut bus_assign = [false; NUM_BUSES];
        bus_assign[0] = true;
        let chain = if topology_is_hardware(index) {
            StripChain::hardware()
        } else {
            StripChain::virtual_strip(topology_is_aux(index))
        };
        Strip {
            mute: false,
            solo: false,
            mono: false,
            bus_assign,
            gain_layer_db: [get_whole(0); NUM_BUSES],
            chain,
        }
    }
}

impl<S: Copy> Strip<S> {
    pub open spec fn with_gain_layer(self, bus: int, db: S) -> Self {
        Strip { gain_layer_db: spec_array_update(self.gain_layer_db, bus, db), ..self }
    }

    pub fn gain_layer_db(&self, bus: usize) -> (r: S)
        requires
            bus < NUM_BUSES,
        ensures
            r == self.gain_layer_db@[bus as int],
    {
        self.gain_layer_db[bus]
    }

    pub fn set_gain_layer_db(&mut self, bus: usize, db: S)
        requires
            bus < NUM_BUSES,
        ensures
            *final(self) == old(self).with_gain_layer(bus as int, db),
    {
        self.gain_layer_db[bus] = db;
    }
}

/// The gain layers of a strip are independent of each other.
pub proof fn law_gain_layers_are_independent<S: Copy>(strip: Strip<S>, bus: int, db: S, other: int)
    requires
        0 <= bus < NUM_BUSES,
        0 <= other < NUM_BUSES,
        other != bus,
    ensures
        strip.with_gain_layer(bus, db).gain_layer_db@[bus] == db,
        strip.with_gain_layer(bus, db).gain_layer_db@[other] == strip.gain_layer_db@[other],
{
}

} // verus!
