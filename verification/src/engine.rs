//! The mixer: eight strips, eight buses and the patch between them.

use crate::bus::Bus;
use crate::elementary::Elementary;
use crate::meter::Meter;
use crate::num::{self, get_whole, Sample};
use crate::patch::{CompositeSource, Patch, NUM_INSERTS};
use crate::strip::Strip;
use crate::{CHANNELS, NUM_BUSES, NUM_STRIPS};
use vstd::array::spec_array_update;
use vstd::prelude::*;
use vstd::std_specs::ops::MulSpec;

verus! {

pub struct Engine<S> {
    pub strips: [Strip<S>; NUM_STRIPS],
    pub buses: [Bus<S>; NUM_BUSES],
    /// One patch for every bus that is in Composite mode.
    pub patch: Patch,
    pub strip_meters: [Meter<S>; NUM_STRIPS],
    pub bus_meters: [Meter<S>; NUM_BUSES],
    pub sample_rate: S,
}

impl<S: Sample> Engine<S> {
    /// The rate of a mixer that has not been given another: 48 kHz.
    pub open spec fn default_rate() -> S {
        num::whole::<S>(48).mul_spec(num::whole::<S>(1000))
    }

    /// The mixer as it comes up.
    pub open spec fn is_fresh<M: Elementary<S>>(self, m: M) -> bool {
        &&& forall|s: int| 0 <= s < NUM_STRIPS ==> (#[trigger] self.strips@[s]).fresh(s)
        &&& forall|b: int| 0 <= b < NUM_BUSES ==> #[trigger] self.buses@[b] == Bus::<S>::neutral()
        &&& forall|c: int|
            0 <= c < CHANNELS ==> #[trigger] self.patch.composite@[c]
                == CompositeSource::Default
        &&& !self.patch.composite_post_fader
        &&& forall|i: int| 0 <= i < NUM_INSERTS ==> !(#[trigger] self.patch.insert@[i])
        &&& !self.patch.insert_post_fx
        &&& forall|s: int|
            0 <= s < NUM_STRIPS ==> (#[trigger] self.strip_meters@[s]).is_silent()
                && self.strip_meters@[s].ballistics().suit(m, Self::default_rate())
        &&& forall|b: int|
            0 <= b < NUM_BUSES ==> (#[trigger] self.bus_meters@[b]).is_silent()
                && self.bus_meters@[b].ballistics().suit(m, Self::default_rate())
        &&& self.sample_rate == Self::default_rate()
    }

    /// The engine with strip `s` replaced.
    pub open spec fn with_strip(self, s: int, strip: Strip<S>) -> Self {
        Engine { strips: spec_array_update(self.strips, s, strip), ..self }
    }

    /// The engine with bus `b` replaced.
    pub open spec fn with_bus(self, b: int, bus: Bus<S>) -> Self {
        Engine { buses: spec_array_update(self.buses, b, bus), ..self }
    }

    /// A mixer at its default rate, with everything neutral.
    pub fn new<M: Elementary<S>>(m: &M) -> (r: Self)
        requires
            num::lawful::<S>(),
        ensures
            r.is_fresh(*m),
    {
        let sample_rate: S = get_whole::<S>(48) * get_whole(1000);
        let meter = Meter::new(m, sample_rate);
        Engine {
            strips: [
                Strip::for_topology_index(0),
                Strip::for_topology_index(1),
                Strip::for_topology_index(2),
                Strip::for_topology_index(3),
                Strip::for_topology_index(4),
                Strip::for_topology_index(5),
                Strip::for_topology_index(6),
                Strip::for_topology_index(7),
            ],
            buses: [
                Bus::new(),
                Bus::new(),
                Bus::new(),
                Bus::new(),
                Bus::new(),
                Bus::new(),
                Bus::new(),
                Bus::new(),
            ],
            patch: Patch::default(),
            strip_meters: [meter; NUM_STRIPS],
            bus_meters: [meter; NUM_BUSES],
            sample_rate,
        }
    }

    pub fn strip_meter(&self, strip: usize) -> (r: &Meter<S>)
        requires
            strip < NUM_STRIPS,
        ensures
            *r == self.strip_meters@[strip as int],
    {
        &self.strip_meters[strip]
    }

    pub fn bus_meter(&self, bus: usize) -> (r: &Meter<S>)
        requires
            bus < NUM_BUSES,
        ensures
            *r == self.bus_meters@[bus as int],
    {
        &self.bus_meters[bus]
    }

    pub fn sample_rate(&self) -> (r: S)
        ensures
            r == self.sample_rate,
    {
        self.sample_rate
    }
}

} // verus!
