//! An output bus.

use crate::bus_mode::BusMode;
use crate::num::{self, get_whole, Sample};
use crate::parametric_eq::ParametricEq;
use crate::CHANNELS;
use vstd::prelude::*;

verus! {

#[derive(Debug, Clone, Copy, PartialEq, Eq, Structural)]
pub enum BusMono {
    Off,
    /// Both front channels carry their mean.
    Mono,
    /// The front channels change places.
    StereoReverse,
}

impl Default for BusMono {
    fn default() -> (r: Self)
        ensures
            r == BusMono::Off,
    {
        BusMono::Off
    }
}

pub struct Bus<S> {
    pub mute: bool,
    pub mono: BusMono,
    pub mode: BusMode,
    pub eq: ParametricEq<S, CHANNELS>,
    pub gain_db: S,
}

impl<S: Sample> Bus<S> {
    /// Unmuted, at unity, with nothing engaged.
    pub open spec fn neutral() -> Self {
        Bus {
            mute: false,
            mono: BusMono::Off,
            mode: BusMode::Normal,
            eq: ParametricEq::<S, CHANNELS>::neutral(),
            gain_db: num::whole::<S>(0),
        }
    }

    pub fn new() -> (r: Self)
        requires
            num::lawful::<S>(),
        ensures
            r == Self::neutral(),
    {
        Bus {
            mute: false,
            mono: BusMono::Off,
            mode: BusMode::Normal,
            eq: ParametricEq::new(),
            gain_db: get_whole(0),
        }
    }

    pub fn gain_db(&self) -> (r: S)
        ensures
            r == self.gain_db,
    {
        self.gain_db
    }

    pub fn set_gain_db(&mut self, db: S)
        ensures
            *final(self) == (Bus { gain_db: db, ..*old(self) }),
    {
        self.gain_db = db;
    }
}

} // verus!
