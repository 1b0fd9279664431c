//! The controls of a strip's effects chain, hardware or virtual.

use crate::compressor::Compressor;
use crate::denoiser::Denoiser;
use crate::eq3::ThreeBandEq;
use crate::gate::Gate;
use crate::intellipan::IntellipanPads;
use crate::karaoke::{Karaoke, KaraokeMode};
use crate::limiter::Limiter;
use crate::num::{self, Sample};
use crate::pan::{PositionPad5_1, StereoBalance};
use crate::parametric_eq::ParametricEq;
use vstd::prelude::*;

verus! {

/// Channels of a hardware strip's equaliser.
pub const STRIP_EQ_CHANNELS: usize = 2;

/// A hardware strip: denoiser, gate, compressor, equaliser, pad, pan pot and
/// limiter, in that order.
#[derive(Clone, Copy)]
pub struct HardwareChain<S> {
    pub denoiser: Denoiser<S>,
    pub gate: Gate<S>,
    pub compressor: Compressor<S>,
    pub eq: ParametricEq<S, STRIP_EQ_CHANNELS>,
    pub pad: IntellipanPads<S>,
    pub pan: StereoBalance<S>,
    pub limiter: Limiter<S>,
}

impl<S: Sample> HardwareChain<S> {
    pub open spec fn neutral() -> Self {
        HardwareChain {
            denoiser: Denoiser::<S>::idle(),
            gate: Gate::<S>::idle(),
            compressor: Compressor::<S>::idle(),
            eq: ParametricEq::<S, STRIP_EQ_CHANNELS>::neutral(),
            pad: IntellipanPads::<S>::idle(),
            pan: StereoBalance::<S>::centred(),
            limiter: Limiter::<S>::open_ceiling(),
        }
    }

    pub fn new() -> (r: Self)
        requires
            num::lawful::<S>(),
        ensures
            r == Self::neutral(),
    {
        HardwareChain {
            denoiser: Denoiser::new(),
            gate: Gate::new(),
            compressor: Compressor::new(),
            eq: ParametricEq::new(),
            pad: IntellipanPads::new(),
            pan: StereoBalance::default(),
            limiter: Limiter::default(),
        }
    }
}

/// A virtual strip: three-band equaliser, centre mute, karaoke (on the AUX
/// strip), position pad and limiter, in that order.
#[derive(Clone, Copy)]
pub struct VirtualChain<S> {
    pub is_aux: bool,
    pub eq: ThreeBandEq<S>,
    pub mc: bool,
    pub karaoke: Karaoke,
    pub pan_pad: PositionPad5_1<S>,
    pub limiter: Limiter<S>,
}

impl<S: Sample> VirtualChain<S> {
    pub open spec fn neutral(is_aux: bool) -> Self {
        VirtualChain {
            is_aux,
            eq: ThreeBandEq::<S>::flat(),
            mc: false,
            karaoke: Karaoke { mode: KaraokeMode::Off },
            pan_pad: PositionPad5_1::<S>::centred(),
            limiter: Limiter::<S>::open_ceiling(),
        }
    }

    pub fn new(is_aux: bool) -> (r: Self)
        requires
            num::lawful::<S>(),
        ensures
            r == Self::neutral(is_aux),
    {
        VirtualChain {
            is_aux,
            eq: ThreeBandEq::new(),
            mc: false,
            karaoke: Karaoke::new(),
            pan_pad: PositionPad5_1::default(),
            limiter: Limiter::default(),
        }
    }
}

#[derive(Clone, Copy)]
pub enum StripChain<S> {
    Hardware(HardwareChain<S>),
    Virtual(VirtualChain<S>),
}

impl<S: Sample> StripChain<S> {
    pub fn hardware() -> (r: Self)
        requires
            num::lawful::<S>(),
        ensures
            r == StripChain::Hardware(HardwareChain::<S>::neutral()),
    {
        StripChain::Hardware(HardwareChain::new())
    }

    pub fn virtual_strip(is_aux: bool) -> (r: Self)
        requires
            num::lawful::<S>(),
        ensures
            r == StripChain::Virtual(VirtualChain::<S>::neutral(is_aux)),
    {
        StripChain::Virtual(VirtualChain::new(is_aux))
    }

    /// The limiter, which both kinds have.
    pub open spec fn limiter(self) -> Limiter<S> {
        match self {
            StripChain::Hardware(c) => c.limiter,
            StripChain::Virtual(c) => c.limiter,
        }
    }

    pub open spec fn with_limiter(self, limiter: Limiter<S>) -> Self {
        match self {
            StripChain::Hardware(c) => StripChain::Hardware(HardwareChain { limiter, ..c }),
            StripChain::Virtual(c) => StripChain::Virtual(VirtualChain { limiter, ..c }),
        }
    }

    pub fn limiter_mut(&mut self) -> (r: &mut Limiter<S>)
        ensures
            *r == old(self).limiter(),
            *final(self) == old(self).with_limiter(*final(r)),
    {
        match self {
            StripChain::Hardware(c) => &mut c.limiter,
            StripChain::Virtual(c) => &mut c.limiter,
        }
    }
}

} // verus!
