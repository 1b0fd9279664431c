//! Karaoke: taking the voice out of a stereo pair.

use crate::biquad::{get_spread, Biquad, BiquadCoeffs, Corner};
use crate::elementary::{self, Elementary};
use crate::num::{self, get_ratio, get_whole, Sample};
use core::ops::Neg;
use vstd::prelude::*;
use vstd::std_specs::ops::{AddSpec, DivSpec, MulSpec, NegSpec, SubSpec};

verus! {

#[derive(Debug, Clone, Copy, PartialEq, Eq, Structural)]
pub enum KaraokeMode {
    Off,
    /// What the two sides do not share.
    KM,
    K1,
    K2,
    KV,
}

impl Default for KaraokeMode {
    fn default() -> (r: Self)
        ensures
            r == KaraokeMode::Off,
    {
        KaraokeMode::Off
    }
}

/// The control of a virtual strip.
#[derive(Debug, Clone, Copy, PartialEq, Eq, Structural)]
pub struct Karaoke {
    pub mode: KaraokeMode,
}

/// How much of the vocal band a mode removes, where it works on that band.
pub open spec fn band_depth<S: Sample>(mode: KaraokeMode) -> Option<S> {
    match mode {
        KaraokeMode::Off | KaraokeMode::KM => None,
        KaraokeMode::K1 => Some(num::ratio::<S>(85, 100)),
        KaraokeMode::K2 => Some(num::ratio::<S>(1, 2)),
        KaraokeMode::KV => Some(num::whole::<S>(1)),
    }
}

/// `dry` with the fraction `depth` of it replaced by `wet`.
pub open spec fn blended<S: Sample>(dry: S, wet: S, depth: S) -> S {
    dry.mul_spec(num::whole::<S>(1).sub_spec(depth)).add_spec(wet.mul_spec(depth))
}

impl Karaoke {
    pub fn new() -> (r: Self)
        ensures
            r.mode == KaraokeMode::Off,
    {
        Karaoke { mode: KaraokeMode::Off }
    }

    pub fn depth<S: Sample>(&self) -> (r: Option<S>)
        requires
            num::lawful::<S>(),
        ensures
            r == band_depth::<S>(self.mode),
    {
        match self.mode {
            KaraokeMode::Off | KaraokeMode::KM => None,
            KaraokeMode::K1 => Some(get_ratio(85, 100)),
            KaraokeMode::K2 => Some(get_ratio(1, 2)),
            KaraokeMode::KV => Some(get_whole(1)),
        }
    }
}

/// The centre of the vocal band: 894.427 Hz.
pub open spec fn vocal_center<S: Sample>() -> S {
    num::whole::<S>(894).mul_spec(num::whole::<S>(1000)).add_spec(num::whole::<S>(427)).div_spec(
        num::whole::<S>(1000),
    )
}

/// The width of the vocal band: 4.321928 octaves.
pub open spec fn vocal_octaves<S: Sample>() -> S {
    num::whole::<S>(4321).mul_spec(num::whole::<S>(1000)).add_spec(num::whole::<S>(928)).div_spec(
        num::whole::<S>(1000).mul_spec(num::whole::<S>(1000)),
    )
}

/// `coeffs` is a notch over the vocal band at a sample rate.
pub open spec fn vocal_band<S: Sample, M: Elementary<S>>(
    m: M,
    rate: S,
    coeffs: BiquadCoeffs<S>,
) -> bool {
    exists|corner: Corner<S>, spread: S|
        #[trigger] elementary::corners(m, vocal_center::<S>(), rate, corner)
            && #[trigger] elementary::spreads(m, vocal_octaves::<S>(), spread) && coeffs
            == BiquadCoeffs::notch_form(corner.cos, corner.sin.mul_spec(spread))
}

/// The two notches over the vocal band.
#[derive(Debug, Clone, Copy)]
pub struct VocalNotch<S> {
    pub notch_l: Biquad<S>,
    pub notch_r: Biquad<S>,
}

impl<S: Sample> VocalNotch<S> {
    pub open spec fn wf(self) -> bool {
        self.notch_l.wf() && self.notch_r.wf()
    }

    /// The notches after one sample pair.
    pub open spec fn after(self, mode: KaraokeMode, l: S, r: S) -> Self {
        match band_depth::<S>(mode) {
            None => self,
            Some(_) => VocalNotch { notch_l: self.notch_l.after(l), notch_r: self.notch_r.after(r) },
        }
    }

    /// What a mode makes of one sample pair.
    pub open spec fn output(self, mode: KaraokeMode, l: S, r: S) -> (S, S) {
        match band_depth::<S>(mode) {
            Some(depth) => (
                blended(l, self.notch_l.output(l), depth),
                blended(r, self.notch_r.output(r), depth),
            ),
            None => if mode == KaraokeMode::KM {
                let side = l.sub_spec(r).mul_spec(num::ratio::<S>(1, 2));
                (side, side.neg_spec())
            } else {
                (l, r)
            },
        }
    }

    /// Untuned notches with a silent history.
    pub open spec fn is_idle(self) -> bool {
        self.notch_l == Biquad::<S>::idle() && self.notch_r == Biquad::<S>::idle()
    }

    pub fn new() -> (r: Self)
        requires
            num::lawful::<S>(),
        ensures
            r.wf(),
            r.is_idle(),
    {
        VocalNotch { notch_l: Biquad::bypassed(), notch_r: Biquad::bypassed() }
    }

    /// `after` is this pair of notches tuned at a sample rate.
    pub open spec fn at_rate<M: Elementary<S>>(self, m: M, rate: S, after: Self) -> bool {
        exists|coeffs: BiquadCoeffs<S>|
            #[trigger] vocal_band(m, rate, coeffs) && after.notch_l == self.notch_l.retuned(coeffs)
                && after.notch_r == self.notch_r.retuned(coeffs)
    }

    /// Tunes both notches to the vocal band.
    pub fn retune<M: Elementary<S>>(&mut self, m: &M, sample_rate: S)
        requires
            num::lawful::<S>(),
            old(self).wf(),
        ensures
            final(self).wf(),
            old(self).at_rate(*m, sample_rate, *final(self)),
    {
        let thousand: S = get_whole(1000);
        let center = (get_whole::<S>(894) * thousand + get_whole(427)) / thousand;
        let octaves = (get_whole::<S>(4321) * thousand + get_whole(928)) / (thousand * thousand);
        let corner = Corner::new(m, center, sample_rate);
        let spread = get_spread(m, octaves);
        assert(elementary::corners(*m, vocal_center::<S>(), sample_rate, corner));
        assert(elementary::spreads(*m, vocal_octaves::<S>(), spread));
        let coeffs = BiquadCoeffs::notch_of_spread(corner, spread);
        assert(vocal_band(*m, sample_rate, coeffs));
        self.notch_l.set_coeffs(coeffs);
        self.notch_r.set_coeffs(coeffs);
    }

    pub fn process(&mut self, karaoke: &Karaoke, left: &mut S, right: &mut S)
        requires
            num::lawful::<S>(),
            old(self).wf(),
        ensures
            final(self).wf(),
            *final(self) == old(self).after(karaoke.mode, *old(left), *old(right)),
            (*final(left), *final(right)) == old(self).output(
                karaoke.mode,
                *old(left),
                *old(right),
            ),
    {
        match karaoke.depth::<S>() {
            Some(depth) => {
                let nl = self.notch_l.process(*left);
                let nr = self.notch_r.process(*right);
                *left = *left * (get_whole::<S>(1) - depth) + nl * depth;
                *right = *right * (get_whole::<S>(1) - depth) + nr * depth;
            },
            None => {
                if karaoke.mode == KaraokeMode::KM {
                    let side = (*left - *right) * get_ratio(1, 2);
                    *left = side;
                    *right = side.neg();
                }
            },
        }
    }
}

/// Off is transparent.
pub proof fn law_off_is_transparent<S: Sample>(notch: VocalNotch<S>, l: S, r: S)
    ensures
        notch.output(KaraokeMode::Off, l, r) == (l, r),
        notch.after(KaraokeMode::Off, l, r) == notch,
{
}

} // verus!
