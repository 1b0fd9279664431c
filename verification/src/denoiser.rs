//! The denoiser of a hardware strip: a downward expander against a tracked
//! noise floor.

use crate::elementary::{self, Elementary};
use crate::fader::{gain_db_to_linear, gain_linear_to_db};
use crate::knob_curve::{self, floor_level, fraction, nudge, one_pole_coeff};
use crate::num::{self, get_larger, get_ratio, get_whole, is_at_most, is_below, Sample};
use vstd::prelude::*;
use vstd::std_specs::ops::{AddSpec, MulSpec, SubSpec};

verus! {

/// The denoiser's controls. A knob at zero or below bypasses it, and so does
/// the explicit switch.
#[derive(Debug, Clone, Copy, PartialEq)]
pub struct Denoiser<S> {
    pub knob: S,
    pub explicit_bypass: bool,
}

impl<S: Sample> Denoiser<S> {
    pub open spec fn idle() -> Self {
        Denoiser { knob: num::whole::<S>(0), explicit_bypass: false }
    }

    pub open spec fn is_bypassed(self) -> bool {
        num::at_most(self.knob, num::whole::<S>(0)) || self.explicit_bypass
    }

    /// The expansion ratio: 1 to 6 over the knob's travel.
    pub open spec fn ratio(self) -> S {
        num::whole::<S>(1).add_spec(
            knob_curve::travel(self.knob).mul_spec(num::whole::<S>(5)),
        )
    }

    pub fn new() -> (r: Self)
        requires
            num::lawful::<S>(),
        ensures
            r == Self::idle(),
    {
        Denoiser { knob: get_whole(0), explicit_bypass: false }
    }

    pub fn knob(&self) -> (r: S)
        ensures
            r == self.knob,
    {
        self.knob
    }

    pub fn set_knob(&mut self, knob: S)
        ensures
            *final(self) == (Denoiser { knob, ..*old(self) }),
    {
        self.knob = knob;
    }

    fn bypassed(&self) -> (r: bool)
        requires
            num::lawful::<S>(),
        ensures
            r == self.is_bypassed(),
    {
        is_at_most(self.knob, get_whole(0)) || self.explicit_bypass
    }
}

/// The denoiser's times as per-sample coefficients.
#[derive(Debug, Clone, Copy, PartialEq)]
pub struct DenoiserRates<S> {
    pub rms: S,
    pub floor_fall: S,
    pub floor_rise: S,
    pub gain_attack: S,
    pub gain_release: S,
}

/// The denoiser at work: the signal's mean square, the noise floor it has
/// settled on and its gain.
#[derive(Debug, Clone, Copy, PartialEq)]
pub struct NoiseTracker<S> {
    pub mean_square: S,
    pub floor_db: S,
    pub gain: S,
}

impl<S: Sample> NoiseTracker<S> {
    pub open spec fn fresh() -> Self {
        NoiseTracker {
            mean_square: num::whole::<S>(0),
            floor_db: num::whole::<S>(-20),
            gain: num::whole::<S>(1),
        }
    }

    pub open spec fn followed(self, rates: DenoiserRates<S>, l: S, r: S) -> Self {
        let power = l.mul_spec(l).add_spec(r.mul_spec(r)).mul_spec(num::ratio::<S>(1, 2));
        NoiseTracker {
            mean_square: knob_curve::nudged(self.mean_square, power, rates.rms),
            ..self
        }
    }

    pub open spec fn power(self) -> S {
        num::larger(num::whole::<S>(0), self.mean_square)
    }

    /// The tracker after its floor has followed a level: quickly down, slowly
    /// up.
    pub open spec fn floored_at(self, rates: DenoiserRates<S>, level_db: S) -> Self {
        let coeff = if num::below(level_db, self.floor_db) {
            rates.floor_fall
        } else {
            rates.floor_rise
        };
        NoiseTracker { floor_db: knob_curve::nudged(self.floor_db, level_db, coeff), ..self }
    }

    /// The gain change wanted, in decibels: none from 6 dB above the floor on,
    /// growing with the ratio below.
    pub open spec fn target_db(self, denoiser: Denoiser<S>, level_db: S) -> S {
        let threshold = self.floor_db.add_spec(num::whole::<S>(6));
        if num::at_most(threshold, level_db) {
            num::whole::<S>(0)
        } else {
            level_db.sub_spec(threshold).mul_spec(
                denoiser.ratio().sub_spec(num::whole::<S>(1)),
            )
        }
    }

    /// The tracker after its gain has moved to a target, quickly down, slowly
    /// up.
    pub open spec fn eased(self, rates: DenoiserRates<S>, target_gain: S) -> Self {
        let coeff = if num::below(target_gain, self.gain) {
            rates.gain_attack
        } else {
            rates.gain_release
        };
        NoiseTracker { gain: knob_curve::nudged(self.gain, target_gain, coeff), ..self }
    }

    pub fn new() -> (r: Self)
        requires
            num::lawful::<S>(),
        ensures
            r == Self::fresh(),
    {
        NoiseTracker { mean_square: get_whole(0), floor_db: get_whole(-20), gain: get_whole(1) }
    }

    pub fn follow(&mut self, rates: &DenoiserRates<S>, l: S, r: S)
        requires
            num::lawful::<S>(),
        ensures
            *final(self) == old(self).followed(*rates, l, r),
    {
        let power = (l * l + r * r) * get_ratio(1, 2);
        self.mean_square = nudge(self.mean_square, power, rates.rms);
    }

    /// Moves the floor for a level and says what gain change is wanted.
    pub fn judge(&mut self, denoiser: &Denoiser<S>, rates: &DenoiserRates<S>, level_db: S) -> (r: S)
        requires
            num::lawful::<S>(),
        ensures
            *final(self) == old(self).floored_at(*rates, level_db),
            r == final(self).target_db(*denoiser, level_db),
    {
        let coeff = if is_below(level_db, self.floor_db) {
            rates.floor_fall
        } else {
            rates.floor_rise
        };
        self.floor_db = nudge(self.floor_db, level_db, coeff);
        let threshold = self.floor_db + get_whole(6);
        if is_at_most(threshold, level_db) {
            get_whole(0)
        } else {
            let ratio = get_whole::<S>(1) + fraction(denoiser.knob) * get_whole(5);
            (level_db - threshold) * (ratio - get_whole(1))
        }
    }

    pub fn ease(&mut self, rates: &DenoiserRates<S>, target_gain: S)
        requires
            num::lawful::<S>(),
        ensures
            *final(self) == old(self).eased(*rates, target_gain),
    {
        let coeff = if is_below(target_gain, self.gain) {
            rates.gain_attack
        } else {
            rates.gain_release
        };
        self.gain = nudge(self.gain, target_gain, coeff);
    }

    /// `after` is this tracker after the pair `pair` has gone through, and
    /// `out` is what came out.
    pub open spec fn denoises<M: Elementary<S>>(
        self,
        m: M,
        denoiser: Denoiser<S>,
        rates: DenoiserRates<S>,
        pair: (S, S),
        after: Self,
        out: (S, S),
    ) -> bool {
        if denoiser.is_bypassed() {
            after == self && out == pair
        } else {
            let heard = self.followed(rates, pair.0, pair.1);
            exists|level: S, db: S, target: S|
                #![trigger elementary::roots(m, heard.power(), level), heard.floored_at(rates, db), elementary::in_linear(m, heard.floored_at(rates, db).target_db(denoiser, db), target)]
                {
                    let settled = heard.floored_at(rates, db);
                    &&& elementary::roots(m, heard.power(), level)
                    &&& elementary::in_db(m, knob_curve::floored(level), db)
                    &&& elementary::in_linear(m, settled.target_db(denoiser, db), target)
                    &&& after == settled.eased(rates, target)
                    &&& out == (pair.0.mul_spec(after.gain), pair.1.mul_spec(after.gain))
                }
        }
    }

    /// Denoises one sample pair.
    pub fn process<M: Elementary<S>>(
        &mut self,
        m: &M,
        denoiser: &Denoiser<S>,
        rates: &DenoiserRates<S>,
        pair: (S, S),
    ) -> (out: (S, S))
        requires
            num::lawful::<S>(),
        ensures
            old(self).denoises(*m, *denoiser, *rates, pair, *final(self), out),
    {
        if denoiser.bypassed() {
            return pair;
        }
        self.follow(rates, pair.0, pair.1);
        let ghost heard = *self;
        let level = m.root(get_larger(get_whole(0), self.mean_square));
        let db = gain_linear_to_db(m, floor_level(level));
        let target_db = self.judge(denoiser, rates, db);
        let target = gain_db_to_linear(m, target_db);
        self.ease(rates, target);
        proof {
            let settled = heard.floored_at(*rates, db);
            assert(elementary::roots(*m, heard.power(), level));
            assert(elementary::in_linear(*m, settled.target_db(*denoiser, db), target));
        }
        (pair.0 * self.gain, pair.1 * self.gain)
    }
}

impl<S: Sample> DenoiserRates<S> {
    /// These are the denoiser's rates at a sample rate.
    pub open spec fn suit<M: Elementary<S>>(self, m: M, rate: S) -> bool {
        &&& knob_curve::smooths(m, rate, num::whole::<S>(5), self.rms)
        &&& knob_curve::smooths(m, rate, num::whole::<S>(50), self.floor_fall)
        &&& knob_curve::smooths(m, rate, num::whole::<S>(1000), self.floor_rise)
        &&& knob_curve::smooths(m, rate, num::whole::<S>(5), self.gain_attack)
        &&& knob_curve::smooths(m, rate, num::whole::<S>(100), self.gain_release)
    }

    pub fn new<M: Elementary<S>>(m: &M, sample_rate: S) -> (r: Self)
        requires
            num::lawful::<S>(),
        ensures
            r.suit(*m, sample_rate),
    {
        DenoiserRates {
            rms: one_pole_coeff(m, sample_rate, get_whole(5)),
            floor_fall: one_pole_coeff(m, sample_rate, get_whole(50)),
            floor_rise: one_pole_coeff(m, sample_rate, get_whole(1000)),
            gain_attack: one_pole_coeff(m, sample_rate, get_whole(5)),
            gain_release: one_pole_coeff(m, sample_rate, get_whole(100)),
        }
    }
}

/// A denoiser at nought, or switched out, is transparent and stands still.
pub proof fn law_bypassed_denoiser_is_transparent<S: Sample, M: Elementary<S>>(
    m: M,
    tracker: NoiseTracker<S>,
    denoiser: Denoiser<S>,
    rates: DenoiserRates<S>,
    pair: (S, S),
    after: NoiseTracker<S>,
    out: (S, S),
)
    requires
        denoiser.is_bypassed(),
        tracker.denoises(m, denoiser, rates, pair, after, out),
    ensures
        after == tracker,
        out == pair,
{
}

} // verus!
