//! The compressor of a hardware strip.

use crate::elementary::{self, Elementary};
use crate::fader::{gain_db_to_linear, gain_linear_to_db};
use crate::knob_curve::{self, floor_level, fraction, lerp, nudge, one_pole_coeff};
use crate::num::{self, get_larger, get_magnitude, get_ratio, get_whole, is_at_most, is_below, Sample};
use core::ops::Neg;
use vstd::prelude::*;
use vstd::std_specs::ops::{AddSpec, DivSpec, MulSpec, NegSpec, SubSpec};

verus! {

#[derive(Debug, Clone, Copy, PartialEq)]
pub struct CompParams<S> {
    pub input_gain_db: S,
    pub ratio: S,
    pub threshold_db: S,
    pub attack_ms: S,
    pub release_ms: S,
    pub knee: S,
    pub output_gain_db: S,
    pub auto_makeup: bool,
}

impl<S: Sample> CompParams<S> {
    pub open spec fn preset() -> Self {
        CompParams {
            input_gain_db: num::whole::<S>(0),
            ratio: num::whole::<S>(1),
            threshold_db: num::whole::<S>(-3),
            attack_ms: num::whole::<S>(20),
            release_ms: num::whole::<S>(200),
            knee: num::ratio::<S>(1, 2),
            output_gain_db: num::whole::<S>(0),
            auto_makeup: true,
        }
    }

    /// The settings the knob's travel `t` stands for; the gains stay.
    pub open spec fn at_travel(self, t: S) -> Self {
        CompParams {
            threshold_db: knob_curve::between(num::whole::<S>(-3), num::whole::<S>(-40), t),
            ratio: knob_curve::between(num::whole::<S>(1), num::whole::<S>(8), t),
            attack_ms: knob_curve::between(num::whole::<S>(50), num::whole::<S>(5), t),
            release_ms: knob_curve::between(num::whole::<S>(400), num::whole::<S>(80), t),
            knee: knob_curve::between(num::whole::<S>(1), num::whole::<S>(0), t),
            ..self
        }
    }

    pub fn new() -> (r: Self)
        requires
            num::lawful::<S>(),
        ensures
            r == Self::preset(),
    {
        CompParams {
            input_gain_db: get_whole(0),
            ratio: get_whole(1),
            threshold_db: get_whole(-3),
            attack_ms: get_whole(20),
            release_ms: get_whole(200),
            knee: get_ratio(1, 2),
            output_gain_db: get_whole(0),
            auto_makeup: true,
        }
    }

    /// The gain above threshold, as a slope: `1 / ratio - 1`.
    pub open spec fn slope(self) -> S {
        num::whole::<S>(1).div_spec(self.ratio).sub_spec(num::whole::<S>(1))
    }

    /// Half of the gain change of full-scale input; nothing without automatic
    /// make-up.
    pub open spec fn makeup_db(self) -> S {
        if self.auto_makeup {
            self.threshold_db.mul_spec(self.slope()).neg_spec().div_spec(num::whole::<S>(2))
        } else {
            num::whole::<S>(0)
        }
    }
}

/// The gain change, in decibels, for a level of `level_db`: none below the
/// knee, `slope` per decibel above it, a parabola in between.
pub open spec fn reduction_db<S: Sample>(level_db: S, params: CompParams<S>) -> S {
    let width = params.knee.mul_spec(num::whole::<S>(24));
    let over = level_db.sub_spec(params.threshold_db);
    let slope = params.slope();
    let o = num::whole::<S>(0);
    let two = num::whole::<S>(2);
    let tiny = num::whole::<S>(1).div_spec(num::whole::<S>(1000).mul_spec(num::whole::<S>(1000)));
    if num::at_most(width, tiny) {
        if num::below(o, over) {
            over.mul_spec(slope)
        } else {
            o
        }
    } else if num::below(two.mul_spec(over), width.neg_spec()) {
        o
    } else if num::at_most(two.mul_spec(num::magnitude(over)), width) {
        let into = over.add_spec(width.div_spec(two));
        slope.mul_spec(into.mul_spec(into)).div_spec(two.mul_spec(width))
    } else {
        over.mul_spec(slope)
    }
}

pub fn static_gain_reduction_db<S: Sample>(level_db: S, params: &CompParams<S>) -> (r: S)
    requires
        num::lawful::<S>(),
    ensures
        r == reduction_db(level_db, *params),
{
    let knee_width = params.knee * get_whole(24);
    let over = level_db - params.threshold_db;
    let slope = get_whole::<S>(1) / params.ratio - get_whole(1);
    let zero: S = get_whole(0);
    let two: S = get_whole(2);
    let tiny: S = get_whole::<S>(1) / (get_whole::<S>(1000) * get_whole(1000));
    if is_at_most(knee_width, tiny) {
        if is_below(zero, over) {
            over * slope
        } else {
            zero
        }
    } else if is_below(two * over, knee_width.neg()) {
        zero
    } else if is_at_most(two * get_magnitude(over), knee_width) {
        let into = over + knee_width / two;
        slope * (into * into) / (two * knee_width)
    } else {
        over * slope
    }
}

/// The compressor's controls. A knob at zero or below bypasses it.
#[derive(Debug, Clone, Copy, PartialEq)]
pub struct Compressor<S> {
    pub knob: S,
    pub bypass: bool,
    pub params: CompParams<S>,
}

impl<S: Sample> Compressor<S> {
    pub open spec fn idle() -> Self {
        Compressor { knob: num::whole::<S>(0), bypass: true, params: CompParams::<S>::preset() }
    }

    pub open spec fn turned(self, knob: S) -> Self {
        if num::at_most(knob, num::whole::<S>(0)) {
            Compressor { knob, bypass: true, ..self }
        } else {
            Compressor {
                knob,
                bypass: false,
                params: self.params.at_travel(knob_curve::travel(knob)),
            }
        }
    }

    pub fn new() -> (r: Self)
        requires
            num::lawful::<S>(),
        ensures
            r == Self::idle(),
    {
        Compressor { knob: get_whole(0), bypass: true, params: CompParams::new() }
    }

    pub fn knob(&self) -> (r: S)
        ensures
            r == self.knob,
    {
        self.knob
    }

    pub fn set_knob(&mut self, knob: S)
        requires
            num::lawful::<S>(),
        ensures
            *final(self) == old(self).turned(knob),
    {
        self.knob = knob;
        self.bypass = is_at_most(knob, get_whole(0));
        if self.bypass {
            return;
        }
        let t = fraction(knob);
        self.params.threshold_db = lerp(get_whole(-3), get_whole(-40), t);
        self.params.ratio = lerp(get_whole(1), get_whole(8), t);
        self.params.attack_ms = lerp(get_whole(50), get_whole(5), t);
        self.params.release_ms = lerp(get_whole(400), get_whole(80), t);
        self.params.knee = lerp(get_whole(1), get_whole(0), t);
    }
}

/// The compressor's times as per-sample coefficients.
#[derive(Debug, Clone, Copy, PartialEq)]
pub struct CompRates<S> {
    pub rms: S,
    pub attack: S,
    pub release: S,
}

/// The compressor at work.
#[derive(Debug, Clone, Copy, PartialEq)]
pub struct CompDetector<S> {
    pub mean_square: S,
    pub envelope: S,
    pub gain_reduction_db: S,
}

impl<S: Sample> CompDetector<S> {
    pub open spec fn silent() -> Self {
        let o = num::whole::<S>(0);
        CompDetector { mean_square: o, envelope: o, gain_reduction_db: o }
    }

    /// The detector after the mean square has followed one sample pair.
    pub open spec fn followed(self, rates: CompRates<S>, l: S, r: S) -> Self {
        let power = l.mul_spec(l).add_spec(r.mul_spec(r)).mul_spec(num::ratio::<S>(1, 2));
        CompDetector {
            mean_square: knob_curve::nudged(self.mean_square, power, rates.rms),
            ..self
        }
    }

    /// What the level is the root of: the mean square, and at least zero.
    pub open spec fn power(self) -> S {
        num::larger(num::whole::<S>(0), self.mean_square)
    }

    /// The detector after the envelope has followed a level, at the attack
    /// rate upward and at the release rate otherwise.
    pub open spec fn enveloped(self, rates: CompRates<S>, level: S) -> Self {
        let coeff = if num::below(self.envelope, level) {
            rates.attack
        } else {
            rates.release
        };
        CompDetector { envelope: knob_curve::nudged(self.envelope, level, coeff), ..self }
    }

    /// The detector after reading its reduction off the static curve.
    pub open spec fn reduced(self, params: CompParams<S>, level_db: S) -> Self {
        CompDetector { gain_reduction_db: reduction_db(level_db, params), ..self }
    }

    pub fn new() -> (r: Self)
        requires
            num::lawful::<S>(),
        ensures
            r == Self::silent(),
    {
        let o: S = get_whole(0);
        CompDetector { mean_square: o, envelope: o, gain_reduction_db: o }
    }

    pub fn gain_reduction_db(&self) -> (r: S)
        ensures
            r == self.gain_reduction_db,
    {
        self.gain_reduction_db
    }

    pub fn follow(&mut self, rates: &CompRates<S>, l: S, r: S)
        requires
            num::lawful::<S>(),
        ensures
            *final(self) == old(self).followed(*rates, l, r),
    {
        let power = (l * l + r * r) * get_ratio(1, 2);
        self.mean_square = nudge(self.mean_square, power, rates.rms);
    }

    pub fn track(&mut self, rates: &CompRates<S>, level: S)
        requires
            num::lawful::<S>(),
        ensures
            *final(self) == old(self).enveloped(*rates, level),
    {
        let coeff = if is_below(self.envelope, level) {
            rates.attack
        } else {
            rates.release
        };
        self.envelope = nudge(self.envelope, level, coeff);
    }

    /// `after` is this detector after the pair `pair` has gone through, and
    /// `out` is what came out.
    pub open spec fn compresses<M: Elementary<S>>(
        self,
        m: M,
        comp: Compressor<S>,
        rates: CompRates<S>,
        pair: (S, S),
        after: Self,
        out: (S, S),
    ) -> bool {
        if comp.bypass {
            after == self && out == pair
        } else {
            let p = comp.params;
            let makeup_db = p.output_gain_db.add_spec(p.makeup_db());
            exists|given: CompGains<S>|
                #![trigger self.compressed(comp, rates, pair, given)]
                {
                    let boosted = (pair.0.mul_spec(given.input), pair.1.mul_spec(given.input));
                    let heard = self.followed(rates, boosted.0, boosted.1);
                    let leveled = heard.enveloped(rates, given.level);
                    &&& elementary::in_linear(m, p.input_gain_db, given.input)
                    &&& elementary::roots(m, heard.power(), given.level)
                    &&& elementary::in_db(m, knob_curve::floored(leveled.envelope), given.db)
                    &&& elementary::in_linear(m, reduction_db(given.db, p), given.reduction)
                    &&& elementary::in_linear(m, makeup_db, given.makeup)
                    &&& (after, out) == self.compressed(comp, rates, pair, given)
                }
        }
    }

    /// The detector after the pair, and the pair that comes out, for given
    /// gains.
    pub open spec fn compressed(
        self,
        comp: Compressor<S>,
        rates: CompRates<S>,
        pair: (S, S),
        given: CompGains<S>,
    ) -> (Self, (S, S)) {
        let (l, r) = (pair.0.mul_spec(given.input), pair.1.mul_spec(given.input));
        let gain = given.reduction.mul_spec(given.makeup);
        (
            self.followed(rates, l, r).enveloped(rates, given.level).reduced(
                comp.params,
                given.db,
            ),
            (l.mul_spec(gain), r.mul_spec(gain)),
        )
    }

    /// Compresses one sample pair.
    pub fn process<M: Elementary<S>>(
        &mut self,
        m: &M,
        comp: &Compressor<S>,
        rates: &CompRates<S>,
        pair: (S, S),
    ) -> (out: (S, S))
        requires
            num::lawful::<S>(),
        ensures
            old(self).compresses(*m, *comp, *rates, pair, *final(self), out),
    {
        if comp.bypass {
            return pair;
        }
        let input = gain_db_to_linear(m, comp.params.input_gain_db);
        let l = pair.0 * input;
        let r = pair.1 * input;
        self.follow(rates, l, r);
        let level = m.root(get_larger(get_whole(0), self.mean_square));
        self.track(rates, level);
        let db = gain_linear_to_db(m, floor_level(self.envelope));
        self.gain_reduction_db = static_gain_reduction_db(db, &comp.params);
        let reduction = gain_db_to_linear(m, self.gain_reduction_db);
        let makeup_db: S = if comp.params.auto_makeup {
            (comp.params.threshold_db * (get_whole::<S>(1) / comp.params.ratio - get_whole(
                1,
            ))).neg() / get_whole(2)
        } else {
            get_whole(0)
        };
        let makeup = gain_db_to_linear(m, comp.params.output_gain_db + makeup_db);
        let gain = reduction * makeup;
        let out = (l * gain, r * gain);
        proof {
            let given = CompGains { input, level, db, reduction, makeup };
            assert((*self, out) == old(self).compressed(*comp, *rates, pair, given));
        }
        out
    }
}

/// What the compressor takes from the elementary functions for one pair: the
/// input gain, the level, the envelope in decibels, and the two output gains.
pub struct CompGains<S> {
    pub input: S,
    pub level: S,
    pub db: S,
    pub reduction: S,
    pub makeup: S,
}

impl<S: Sample> CompRates<S> {
    /// These are the rates of `params` at a sample rate.
    pub open spec fn suit<M: Elementary<S>>(self, m: M, params: CompParams<S>, rate: S) -> bool {
        &&& knob_curve::smooths(m, rate, num::whole::<S>(5), self.rms)
        &&& knob_curve::smooths(m, rate, params.attack_ms, self.attack)
        &&& knob_curve::smooths(m, rate, params.release_ms, self.release)
    }

    pub fn new<M: Elementary<S>>(m: &M, params: &CompParams<S>, sample_rate: S) -> (r: Self)
        requires
            num::lawful::<S>(),
        ensures
            r.suit(*m, *params, sample_rate),
    {
        CompRates {
            rms: one_pole_coeff(m, sample_rate, get_whole(5)),
            attack: one_pole_coeff(m, sample_rate, params.attack_ms),
            release: one_pole_coeff(m, sample_rate, params.release_ms),
        }
    }
}

/// A bypassed compressor is transparent and stands still.
pub proof fn law_bypassed_compressor_is_transparent<S: Sample, M: Elementary<S>>(
    m: M,
    detector: CompDetector<S>,
    comp: Compressor<S>,
    rates: CompRates<S>,
    pair: (S, S),
    after: CompDetector<S>,
    out: (S, S),
)
    requires
        comp.bypass,
        detector.compresses(m, comp, rates, pair, after, out),
    ensures
        after == detector,
        out == pair,
{
}

/// A level that is below the knee by its whole width is not reduced; without a
/// knee, none below the threshold is.
pub proof fn law_no_reduction_below_the_knee<S: Sample>(level_db: S, params: CompParams<S>)
    requires
        ({
            let width = params.knee.mul_spec(num::whole::<S>(24));
            let over = level_db.sub_spec(params.threshold_db);
            let tiny = num::whole::<S>(1).div_spec(
                num::whole::<S>(1000).mul_spec(num::whole::<S>(1000)),
            );
            if num::at_most(width, tiny) {
                !num::below(num::whole::<S>(0), over)
            } else {
                num::below(num::whole::<S>(2).mul_spec(over), width.neg_spec())
            }
        }),
    ensures
        reduction_db(level_db, params) == num::whole::<S>(0),
{
}

} // verus!
