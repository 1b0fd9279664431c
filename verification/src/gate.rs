//! The noise gate of a hardware strip.

use crate::biquad::{q_from_bandwidth_octaves, Biquad, BiquadCoeffs, Corner};
use crate::elementary::{self, Elementary};
use crate::fader::{gain_db_to_linear, gain_linear_to_db};
use crate::knob_curve::{self, floor_level, fraction, lerp, nudge, one_pole_coeff};
use crate::num::{self, get_magnitude, get_ratio, get_whole, is_at_most, is_below, Sample};
use vstd::prelude::*;
use vstd::std_specs::ops::{AddSpec, DivSpec, MulSpec};

verus! {

#[derive(Debug, Clone, Copy, PartialEq)]
pub struct GateParams<S> {
    pub threshold_db: S,
    /// How far a closed gate attenuates; `None` closes it fully.
    pub damping_max_db: Option<S>,
    pub bp_sidechain_hz: S,
    pub attack_ms: S,
    pub hold_ms: S,
    pub release_ms: S,
}

impl<S: Sample> GateParams<S> {
    pub open spec fn preset() -> Self {
        GateParams {
            threshold_db: num::whole::<S>(-30),
            damping_max_db: None,
            bp_sidechain_hz: num::whole::<S>(1000),
            attack_ms: num::whole::<S>(20),
            hold_ms: num::whole::<S>(200),
            release_ms: num::whole::<S>(150),
        }
    }

    /// The settings the knob's travel `t` stands for; the sidechain stays.
    pub open spec fn at_travel(self, t: S) -> Self {
        GateParams {
            threshold_db: knob_curve::between(num::whole::<S>(-60), num::whole::<S>(-10), t),
            damping_max_db: if num::at_most(num::ratio::<S>(999, 1000), t) {
                None
            } else {
                Some(knob_curve::between(num::whole::<S>(-10), num::whole::<S>(-60), t))
            },
            attack_ms: knob_curve::between(num::whole::<S>(50), num::whole::<S>(5), t),
            hold_ms: knob_curve::between(num::whole::<S>(500), num::whole::<S>(50), t),
            release_ms: knob_curve::between(num::whole::<S>(300), num::whole::<S>(80), t),
            ..self
        }
    }
}

impl<S: Sample> Default for GateParams<S> {
    fn default() -> (r: Self)
        ensures
            num::lawful::<S>() ==> r == Self::preset(),
    {
        GateParams {
            threshold_db: S::from(-30),
            damping_max_db: None,
            bp_sidechain_hz: S::from(1000),
            attack_ms: S::from(20),
            hold_ms: S::from(200),
            release_ms: S::from(150),
        }
    }
}

/// Noise-gate controls. A knob at zero or below bypasses it.
#[derive(Debug, Clone, Copy, PartialEq)]
pub struct Gate<S> {
    pub knob: S,
    pub bypass: bool,
    pub params: GateParams<S>,
}

impl<S: Sample> Gate<S> {
    pub open spec fn idle() -> Self {
        Gate { knob: num::whole::<S>(0), bypass: true, params: GateParams::<S>::preset() }
    }

    pub open spec fn turned(self, knob: S) -> Self {
        if num::at_most(knob, num::whole::<S>(0)) {
            Gate { knob, bypass: true, ..self }
        } else {
            Gate {
                knob,
                bypass: false,
                params: self.params.at_travel(knob_curve::travel(knob)),
            }
        }
    }

    pub fn new() -> (r: Self)
        requires
            num::lawful::<S>(),
        ensures
            r == Self::idle(),
    {
        Gate { knob: get_whole(0), bypass: true, params: GateParams::default() }
    }

    pub fn knob(&self) -> (r: S)
        ensures
            r == self.knob,
    {
        self.knob
    }

    pub fn set_knob(&mut self, knob: S)
        requires
            num::lawful::<S>(),
        ensures
            *final(self) == old(self).turned(knob),
    {
        self.knob = knob;
        self.bypass = is_at_most(knob, get_whole(0));
        if self.bypass {
            return;
        }
        let t = fraction(knob);
        self.params.threshold_db = lerp(get_whole(-60), get_whole(-10), t);
        self.params.damping_max_db = if is_at_most(get_ratio(999, 1000), t) {
            None
        } else {
            Some(lerp(get_whole(-10), get_whole(-60), t))
        };
        self.params.attack_ms = lerp(get_whole(50), get_whole(5), t);
        self.params.hold_ms = lerp(get_whole(500), get_whole(50), t);
        self.params.release_ms = lerp(get_whole(300), get_whole(80), t);
    }

    pub fn set_bp_sidechain_hz(&mut self, hz: S)
        ensures
            *final(self) == (Gate {
                params: GateParams { bp_sidechain_hz: hz, ..old(self).params },
                ..*old(self)
            }),
    {
        self.params.bp_sidechain_hz = hz;
    }
}

/// Noise-gate times as per-sample quantities, and the floor as an amplitude.
#[derive(Debug, Clone, Copy, PartialEq)]
pub struct GateRates<S> {
    pub smoothing: S,
    pub attack: S,
    pub release: S,
    pub hold_samples: u32,
    pub floor: S,
}

/// A count of samples held to what the hold counter can count.
pub open spec fn countable(samples: usize) -> u32 {
    if samples <= u32::MAX {
        samples as u32
    } else {
        u32::MAX
    }
}

impl<S: Sample> GateRates<S> {
    /// These are the rates of `params` at a sample rate.
    pub open spec fn suit<M: Elementary<S>>(self, m: M, params: GateParams<S>, rate: S) -> bool {
        &&& knob_curve::smooths(m, rate, num::whole::<S>(5), self.smoothing)
        &&& knob_curve::smooths(m, rate, params.attack_ms, self.attack)
        &&& knob_curve::smooths(m, rate, params.release_ms, self.release)
        &&& exists|hold: (usize, S)|
            #[trigger] elementary::splits(
                m,
                params.hold_ms.div_spec(num::whole::<S>(1000)).mul_spec(rate),
                hold,
            ) && self.hold_samples == countable(hold.0)
        &&& match params.damping_max_db {
            None => self.floor == num::whole::<S>(0),
            Some(db) => elementary::in_linear(m, db, self.floor),
        }
    }

    pub fn new<M: Elementary<S>>(m: &M, params: &GateParams<S>, sample_rate: S) -> (r: Self)
        requires
            num::lawful::<S>(),
        ensures
            r.suit(*m, *params, sample_rate),
    {
        let hold = m.split(params.hold_ms / get_whole(1000) * sample_rate);
        assert(elementary::splits(
            *m,
            params.hold_ms.div_spec(num::whole::<S>(1000)).mul_spec(sample_rate),
            hold,
        ));
        GateRates {
            smoothing: one_pole_coeff(m, sample_rate, get_whole(5)),
            attack: one_pole_coeff(m, sample_rate, params.attack_ms),
            release: one_pole_coeff(m, sample_rate, params.release_ms),
            hold_samples: if hold.0 <= u32::MAX as usize {
                hold.0 as u32
            } else {
                u32::MAX
            },
            floor: match params.damping_max_db {
                None => get_whole(0),
                Some(db) => gain_db_to_linear(m, db),
            },
        }
    }
}

/// `coeffs` is the band the sidechain listens to: an octave and a half around
/// `hz`.
pub open spec fn sidechain_band<S: Sample, M: Elementary<S>>(
    m: M,
    hz: S,
    rate: S,
    coeffs: BiquadCoeffs<S>,
) -> bool {
    exists|q: S, corner: Corner<S>|
        #[trigger] elementary::qualities(m, num::ratio::<S>(3, 2), q)
            && #[trigger] elementary::corners(m, hz, rate, corner) && coeffs
            == BiquadCoeffs::band_pass_form(corner, q)
}

/// A noise gate at work: its sidechain filter, its envelope and its gain.
#[derive(Debug, Clone, Copy)]
pub struct GateDetector<S> {
    pub sidechain: Biquad<S>,
    pub envelope: S,
    pub gain: S,
    pub hold_remaining_samples: u32,
}

impl<S: Sample> GateDetector<S> {
    pub open spec fn closed_gate() -> Self {
        GateDetector {
            sidechain: Biquad::<S>::idle(),
            envelope: num::whole::<S>(0),
            gain: num::whole::<S>(0),
            hold_remaining_samples: 0,
        }
    }

    /// What the sidechain listens to.
    pub open spec fn detector_in(l: S, r: S) -> S {
        l.add_spec(r).mul_spec(num::ratio::<S>(1, 2))
    }

    /// The detector after the envelope has followed one sample pair.
    pub open spec fn followed(self, rates: GateRates<S>, l: S, r: S) -> Self {
        let x = Self::detector_in(l, r);
        GateDetector {
            sidechain: self.sidechain.after(x),
            envelope: knob_curve::nudged(
                self.envelope,
                num::magnitude(self.sidechain.output(x)),
                rates.smoothing,
            ),
            ..self
        }
    }

    /// The detector after deciding on its gain for an envelope of
    /// `envelope_db`: open above the threshold, frozen while holding, closing
    /// after.
    pub open spec fn decided(self, gate: Gate<S>, rates: GateRates<S>, envelope_db: S) -> Self {
        if num::below(gate.params.threshold_db, envelope_db) {
            GateDetector {
                hold_remaining_samples: rates.hold_samples,
                gain: knob_curve::nudged(self.gain, num::whole::<S>(1), rates.attack),
                ..self
            }
        } else if self.hold_remaining_samples > 0 {
            GateDetector {
                hold_remaining_samples: (self.hold_remaining_samples - 1) as u32,
                ..self
            }
        } else {
            GateDetector {
                gain: knob_curve::nudged(self.gain, rates.floor, rates.release),
                ..self
            }
        }
    }

    pub fn new() -> (r: Self)
        requires
            num::lawful::<S>(),
        ensures
            r == Self::closed_gate(),
            r.sidechain.wf(),
    {
        GateDetector {
            sidechain: Biquad::bypassed(),
            envelope: get_whole(0),
            gain: get_whole(0),
            hold_remaining_samples: 0,
        }
    }

    /// Follows one sample pair with the envelope.
    pub fn follow(&mut self, rates: &GateRates<S>, left: S, right: S)
        requires
            num::lawful::<S>(),
            old(self).sidechain.wf(),
        ensures
            *final(self) == old(self).followed(*rates, left, right),
            final(self).sidechain.wf(),
    {
        let filtered = self.sidechain.process((left + right) * get_ratio(1, 2));
        self.envelope = nudge(self.envelope, get_magnitude(filtered), rates.smoothing);
    }

    /// Moves the gain for an envelope of `envelope_db`.
    pub fn decide(&mut self, gate: &Gate<S>, rates: &GateRates<S>, envelope_db: S)
        requires
            num::lawful::<S>(),
        ensures
            *final(self) == old(self).decided(*gate, *rates, envelope_db),
    {
        if is_below(gate.params.threshold_db, envelope_db) {
            self.hold_remaining_samples = rates.hold_samples;
            self.gain = nudge(self.gain, get_whole(1), rates.attack);
        } else if self.hold_remaining_samples > 0 {
            self.hold_remaining_samples = self.hold_remaining_samples - 1;
        } else {
            self.gain = nudge(self.gain, rates.floor, rates.release);
        }
    }

    /// `after` is this detector after the pair `pair` has gone through, and
    /// `out` is what came out.
    pub open spec fn gates<M: Elementary<S>>(
        self,
        m: M,
        gate: Gate<S>,
        rates: GateRates<S>,
        pair: (S, S),
        after: Self,
        out: (S, S),
    ) -> bool {
        if gate.bypass {
            after == self && out == pair
        } else {
            let followed = self.followed(rates, pair.0, pair.1);
            exists|db: S|
                #[trigger] elementary::in_db(m, knob_curve::floored(followed.envelope), db)
                    && after == followed.decided(gate, rates, db) && out == (
                    pair.0.mul_spec(after.gain),
                    pair.1.mul_spec(after.gain),
                )
        }
    }

    /// Gates one sample pair.
    pub fn process<M: Elementary<S>>(
        &mut self,
        m: &M,
        gate: &Gate<S>,
        rates: &GateRates<S>,
        pair: (S, S),
    ) -> (out: (S, S))
        requires
            num::lawful::<S>(),
            old(self).sidechain.wf(),
        ensures
            final(self).sidechain.wf(),
            old(self).gates(*m, *gate, *rates, pair, *final(self), out),
    {
        if gate.bypass {
            return pair;
        }
        self.follow(rates, pair.0, pair.1);
        let ghost followed = *self;
        let envelope_db = gain_linear_to_db(m, floor_level(self.envelope));
        self.decide(gate, rates, envelope_db);
        assert(elementary::in_db(*m, knob_curve::floored(followed.envelope), envelope_db));
        (pair.0 * self.gain, pair.1 * self.gain)
    }

    /// `after` is this detector with its side chain tuned at a sample rate.
    pub open spec fn at_rate<M: Elementary<S>>(
        self,
        m: M,
        gate: Gate<S>,
        rate: S,
        after: Self,
    ) -> bool {
        exists|coeffs: BiquadCoeffs<S>|
            #[trigger] sidechain_band(m, gate.params.bp_sidechain_hz, rate, coeffs) && after == (
            GateDetector { sidechain: self.sidechain.retuned(coeffs), ..self })
    }

    /// Tunes the side chain.
    pub fn retune<M: Elementary<S>>(&mut self, m: &M, gate: &Gate<S>, sample_rate: S)
        requires
            num::lawful::<S>(),
            old(self).sidechain.wf(),
        ensures
            final(self).sidechain.wf(),
            old(self).at_rate(*m, *gate, sample_rate, *final(self)),
    {
        let q: S = q_from_bandwidth_octaves(m, get_ratio(3, 2));
        let corner = Corner::new(m, gate.params.bp_sidechain_hz, sample_rate);
        let coeffs = BiquadCoeffs::band_pass_of(corner, q);
        assert(elementary::qualities(*m, num::ratio::<S>(3, 2), q));
        assert(elementary::corners(*m, gate.params.bp_sidechain_hz, sample_rate, corner));
        assert(sidechain_band(*m, gate.params.bp_sidechain_hz, sample_rate, coeffs));
        self.sidechain.set_coeffs(coeffs);
    }
}

/// A bypassed gate is transparent and stands still.
pub proof fn law_bypassed_gate_is_transparent<S: Sample, M: Elementary<S>>(
    m: M,
    detector: GateDetector<S>,
    gate: Gate<S>,
    rates: GateRates<S>,
    pair: (S, S),
    after: GateDetector<S>,
    out: (S, S),
)
    requires
        gate.bypass,
        detector.gates(m, gate, rates, pair, after, out),
    ensures
        after == detector,
        out == pair,
{
}

/// A gate that has just been open keeps its gain for the whole hold time,
/// however quiet it gets.
pub proof fn law_gain_is_frozen_while_holding<S: Sample>(
    detector: GateDetector<S>,
    gate: Gate<S>,
    rates: GateRates<S>,
    envelope_db: S,
)
    requires
        !num::below(gate.params.threshold_db, envelope_db),
        detector.hold_remaining_samples > 0,
    ensures
        detector.decided(gate, rates, envelope_db).gain == detector.gain,
        detector.decided(gate, rates, envelope_db).hold_remaining_samples + 1
            == detector.hold_remaining_samples,
{
}

} // verus!
