//! The running filters are in tune with the settings: from the start, after
//! every command and however long they have run.

use crate::biquad::{self, Biquad, BiquadCoeffs};
use crate::command::EngineCommand;
use crate::command_laws;
use crate::control;
use crate::elementary::Elementary;
use crate::engine::Engine;
use crate::eq3::{StereoBiquad, ThreeBandEq, ThreeBandFilter};
use crate::eq_channel::{ChannelTuning, DelayLine, EqBank, EqChannel};
use crate::gate::{self, Gate, GateDetector};
use crate::intellipan::{ColorPad, IntellipanMode, PadPosition};
use crate::karaoke::{self, VocalNotch};
use crate::mix::Levels;
use crate::num::{self, Sample};
use crate::parametric_eq::{self, EqChannelParams, ParametricEq, NUM_CELLS};
use crate::retune::Retune;
use crate::signal_path::{self, SignalPath};
use crate::strip_dsp::{HardwareChain, StripChain, VirtualChain, STRIP_EQ_CHANNELS};
use crate::strip_path::{self, HardwarePath, StripPath, VirtualPath};
use crate::{Frame, CHANNELS, NUM_BUSES, NUM_STRIPS};
use vstd::prelude::*;
use vstd::std_specs::ops::NegSpec;

verus! {

impl<S: Sample> Biquad<S> {
    /// The filter is bypassed.
    pub open spec fn is_out(self) -> bool {
        self.coeffs is None && self.ramp is None
    }
}

proof fn lemma_retuned_aims<S: Sample>(filter: Biquad<S>, coeffs: BiquadCoeffs<S>)
    requires
        filter.wf(),
    ensures
        filter.retuned(coeffs).aims_at(coeffs),
{
}

proof fn lemma_playing_keeps_aim<S: Sample>(filter: Biquad<S>, x: S, coeffs: BiquadCoeffs<S>)
    ensures
        filter.aims_at(coeffs) ==> filter.after(x).aims_at(coeffs),
        filter.is_out() ==> filter.after(x).is_out(),
{
}

impl<S: Sample> StereoBiquad<S> {
    pub open spec fn aims_at(self, coeffs: BiquadCoeffs<S>) -> bool {
        self.left.aims_at(coeffs) && self.right.aims_at(coeffs)
    }

    pub open spec fn is_out(self) -> bool {
        self.left.is_out() && self.right.is_out()
    }

    /// The band is in tune with a gain: bypassed at zero decibels, and a bell
    /// otherwise.
    pub open spec fn in_tune<M: Elementary<S>>(self, m: M, rate: S, freq_hz: S, gain_db: S) -> bool {
        if num::same(gain_db, num::whole::<S>(0)) {
            self.is_out()
        } else {
            exists|c: BiquadCoeffs<S>|
                #[trigger] biquad::bells(m, rate, freq_hz, num::ratio::<S>(7, 10), gain_db, c)
                    && self.aims_at(c)
        }
    }
}

proof fn lemma_band_set<S: Sample, M: Elementary<S>>(
    m: M,
    rate: S,
    freq_hz: S,
    gain_db: S,
    before: StereoBiquad<S>,
    after: StereoBiquad<S>,
)
    requires
        before.wf(),
        before.set_to(m, rate, freq_hz, gain_db, after),
    ensures
        after.in_tune(m, rate, freq_hz, gain_db),
{
}

proof fn lemma_band_plays<S: Sample, M: Elementary<S>>(
    m: M,
    rate: S,
    freq_hz: S,
    gain_db: S,
    band: StereoBiquad<S>,
    l: S,
    r: S,
)
    requires
        band.in_tune(m, rate, freq_hz, gain_db),
    ensures
        band.after(l, r).in_tune(m, rate, freq_hz, gain_db),
{
    if !num::same(gain_db, num::whole::<S>(0)) {
        let c = choose|c: BiquadCoeffs<S>|
            #[trigger] biquad::bells(m, rate, freq_hz, num::ratio::<S>(7, 10), gain_db, c)
                && band.aims_at(c);
        assert(band.after(l, r).aims_at(c));
    }
}

impl<S: Sample> ThreeBandFilter<S> {
    pub open spec fn in_tune<M: Elementary<S>>(self, m: M, rate: S, eq: ThreeBandEq<S>) -> bool {
        &&& self.bass.in_tune(m, rate, num::whole::<S>(200), eq.bass_db)
        &&& self.mid.in_tune(m, rate, num::whole::<S>(1000), eq.mid_db)
        &&& self.treble.in_tune(m, rate, num::whole::<S>(5000), eq.treble_db)
    }
}

proof fn lemma_three_bands_play<S: Sample, M: Elementary<S>>(
    m: M,
    rate: S,
    eq: ThreeBandEq<S>,
    filter: ThreeBandFilter<S>,
    l: S,
    r: S,
)
    requires
        filter.in_tune(m, rate, eq),
    ensures
        filter.after(l, r).in_tune(m, rate, eq),
{
    let b = filter.bass.output(l, r);
    let c = filter.mid.output(b.0, b.1);
    lemma_band_plays(m, rate, num::whole::<S>(200), eq.bass_db, filter.bass, l, r);
    lemma_band_plays(m, rate, num::whole::<S>(1000), eq.mid_db, filter.mid, b.0, b.1);
    lemma_band_plays(m, rate, num::whole::<S>(5000), eq.treble_db, filter.treble, c.0, c.1);
}

impl<S: Sample> VocalNotch<S> {
    pub open spec fn in_tune<M: Elementary<S>>(self, m: M, rate: S) -> bool {
        exists|c: BiquadCoeffs<S>|
            #[trigger] karaoke::vocal_band(m, rate, c) && self.notch_l.aims_at(c)
                && self.notch_r.aims_at(c)
    }
}

impl<S: Sample> GateDetector<S> {
    /// The side chain listens to the band that the settings name.
    pub open spec fn in_tune<M: Elementary<S>>(self, m: M, rate: S, gate: Gate<S>) -> bool {
        exists|c: BiquadCoeffs<S>|
            #[trigger] gate::sidechain_band(m, gate.params.bp_sidechain_hz, rate, c)
                && self.sidechain.aims_at(c)
    }
}

impl<S: Sample> ColorPad<S> {
    pub open spec fn is_out(self) -> bool {
        self.bass_l.is_out() && self.bass_r.is_out() && self.treble_l.is_out()
            && self.treble_r.is_out()
    }

    /// The pad is in tune with its position: bypassed at the origin and
    /// without tilt, and two bells that lean against each other otherwise.
    pub open spec fn in_tune<M: Elementary<S>>(self, m: M, rate: S, pad: PadPosition<S>) -> bool {
        let tilt = Self::tilt_db(pad);
        let q = num::ratio::<S>(7, 10);
        ||| self.is_out() && (pad == PadPosition::<S>::origin() || num::same(
            tilt,
            num::whole::<S>(0),
        ))
        ||| exists|bass: BiquadCoeffs<S>, treble: BiquadCoeffs<S>|
            #[trigger] biquad::bells(m, rate, num::whole::<S>(200), q, tilt.neg_spec(), bass)
                && #[trigger] biquad::bells(m, rate, num::whole::<S>(5000), q, tilt, treble)
                && self.bass_l.aims_at(bass) && self.bass_r.aims_at(bass)
                && self.treble_l.aims_at(treble) && self.treble_r.aims_at(treble)
    }
}

proof fn lemma_color_plays<S: Sample, M: Elementary<S>>(
    m: M,
    rate: S,
    pad: PadPosition<S>,
    before: ColorPad<S>,
    a: S,
    b: S,
    c: S,
    d: S,
    after: ColorPad<S>,
)
    requires
        before.in_tune(m, rate, pad),
        after.bass_l == before.bass_l.after(a),
        after.bass_r == before.bass_r.after(b),
        after.treble_l == before.treble_l.after(c),
        after.treble_r == before.treble_r.after(d),
    ensures
        after.in_tune(m, rate, pad),
{
    let tilt = ColorPad::<S>::tilt_db(pad);
    let q = num::ratio::<S>(7, 10);
    if before.is_out() {
        assert(after.is_out());
    }
    if exists|bass: BiquadCoeffs<S>, treble: BiquadCoeffs<S>|
        #[trigger] biquad::bells(m, rate, num::whole::<S>(200), q, tilt.neg_spec(), bass)
            && #[trigger] biquad::bells(m, rate, num::whole::<S>(5000), q, tilt, treble)
            && before.bass_l.aims_at(bass) && before.bass_r.aims_at(bass)
            && before.treble_l.aims_at(treble) && before.treble_r.aims_at(treble) {
        let (bass, treble) = choose|bass: BiquadCoeffs<S>, treble: BiquadCoeffs<S>|
            #[trigger] biquad::bells(m, rate, num::whole::<S>(200), q, tilt.neg_spec(), bass)
                && #[trigger] biquad::bells(m, rate, num::whole::<S>(5000), q, tilt, treble)
                && before.bass_l.aims_at(bass) && before.bass_r.aims_at(bass)
                && before.treble_l.aims_at(treble) && before.treble_r.aims_at(treble);
        assert(after.bass_l.aims_at(bass) && after.bass_r.aims_at(bass));
        assert(after.treble_l.aims_at(treble) && after.treble_r.aims_at(treble));
    }
}

impl<S: Sample> EqChannel<S> {
    /// The channel is what `params` come to with this tuning.
    pub open spec fn plays_as(&self, params: EqChannelParams<S>, tuning: ChannelTuning<S>) -> bool {
        &&& forall|i: int|
            0 <= i < NUM_CELLS ==> if params.cells@[i].on {
                (#[trigger] self.biquads@[i]).aims_at(params.cells@[i].form(tuning.tones@[i]))
            } else {
                self.biquads@[i].is_out()
            }
        &&& self.trim_linear == (if num::same(params.trim_db, num::whole::<S>(0)) {
            num::whole::<S>(1)
        } else {
            tuning.trim_linear
        })
        &&& self.delay@.len() > 0
        &&& self.delay.delay_samples == DelayLine::<S>::feasible(
            tuning.delay_samples as nat,
            self.delay@.len(),
        )
    }

    pub open spec fn in_tune<M: Elementary<S>>(
        &self,
        m: M,
        params: EqChannelParams<S>,
        rate: S,
    ) -> bool {
        exists|tuning: ChannelTuning<S>| #[trigger]
            tuning.suits(m, params, rate) && self.plays_as(params, tuning)
    }
}

proof fn lemma_channel_set<S: Sample, M: Elementary<S>>(
    m: M,
    params: EqChannelParams<S>,
    rate: S,
    before: EqChannel<S>,
    after: EqChannel<S>,
)
    requires
        forall|i: int| 0 <= i < NUM_CELLS ==> (#[trigger] before.biquads@[i]).wf(),
        before.delay@.len() > 0,
        before.in_line(m, params, rate, &after),
    ensures
        after.in_tune(m, params, rate),
{
    let tuning = choose|tuning: ChannelTuning<S>| #[trigger]
        tuning.suits(m, params, rate) && before.tuned_to(params, tuning, &after);
    assert forall|i: int| 0 <= i < NUM_CELLS implies if params.cells@[i].on {
        (#[trigger] after.biquads@[i]).aims_at(params.cells@[i].form(tuning.tones@[i]))
    } else {
        after.biquads@[i].is_out()
    } by {
        assert(before.biquads@[i].wf());
        lemma_retuned_aims(before.biquads@[i], params.cells@[i].form(tuning.tones@[i]));
    }
    assert(after.plays_as(params, tuning));
}

proof fn lemma_channel_plays<S: Sample, M: Elementary<S>>(
    m: M,
    params: EqChannelParams<S>,
    rate: S,
    before: EqChannel<S>,
    x: S,
    after: EqChannel<S>,
)
    requires
        before.in_tune(m, params, rate),
        before.moves_to(x, &after),
    ensures
        after.in_tune(m, params, rate),
{
    let tuning = choose|tuning: ChannelTuning<S>| #[trigger]
        tuning.suits(m, params, rate) && before.plays_as(params, tuning);
    assert forall|i: int| 0 <= i < NUM_CELLS implies if params.cells@[i].on {
        (#[trigger] after.biquads@[i]).aims_at(params.cells@[i].form(tuning.tones@[i]))
    } else {
        after.biquads@[i].is_out()
    } by {
        let b = before.biquads@[i];
        lemma_playing_keeps_aim(
            b,
            crate::eq_channel::chained(before.biquads@, i as nat, x),
            params.cells@[i].form(tuning.tones@[i]),
        );
    }
    assert(after.delay@.len() == before.delay@.len());
    assert(after.plays_as(params, tuning));
}

impl<S: Sample> EqBank<S> {
    pub open spec fn in_tune<const N: usize, M: Elementary<S>>(
        &self,
        m: M,
        eq: ParametricEq<S, N>,
        rate: S,
    ) -> bool {
        forall|c: int|
            0 <= c < N ==> (#[trigger] self.channels@[c]).in_tune(m, eq.current(c), rate)
    }
}

proof fn lemma_bank_at_rate<S: Sample, const N: usize, M: Elementary<S>>(
    m: M,
    eq: ParametricEq<S, N>,
    rate: S,
    capacity: nat,
    before: EqBank<S>,
    after: EqBank<S>,
)
    requires
        capacity > 0,
        before.channels@.len() == N,
        forall|c: int| 0 <= c < N ==> (#[trigger] before.channels@[c]).delay@.len() > 0,
        forall|c: int, i: int|
            0 <= c < N && 0 <= i < NUM_CELLS ==> (#[trigger] before.channels@[c].biquads@[i]).wf(),
        before.at_rate(m, eq, rate, capacity, &after),
    ensures
        after.in_tune(m, eq, rate),
{
    let between = choose|between: EqBank<S>|
        #![trigger before.resized(capacity, rate, &between)]
        before.resized(capacity, rate, &between) && between.in_line(m, eq, rate, &after);
    assert forall|c: int| 0 <= c < N implies (#[trigger] after.channels@[c]).in_tune(
        m,
        eq.current(c),
        rate,
    ) by {
        let now = between.channels@[c];
        assert(now.biquads == before.channels@[c].biquads);
        assert(before.channels@[c].delay@.len() > 0);
        assert forall|i: int| 0 <= i < NUM_CELLS implies (#[trigger] now.biquads@[i]).wf() by {
            assert(before.channels@[c].biquads@[i].wf());
        }
        lemma_channel_set(m, eq.current(c), rate, now, after.channels@[c]);
    }
}

proof fn lemma_bank_retuned<S: Sample, const N: usize, M: Elementary<S>>(
    m: M,
    was: ParametricEq<S, N>,
    now: ParametricEq<S, N>,
    rate: S,
    part: Retune,
    before: EqBank<S>,
    after: EqBank<S>,
)
    requires
        before.wf(),
        before.channels@.len() == N,
        before.in_tune(m, was, rate),
        before.retuned(m, now, rate, part, &after),
        forall|c: int|
            0 <= c < N && part != Retune::Everything && part != Retune::Channel(c as usize)
                ==> #[trigger] now.current(c) == was.current(c),
    ensures
        after.in_tune(m, now, rate),
{
    assert forall|c: int| 0 <= c < N implies (#[trigger] after.channels@[c]).in_tune(
        m,
        now.current(c),
        rate,
    ) by {
        assert(before.channels@[c].wf());
        if part == Retune::Everything || part == Retune::Channel(c as usize) {
            lemma_channel_set(m, now.current(c), rate, before.channels@[c], after.channels@[c]);
        } else {
            assert(now.current(c) == was.current(c));
        }
    }
}

/// What a command does not disturb of an equaliser it leaves as it is.
proof fn lemma_undisturbed<S: Sample, const N: usize>(
    c: EngineCommand<S>,
    eq: ParametricEq<S, N>,
    k: int,
)
    requires
        0 <= k < N,
        c.disturbs(eq.active) != Retune::Everything,
        c.disturbs(eq.active) != Retune::Channel(k as usize),
        c.disturbs(eq.active) matches Retune::Channel(ch) ==> ch < N,
    ensures
        c.edited_eq(eq).current(k) == eq.current(k),
{
    match c {
        EngineCommand::SetStripEqCell(_, ch, cell, p)
        | EngineCommand::SetBusEqCell(_, ch, cell, p) => {
            parametric_eq::law_edit_is_local(
                eq,
                ch as int,
                eq.current(ch as int).with_cell(cell as int, p),
            );
        },
        EngineCommand::SetStripEqTrim(_, ch, trim_db)
        | EngineCommand::SetBusEqTrim(_, ch, trim_db) => {
            parametric_eq::law_edit_is_local(
                eq,
                ch as int,
                EqChannelParams { trim_db, ..eq.current(ch as int) },
            );
        },
        EngineCommand::SetStripEqDelay(_, ch, delay_ms)
        | EngineCommand::SetBusEqDelay(_, ch, delay_ms) => {
            parametric_eq::law_edit_is_local(
                eq,
                ch as int,
                EqChannelParams { delay_ms, ..eq.current(ch as int) },
            );
        },
        EngineCommand::ResetStripEqChannel(_, ch) | EngineCommand::ResetBusEqChannel(_, ch) => {
            parametric_eq::law_edit_is_local(eq, ch as int, EqChannelParams::<S>::neutral());
        },
        EngineCommand::CopyStripEqChannel(_, from, to)
        | EngineCommand::CopyBusEqChannel(_, from, to) => {
            parametric_eq::law_edit_is_local(eq, to as int, eq.current(from as int));
        },
        _ => {},
    }
}

impl<S: Sample> HardwarePath<S> {
    pub open spec fn in_tune<M: Elementary<S>>(
        &self,
        m: M,
        chain: HardwareChain<S>,
        rate: S,
    ) -> bool {
        &&& self.noise_rates.suit(m, rate)
        &&& self.gate.in_tune(m, rate, chain.gate)
        &&& self.gate_rates.suit(m, chain.gate.params, rate)
        &&& self.comp_rates.suit(m, chain.compressor.params, rate)
        &&& self.eq.in_tune(m, chain.eq, rate)
        &&& self.pads.color.in_tune(m, rate, chain.pad.color)
    }
}

impl<S: Sample> VirtualPath<S> {
    pub open spec fn in_tune<M: Elementary<S>>(
        &self,
        m: M,
        chain: VirtualChain<S>,
        rate: S,
    ) -> bool {
        &&& self.eq.in_tune(m, rate, chain.eq)
        &&& self.notch.in_tune(m, rate)
    }
}

impl<S: Sample> StripPath<S> {
    pub open spec fn in_tune<M: Elementary<S>>(&self, m: M, chain: StripChain<S>, rate: S) -> bool {
        match (self, chain) {
            (StripPath::Hardware(p), StripChain::Hardware(c)) => p.in_tune(m, c, rate),
            (StripPath::Virtual(p), StripChain::Virtual(c)) => p.in_tune(m, c, rate),
            _ => false,
        }
    }
}

impl<S: Sample> SignalPath<S> {
    /// Every filter of the path has the coefficients that the settings ask for
    /// at the sample rate, or is on its way to them, and every time constant,
    /// trim and delay is that of the settings.
    pub open spec fn in_tune<M: Elementary<S>>(&self, m: M, engine: Engine<S>) -> bool {
        &&& forall|s: int|
            0 <= s < NUM_STRIPS ==> (#[trigger] self.strips@[s]).in_tune(
                m,
                engine.strips@[s].chain,
                engine.sample_rate,
            )
        &&& forall|b: int|
            0 <= b < NUM_BUSES ==> (#[trigger] self.buses@[b]).in_tune(
                m,
                engine.buses@[b].eq,
                engine.sample_rate,
            )
    }
}

proof fn lemma_color_set<S: Sample, M: Elementary<S>>(
    m: M,
    rate: S,
    pad: PadPosition<S>,
    before: ColorPad<S>,
    after: ColorPad<S>,
)
    requires
        before.wf(),
        before.set_to(m, rate, pad, after),
    ensures
        after.in_tune(m, rate, pad),
{
    let tilt = ColorPad::<S>::tilt_db(pad);
    let q = num::ratio::<S>(7, 10);
    if num::same(tilt, num::whole::<S>(0)) {
        assert(after.is_out());
    } else {
        let (bass, treble) = choose|bass: BiquadCoeffs<S>, treble: BiquadCoeffs<S>|
            #[trigger] biquad::bells(m, rate, num::whole::<S>(200), q, tilt.neg_spec(), bass)
                && #[trigger] biquad::bells(m, rate, num::whole::<S>(5000), q, tilt, treble)
                && after == before.retuned(bass, treble);
        assert(after.bass_l.aims_at(bass) && after.bass_r.aims_at(bass));
        assert(after.treble_l.aims_at(treble) && after.treble_r.aims_at(treble));
    }
}

proof fn lemma_hardware_at_rate<S: Sample, M: Elementary<S>>(
    m: M,
    chain: HardwareChain<S>,
    rate: S,
    capacity: nat,
    before: HardwarePath<S>,
    after: HardwarePath<S>,
)
    requires
        before.gate.sidechain.wf(),
        before.pads.color.wf(),
        capacity > 0,
        before.eq.channels@.len() == STRIP_EQ_CHANNELS,
        forall|c: int|
            0 <= c < STRIP_EQ_CHANNELS ==> (#[trigger] before.eq.channels@[c]).delay@.len() > 0,
        forall|c: int, i: int|
            0 <= c < STRIP_EQ_CHANNELS && 0 <= i < NUM_CELLS ==> (
            #[trigger] before.eq.channels@[c].biquads@[i]).wf(),
        before.at_rate(m, chain, rate, capacity, &after),
    ensures
        after.in_tune(m, chain, rate),
{
    let coeffs = choose|coeffs: BiquadCoeffs<S>|
        #[trigger] gate::sidechain_band(m, chain.gate.params.bp_sidechain_hz, rate, coeffs)
            && after.gate == (GateDetector {
            sidechain: before.gate.sidechain.retuned(coeffs),
            ..before.gate
        });
    assert(after.gate.sidechain.aims_at(coeffs));
    lemma_bank_at_rate(m, chain.eq, rate, capacity, before.eq, after.eq);
    lemma_color_set(m, rate, chain.pad.color, before.pads.color, after.pads.color);
}

proof fn lemma_virtual_at_rate<S: Sample, M: Elementary<S>>(
    m: M,
    chain: VirtualChain<S>,
    rate: S,
    before: VirtualPath<S>,
    after: VirtualPath<S>,
)
    requires
        before.wf(),
        before.at_rate(m, chain, rate, &after),
    ensures
        after.in_tune(m, chain, rate),
{
    let coeffs = choose|coeffs: BiquadCoeffs<S>|
        #[trigger] karaoke::vocal_band(m, rate, coeffs) && after.notch.notch_l
            == before.notch.notch_l.retuned(coeffs) && after.notch.notch_r
            == before.notch.notch_r.retuned(coeffs);
    assert(after.notch.notch_l.aims_at(coeffs) && after.notch.notch_r.aims_at(coeffs));
}

proof fn lemma_strip_at_rate<S: Sample, M: Elementary<S>>(
    m: M,
    chain: StripChain<S>,
    rate: S,
    capacity: nat,
    before: StripPath<S>,
    after: StripPath<S>,
)
    requires
        capacity > 0,
        before.wf(),
        before.at_rate(m, chain, rate, capacity, &after),
    ensures
        after.in_tune(m, chain, rate),
{
    match (before, chain, after) {
        (StripPath::Hardware(p), StripChain::Hardware(c), StripPath::Hardware(q)) => {
            assert forall|k: int, i: int|
                0 <= k < STRIP_EQ_CHANNELS && 0 <= i < NUM_CELLS implies (
            #[trigger] p.eq.channels@[k].biquads@[i]).wf() by {
                assert(p.eq.channels@[k].wf());
            }
            lemma_hardware_at_rate(m, c, rate, capacity, p, q);
        },
        (StripPath::Virtual(p), StripChain::Virtual(c), StripPath::Virtual(q)) => {
            lemma_virtual_at_rate(m, c, rate, p, q);
        },
        _ => {},
    }
}

/// A path that has just been made is in tune.
pub proof fn law_a_new_path_is_in_tune<S: Sample, M: Elementary<S>>(
    m: M,
    engine: Engine<S>,
    capacity: nat,
    path: SignalPath<S>,
)
    requires
        capacity > 0,
        path.starts(m, engine, capacity),
    ensures
        path.in_tune(m, engine),
{
    assert forall|s: int| 0 <= s < NUM_STRIPS implies (#[trigger] path.strips@[s]).in_tune(
        m,
        engine.strips@[s].chain,
        engine.sample_rate,
    ) by {
        let chain = engine.strips@[s].chain;
        let rate = engine.sample_rate;
        assert(StripPath::starts(m, chain, rate, capacity, &path.strips@[s]));
        let start = choose|start: StripPath<S>| #[trigger]
            start.is_idle(capacity, rate) && start.at_rate(
                m,
                chain,
                rate,
                capacity,
                &path.strips@[s],
            );
        match (start, chain, path.strips@[s]) {
            (StripPath::Hardware(p), StripChain::Hardware(c), StripPath::Hardware(q)) => {
                assert forall|k: int, i: int|
                    0 <= k < STRIP_EQ_CHANNELS && 0 <= i < NUM_CELLS implies (
                #[trigger] p.eq.channels@[k].biquads@[i]).wf() by {
                    assert(p.eq.channels@[k].is_idle(capacity, rate));
                }
                lemma_hardware_at_rate(m, c, rate, capacity, p, q);
            },
            (StripPath::Virtual(p), StripChain::Virtual(c), StripPath::Virtual(q)) => {
                lemma_virtual_at_rate(m, c, rate, p, q);
            },
            _ => {},
        }
    }
    assert forall|b: int| 0 <= b < NUM_BUSES implies (#[trigger] path.buses@[b]).in_tune(
        m,
        engine.buses@[b].eq,
        engine.sample_rate,
    ) by {
        let eq = engine.buses@[b].eq;
        let rate = engine.sample_rate;
        assert(signal_path::bank_starts(m, eq, rate, capacity, path.buses@[b]));
        let start = choose|start: EqBank<S>| #[trigger]
            start.is_idle(CHANNELS as nat, capacity, rate) && start.at_rate(
                m,
                eq,
                rate,
                capacity,
                &path.buses@[b],
            );
        assert forall|k: int, i: int|
            0 <= k < CHANNELS && 0 <= i < NUM_CELLS implies (
        #[trigger] start.channels@[k].biquads@[i]).wf() by {
            assert(start.channels@[k].is_idle(capacity, rate));
        }
        lemma_bank_at_rate(m, eq, rate, capacity, start, path.buses@[b]);
    }
}

/// A change of the sample rate puts the path in tune at the new rate, whatever
/// it was before.
pub proof fn law_a_change_of_rate_tunes_the_path<S: Sample, M: Elementary<S>>(
    m: M,
    engine: Engine<S>,
    capacity: nat,
    before: SignalPath<S>,
    after: SignalPath<S>,
)
    requires
        capacity > 0,
        before.wf(engine),
        before.at_rate(m, engine, capacity, &after),
    ensures
        after.in_tune(m, engine),
{
    assert forall|s: int| 0 <= s < NUM_STRIPS implies (#[trigger] after.strips@[s]).in_tune(
        m,
        engine.strips@[s].chain,
        engine.sample_rate,
    ) by {
        assert(before.strips@[s].wf());
        lemma_strip_at_rate(
            m,
            engine.strips@[s].chain,
            engine.sample_rate,
            capacity,
            before.strips@[s],
            after.strips@[s],
        );
    }
    assert forall|b: int| 0 <= b < NUM_BUSES implies (#[trigger] after.buses@[b]).in_tune(
        m,
        engine.buses@[b].eq,
        engine.sample_rate,
    ) by {
        let start = before.buses@[b];
        assert(start.wf());
        assert forall|k: int, i: int|
            0 <= k < CHANNELS && 0 <= i < NUM_CELLS implies (
        #[trigger] start.channels@[k].biquads@[i]).wf() by {
            assert(start.channels@[k].wf());
        }
        lemma_bank_at_rate(
            m,
            engine.buses@[b].eq,
            engine.sample_rate,
            capacity,
            start,
            after.buses@[b],
        );
    }
}

proof fn lemma_bank_plays<S: Sample, const N: usize, M: Elementary<S>>(
    m: M,
    eq: ParametricEq<S, N>,
    rate: S,
    on: bool,
    before: EqBank<S>,
    f: Seq<S>,
    after: EqBank<S>,
)
    requires
        before.in_tune(m, eq, rate),
        forall|c: int|
            0 <= c < N ==> #[trigger] strip_path::bank_moves(before, on, c, f[c], after),
    ensures
        after.in_tune(m, eq, rate),
{
    assert forall|c: int| 0 <= c < N implies (#[trigger] after.channels@[c]).in_tune(
        m,
        eq.current(c),
        rate,
    ) by {
        assert(strip_path::bank_moves(before, on, c, f[c], after));
        assert(before.channels@[c].in_tune(m, eq.current(c), rate));
        if on {
            lemma_channel_plays(
                m,
                eq.current(c),
                rate,
                before.channels@[c],
                f[c],
                after.channels@[c],
            );
        }
    }
}

proof fn lemma_gate_plays<S: Sample, M: Elementary<S>>(
    m: M,
    rate: S,
    gate: Gate<S>,
    rates: crate::gate::GateRates<S>,
    before: GateDetector<S>,
    pair: (S, S),
    after: GateDetector<S>,
    out: (S, S),
)
    requires
        before.in_tune(m, rate, gate),
        before.gates(m, gate, rates, pair, after, out),
    ensures
        after.in_tune(m, rate, gate),
{
    let c = choose|c: BiquadCoeffs<S>|
        #[trigger] gate::sidechain_band(m, gate.params.bp_sidechain_hz, rate, c)
            && before.sidechain.aims_at(c);
    let x = GateDetector::<S>::detector_in(pair.0, pair.1);
    lemma_playing_keeps_aim(before.sidechain, x, c);
    assert(after.sidechain.aims_at(c));
}

proof fn lemma_hardware_plays<S: Sample, M: Elementary<S>>(
    m: M,
    chain: HardwareChain<S>,
    rate: S,
    before: HardwarePath<S>,
    f: Seq<S>,
    after: HardwarePath<S>,
    g: Seq<S>,
)
    requires
        f.len() == CHANNELS,
        before.in_tune(m, chain, rate),
        before.carries(m, chain, rate, f, &after, g),
    ensures
        after.in_tune(m, chain, rate),
{
    let (a, b, c, h) = choose|a: (S, S), b: (S, S), c: (S, S), h: Seq<S>| #[trigger]
        before.stages(m, chain, rate, f, a, b, c, h, &after, g);
    lemma_gate_plays(m, rate, chain.gate, before.gate_rates, before.gate, a, after.gate, b);
    let pair = seq![c.0, c.1];
    assert forall|k: int| 0 <= k < STRIP_EQ_CHANNELS implies #[trigger] strip_path::bank_moves(
        before.eq,
        chain.eq.on,
        k,
        pair[k],
        after.eq,
    ) by {
        if k == 0 {
            assert(pair[0] == c.0);
        } else {
            assert(k == 1 && pair[1] == c.1);
        }
    }
    lemma_bank_plays(m, chain.eq, rate, chain.eq.on, before.eq, pair, after.eq);
    if chain.pad.mode == IntellipanMode::Color {
        let d0 = strip_path::bank_output(before.eq, chain.eq.on, 0, c.0);
        let d1 = strip_path::bank_output(before.eq, chain.eq.on, 1, c.1);
        let e = f.update(0, d0).update(1, d1);
        let was = before.pads.color;
        lemma_color_plays(
            m,
            rate,
            chain.pad.color,
            was,
            e[0],
            e[1],
            was.bass_l.output(e[0]),
            was.bass_r.output(e[1]),
            after.pads.color,
        );
    }
}

proof fn lemma_virtual_plays<S: Sample, M: Elementary<S>>(
    m: M,
    chain: VirtualChain<S>,
    rate: S,
    before: VirtualPath<S>,
    f: Seq<S>,
    after: VirtualPath<S>,
    g: Seq<S>,
)
    requires
        before.in_tune(m, chain, rate),
        before.carries(m, chain, f, &after, g),
    ensures
        after.in_tune(m, chain, rate),
{
    lemma_three_bands_play(m, rate, chain.eq, before.eq, f[0], f[1]);
    let c = choose|c: BiquadCoeffs<S>|
        #[trigger] karaoke::vocal_band(m, rate, c) && before.notch.notch_l.aims_at(c)
            && before.notch.notch_r.aims_at(c);
    let t = before.toned(chain, f);
    lemma_playing_keeps_aim(before.notch.notch_l, t[0], c);
    lemma_playing_keeps_aim(before.notch.notch_r, t[1], c);
    assert(after.notch.notch_l.aims_at(c) && after.notch.notch_r.aims_at(c));
}

proof fn lemma_sample_keeps_tune<S: Sample, M: Elementary<S>>(
    m: M,
    engine: Engine<S>,
    levels: Levels<S>,
    before: SignalPath<S>,
    inputs: Seq<Frame<S>>,
    processed: Seq<Frame<S>>,
    after: SignalPath<S>,
    out: Seq<Frame<S>>,
)
    requires
        before.in_tune(m, engine),
        before.plays(m, engine, levels, inputs, processed, &after, out),
    ensures
        after.in_tune(m, engine),
{
    let rate = engine.sample_rate;
    assert forall|s: int| 0 <= s < NUM_STRIPS implies (#[trigger] after.strips@[s]).in_tune(
        m,
        engine.strips@[s].chain,
        rate,
    ) by {
        let chain = engine.strips@[s].chain;
        assert(before.strips@[s].in_tune(m, chain, rate));
        assert(before.strip_plays(m, engine, s, inputs[s], &after, processed[s]));
        if engine.runs(s) {
            let raw = choose|raw: Seq<S>|
                #[trigger] before.strips@[s].carries(
                    m,
                    chain,
                    rate,
                    inputs[s]@,
                    &after.strips@[s],
                    raw,
                ) && processed[s]@ == (if engine.strips@[s].mono {
                    crate::mix::mono(raw)
                } else {
                    raw
                });
            match (before.strips@[s], chain, after.strips@[s]) {
                (StripPath::Hardware(p), StripChain::Hardware(c), StripPath::Hardware(q)) => {
                    lemma_hardware_plays(m, c, rate, p, inputs[s]@, q, raw);
                },
                (StripPath::Virtual(p), StripChain::Virtual(c), StripPath::Virtual(q)) => {
                    lemma_virtual_plays(m, c, rate, p, inputs[s]@, q, raw);
                },
                _ => {},
            }
        }
    }
    assert forall|b: int| 0 <= b < NUM_BUSES implies (#[trigger] after.buses@[b]).in_tune(
        m,
        engine.buses@[b].eq,
        rate,
    ) by {
        assert(before.buses@[b].in_tune(m, engine.buses@[b].eq, rate));
        assert(before.bus_plays(engine, levels, inputs, processed, b, &after, out[b]));
        lemma_bank_plays(
            m,
            engine.buses@[b].eq,
            rate,
            engine.buses@[b].eq.on,
            before.buses@[b],
            engine.gathered(levels, inputs, processed, b),
            after.buses@[b],
        );
    }
}

/// A path that is in tune stays so through a block, however long it is.
pub proof fn law_playing_keeps_the_path_in_tune<S: Sample, M: Elementary<S>>(
    m: M,
    engine: Engine<S>,
    levels: Levels<S>,
    inputs: Seq<Vec<Frame<S>>>,
    outputs: Seq<Vec<Frame<S>>>,
    frames: int,
    states: Seq<SignalPath<S>>,
    n: int,
)
    requires
        signal_path::renders(m, engine, levels, inputs, outputs, frames, states),
        states[0].in_tune(m, engine),
        0 <= n <= frames,
    ensures
        states[n].in_tune(m, engine),
    decreases n,
{
    if n > 0 {
        law_playing_keeps_the_path_in_tune(
            m,
            engine,
            levels,
            inputs,
            outputs,
            frames,
            states,
            n - 1,
        );
        assert(signal_path::sample_played(m, engine, levels, states, inputs, outputs, n - 1));
        let processed = choose|processed: Seq<Frame<S>>| #[trigger]
            states[n - 1].plays(
                m,
                engine,
                levels,
                signal_path::column(inputs, n - 1),
                processed,
                &states[n - 1 + 1],
                signal_path::column(outputs, n - 1),
            );
        lemma_sample_keeps_tune(
            m,
            engine,
            levels,
            states[n - 1],
            signal_path::column(inputs, n - 1),
            processed,
            states[n],
            signal_path::column(outputs, n - 1),
        );
    }
}

#[verifier::spinoff_prover]
proof fn lemma_hardware_follows<S: Sample, M: Elementary<S>>(
    m: M,
    c: EngineCommand<S>,
    chain: HardwareChain<S>,
    now: HardwareChain<S>,
    rate: S,
    before: HardwarePath<S>,
    after: HardwarePath<S>,
)
    requires
        c.in_range(),
        c.strip() is Some,
        before.wf(),
        before.in_tune(m, chain, rate),
        StripChain::Hardware(now) == c.edited_strip_chain(StripChain::Hardware(chain)),
        before.retuned(m, now, rate, c, chain.eq.active, &after),
    ensures
        after.in_tune(m, now, rate),
{
    assert(now.eq == c.edited_eq(chain.eq));
    assert(now.gate.params.bp_sidechain_hz == chain.gate.params.bp_sidechain_hz);
    assert(!(c is SetStripGateKnob) ==> now.gate.params == chain.gate.params);
    assert(!(c is SetStripCompKnob) ==> now.compressor.params == chain.compressor.params);
    assert forall|k: int|
        0 <= k < STRIP_EQ_CHANNELS && c.disturbs(chain.eq.active) != Retune::Everything
            && c.disturbs(chain.eq.active) != Retune::Channel(
            k as usize,
        ) implies #[trigger] now.eq.current(k) == chain.eq.current(k) by {
        lemma_undisturbed(c, chain.eq, k);
    }
    lemma_bank_retuned(
        m,
        chain.eq,
        now.eq,
        rate,
        c.disturbs(chain.eq.active),
        before.eq,
        after.eq,
    );
    let heard = choose|heard: BiquadCoeffs<S>|
        #[trigger] gate::sidechain_band(m, chain.gate.params.bp_sidechain_hz, rate, heard)
            && before.gate.sidechain.aims_at(heard);
    assert(gate::sidechain_band(m, now.gate.params.bp_sidechain_hz, rate, heard));
    match c {
        EngineCommand::SetStripIntellipanMode(_, mode) => {
            if mode == IntellipanMode::Color {
                assert(after.pads.color.is_out());
                assert(now.pad.color == PadPosition::<S>::origin());
            } else {
                assert(now.pad.color == chain.pad.color);
            }
        },
        EngineCommand::SetStripIntellipanXY(..) => {
            if now.pad.mode == IntellipanMode::Color {
                lemma_color_set(m, rate, now.pad.color, before.pads.color, after.pads.color);
            } else {
                assert(now.pad.color == chain.pad.color);
            }
        },
        _ => {
            assert(now.pad == chain.pad);
        },
    }
}

#[verifier::spinoff_prover]
proof fn lemma_virtual_follows<S: Sample, M: Elementary<S>>(
    m: M,
    c: EngineCommand<S>,
    chain: VirtualChain<S>,
    now: VirtualChain<S>,
    rate: S,
    before: VirtualPath<S>,
    after: VirtualPath<S>,
)
    requires
        before.wf(),
        before.in_tune(m, chain, rate),
        StripChain::Virtual(now) == c.edited_strip_chain(StripChain::Virtual(chain)),
        before.retuned(m, now, rate, c, &after),
    ensures
        after.in_tune(m, now, rate),
{
    if c is SetStripEq3 {
        lemma_band_set(
            m,
            rate,
            num::whole::<S>(200),
            now.eq.bass_db,
            before.eq.bass,
            after.eq.bass,
        );
        lemma_band_set(
            m,
            rate,
            num::whole::<S>(1000),
            now.eq.mid_db,
            before.eq.mid,
            after.eq.mid,
        );
        lemma_band_set(
            m,
            rate,
            num::whole::<S>(5000),
            now.eq.treble_db,
            before.eq.treble,
            after.eq.treble,
        );
    } else {
        assert(now.eq == chain.eq);
    }
}

impl<S: Sample> EngineCommand<S> {
    /// The chain of the strip that the command addresses, after it.
    pub open spec fn edited_strip_chain(self, chain: StripChain<S>) -> StripChain<S> {
        match self {
            EngineCommand::SetStripMute(..)
            | EngineCommand::SetStripSolo(..)
            | EngineCommand::SetStripMono(..)
            | EngineCommand::SetStripBusAssign(..)
            | EngineCommand::SetStripGainLayer(..) => chain,
            _ => self.edited_chain(chain),
        }
    }
}

/// A path that is in tune with the settings is in tune with the new ones once
/// a command has been performed.
pub proof fn law_a_command_keeps_the_path_in_tune<S: Sample, M: Elementary<S>>(
    m: M,
    c: EngineCommand<S>,
    was: Engine<S>,
    before: SignalPath<S>,
    after: SignalPath<S>,
)
    requires
        before.wf(was),
        before.in_tune(m, was),
        before.follows(m, c, was, c.applied(was), &after),
    ensures
        after.in_tune(m, c.applied(was)),
{
    let now = c.applied(was);
    let rate = was.sample_rate;
    command_laws::law_command_is_local(c, was);
    assert(now.sample_rate == rate);
    assert forall|s: int| 0 <= s < NUM_STRIPS implies (#[trigger] after.strips@[s]).in_tune(
        m,
        now.strips@[s].chain,
        rate,
    ) by {
        assert(before.strips@[s].in_tune(m, was.strips@[s].chain, rate));
        assert(before.strips@[s].wf());
        if c.in_range() && c.strip() == Some(s as usize) {
            assert(now.strips@[s] == c.edited_strip(was.strips@[s]));
            assert(now.strips@[s].chain == c.edited_strip_chain(was.strips@[s].chain));
            match (
                before.strips@[s],
                was.strips@[s].chain,
                now.strips@[s].chain,
                after.strips@[s],
            ) {
                (
                    StripPath::Hardware(p),
                    StripChain::Hardware(chain),
                    StripChain::Hardware(edited),
                    StripPath::Hardware(q),
                ) => {
                    lemma_hardware_follows(m, c, chain, edited, rate, p, q);
                },
                (
                    StripPath::Virtual(p),
                    StripChain::Virtual(chain),
                    StripChain::Virtual(edited),
                    StripPath::Virtual(q),
                ) => {
                    lemma_virtual_follows(m, c, chain, edited, rate, p, q);
                },
                _ => {},
            }
        } else if c.in_range() {
            assert(now.strips@[s] == was.strips@[s]);
        }
    }
    assert forall|b: int| 0 <= b < NUM_BUSES implies (#[trigger] after.buses@[b]).in_tune(
        m,
        now.buses@[b].eq,
        rate,
    ) by {
        assert(before.buses@[b].in_tune(m, was.buses@[b].eq, rate));
        assert(before.buses@[b].wf());
        if c.in_range() && c.bus() == Some(b as usize) {
            let eq = was.buses@[b].eq;
            assert(c.strip() is None);
            assert(now.buses@[b] == c.edited_bus(was.buses@[b]));
            assert(now.buses@[b].eq == c.edited_eq(eq));
            assert forall|k: int|
                0 <= k < CHANNELS && c.disturbs(eq.active) != Retune::Everything && c.disturbs(
                    eq.active,
                ) != Retune::Channel(k as usize) implies #[trigger] now.buses@[b].eq.current(k)
                == eq.current(k) by {
                lemma_undisturbed(c, eq, k);
            }
            lemma_bank_retuned(
                m,
                eq,
                now.buses@[b].eq,
                rate,
                c.disturbs(eq.active),
                before.buses@[b],
                after.buses@[b],
            );
        } else {
            assert(now.buses@[b] == was.buses@[b]);
        }
    }
}

/// So is one that a whole run of commands has been carried through to.
pub proof fn law_a_run_of_commands_keeps_the_path_in_tune<S: Sample, M: Elementary<S>>(
    m: M,
    commands: Seq<EngineCommand<S>>,
    engine: Engine<S>,
    states: Seq<SignalPath<S>>,
    n: int,
)
    requires
        control::carried(m, commands, engine, states),
        states[0].in_tune(m, engine),
        0 <= n <= commands.len(),
    ensures
        states[n].in_tune(m, control::applied_all(commands.take(n), engine)),
    decreases n,
{
    if n == 0 {
        assert(commands.take(0) =~= Seq::empty());
    } else {
        law_a_run_of_commands_keeps_the_path_in_tune(m, commands, engine, states, n - 1);
        assert(control::command_carried(m, commands, engine, states, n - 1));
        assert(commands.take(n).drop_last() =~= commands.take(n - 1));
        assert(commands.take(n - 1 + 1) =~= commands.take(n));
        law_a_command_keeps_the_path_in_tune(
            m,
            commands[n - 1],
            control::applied_all(commands.take(n - 1), engine),
            states[n - 1],
            states[n],
        );
    }
}

} // verus!
