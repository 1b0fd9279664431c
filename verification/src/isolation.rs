//! What a strip plays comes from that strip alone, and what a bus plays from
//! that bus and the strips it hears.

use crate::bus_mode::BusMode;
use crate::compressor::{CompDetector, CompGains, CompRates, Compressor};
use crate::denoiser::{Denoiser, DenoiserRates, NoiseTracker};
use crate::elementary::{self, Elementary};
use crate::engine::Engine;
use crate::eq_channel::{self, EqBank, EqChannel};
use crate::gate::{Gate, GateDetector, GateRates};
use crate::intellipan::{DelayPair, IntellipanMode, IntellipanPads, ModulationPad, PadPosition};
use crate::limiter::Limiter;
use crate::mix::{self, Levels};
use crate::num::Sample;
use crate::parametric_eq::NUM_CELLS;
use crate::signal_path::{self, SignalPath};
use crate::strip_dsp::{HardwareChain, StripChain};
use crate::strip_path::{self, HardwarePath, PadPath, StripPath};
use crate::{Frame, CHANNELS, NUM_BUSES, NUM_STRIPS};
use vstd::prelude::*;
use vstd::std_specs::ops::{AddSpec, MulSpec};

verus! {

impl<S: Sample> EqChannel<S> {
    /// The two hold the same: what they play from here on is the same.
    pub open spec fn alike(&self, other: &Self) -> bool {
        &&& self.biquads@ == other.biquads@
        &&& self.trim_linear == other.trim_linear
        &&& self.delay@ == other.delay@
        &&& self.delay.delay_samples == other.delay.delay_samples
        &&& self.delay.sample_rate == other.delay.sample_rate
    }
}

impl<S: Sample> EqBank<S> {
    /// The first `count` channels of the two hold the same.
    pub open spec fn alike(&self, other: &Self, count: int) -> bool {
        forall|c: int|
            0 <= c < count ==> (#[trigger] self.channels@[c]).alike(&other.channels@[c])
    }
}

impl<S: Sample> DelayPair<S> {
    pub open spec fn alike(&self, other: &Self) -> bool {
        &&& self.buf_l@ == other.buf_l@
        &&& self.buf_r@ == other.buf_r@
        &&& self.write_idx == other.write_idx
    }
}

impl<S: Sample> PadPath<S> {
    pub open spec fn alike(&self, other: &Self) -> bool {
        &&& self.color == other.color
        &&& self.position.delays.alike(&other.position.delays)
        &&& self.modulation.delays.alike(&other.modulation.delays)
        &&& self.modulation.sweep == other.modulation.sweep
    }
}

impl<S: Sample> HardwarePath<S> {
    pub open spec fn alike(&self, other: &Self) -> bool {
        &&& self.noise == other.noise
        &&& self.noise_rates == other.noise_rates
        &&& self.gate == other.gate
        &&& self.gate_rates == other.gate_rates
        &&& self.comp == other.comp
        &&& self.comp_rates == other.comp_rates
        &&& self.eq.alike(&other.eq, 2)
        &&& self.pads.alike(&other.pads)
    }
}

impl<S: Sample> StripPath<S> {
    /// The two strips hold the same.
    pub open spec fn alike(&self, other: &Self) -> bool {
        match (self, other) {
            (StripPath::Hardware(p), StripPath::Hardware(q)) => p.alike(q),
            (StripPath::Virtual(p), StripPath::Virtual(q)) => *p == *q,
            _ => false,
        }
    }
}

proof fn lemma_one_level<S: Sample, M: Elementary<S>>(m: M, x: S, y: S, z: S)
    requires
        elementary::is_settled(m),
        elementary::in_db(m, x, y),
        elementary::in_db(m, x, z),
    ensures
        y == z,
{
}

proof fn lemma_one_denoised<S: Sample, M: Elementary<S>>(
    m: M,
    denoiser: Denoiser<S>,
    rates: DenoiserRates<S>,
    before: NoiseTracker<S>,
    pair: (S, S),
    after1: NoiseTracker<S>,
    out1: (S, S),
    after2: NoiseTracker<S>,
    out2: (S, S),
)
    requires
        elementary::is_settled(m),
        before.denoises(m, denoiser, rates, pair, after1, out1),
        before.denoises(m, denoiser, rates, pair, after2, out2),
    ensures
        after1 == after2,
        out1 == out2,
{
    if !denoiser.is_bypassed() {
        let heard = before.followed(rates, pair.0, pair.1);
        let (l1, d1, t1) = choose|level: S, db: S, target: S|
            #![trigger elementary::roots(m, heard.power(), level), heard.floored_at(rates, db), elementary::in_linear(m, heard.floored_at(rates, db).target_db(denoiser, db), target)]
            {
                let settled = heard.floored_at(rates, db);
                &&& elementary::roots(m, heard.power(), level)
                &&& elementary::in_db(m, crate::knob_curve::floored(level), db)
                &&& elementary::in_linear(m, settled.target_db(denoiser, db), target)
                &&& after1 == settled.eased(rates, target)
                &&& out1 == (pair.0.mul_spec(after1.gain), pair.1.mul_spec(after1.gain))
            };
        let (l2, d2, t2) = choose|level: S, db: S, target: S|
            #![trigger elementary::roots(m, heard.power(), level), heard.floored_at(rates, db), elementary::in_linear(m, heard.floored_at(rates, db).target_db(denoiser, db), target)]
            {
                let settled = heard.floored_at(rates, db);
                &&& elementary::roots(m, heard.power(), level)
                &&& elementary::in_db(m, crate::knob_curve::floored(level), db)
                &&& elementary::in_linear(m, settled.target_db(denoiser, db), target)
                &&& after2 == settled.eased(rates, target)
                &&& out2 == (pair.0.mul_spec(after2.gain), pair.1.mul_spec(after2.gain))
            };
        assert(l1 == l2);
        lemma_one_level(m, crate::knob_curve::floored(l1), d1, d2);
        assert(t1 == t2);
    }
}

proof fn lemma_one_gated<S: Sample, M: Elementary<S>>(
    m: M,
    gate: Gate<S>,
    rates: GateRates<S>,
    before: GateDetector<S>,
    pair: (S, S),
    after1: GateDetector<S>,
    out1: (S, S),
    after2: GateDetector<S>,
    out2: (S, S),
)
    requires
        elementary::is_settled(m),
        before.gates(m, gate, rates, pair, after1, out1),
        before.gates(m, gate, rates, pair, after2, out2),
    ensures
        after1 == after2,
        out1 == out2,
{
    if !gate.bypass {
        let level = crate::knob_curve::floored(before.followed(rates, pair.0, pair.1).envelope);
        assert forall|x: S, y: S| #[trigger]
            elementary::in_db(m, level, x) && #[trigger] elementary::in_db(m, level, y) implies x
            == y by {
            lemma_one_level(m, level, x, y);
        }
    }
}

proof fn lemma_one_compressed<S: Sample, M: Elementary<S>>(
    m: M,
    comp: Compressor<S>,
    rates: CompRates<S>,
    before: CompDetector<S>,
    pair: (S, S),
    after1: CompDetector<S>,
    out1: (S, S),
    after2: CompDetector<S>,
    out2: (S, S),
)
    requires
        elementary::is_settled(m),
        before.compresses(m, comp, rates, pair, after1, out1),
        before.compresses(m, comp, rates, pair, after2, out2),
    ensures
        after1 == after2,
        out1 == out2,
{
    if !comp.bypass {
        let p = comp.params;
        let makeup_db = p.output_gain_db.add_spec(p.makeup_db());
        let g1 = choose|given: CompGains<S>|
            #![trigger before.compressed(comp, rates, pair, given)]
            {
                let boosted = (pair.0.mul_spec(given.input), pair.1.mul_spec(given.input));
                let heard = before.followed(rates, boosted.0, boosted.1);
                let leveled = heard.enveloped(rates, given.level);
                &&& elementary::in_linear(m, p.input_gain_db, given.input)
                &&& elementary::roots(m, heard.power(), given.level)
                &&& elementary::in_db(
                    m,
                    crate::knob_curve::floored(leveled.envelope),
                    given.db,
                )
                &&& elementary::in_linear(
                    m,
                    crate::compressor::reduction_db(given.db, p),
                    given.reduction,
                )
                &&& elementary::in_linear(m, makeup_db, given.makeup)
                &&& (after1, out1) == before.compressed(comp, rates, pair, given)
            };
        let g2 = choose|given: CompGains<S>|
            #![trigger before.compressed(comp, rates, pair, given)]
            {
                let boosted = (pair.0.mul_spec(given.input), pair.1.mul_spec(given.input));
                let heard = before.followed(rates, boosted.0, boosted.1);
                let leveled = heard.enveloped(rates, given.level);
                &&& elementary::in_linear(m, p.input_gain_db, given.input)
                &&& elementary::roots(m, heard.power(), given.level)
                &&& elementary::in_db(
                    m,
                    crate::knob_curve::floored(leveled.envelope),
                    given.db,
                )
                &&& elementary::in_linear(
                    m,
                    crate::compressor::reduction_db(given.db, p),
                    given.reduction,
                )
                &&& elementary::in_linear(m, makeup_db, given.makeup)
                &&& (after2, out2) == before.compressed(comp, rates, pair, given)
            };
        assert(g1.input == g2.input);
        assert(g1.level == g2.level);
        let boosted = (pair.0.mul_spec(g1.input), pair.1.mul_spec(g1.input));
        let leveled = before.followed(rates, boosted.0, boosted.1).enveloped(rates, g1.level);
        lemma_one_level(m, crate::knob_curve::floored(leveled.envelope), g1.db, g2.db);
        assert(g1.reduction == g2.reduction);
        assert(g1.makeup == g2.makeup);
    }
}

proof fn lemma_one_limited<S: Sample, M: Elementary<S>>(
    m: M,
    limiter: Limiter<S>,
    f: Seq<S>,
    g1: Seq<S>,
    g2: Seq<S>,
)
    requires
        elementary::is_settled(m),
        limiter.limits(m, f, g1),
        limiter.limits(m, f, g2),
    ensures
        g1 == g2,
{
}

proof fn lemma_chained_alike<S: Sample>(a: EqChannel<S>, b: EqChannel<S>, x: S)
    requires
        a.alike(&b),
    ensures
        a.output(x) == b.output(x),
        a.trimmed(x) == b.trimmed(x),
{
}

proof fn lemma_channel_moves_alike<S: Sample>(
    a: EqChannel<S>,
    b: EqChannel<S>,
    x: S,
    after_a: EqChannel<S>,
    after_b: EqChannel<S>,
)
    requires
        a.alike(&b),
        a.moves_to(x, &after_a),
        b.moves_to(x, &after_b),
    ensures
        after_a.alike(&after_b),
{
    lemma_chained_alike(a, b, x);
    assert forall|i: int| 0 <= i < NUM_CELLS implies #[trigger] after_a.biquads@[i]
        == after_b.biquads@[i] by {
        assert(after_a.biquads@[i] == a.biquads@[i].after(
            eq_channel::chained(a.biquads@, i as nat, x),
        ));
        assert(after_b.biquads@[i] == b.biquads@[i].after(
            eq_channel::chained(b.biquads@, i as nat, x),
        ));
    }
    assert(after_a.biquads@ =~= after_b.biquads@);
}

proof fn lemma_bank_alike<S: Sample>(
    a: EqBank<S>,
    b: EqBank<S>,
    on: bool,
    count: int,
    f: Seq<S>,
    after_a: EqBank<S>,
    after_b: EqBank<S>,
)
    requires
        a.alike(&b, count),
        forall|c: int|
            0 <= c < count ==> #[trigger] strip_path::bank_moves(a, on, c, f[c], after_a),
        forall|c: int|
            0 <= c < count ==> #[trigger] strip_path::bank_moves(b, on, c, f[c], after_b),
    ensures
        after_a.alike(&after_b, count),
        forall|c: int, x: S|
            0 <= c < count ==> #[trigger] strip_path::bank_output(a, on, c, x)
                == strip_path::bank_output(b, on, c, x),
{
    assert forall|c: int| 0 <= c < count implies (#[trigger] after_a.channels@[c]).alike(
        &after_b.channels@[c],
    ) by {
        assert(strip_path::bank_moves(a, on, c, f[c], after_a));
        assert(strip_path::bank_moves(b, on, c, f[c], after_b));
        assert(a.channels@[c].alike(&b.channels@[c]));
        if on {
            lemma_channel_moves_alike(
                a.channels@[c],
                b.channels@[c],
                f[c],
                after_a.channels@[c],
                after_b.channels@[c],
            );
        }
    }
    assert forall|c: int, x: S| 0 <= c < count implies #[trigger] strip_path::bank_output(
        a,
        on,
        c,
        x,
    ) == strip_path::bank_output(b, on, c, x) by {
        assert(a.channels@[c].alike(&b.channels@[c]));
        lemma_chained_alike(a.channels@[c], b.channels@[c], x);
    }
}

proof fn lemma_position_alike<S: Sample, M: Elementary<S>>(
    m: M,
    pad: PadPosition<S>,
    rate: S,
    f: Seq<S>,
    a: DelayPair<S>,
    b: DelayPair<S>,
    after_a: DelayPair<S>,
    out_a: Seq<S>,
    after_b: DelayPair<S>,
    out_b: Seq<S>,
)
    requires
        elementary::is_settled(m),
        a.alike(&b),
        a.positions(m, pad, rate, f, &after_a, out_a),
        b.positions(m, pad, rate, f, &after_b, out_b),
    ensures
        after_a.alike(&after_b),
        out_a == out_b,
{
}

proof fn lemma_modulation_alike<S: Sample, M: Elementary<S>>(
    m: M,
    pad: PadPosition<S>,
    rate: S,
    f: Seq<S>,
    a: ModulationPad<S>,
    b: ModulationPad<S>,
    after_a: ModulationPad<S>,
    out_a: Seq<S>,
    after_b: ModulationPad<S>,
    out_b: Seq<S>,
)
    requires
        elementary::is_settled(m),
        a.delays.alike(&b.delays),
        a.sweep == b.sweep,
        a.carries(m, pad, rate, f, &after_a, out_a),
        b.carries(m, pad, rate, f, &after_b, out_b),
    ensures
        after_a.delays.alike(&after_b.delays),
        after_a.sweep == after_b.sweep,
        out_a == out_b,
{
}

proof fn lemma_pads_alike<S: Sample, M: Elementary<S>>(
    m: M,
    pads: IntellipanPads<S>,
    rate: S,
    f: Seq<S>,
    a: PadPath<S>,
    b: PadPath<S>,
    after_a: PadPath<S>,
    out_a: Seq<S>,
    after_b: PadPath<S>,
    out_b: Seq<S>,
)
    requires
        elementary::is_settled(m),
        a.alike(&b),
        a.carries(m, pads, rate, f, &after_a, out_a),
        b.carries(m, pads, rate, f, &after_b, out_b),
    ensures
        after_a.alike(&after_b),
        out_a == out_b,
{
    match pads.mode {
        IntellipanMode::Color => {},
        IntellipanMode::Position => {
            lemma_position_alike(
                m,
                pads.position,
                rate,
                f,
                a.position.delays,
                b.position.delays,
                after_a.position.delays,
                out_a,
                after_b.position.delays,
                out_b,
            );
        },
        IntellipanMode::Modulation => {
            lemma_modulation_alike(
                m,
                pads.modulation,
                rate,
                f,
                a.modulation,
                b.modulation,
                after_a.modulation,
                out_a,
                after_b.modulation,
                out_b,
            );
        },
    }
}

proof fn lemma_hardware_alike<S: Sample, M: Elementary<S>>(
    m: M,
    chain: HardwareChain<S>,
    rate: S,
    f: Seq<S>,
    p: HardwarePath<S>,
    q: HardwarePath<S>,
    after_p: HardwarePath<S>,
    out_p: Seq<S>,
    after_q: HardwarePath<S>,
    out_q: Seq<S>,
)
    requires
        elementary::is_settled(m),
        p.alike(&q),
        p.carries(m, chain, rate, f, &after_p, out_p),
        q.carries(m, chain, rate, f, &after_q, out_q),
    ensures
        after_p.alike(&after_q),
        out_p == out_q,
{
    let (a1, b1, c1, h1) = choose|a: (S, S), b: (S, S), c: (S, S), h: Seq<S>| #[trigger]
        p.stages(m, chain, rate, f, a, b, c, h, &after_p, out_p);
    let (a2, b2, c2, h2) = choose|a: (S, S), b: (S, S), c: (S, S), h: Seq<S>| #[trigger]
        q.stages(m, chain, rate, f, a, b, c, h, &after_q, out_q);
    lemma_one_denoised(
        m,
        chain.denoiser,
        p.noise_rates,
        p.noise,
        (f[0], f[1]),
        after_p.noise,
        a1,
        after_q.noise,
        a2,
    );
    lemma_one_gated(
        m,
        chain.gate,
        p.gate_rates,
        p.gate,
        a1,
        after_p.gate,
        b1,
        after_q.gate,
        b2,
    );
    lemma_one_compressed(
        m,
        chain.compressor,
        p.comp_rates,
        p.comp,
        b1,
        after_p.comp,
        c1,
        after_q.comp,
        c2,
    );
    let on = chain.eq.on;
    let pair = seq![c1.0, c1.1];
    assert forall|c: int| 0 <= c < 2 implies #[trigger] strip_path::bank_moves(
        p.eq,
        on,
        c,
        pair[c],
        after_p.eq,
    ) by {
        assert(c == 0 || c == 1);
    }
    assert forall|c: int| 0 <= c < 2 implies #[trigger] strip_path::bank_moves(
        q.eq,
        on,
        c,
        pair[c],
        after_q.eq,
    ) by {
        assert(c == 0 || c == 1);
    }
    lemma_bank_alike(p.eq, q.eq, on, 2, pair, after_p.eq, after_q.eq);
    let d0 = strip_path::bank_output(p.eq, on, 0, c1.0);
    let d1 = strip_path::bank_output(p.eq, on, 1, c1.1);
    assert(d0 == strip_path::bank_output(q.eq, on, 0, c2.0));
    assert(d1 == strip_path::bank_output(q.eq, on, 1, c2.1));
    lemma_pads_alike(
        m,
        chain.pad,
        rate,
        f.update(0, d0).update(1, d1),
        p.pads,
        q.pads,
        after_p.pads,
        h1,
        after_q.pads,
        h2,
    );
    lemma_one_limited(m, chain.limiter, chain.pan.panned(h1), out_p, out_q);
}

proof fn lemma_strip_alike<S: Sample, M: Elementary<S>>(
    m: M,
    chain: StripChain<S>,
    rate: S,
    f: Seq<S>,
    p: StripPath<S>,
    q: StripPath<S>,
    after_p: StripPath<S>,
    out_p: Seq<S>,
    after_q: StripPath<S>,
    out_q: Seq<S>,
)
    requires
        elementary::is_settled(m),
        p.alike(&q),
        p.carries(m, chain, rate, f, &after_p, out_p),
        q.carries(m, chain, rate, f, &after_q, out_q),
    ensures
        after_p.alike(&after_q),
        out_p == out_q,
{
    match (p, q, chain, after_p, after_q) {
        (
            StripPath::Hardware(p),
            StripPath::Hardware(q),
            StripChain::Hardware(c),
            StripPath::Hardware(r),
            StripPath::Hardware(t),
        ) => {
            lemma_hardware_alike(m, c, rate, f, p, q, r, out_p, t, out_q);
        },
        (
            StripPath::Virtual(p),
            StripPath::Virtual(q),
            StripChain::Virtual(c),
            StripPath::Virtual(r),
            StripPath::Virtual(t),
        ) => {
            lemma_one_limited(
                m,
                c.limiter,
                c.pan_pad.placed(p.voiced(c, f)),
                out_p,
                out_q,
            );
        },
        _ => {},
    }
}

proof fn lemma_one_mix<S: Sample, M: Elementary<S>>(
    m: M,
    engine: Engine<S>,
    a: Levels<S>,
    b: Levels<S>,
)
    requires
        elementary::is_settled(m),
        a.are_of(m, engine),
        b.are_of(m, engine),
    ensures
        a == b,
{
    assert forall|s: int| 0 <= s < NUM_STRIPS implies #[trigger] a.strips@[s] == b.strips@[s] by {
        assert forall|k: int| 0 <= k < NUM_BUSES implies #[trigger] a.strips@[s]@[k]
            == b.strips@[s]@[k] by {
            assert(a.gain(s, k) == b.gain(s, k));
        }
        assert(a.strips@[s] =~= b.strips@[s]);
    }
    assert(a.strips =~= b.strips);
    assert forall|k: int| 0 <= k < NUM_BUSES implies #[trigger] a.buses@[k] == b.buses@[k] by {}
    assert(a.buses =~= b.buses);
}

impl<S: Sample> SignalPath<S> {
    /// The two paths hold the same on every strip but `s`, and on bus `b`.
    pub open spec fn alike_but(&self, other: &Self, s: int, b: int) -> bool {
        &&& forall|k: int|
            0 <= k < NUM_STRIPS && k != s ==> (#[trigger] self.strips@[k]).alike(&other.strips@[k])
        &&& self.buses@[b].alike(&other.buses@[b], CHANNELS as int)
    }
}

proof fn lemma_sample_isolated<S: Sample, M: Elementary<S>>(
    m: M,
    engine: Engine<S>,
    levels: Levels<S>,
    s: int,
    b: int,
    p: SignalPath<S>,
    inputs_p: Seq<Frame<S>>,
    processed_p: Seq<Frame<S>>,
    after_p: SignalPath<S>,
    out_p: Seq<Frame<S>>,
    q: SignalPath<S>,
    inputs_q: Seq<Frame<S>>,
    processed_q: Seq<Frame<S>>,
    after_q: SignalPath<S>,
    out_q: Seq<Frame<S>>,
)
    requires
        elementary::is_settled(m),
        0 <= s < NUM_STRIPS,
        0 <= b < NUM_BUSES,
        engine.buses@[b].mode != BusMode::Composite,
        !engine.heard(s) || !engine.strips@[s].bus_assign@[b],
        p.alike_but(&q, s, b),
        forall|k: int| 0 <= k < NUM_STRIPS && k != s ==> #[trigger] inputs_p[k] == inputs_q[k],
        p.plays(m, engine, levels, inputs_p, processed_p, &after_p, out_p),
        q.plays(m, engine, levels, inputs_q, processed_q, &after_q, out_q),
    ensures
        after_p.alike_but(&after_q, s, b),
        out_p[b] == out_q[b],
{
    let rate = engine.sample_rate;
    assert forall|k: int| 0 <= k < NUM_STRIPS && k != s implies (
    #[trigger] after_p.strips@[k]).alike(&after_q.strips@[k]) && processed_p[k] == processed_q[k] by {
        assert(p.strips@[k].alike(&q.strips@[k]));
        assert(inputs_p[k] == inputs_q[k]);
        assert(p.strip_plays(m, engine, k, inputs_p[k], &after_p, processed_p[k]));
        assert(q.strip_plays(m, engine, k, inputs_q[k], &after_q, processed_q[k]));
        let chain = engine.strips@[k].chain;
        if engine.runs(k) {
            let raw_p = choose|raw: Seq<S>|
                #[trigger] p.strips@[k].carries(
                    m,
                    chain,
                    rate,
                    inputs_p[k]@,
                    &after_p.strips@[k],
                    raw,
                ) && processed_p[k]@ == (if engine.strips@[k].mono {
                    mix::mono(raw)
                } else {
                    raw
                });
            let raw_q = choose|raw: Seq<S>|
                #[trigger] q.strips@[k].carries(
                    m,
                    chain,
                    rate,
                    inputs_q[k]@,
                    &after_q.strips@[k],
                    raw,
                ) && processed_q[k]@ == (if engine.strips@[k].mono {
                    mix::mono(raw)
                } else {
                    raw
                });
            lemma_strip_alike(
                m,
                chain,
                rate,
                inputs_p[k]@,
                p.strips@[k],
                q.strips@[k],
                after_p.strips@[k],
                raw_p,
                after_q.strips@[k],
                raw_q,
            );
        } else {
            assert(processed_p[k]@ =~= processed_q[k]@);
        }
        assert(processed_p[k] =~= processed_q[k]);
    }
    assert forall|k: int| 0 <= k < NUM_STRIPS && k != s implies #[trigger] processed_p[k]
        == processed_q[k] by {
        let r = after_p.strips@[k];
    }
    mix::law_unheard_strip_is_silent(engine, levels, processed_p, processed_q, s, b);
    let f = engine.gathered(levels, inputs_p, processed_p, b);
    assert(f == engine.gathered(levels, inputs_q, processed_q, b));
    assert(p.bus_plays(engine, levels, inputs_p, processed_p, b, &after_p, out_p[b]));
    assert(q.bus_plays(engine, levels, inputs_q, processed_q, b, &after_q, out_q[b]));
    let on = engine.buses@[b].eq.on;
    lemma_bank_alike(
        p.buses@[b],
        q.buses@[b],
        on,
        CHANNELS as int,
        f,
        after_p.buses@[b],
        after_q.buses@[b],
    );
    assert(p.equalised(engine, b, f) =~= q.equalised(engine, b, f));
    assert(out_p[b] =~= out_q[b]);
}

/// A strip that is muted, soloed away or not assigned to a bus has no influence
/// on what the bus plays: two blocks from the same state whose inputs differ on
/// that strip alone are the same on that bus. A bus in Composite mode is left
/// aside, since its patch may take a strip past its mute.
pub proof fn law_an_unheard_strip_has_no_influence<S: Sample, M: Elementary<S>>(
    m: M,
    engine: Engine<S>,
    s: int,
    b: int,
    frames: int,
    levels_p: Levels<S>,
    inputs_p: Seq<Vec<Frame<S>>>,
    outputs_p: Seq<Vec<Frame<S>>>,
    states_p: Seq<SignalPath<S>>,
    levels_q: Levels<S>,
    inputs_q: Seq<Vec<Frame<S>>>,
    outputs_q: Seq<Vec<Frame<S>>>,
    states_q: Seq<SignalPath<S>>,
    n: int,
)
    requires
        elementary::is_settled(m),
        0 <= s < NUM_STRIPS,
        0 <= b < NUM_BUSES,
        engine.buses@[b].mode != BusMode::Composite,
        !engine.heard(s) || !engine.strips@[s].bus_assign@[b],
        levels_p.are_of(m, engine),
        levels_q.are_of(m, engine),
        inputs_p.len() == NUM_STRIPS,
        inputs_q.len() == NUM_STRIPS,
        outputs_p.len() == NUM_BUSES,
        outputs_q.len() == NUM_BUSES,
        forall|k: int, f: int|
            0 <= k < NUM_STRIPS && k != s && 0 <= f < frames ==> #[trigger] inputs_p[k]@[f]
                == inputs_q[k]@[f],
        states_p[0].alike_but(&states_q[0], s, b),
        signal_path::renders(m, engine, levels_p, inputs_p, outputs_p, frames, states_p),
        signal_path::renders(m, engine, levels_q, inputs_q, outputs_q, frames, states_q),
        0 <= n <= frames,
    ensures
        states_p[n].alike_but(&states_q[n], s, b),
        forall|f: int| 0 <= f < n ==> #[trigger] outputs_p[b]@[f] == outputs_q[b]@[f],
    decreases n,
{
    lemma_one_mix(m, engine, levels_p, levels_q);
    if n > 0 {
        law_an_unheard_strip_has_no_influence(
            m,
            engine,
            s,
            b,
            frames,
            levels_p,
            inputs_p,
            outputs_p,
            states_p,
            levels_q,
            inputs_q,
            outputs_q,
            states_q,
            n - 1,
        );
        let f = n - 1;
        assert(signal_path::sample_played(
            m,
            engine,
            levels_p,
            states_p,
            inputs_p,
            outputs_p,
            f,
        ));
        assert(signal_path::sample_played(
            m,
            engine,
            levels_q,
            states_q,
            inputs_q,
            outputs_q,
            f,
        ));
        let processed_p = choose|processed: Seq<Frame<S>>| #[trigger]
            states_p[f].plays(
                m,
                engine,
                levels_p,
                signal_path::column(inputs_p, f),
                processed,
                &states_p[f + 1],
                signal_path::column(outputs_p, f),
            );
        let processed_q = choose|processed: Seq<Frame<S>>| #[trigger]
            states_q[f].plays(
                m,
                engine,
                levels_q,
                signal_path::column(inputs_q, f),
                processed,
                &states_q[f + 1],
                signal_path::column(outputs_q, f),
            );
        assert forall|k: int| 0 <= k < NUM_STRIPS && k != s implies #[trigger] signal_path::column(
            inputs_p,
            f,
        )[k] == signal_path::column(inputs_q, f)[k] by {
            assert(inputs_p[k]@[f] == inputs_q[k]@[f]);
        }
        lemma_sample_isolated(
            m,
            engine,
            levels_p,
            s,
            b,
            states_p[f],
            signal_path::column(inputs_p, f),
            processed_p,
            states_p[f + 1],
            signal_path::column(outputs_p, f),
            states_q[f],
            signal_path::column(inputs_q, f),
            processed_q,
            states_q[f + 1],
            signal_path::column(outputs_q, f),
        );
        assert(signal_path::column(outputs_p, f)[b] == outputs_p[b]@[f]);
        assert(signal_path::column(outputs_q, f)[b] == outputs_q[b]@[f]);
    }
}

} // verus!
