//! What a fader is for: how loud a strip is on a bus, and how loud a bus plays.

use crate::bus::BusMono;
use crate::bus_mode::{self, BusMode};
use crate::dynamics_laws;
use crate::elementary::{self, Elementary};
use crate::engine::Engine;
use crate::exact::{self, Functions};
use crate::mix::{self, Levels};
use crate::num::{self, Sample};
use crate::patch::CompositeSource;
use crate::signal_path::{self, SignalPath};
use crate::strip_path;
use crate::{Frame, CHANNELS, NUM_BUSES, NUM_STRIPS};
use vstd::prelude::*;
use vstd::std_specs::ops::{AddSpec, MulSpec, SubSpec};

verus! {

/// What bus `b` makes of channel `c` of what it has gathered: its equaliser, where
/// that is on.
pub open spec fn behind_the_equaliser<S: Sample>(
    engine: Engine<S>,
    levels: Levels<S>,
    path: SignalPath<S>,
    inputs: Seq<Frame<S>>,
    processed: Seq<Frame<S>>,
    b: int,
    c: int,
) -> S {
    let x = engine.gathered(levels, inputs, processed, b)[c];
    if engine.buses@[b].eq.on {
        path.buses@[b].channels@[c].output(x)
    } else {
        x
    }
}

/// An unmuted bus that is neither summed to mono nor reversed plays what comes out
/// of its equaliser times an amplitude of its own gain, in every channel.
pub proof fn law_a_bus_plays_at_its_gain<S: Sample, M: Elementary<S>>(
    m: M,
    engine: Engine<S>,
    levels: Levels<S>,
    path: SignalPath<S>,
    inputs: Seq<Frame<S>>,
    processed: Seq<Frame<S>>,
    b: int,
    after: SignalPath<S>,
    out: Frame<S>,
)
    requires
        levels.are_of(m, engine),
        0 <= b < NUM_BUSES,
        !engine.buses@[b].mute,
        engine.buses@[b].mono == BusMono::Off,
        path.bus_plays(engine, levels, inputs, processed, b, &after, out),
    ensures
        exists|a: S| #[trigger]
            elementary::in_linear(m, engine.buses@[b].gain_db, a) && forall|c: int|
                0 <= c < CHANNELS ==> #[trigger] out@[c] == behind_the_equaliser(
                    engine,
                    levels,
                    path,
                    inputs,
                    processed,
                    b,
                    c,
                ).mul_spec(a),
{
    let f = engine.gathered(levels, inputs, processed, b);
    let a = levels.buses@[b];
    assert(elementary::in_linear(m, engine.buses@[b].gain_db, a));
    let e = path.equalised(engine, b, f);
    assert(out@ == engine.finished(levels, b, e));
    assert forall|c: int| 0 <= c < CHANNELS implies #[trigger] out@[c] == behind_the_equaliser(
        engine,
        levels,
        path,
        inputs,
        processed,
        b,
        c,
    ).mul_spec(a) by {
        assert(e[c] == strip_path::bank_output(path.buses@[b], engine.buses@[b].eq.on, c, f[c]));
    }
}

/// The same of every sample of a rendered block: what [`Engine::process_block`]
/// writes for an unmuted bus with mono off is what came out of the bus's equaliser
/// at that sample, times an amplitude of the bus's gain.
pub proof fn law_a_block_is_at_the_bus_gain<S: Sample, M: Elementary<S>>(
    m: M,
    engine: Engine<S>,
    levels: Levels<S>,
    inputs: Seq<Vec<Frame<S>>>,
    outputs: Seq<Vec<Frame<S>>>,
    frames: int,
    states: Seq<SignalPath<S>>,
    b: int,
    n: int,
)
    requires
        levels.are_of(m, engine),
        signal_path::renders(m, engine, levels, inputs, outputs, frames, states),
        outputs.len() == NUM_BUSES,
        0 <= b < NUM_BUSES,
        0 <= n < frames,
        !engine.buses@[b].mute,
        engine.buses@[b].mono == BusMono::Off,
    ensures
        exists|processed: Seq<Frame<S>>, a: S|
            #![trigger elementary::in_linear(m, engine.buses@[b].gain_db, a), states[n].plays(m, engine, levels, signal_path::column(inputs, n), processed, &states[n + 1], signal_path::column(outputs, n))]
            {
                &&& elementary::in_linear(m, engine.buses@[b].gain_db, a)
                &&& states[n].plays(
                    m,
                    engine,
                    levels,
                    signal_path::column(inputs, n),
                    processed,
                    &states[n + 1],
                    signal_path::column(outputs, n),
                )
                &&& forall|c: int|
                    0 <= c < CHANNELS ==> #[trigger] outputs[b]@[n]@[c] == behind_the_equaliser(
                        engine,
                        levels,
                        states[n],
                        signal_path::column(inputs, n),
                        processed,
                        b,
                        c,
                    ).mul_spec(a)
            },
{
    assert(signal_path::sample_played(m, engine, levels, states, inputs, outputs, n));
    let ins = signal_path::column(inputs, n);
    let outs = signal_path::column(outputs, n);
    let processed = choose|processed: Seq<Frame<S>>| #[trigger]
        states[n].plays(m, engine, levels, ins, processed, &states[n + 1], outs);
    assert(outs[b] == outputs[b]@[n]);
    law_a_bus_plays_at_its_gain(
        m,
        engine,
        levels,
        states[n],
        ins,
        processed,
        b,
        states[n + 1],
        outs[b],
    );
}

/// How loud a bus plays, in values: its amplitude is nought where it is muted and
/// ten to the twentieth of its gain otherwise. In mono both front channels carry
/// the mean of the pair, in reverse they change places, and the other channels
/// stay.
pub proof fn law_how_loud_a_bus_plays<S: Sample, M: Elementary<S>>(
    v: spec_fn(S) -> real,
    m: M,
    f: Functions,
    engine: Engine<S>,
    levels: Levels<S>,
    path: SignalPath<S>,
    inputs: Seq<Frame<S>>,
    processed: Seq<Frame<S>>,
    b: int,
    after: SignalPath<S>,
    out: Frame<S>,
    c: int,
)
    requires
        exact::is_exact(v),
        exact::computes(v, m, f),
        levels.are_of(m, engine),
        0 <= b < NUM_BUSES,
        0 <= c < CHANNELS,
        path.bus_plays(engine, levels, inputs, processed, b, &after, out),
    ensures
        ({
            let x = |k: int|
                v(behind_the_equaliser(engine, levels, path, inputs, processed, b, k));
            let amplitude = if engine.buses@[b].mute {
                0real
            } else {
                (f.ten)(v(engine.buses@[b].gain_db) / 20real)
            };
            v(out@[c]) == amplitude * (match engine.buses@[b].mono {
                BusMono::Off => x(c),
                BusMono::Mono => if c < 2 {
                    (x(0) + x(1)) / 2real
                } else {
                    x(c)
                },
                BusMono::StereoReverse => if c == 0 {
                    x(1)
                } else if c == 1 {
                    x(0)
                } else {
                    x(c)
                },
            })
        }),
{
    let g = engine.gathered(levels, inputs, processed, b);
    let e = path.equalised(engine, b, g);
    assert forall|k: int| 0 <= k < CHANNELS implies #[trigger] e[k] == behind_the_equaliser(
        engine,
        levels,
        path,
        inputs,
        processed,
        b,
        k,
    ) by {}
    let a = if engine.buses@[b].mute {
        num::whole::<S>(0)
    } else {
        levels.buses@[b]
    };
    dynamics_laws::law_decibels(v, m, f, engine.buses@[b].gain_db, levels.buses@[b]);
    let front = match engine.buses@[b].mono {
        BusMono::Off => e,
        BusMono::Mono => mix::mono(e),
        BusMono::StereoReverse => mix::reversed(e),
    };
    assert(out@[c] == front[c].mul_spec(a));
    let (p, q) = (v(front[c]), v(a));
    assert(p * q == q * p) by (nonlinear_arith);
    exact::law_fractions(v, 1, 2);
    assert(e[0] == behind_the_equaliser(engine, levels, path, inputs, processed, b, 0));
    assert(e[1] == behind_the_equaliser(engine, levels, path, inputs, processed, b, 1));
    let (half, sum) = (v(num::ratio::<S>(1, 2)), v(e[0]) + v(e[1]));
    assert(v(e[0].add_spec(e[1]).mul_spec(num::ratio::<S>(1, 2))) == sum * half);
    assert(sum * half == sum / 2real) by (nonlinear_arith)
        requires
            half == 1real / 2real,
    ;
}

/// Two gains of one bus give outputs in the proportion of their amplitudes: the
/// one setting's output times the other's amplitude is the same either way.
pub proof fn law_two_gains_give_their_proportion<S: Sample, M: Elementary<S>>(
    v: spec_fn(S) -> real,
    m: M,
    f: Functions,
    engine: Engine<S>,
    other: Engine<S>,
    levels: Levels<S>,
    others: Levels<S>,
    path: SignalPath<S>,
    inputs: Seq<Frame<S>>,
    processed: Seq<Frame<S>>,
    b: int,
    after: (SignalPath<S>, SignalPath<S>),
    out: (Frame<S>, Frame<S>),
    c: int,
)
    requires
        exact::is_exact(v),
        exact::computes(v, m, f),
        levels.are_of(m, engine),
        others.are_of(m, other),
        0 <= b < NUM_BUSES,
        0 <= c < CHANNELS,
        !engine.buses@[b].mute && !other.buses@[b].mute,
        engine.buses@[b].mono == BusMono::Off && other.buses@[b].mono == BusMono::Off,
        engine.buses@[b].eq.on == other.buses@[b].eq.on,
        engine.gathered(levels, inputs, processed, b) == other.gathered(
            others,
            inputs,
            processed,
            b,
        ),
        path.bus_plays(engine, levels, inputs, processed, b, &after.0, out.0),
        path.bus_plays(other, others, inputs, processed, b, &after.1, out.1),
    ensures
        v(out.0@[c]) * (f.ten)(v(other.buses@[b].gain_db) / 20real) == v(out.1@[c]) * (f.ten)(
            v(engine.buses@[b].gain_db) / 20real,
        ),
{
    law_how_loud_a_bus_plays(
        v, m, f, engine, levels, path, inputs, processed, b, after.0, out.0, c,
    );
    law_how_loud_a_bus_plays(
        v, m, f, other, others, path, inputs, processed, b, after.1, out.1, c,
    );
    let x = v(behind_the_equaliser(engine, levels, path, inputs, processed, b, c));
    let k = (f.ten)(v(engine.buses@[b].gain_db) / 20real);
    let l = (f.ten)(v(other.buses@[b].gain_db) / 20real);
    assert((k * x) * l == (l * x) * k) by (nonlinear_arith);
}

/// Strip `s` is let onto bus `b`: it is assigned there, not muted, and soloed
/// wherever any strip is.
pub open spec fn is_on<S: Sample>(engine: Engine<S>, s: int, b: int) -> bool {
    &&& engine.strips@[s].bus_assign@[b]
    &&& !engine.strips@[s].mute
    &&& engine.strips@[s].solo || forall|k: int|
        0 <= k < NUM_STRIPS ==> !(#[trigger] engine.strips@[k]).solo
}

/// The first `count` strips on bus `b`, each at ten to the twentieth of its own
/// fader for that bus.
pub open spec fn added<S: Sample>(
    v: spec_fn(S) -> real,
    f: Functions,
    engine: Engine<S>,
    processed: Seq<Frame<S>>,
    b: int,
    c: int,
    count: int,
) -> real
    decreases count,
{
    if count <= 0 {
        0real
    } else {
        let s = count - 1;
        added(v, f, engine, processed, b, c, s) + (if is_on(engine, s, b) {
            v(processed[s]@[c]) * (f.ten)(v(engine.strips@[s].gain_layer_db@[b]) / 20real)
        } else {
            0real
        })
    }
}

/// A bus carries the sum of the strips that are on it, each as loud as its fader
/// for that bus says, and nothing of the others.
pub proof fn law_a_bus_sums_its_strips<S: Sample, M: Elementary<S>>(
    v: spec_fn(S) -> real,
    m: M,
    f: Functions,
    engine: Engine<S>,
    levels: Levels<S>,
    processed: Seq<Frame<S>>,
    b: int,
    c: int,
)
    requires
        exact::is_exact(v),
        exact::computes(v, m, f),
        levels.are_of(m, engine),
        0 <= b < NUM_BUSES,
        0 <= c < CHANNELS,
    ensures
        v(engine.sum_of(levels, processed, b)[c]) == added(
            v,
            f,
            engine,
            processed,
            b,
            c,
            NUM_STRIPS as int,
        ),
{
    lemma_added(v, m, f, engine, levels, processed, b, c, NUM_STRIPS as int);
}

proof fn lemma_added<S: Sample, M: Elementary<S>>(
    v: spec_fn(S) -> real,
    m: M,
    f: Functions,
    engine: Engine<S>,
    levels: Levels<S>,
    processed: Seq<Frame<S>>,
    b: int,
    c: int,
    count: int,
)
    requires
        exact::is_exact(v),
        exact::computes(v, m, f),
        levels.are_of(m, engine),
        0 <= b < NUM_BUSES,
        0 <= c < CHANNELS,
        0 <= count <= NUM_STRIPS,
    ensures
        v(engine.summed(levels, processed, b, c, count)) == added(
            v,
            f,
            engine,
            processed,
            b,
            c,
            count,
        ),
    decreases count,
{
    if count > 0 {
        let s = count - 1;
        lemma_added(v, m, f, engine, levels, processed, b, c, s);
        let gain = levels.gain(s, b);
        assert(elementary::in_linear(m, engine.strips@[s].gain_layer_db@[b], gain));
        dynamics_laws::law_decibels(v, m, f, engine.strips@[s].gain_layer_db@[b], gain);
        assert(engine.any_solo() == !(forall|k: int|
            0 <= k < NUM_STRIPS ==> !(#[trigger] engine.strips@[k]).solo)) by {
            if engine.any_solo() {
                let k = choose|k: int|
                    0 <= k < NUM_STRIPS && (#[trigger] engine.strips@[k]).solo;
                assert(engine.strips@[k].solo);
            }
        }
        let x = v(processed[s]@[c]);
        let g = v(gain);
        assert(g == 0real ==> x * g == 0real) by (nonlinear_arith);
    }
}

/// What a bus makes of its sum, in values, mode by mode. A mixdown folds
/// everything into the front pair; an up-mix keeps the front pair and makes the
/// rest of it; the others pick one pair or one channel out.
pub proof fn law_what_a_mode_does<S: Sample>(v: spec_fn(S) -> real, mode: BusMode, f: Seq<S>)
    requires
        exact::is_exact(v),
        f.len() == CHANNELS,
    ensures
        ({
            let g = bus_mode::shaped(mode, f);
            let (fl, fr, fc, sw) = (v(f[0]), v(f[1]), v(f[2]), v(f[3]));
            let (rl, rr, sl, sr) = (v(f[4]), v(f[5]), v(f[6]), v(f[7]));
            let nothing_from = |k: int| forall|c: int| k <= c < CHANNELS ==> v(#[trigger] g[c]) == 0real;
            &&& g.len() == CHANNELS
            &&& mode == BusMode::Normal || mode == BusMode::Composite ==> g == f
            &&& mode == BusMode::MixDownA ==> 10real * v(g[0]) == 10real * fl + 7real * fc + 10real
                * sw + 10real * rl - 10real * sl && 10real * v(g[1]) == 10real * fr + 7real * fc
                + 10real * sw - 10real * rr + 10real * sr && nothing_from(2)
            &&& mode == BusMode::MixDownB ==> 10real * v(g[0]) == 10real * fl + 7real * fc + 10real
                * sw + 10real * rl + 10real * sl && 10real * v(g[1]) == 10real * fr + 7real * fc
                + 10real * sw + 10real * rr + 10real * sr && nothing_from(2)
            &&& mode == BusMode::StereoRepeat ==> forall|c: int|
                0 <= c < CHANNELS ==> #[trigger] g[c] == f[c % 2]
            &&& mode == BusMode::UpMixTv || mode == BusMode::UpMix21 || mode == BusMode::UpMix41
                || mode == BusMode::UpMix61 ==> g[0] == f[0] && g[1] == f[1] && 2real * v(g[3])
                == fl + fr
            &&& mode == BusMode::UpMixTv ==> 10real * v(g[2]) == 2real * (fl + fr) && 10real * v(g[4])
                == 7real * (fl - fr) && 10real * v(g[5]) == 7real * (fr - fl) && g[6] == g[4]
                && g[7] == g[5]
            &&& mode == BusMode::UpMix21 ==> v(g[2]) == 0real && nothing_from(4)
            &&& mode == BusMode::UpMix41 ==> v(g[2]) == 0real && g[4] == f[0] && g[5] == f[1]
                && nothing_from(6)
            &&& mode == BusMode::UpMix61 ==> v(g[2]) == 0real && g[4] == f[0] && g[5] == f[1]
                && g[6] == f[0] && g[7] == f[1]
            &&& mode == BusMode::CenterOnly ==> g[0] == f[2] && g[1] == f[2] && nothing_from(2)
            &&& mode == BusMode::LfeOnly ==> g[0] == f[3] && g[1] == f[3] && nothing_from(2)
            &&& mode == BusMode::RearOnly ==> g[0] == f[4] && g[1] == f[5] && nothing_from(2)
        }),
{
    let (fl, fr, fc) = (f[0], f[1], f[2]);
    lemma_part(v, 7, 10, fc);
    lemma_part(v, 2, 10, fl.add_spec(fr));
    lemma_part(v, 1, 2, fl.add_spec(fr));
    lemma_part(v, 7, 10, fl.sub_spec(fr));
    lemma_part(v, 7, 10, fr.sub_spec(fl));
}

/// A fraction of a number.
proof fn lemma_part<S: Sample>(v: spec_fn(S) -> real, n: int, d: int, x: S)
    requires
        exact::is_exact(v),
        0 <= n < 0x8000,
        0 < d < 0x8000,
    ensures
        (d as real) * v(num::ratio::<S>(n, d).mul_spec(x)) == (n as real) * v(x),
{
    exact::law_fractions(v, n, d);
    let (a, b, r, y) = (n as real, d as real, v(num::ratio::<S>(n, d)), v(x));
    assert(b > 0real);
    assert(b * (r * y) == a * y) by (nonlinear_arith)
        requires
            r == a / b,
            b > 0real,
    ;
}

/// Ahead of its equaliser a bus carries its mode's shape of its sum; in Composite
/// mode each channel is what the patch puts there: a strip's channel as it came in,
/// or, behind the fader, as it is played and as loud as its fader for this bus.
pub proof fn law_what_a_bus_gathers<S: Sample, M: Elementary<S>>(
    v: spec_fn(S) -> real,
    m: M,
    f: Functions,
    engine: Engine<S>,
    levels: Levels<S>,
    inputs: Seq<Frame<S>>,
    processed: Seq<Frame<S>>,
    b: int,
    c: int,
)
    requires
        exact::is_exact(v),
        exact::computes(v, m, f),
        levels.are_of(m, engine),
        engine.patch.wf(),
        0 <= b < NUM_BUSES,
        0 <= c < CHANNELS,
    ensures
        ({
            let g = engine.gathered(levels, inputs, processed, b);
            if engine.buses@[b].mode != BusMode::Composite {
                g == bus_mode::shaped(
                    engine.buses@[b].mode,
                    engine.sum_of(levels, processed, b),
                )
            } else {
                match engine.patch.composite@[c] {
                    CompositeSource::Default => v(g[c]) == added(
                        v,
                        f,
                        engine,
                        processed,
                        b,
                        c,
                        NUM_STRIPS as int,
                    ),
                    CompositeSource::Strip { strip, channel } => if engine.patch.composite_post_fader {
                        v(g[c]) == v(processed[strip as int]@[channel as int]) * (f.ten)(
                            v(engine.strips@[strip as int].gain_layer_db@[b]) / 20real,
                        )
                    } else {
                        g[c] == inputs[strip as int]@[channel as int]
                    },
                }
            }
        }),
{
    law_a_bus_sums_its_strips(v, m, f, engine, levels, processed, b, c);
    if let CompositeSource::Strip { strip, channel } = engine.patch.composite@[c] {
        assert(engine.patch.composite@[c] is Strip);
        let gain = levels.gain(strip as int, b);
        assert(strip < NUM_STRIPS);
        assert(elementary::in_linear(m, engine.strips@[strip as int].gain_layer_db@[b], gain));
        dynamics_laws::law_decibels(
            v,
            m,
            f,
            engine.strips@[strip as int].gain_layer_db@[b],
            gain,
        );
    }
}

} // verus!
