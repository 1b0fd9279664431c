//! What the stages between a strip's input and a bus's meter do, one behind the
//! other.

use crate::channel_layout;
use crate::dynamics_laws::{self, step};
use crate::drift_laws;
use crate::elementary::{self, Elementary};
use crate::engine::Engine;
use crate::eq_channel::{self, CellTone, ChannelTuning, DelayLine, EqChannel};
use crate::exact::{self, Functions};
use crate::intellipan::{IntellipanMode, IntellipanPads};
use crate::io_driver::{EngineIoDriver, MASTER_BUS};
use crate::ioproc::{self, Captured, DriftCorrectedIoStage, Rendered};
use crate::meter::{Ballistics, Reading};
use crate::mix;
use crate::num::{self, Sample};
use crate::parametric_eq::{EqChannelParams, NUM_CELLS};
use crate::precision::{self, Precision};
use crate::render;
use crate::resample::Resampler;
use crate::ring::{Inbox, Outbox};
use crate::signal_path::SignalPath;
use crate::strip_dsp::{HardwareChain, VirtualChain};
use crate::strip_path::{self, HardwarePath, PadPath, VirtualPath};
use crate::tone_laws;
use crate::{Frame, CHANNELS, NUM_STRIPS};
use vstd::prelude::*;
use vstd::std_specs::ops::{AddSpec, DivSpec, MulSpec};

verus! {

/// The cells of an equaliser stand one behind the other: each hears what the one
/// before it leaves, and the first what comes in.
pub proof fn law_cells_stand_in_series<S: Sample>(channel: EqChannel<S>, x: S)
    ensures
        ({
            let b = channel.biquads@;
            let x1 = b[0].output(x);
            let x2 = b[1].output(x1);
            let x3 = b[2].output(x2);
            let x4 = b[3].output(x3);
            let x5 = b[4].output(x4);
            eq_channel::chained(b, NUM_CELLS as nat, x) == b[5].output(x5)
        }),
{
    reveal_with_fuel(eq_channel::chained, 7);
}

/// What a channel of an equaliser is set to: a cell that is on is on its way to its
/// filter and one that is off is out of the way, the trim is as many decibels as
/// it says, and the delay is the nearest number of samples to what it says, from
/// nought to half a second.
pub proof fn law_what_an_equaliser_is_set_to<S: Sample, M: Elementary<S>>(
    v: spec_fn(S) -> real,
    m: M,
    f: Functions,
    channel: EqChannel<S>,
    params: EqChannelParams<S>,
    rate: S,
    capacity: usize,
    after: EqChannel<S>,
)
    requires
        exact::is_exact(v),
        exact::computes(v, m, f),
        (f.ten)(0real) == 1real,
        v(rate) > 0real,
        channel.wf(),
        eq_channel::is_capacity(m, rate, capacity),
        capacity < usize::MAX,
        channel.delay@.len() == capacity,
        channel.in_line(m, params, rate, &after),
    ensures
        v(after.trim_linear) == (f.ten)(v(params.trim_db) / 20real),
        ({
            let d = exact::held(v(params.delay_ms), 0real, 500real) / 1000real * v(rate);
            2real * exact::size((after.delay.delay_samples as int as real) - d) <= 1real
        }),
        after.delay@ == channel.delay@,
        forall|i: int|
            0 <= i < NUM_CELLS && !params.cells@[i].on ==> (#[trigger] after.biquads@[i]).coeffs is None,
        forall|i: int|
            0 <= i < NUM_CELLS && params.cells@[i].on ==> exists|tone: CellTone<S>|
                #[trigger] after.biquads@[i].aims_at(params.cells@[i].form(tone))
                    && elementary::corners(m, params.cells@[i].freq_hz, rate, tone.corner)
                    && elementary::boosts(m, params.cells@[i].gain_db, tone.boost),
{
    let tuning = choose|tuning: ChannelTuning<S>| #[trigger]
        tuning.suits(m, params, rate) && channel.tuned_to(params, tuning, &after);
    dynamics_laws::law_decibels(v, m, f, params.trim_db, tuning.trim_linear);
    assert(0real / 20real == 0real);
    let length = eq_channel::delay_length(params.delay_ms, rate);
    exact::law_clamping(v, params.delay_ms, num::whole::<S>(0), num::whole::<S>(500));
    let ms = exact::held(v(params.delay_ms), 0real, 500real);
    let (a, k) = (ms / 1000real, v(rate));
    assert(v(length) == a * k);
    let longest = choose|longest: usize| #[trigger]
        elementary::rounds_up(
            m,
            num::whole::<S>(500).div_spec(num::whole::<S>(1000)).mul_spec(rate),
            longest,
        ) && capacity == (if longest < usize::MAX {
            longest + 1
        } else {
            longest as int
        });
    let most = num::whole::<S>(500).div_spec(num::whole::<S>(1000));
    assert(v(most) == 1real / 2real);
    let h = v(most);
    assert(0real <= a * k <= h * k && h * k >= 0real) by (nonlinear_arith)
        requires
            0real <= a <= h,
            k > 0real,
    ;
    let n = tuning.delay_samples as int;
    let l = longest as int;
    assert((n as real) <= (l as real) + 1real / 2real);
    assert(n <= l);
    assert(after.delay.delay_samples == DelayLine::<S>::feasible(n as nat, capacity as nat));
    assert forall|i: int| 0 <= i < NUM_CELLS && params.cells@[i].on implies exists|
        tone: CellTone<S>,
    |
        #[trigger] after.biquads@[i].aims_at(params.cells@[i].form(tone)) && elementary::corners(
            m,
            params.cells@[i].freq_hz,
            rate,
            tone.corner,
        ) && elementary::boosts(m, params.cells@[i].gain_db, tone.boost) by {
        let tone = tuning.tones@[i];
        assert(elementary::corners(m, params.cells@[i].freq_hz, rate, tone.corner));
        assert(channel.biquads@[i].wf());
        assert(after.biquads@[i] == channel.biquads@[i].retuned(params.cells@[i].form(tone)));
        assert(after.biquads@[i].aims_at(params.cells@[i].form(tone)));
    }
}

/// What comes out of a channel of an equaliser: what its cells leave, times its
/// trim, so many samples later.
pub proof fn law_what_an_equaliser_plays<S: Sample>(
    v: spec_fn(S) -> real,
    channel: EqChannel<S>,
    x: S,
    after: EqChannel<S>,
)
    requires
        exact::is_exact(v),
        channel.wf(),
        channel.moves_to(x, &after),
    ensures
        ({
            let y = v(eq_channel::chained(channel.biquads@, NUM_CELLS as nat, x)) * v(
                channel.trim_linear,
            );
            let d = channel.delay.delay_samples as int;
            &&& d == 0 ==> v(channel.output(x)) == y
            &&& d > 0 ==> v(after.delay@[0]) == y && channel.output(x) == channel.delay@[d - 1]
                && forall|k: int|
                0 < k < channel.delay@.len() ==> #[trigger] after.delay@[k] == channel.delay@[k - 1]
        }),
{
    let y = v(eq_channel::chained(channel.biquads@, NUM_CELLS as nat, x));
    assert(y * 1real == y);
    assert(v(channel.trimmed(x)) == y * v(channel.trim_linear));
}

/// The limiter is the last thing on a hardware strip: whatever the other stages
/// do, no channel leaves louder than its ceiling.
pub proof fn law_a_hardware_strip_keeps_its_ceiling<S: Sample, M: Elementary<S>>(
    v: spec_fn(S) -> real,
    m: M,
    f: Functions,
    path: HardwarePath<S>,
    chain: HardwareChain<S>,
    rate: S,
    frame: Seq<S>,
    after: HardwarePath<S>,
    out: Seq<S>,
)
    requires
        exact::is_exact(v),
        exact::computes(v, m, f),
        (f.ten)(v(chain.limiter.threshold_db) / 20real) > 0real,
        path.carries(m, chain, rate, frame, &after, out),
    ensures
        forall|c: int|
            0 <= c < out.len() ==> exact::size(v(#[trigger] out[c])) <= (f.ten)(
                v(chain.limiter.threshold_db) / 20real,
            ),
{
    let (a, b, c, h) = choose|a: (S, S), b: (S, S), c: (S, S), h: Seq<S>| #[trigger]
        path.stages(m, chain, rate, frame, a, b, c, h, &after, out);
    dynamics_laws::law_a_limiter_keeps_its_ceiling(
        v,
        m,
        f,
        chain.limiter,
        chain.pan.panned(h),
        out,
    );
}

/// On a hardware strip the noise gate hears what the denoiser leaves, the compressor what
/// the noise gate leaves, and the equaliser what the compressor leaves: behind a gate
/// that has closed fully the compressor and the equaliser hear silence, and behind
/// a denoiser at nought so does the noise gate.
pub proof fn law_stages_hear_each_other<S: Sample, M: Elementary<S>>(
    v: spec_fn(S) -> real,
    m: M,
    f: Functions,
    path: HardwarePath<S>,
    chain: HardwareChain<S>,
    rate: S,
    frame: Seq<S>,
    after: HardwarePath<S>,
    out: Seq<S>,
)
    requires
        exact::is_exact(v),
        exact::computes(v, m, f),
        path.carries(m, chain, rate, frame, &after, out),
    ensures
        !chain.gate.bypass && v(after.gate.gain) == 0real ==> {
            &&& exists|x: S|
                v(x) == 0real && #[trigger] strip_path::bank_moves(
                    path.eq,
                    chain.eq.on,
                    0,
                    x,
                    after.eq,
                )
            &&& exists|x: S|
                v(x) == 0real && #[trigger] strip_path::bank_moves(
                    path.eq,
                    chain.eq.on,
                    1,
                    x,
                    after.eq,
                )
            &&& !chain.compressor.bypass ==> v(after.comp.mean_square) == step(
                v(path.comp.mean_square),
                0real,
                v(path.comp_rates.rms),
            )
        },
        !chain.denoiser.is_bypassed() && v(after.noise.gain) == 0real && !chain.gate.bypass
            ==> exists|x: S|
            v(x) == 0real && after.gate.sidechain == #[trigger] path.gate.sidechain.after(x),
{
    let (a, b, c, h) = choose|a: (S, S), b: (S, S), c: (S, S), h: Seq<S>| #[trigger]
        path.stages(m, chain, rate, frame, a, b, c, h, &after, out);
    if !chain.gate.bypass && v(after.gate.gain) == 0real {
        dynamics_laws::law_what_a_gate_does(
            v,
            m,
            f,
            path.gate,
            chain.gate,
            path.gate_rates,
            a,
            after.gate,
            b,
        );
        let (x, y, z) = (v(a.0), v(a.1), v(after.gate.gain));
        assert(x * z == 0real && y * z == 0real) by (nonlinear_arith)
            requires
                z == 0real,
        ;
        lemma_silence_stays_silent(v, m, f, path, chain, b, after, c);
        assert(strip_path::bank_moves(path.eq, chain.eq.on, 0, c.0, after.eq));
        assert(strip_path::bank_moves(path.eq, chain.eq.on, 1, c.1, after.eq));
    }
    if !chain.denoiser.is_bypassed() && v(after.noise.gain) == 0real && !chain.gate.bypass {
        dynamics_laws::law_what_a_denoiser_does(
            v,
            m,
            f,
            path.noise,
            chain.denoiser,
            path.noise_rates,
            (frame[0], frame[1]),
            after.noise,
            a,
        );
        dynamics_laws::law_what_a_gate_does(
            v,
            m,
            f,
            path.gate,
            chain.gate,
            path.gate_rates,
            a,
            after.gate,
            b,
        );
        let (x, y, z) = (v(frame[0]), v(frame[1]), v(after.noise.gain));
        assert(x * z == 0real && y * z == 0real) by (nonlinear_arith)
            requires
                z == 0real,
        ;
        let d = choose|d: S|
            2real * v(d) == v(a.0) + v(a.1) && after.gate.sidechain
                == #[trigger] path.gate.sidechain.after(d) && v(after.gate.envelope) == step(
                v(path.gate.envelope),
                exact::size(v(path.gate.sidechain.output(d))),
                v(path.gate_rates.smoothing),
            );
        assert(after.gate.sidechain == path.gate.sidechain.after(d));
    }
}

proof fn lemma_silence_stays_silent<S: Sample, M: Elementary<S>>(
    v: spec_fn(S) -> real,
    m: M,
    f: Functions,
    path: HardwarePath<S>,
    chain: HardwareChain<S>,
    b: (S, S),
    after: HardwarePath<S>,
    c: (S, S),
)
    requires
        exact::is_exact(v),
        exact::computes(v, m, f),
        path.comp.compresses(m, chain.compressor, path.comp_rates, b, after.comp, c),
        v(b.0) == 0real,
        v(b.1) == 0real,
    ensures
        v(c.0) == 0real,
        v(c.1) == 0real,
        !chain.compressor.bypass ==> v(after.comp.mean_square) == step(
            v(path.comp.mean_square),
            0real,
            v(path.comp_rates.rms),
        ),
{
    if !chain.compressor.bypass {
        dynamics_laws::law_what_a_compressor_does(
            v,
            m,
            f,
            path.comp,
            chain.compressor,
            path.comp_rates,
            b,
            after.comp,
            c,
        );
        let p = chain.compressor.params;
        let boost = (f.ten)(v(p.input_gain_db) / 20real);
        let (l, r) = (v(b.0) * boost, v(b.1) * boost);
        let (x, y) = (v(b.0), v(b.1));
        assert(x == 0real && y == 0real && 0real * boost == 0real);
        assert(l == 0real && r == 0real);
        let makeup = (f.ten)((v(p.output_gain_db) + v(p.makeup_db())) / 20real);
        let gain = (f.ten)(v(after.comp.gain_reduction_db) / 20real) * makeup;
        assert(0real * gain == 0real && 0real * 0real == 0real);
    }
}

/// The limiter is the last thing on a virtual strip too; a muted centre is silent,
/// and karaoke is the AUX strip's alone.
pub proof fn law_what_a_virtual_strip_keeps<S: Sample, M: Elementary<S>>(
    v: spec_fn(S) -> real,
    m: M,
    f: Functions,
    path: VirtualPath<S>,
    chain: VirtualChain<S>,
    frame: Seq<S>,
    after: VirtualPath<S>,
    out: Seq<S>,
)
    requires
        exact::is_exact(v),
        exact::computes(v, m, f),
        (f.ten)(v(chain.limiter.threshold_db) / 20real) > 0real,
        frame.len() == CHANNELS,
        path.carries(m, chain, frame, &after, out),
    ensures
        forall|c: int|
            0 <= c < out.len() ==> exact::size(v(#[trigger] out[c])) <= (f.ten)(
                v(chain.limiter.threshold_db) / 20real,
            ),
        chain.mc ==> v(out[2]) == 0real,
        !chain.is_aux ==> after.notch == path.notch,
        !chain.is_aux ==> path.voiced(chain, frame)[0] == path.eq.output(frame[0], frame[1]).0
            && path.voiced(chain, frame)[1] == path.eq.output(frame[0], frame[1]).1,
{
    let before = chain.pan_pad.placed(path.voiced(chain, frame));
    dynamics_laws::law_a_limiter_keeps_its_ceiling(v, m, f, chain.limiter, before, out);
    if chain.mc {
        let k = choose|k: real| #[trigger]
            dynamics_laws::is_one_factor(v, before, out, k) && 0real <= k <= 1real;
        let o = num::whole::<S>(0);
        assert(path.toned(chain, frame)[2] == o);
        assert(path.voiced(chain, frame)[2] == o);
        assert(before[2] == o);
        assert(v(out[2]) == k * v(before[2]));
        assert(k * 0real == 0real);
    }
}

/// A strip in mono plays the mean of its front pair on both sides.
pub proof fn law_a_mono_strip_plays_one_signal<S: Sample, M: Elementary<S>>(
    v: spec_fn(S) -> real,
    m: M,
    engine: Engine<S>,
    path: SignalPath<S>,
    s: int,
    input: Frame<S>,
    after: SignalPath<S>,
    out: Frame<S>,
)
    requires
        exact::is_exact(v),
        0 <= s < NUM_STRIPS,
        engine.strips@[s].mono,
        path.strip_plays(m, engine, s, input, &after, out),
    ensures
        out@[0] == out@[1],
        engine.runs(s) ==> exists|raw: Seq<S>|
            #[trigger] path.strips@[s].carries(
                m,
                engine.strips@[s].chain,
                engine.sample_rate,
                input@,
                &after.strips@[s],
                raw,
            ) && 2real * v(out@[0]) == v(raw[0]) + v(raw[1]) && forall|c: int|
                2 <= c < CHANNELS ==> #[trigger] out@[c] == raw[c],
        !engine.runs(s) ==> v(out@[0]) == 0real,
{
    if engine.runs(s) {
        let raw = choose|raw: Seq<S>|
            #[trigger] path.strips@[s].carries(
                m,
                engine.strips@[s].chain,
                engine.sample_rate,
                input@,
                &after.strips@[s],
                raw,
            ) && out@ == mix::mono(raw);
        assert(mix::mono(raw).len() == raw.len());
        exact::law_fractions(v, 1, 2);
        let (sum, half) = (v(raw[0]) + v(raw[1]), v(num::ratio::<S>(1, 2)));
        assert(2real * (sum * half) == sum) by (nonlinear_arith)
            requires
                half == 1real / 2real,
        ;
    }
}

/// A meter shows the loudest sample, holds it for its hold time and then lets it
/// fall by its factor; what is under a millionth is silence.
pub proof fn law_what_a_meter_shows<S: Sample>(
    v: spec_fn(S) -> real,
    ballistics: Ballistics<S>,
    reading: Reading<S>,
    sample: S,
)
    requires
        exact::is_exact(v),
    ensures
        ({
            let now = ballistics.read(reading, sample);
            let (x, h) = (exact::size(v(sample)), v(reading.held));
            let fallen = h * v(ballistics.decay_per_sample);
            if x > h {
                v(now.held) == x && now.remaining == ballistics.hold_samples
            } else if reading.remaining > 0 {
                now.held == reading.held && now.remaining + 1 == reading.remaining
            } else {
                &&& now.remaining == 0
                &&& v(now.held) == (if fallen < 1real / 1000000real {
                    0real
                } else {
                    fallen
                })
            }
        }),
{
    exact::law_clamping(v, sample, sample, sample);
    let thousand = num::whole::<S>(1000);
    let t = v(thousand);
    assert(t == 1000real);
    assert(t * t == 1000000real) by (nonlinear_arith)
        requires
            t == 1000real,
    ;
    assert(v(num::whole::<S>(1).div_spec(thousand.mul_spec(thousand))) == 1real / 1000000real);
}

/// A meter holds for a second, to the nearest sample, and its factor is that of
/// twenty decibels in a second.
pub proof fn law_how_fast_a_meter_falls<S: Sample, M: Elementary<S>>(
    v: spec_fn(S) -> real,
    m: M,
    f: Functions,
    ballistics: Ballistics<S>,
    rate: S,
)
    requires
        exact::is_exact(v),
        exact::computes(v, m, f),
        0real < v(rate) < 1000000real,
        ballistics.suit(m, rate),
    ensures
        2real * exact::size((ballistics.hold_samples as int as real) - v(rate)) <= 1real,
        exists|x: real|
            20real * x * v(rate) == -20real && v(ballistics.decay_per_sample) == #[trigger] (f.ten)(
                x,
            ),
{
    let one = num::whole::<S>(1);
    let samples = choose|samples: usize| #[trigger]
        elementary::rounds(m, one.mul_spec(rate), samples) && ballistics.hold_samples == (if samples
            <= u32::MAX {
            samples as int
        } else {
            u32::MAX as int
        });
    let k = v(rate);
    assert(1real * k == k);
    assert((samples as int as real) < 1000001real);
    assert(samples as int <= 1000001);
    let exponent = num::whole::<S>(-20).div_spec(num::whole::<S>(20)).div_spec(rate);
    assert(v(num::whole::<S>(-20).div_spec(num::whole::<S>(20))) == -1real);
    let x = v(exponent);
    assert(20real * x * k == -20real) by (nonlinear_arith)
        requires
            x == -1real / k,
            k > 0real,
    ;
    assert(v(ballistics.decay_per_sample) == (f.ten)(x));
}

/// The ratio of a device is the one of its nominal rates, corrected by the loop for
/// how far the device is ahead of the master. Once it is ahead it runs slower, and
/// once it is behind it runs faster.
pub proof fn law_a_device_ahead_runs_slower<S: Sample, P: Sample, W: Precision<S, P>>(
    u: spec_fn(S) -> real,
    v: spec_fn(P) -> real,
    w: W,
    stage: DriftCorrectedIoStage<S, P>,
    master: u64,
    after: DriftCorrectedIoStage<S, P>,
)
    requires
        exact::is_exact(u),
        exact::is_exact(v),
        forall|n: u64, y: P| #[trigger]
            precision::counts::<S, P, W>(w, n, y) ==> v(y) == n as int as real,
        forall|x: P, y: S| #[trigger] precision::narrows(w, x, y) ==> u(y) == v(x),
        u(stage.base_ratio()) > 0real,
        drift_laws::is_tuned(u, stage.corrector().pi),
        u(stage.corrector().pi.integral) == 0real,
        stage.picks(w, master, &after),
    ensures
        exists|error: S|
            u(error) == (stage.progress() as int as real) - (master as int as real)
                && u(after.ratio()) == u(stage.base_ratio()) * u(
                #[trigger] stage.corrector().ratio(error),
            ) && after.corrector() == stage.corrector().fed(error),
        ({
            let ahead = (stage.progress() as int) - (master as int);
            let within = exact::size(ahead as real) <= u(stage.corrector().discontinuity_threshold);
            &&& within && ahead > 0 ==> u(after.ratio()) < u(stage.base_ratio())
            &&& within && ahead < 0 ==> u(after.ratio()) > u(stage.base_ratio())
            &&& within && ahead == 0 ==> u(after.ratio()) == u(stage.base_ratio())
            &&& !within ==> u(after.ratio()) == u(stage.base_ratio())
        }),
{
    let (here, there, error) = choose|here: P, there: P, error: S| #[trigger]
        stage.measures(w, master, here, there, error) && after.corrector()
            == stage.corrector().fed(error) && after.ratio() == stage.base_ratio().mul_spec(
            stage.corrector().ratio(error),
        ) && precision::packs::<S, P, W>(w, after.ratio(), after.ratio_bits());
    let ahead = (stage.progress() as int) - (master as int);
    assert(u(error) == ahead as real);
    drift_laws::law_what_a_jump_is(u, stage.corrector(), error);
    let (b, r) = (u(stage.base_ratio()), u(stage.corrector().ratio(error)));
    if exact::size(ahead as real) <= u(stage.corrector().discontinuity_threshold) {
        drift_laws::law_the_loop_pushes_back(u, stage.corrector(), error);
    }
    assert(u(after.ratio()) == b * r);
    assert((r < 1real ==> b * r < b) && (r > 1real ==> b * r > b) && (r == 1real ==> b * r == b))
        by (nonlinear_arith)
        requires
            b > 0real,
    ;
}

/// A tone goes through so many turns in a second.
pub proof fn law_what_a_tone_is<S: Sample, M: Elementary<S>>(
    v: spec_fn(S) -> real,
    m: M,
    f: Functions,
    n: usize,
    freq_hz: S,
    rate: S,
    y: S,
)
    requires
        exact::is_exact(v),
        exact::computes(v, m, f),
        v(rate) > 0real,
        elementary::tones(m, n, freq_hz, rate, y),
    ensures
        v(y) == (f.sin)((f.turn * v(freq_hz)) * ((n as int as real) / v(rate))),
{
    let (k, angle) = choose|k: S, angle: S| #[trigger]
        elementary::counts(m, n, k) && #[trigger] elementary::angles(m, freq_hz, angle)
            && elementary::sines(m, angle.mul_spec(k.div_spec(rate)), y);
    assert(v(angle.mul_spec(k.div_spec(rate))) == (f.turn * v(freq_hz)) * ((n as int as real) / v(
        rate,
    )));
}

/// The samples of a channel added up as hands of a clock, each turned on by the
/// angle with this sine and cosine for every sample behind it.
pub open spec fn hands<S: Sample>(
    v: spec_fn(S) -> real,
    block: Seq<Frame<S>>,
    channel: int,
    sin: real,
    cos: real,
) -> (real, real)
    decreases block.len(),
{
    if block.len() == 0 {
        (0real, 0real)
    } else {
        let (re, im) = hands(v, block.drop_last(), channel, sin, cos);
        (cos * re - sin * im + v(block.last()@[channel]), sin * re + cos * im)
    }
}

/// The power of a frequency is the square of how far the hands reach together.
pub proof fn law_how_much_of_a_frequency<S: Sample>(
    v: spec_fn(S) -> real,
    block: Seq<Frame<S>>,
    channel: int,
    coeff: S,
    sin: real,
    cos: real,
)
    requires
        exact::is_exact(v),
        v(coeff) == 2real * cos,
        sin * sin + cos * cos == 1real,
    ensures
        ({
            let (re, im) = hands(v, block, channel, sin, cos);
            v(render::power(block, channel, coeff)) == re * re + im * im
        }),
{
    lemma_hands(v, block, channel, coeff, sin, cos);
    let (q1, q2) = render::resonated(block, channel, coeff);
    let (re, im) = hands(v, block, channel, sin, cos);
    let (a, b, k) = (v(q1), v(q2), v(coeff));
    let (cb, sb) = (cos * b, sin * b);
    assert((a - cb) * (a - cb) == a * a - 2real * (a * cb) + cb * cb) by (nonlinear_arith);
    assert(sb * sb + cb * cb == (sin * sin + cos * cos) * (b * b)) by (nonlinear_arith)
        requires
            cb == cos * b,
            sb == sin * b,
    ;
    let bb = b * b;
    assert(1real * bb == bb);
    let two = 2real * cos;
    assert((a * b) * two == 2real * (a * cb)) by (nonlinear_arith)
        requires
            two == 2real * cos,
            cb == cos * b,
    ;
}

proof fn lemma_hands<S: Sample>(
    v: spec_fn(S) -> real,
    block: Seq<Frame<S>>,
    channel: int,
    coeff: S,
    sin: real,
    cos: real,
)
    requires
        exact::is_exact(v),
        v(coeff) == 2real * cos,
        sin * sin + cos * cos == 1real,
    ensures
        ({
            let (q1, q2) = render::resonated(block, channel, coeff);
            let (re, im) = hands(v, block, channel, sin, cos);
            re == v(q1) - cos * v(q2) && im == sin * v(q2)
        }),
    decreases block.len(),
{
    if block.len() == 0 {
        assert(cos * 0real == 0real && sin * 0real == 0real);
    } else {
        let rest = block.drop_last();
        lemma_hands(v, rest, channel, coeff, sin, cos);
        let (p1, p2) = render::resonated(rest, channel, coeff);
        let (a, b, k) = (v(p1), v(p2), v(coeff));
        let x = v(block.last()@[channel]);
        let (re, im) = hands(v, rest, channel, sin, cos);
        let (cb, sb) = (cos * b, sin * b);
        assert(cos * (a - cb) == cos * a - cos * cb) by (nonlinear_arith);
        assert(cos * cb + sin * sb == (sin * sin + cos * cos) * b) by (nonlinear_arith)
            requires
                cb == cos * b,
                sb == sin * b,
        ;
        assert(1real * b == b);
        let two = 2real * cos;
        assert(two * a == 2real * (cos * a)) by (nonlinear_arith)
            requires
                two == 2real * cos,
        ;
        assert(sin * (a - cb) == sin * a - sin * cb) by (nonlinear_arith);
        assert(cos * sb == sin * cb) by (nonlinear_arith)
            requires
                cb == cos * b,
                sb == sin * b,
        ;
    }
}

/// An integer, as a number.
pub open spec fn whole_number(n: int) -> real {
    n as real
}

/// The frequency that is looked for is that of the bin nearest to it: `k` turns in
/// the block, where `k` is the whole number nearest to what the frequency would go
/// through.
pub proof fn law_which_bin_is_looked_at<S: Sample, M: Elementary<S>>(
    v: spec_fn(S) -> real,
    m: M,
    f: Functions,
    len: usize,
    freq_hz: S,
    rate: S,
    coeff: S,
)
    requires
        exact::is_exact(v),
        exact::computes(v, m, f),
        forall|x: S, y: S| #[trigger]
            elementary::floors(m, x, y) ==> v(y) <= v(x) && v(x) < v(y) + 1real && exists|n: int|
                v(y) == #[trigger] whole_number(n),
        v(rate) > 0real,
        len > 0,
        elementary::bins(m, len, freq_hz, rate, coeff),
    ensures
        exists|k: int| #[trigger]
            is_bin(v, f, len as int, v(freq_hz) / v(rate), k, coeff),
{
    let (n, k, turn, c) = choose|n: S, k: S, turn: S, c: S| #[trigger]
        elementary::bin_at(m, len, freq_hz, rate, n, k, turn, c) && coeff == num::whole::<S>(
            2,
        ).mul_spec(c);
    exact::law_fractions(v, 1, 2);
    let x = num::ratio::<S>(1, 2).add_spec(n.mul_spec(freq_hz).div_spec(rate));
    let (a, b, r) = (v(n), v(freq_hz), v(rate));
    assert(a == len as int as real);
    let q = b / r;
    assert(q * r == b) by (nonlinear_arith)
        requires
            q == b / r,
            r > 0real,
    ;
    let (ab, aq) = (a * b, a * q);
    assert(aq * r == ab) by (nonlinear_arith)
        requires
            aq == a * q,
            ab == a * b,
            q * r == b,
    ;
    assert(ab / r == aq) by (nonlinear_arith)
        requires
            aq * r == ab,
            r > 0real,
    ;
    assert(elementary::floors(m, x, k));
    let j = choose|j: int| v(k) == #[trigger] whole_number(j);
    assert(f.turn * 1real == f.turn);
    assert(v(turn.div_spec(n).mul_spec(k)) == (f.turn / a) * (j as real));
    assert(is_bin(v, f, len as int, b / r, j, coeff));
}

/// `coeff` is twice the cosine of `k` turns in `len` samples, and `k` is nearest to
/// what a frequency of so many turns per sample goes through in them.
pub open spec fn is_bin<S: Sample>(
    v: spec_fn(S) -> real,
    f: Functions,
    len: int,
    turns: real,
    k: int,
    coeff: S,
) -> bool {
    &&& 2real * exact::size((k as real) - (len as real) * turns) <= 1real
    &&& v(coeff) == 2real * (f.cos)((f.turn / (len as real)) * (k as real))
}

/// Of the three pads of a hardware strip only the active one works, and the two
/// others stand still.
pub proof fn law_only_the_active_pad_works<S: Sample, M: Elementary<S>>(
    m: M,
    pads: IntellipanPads<S>,
    path: PadPath<S>,
    rate: S,
    frame: Seq<S>,
    after: PadPath<S>,
    out: Seq<S>,
)
    requires
        frame.len() == CHANNELS,
        path.carries(m, pads, rate, frame, &after, out),
    ensures
        pads.mode != IntellipanMode::Color ==> after.color == path.color,
        pads.mode != IntellipanMode::Position ==> after.position == path.position,
        pads.mode != IntellipanMode::Modulation ==> after.modulation == path.modulation,
        pads.mode == IntellipanMode::Color ==> out[0] == path.color.treble_l.output(
            path.color.bass_l.output(frame[0]),
        ) && out[1] == path.color.treble_r.output(path.color.bass_r.output(frame[1])) && forall|
            c: int,
        |
            2 <= c < CHANNELS ==> #[trigger] out[c] == frame[c],
        pads.mode == IntellipanMode::Position ==> path.position.delays.positions(
            m,
            pads.position,
            rate,
            frame,
            &after.position.delays,
            out,
        ),
        pads.mode == IntellipanMode::Modulation ==> path.modulation.carries(
            m,
            pads.modulation,
            rate,
            frame,
            &after.modulation,
            out,
        ),
{
}

/// A pan pot at its end silences the far side of a hardware strip, whatever the pad
/// ahead of it plays there.
pub proof fn law_a_hard_pan_silences_the_far_side<S: Sample, M: Elementary<S>>(
    v: spec_fn(S) -> real,
    m: M,
    f: Functions,
    path: HardwarePath<S>,
    chain: HardwareChain<S>,
    rate: S,
    frame: Seq<S>,
    after: HardwarePath<S>,
    out: Seq<S>,
)
    requires
        exact::is_exact(v),
        exact::computes(v, m, f),
        (f.ten)(v(chain.limiter.threshold_db) / 20real) > 0real,
        frame.len() == CHANNELS,
        out.len() == CHANNELS,
        path.carries(m, chain, rate, frame, &after, out),
    ensures
        v(chain.pan.pan) >= 1real ==> v(out[0]) == 0real,
        v(chain.pan.pan) <= -1real ==> v(out[1]) == 0real,
{
    let (a, b, c, h) = choose|a: (S, S), b: (S, S), c: (S, S), h: Seq<S>| #[trigger]
        path.stages(m, chain, rate, frame, a, b, c, h, &after, out);
    let before = chain.pan.panned(h);
    dynamics_laws::law_a_limiter_keeps_its_ceiling(v, m, f, chain.limiter, before, out);
    assert(h.len() == CHANNELS);
    tone_laws::law_where_a_pan_pot_points(v, chain.pan, h);
    let k = choose|k: real| #[trigger]
        dynamics_laws::is_one_factor(v, before, out, k) && 0real <= k <= 1real;
    let (l, r) = (v(h[0]), v(h[1]));
    assert(l * 0real == 0real && r * 0real == 0real && k * 0real == 0real);
    assert(v(out[0]) == k * v(before[0]) && v(out[1]) == k * v(before[1]));
}

/// The pad of a virtual strip at its right edge silences the left, at its left edge
/// the right, and all the way back it silences the front.
pub proof fn law_a_virtual_pad_at_its_edges<S: Sample, M: Elementary<S>>(
    v: spec_fn(S) -> real,
    m: M,
    f: Functions,
    path: VirtualPath<S>,
    chain: VirtualChain<S>,
    frame: Seq<S>,
    after: VirtualPath<S>,
    out: Seq<S>,
)
    requires
        exact::is_exact(v),
        exact::computes(v, m, f),
        (f.ten)(v(chain.limiter.threshold_db) / 20real) > 0real,
        frame.len() == CHANNELS,
        path.carries(m, chain, frame, &after, out),
    ensures
        2real * v(chain.pan_pad.x) >= 1real ==> v(out[0]) == 0real && v(out[4]) == 0real,
        2real * v(chain.pan_pad.x) <= -1real ==> v(out[1]) == 0real && v(out[5]) == 0real,
        v(chain.pan_pad.y) >= 1real ==> v(out[0]) == 0real && v(out[1]) == 0real,
        v(chain.pan_pad.y) <= 0real ==> v(out[4]) == 0real && v(out[5]) == 0real,
{
    let voiced = path.voiced(chain, frame);
    let before = chain.pan_pad.placed(voiced);
    dynamics_laws::law_a_limiter_keeps_its_ceiling(v, m, f, chain.limiter, before, out);
    tone_laws::law_where_a_position_pad_points(v, chain.pan_pad, voiced);
    let k = choose|k: real| #[trigger]
        dynamics_laws::is_one_factor(v, before, out, k) && 0real <= k <= 1real;
    assert(v(out[0]) == k * v(before[0]) && v(out[1]) == k * v(before[1]));
    assert(v(out[4]) == k * v(before[4]) && v(out[5]) == k * v(before[5]));
    let x = exact::held(v(chain.pan_pad.x), -1real / 2real, 1real / 2real);
    let y = exact::held(v(chain.pan_pad.y), 0real, 1real);
    let g = tone_laws::sides(2real * x);
    let (a, b) = (v(voiced[0]), v(voiced[1]));
    let (l, r) = (a * g.0, b * g.1);
    assert(a * 0real == 0real && b * 0real == 0real && k * 0real == 0real && 0real * y == 0real);
    assert(l * 1real == l && r * 1real == r && l * 0real == 0real && r * 0real == 0real);
}

/// A device's progress counts frames on the master's side of its queues: what a
/// capture put out, and what a playback took in.
pub proof fn law_progress_is_on_the_masters_side<S: Sample, P: Sample, W: Precision<S, P>>(
    w: W,
    stage: DriftCorrectedIoStage<S, P>,
    captured: Seq<Captured<S>>,
    rendered: Seq<Rendered<S>>,
    input: Seq<Seq<S>>,
    output: Seq<Seq<S>>,
    outboxes: (Seq<Outbox<S>>, Seq<Outbox<S>>),
    inboxes: (Seq<Inbox<S>>, Seq<Inbox<S>>),
    room: int,
    after: DriftCorrectedIoStage<S, P>,
)
    ensures
        captured.len() > 0 && stage.captured(
            w,
            input,
            outboxes.0,
            room,
            captured,
            &after,
            outboxes.1,
        ) ==> after.progress() - stage.progress() == captured.last().produced.len(),
        rendered.len() > 0 && stage.rendered(
            w,
            inboxes.0,
            room,
            rendered,
            &after,
            inboxes.1,
            output,
        ) ==> after.progress() - stage.progress() == rendered.last().consumed,
{
}

/// The equaliser of a hardware strip is ahead of its pad: what the pad hears of the
/// front pair is what the equaliser leaves of it, where that is on, and the other
/// channels as they came in.
pub proof fn law_a_pad_hears_the_equaliser<S: Sample, M: Elementary<S>>(
    m: M,
    path: HardwarePath<S>,
    chain: HardwareChain<S>,
    rate: S,
    frame: Seq<S>,
    after: HardwarePath<S>,
    out: Seq<S>,
)
    requires
        frame.len() == CHANNELS,
        path.carries(m, chain, rate, frame, &after, out),
    ensures
        exists|c: (S, S), before: Seq<S>, h: Seq<S>|
            #![trigger path.pads.carries(m, chain.pad, rate, before, &after.pads, h), strip_path::bank_moves(path.eq, chain.eq.on, 0, c.0, after.eq), strip_path::bank_moves(path.eq, chain.eq.on, 1, c.1, after.eq)]
            {
                &&& path.pads.carries(m, chain.pad, rate, before, &after.pads, h)
                &&& strip_path::bank_moves(path.eq, chain.eq.on, 0, c.0, after.eq)
                &&& strip_path::bank_moves(path.eq, chain.eq.on, 1, c.1, after.eq)
                &&& chain.eq.on ==> before[0] == path.eq.channels@[0].output(c.0) && before[1]
                    == path.eq.channels@[1].output(c.1)
                &&& !chain.eq.on ==> before[0] == c.0 && before[1] == c.1
                &&& forall|k: int| 2 <= k < CHANNELS ==> #[trigger] before[k] == frame[k]
                &&& chain.limiter.limits(m, chain.pan.panned(h), out)
            },
{
    let (a, b, c, h) = choose|a: (S, S), b: (S, S), c: (S, S), h: Seq<S>| #[trigger]
        path.stages(m, chain, rate, frame, a, b, c, h, &after, out);
    let on = chain.eq.on;
    let d0 = strip_path::bank_output(path.eq, on, 0, c.0);
    let d1 = strip_path::bank_output(path.eq, on, 1, c.1);
    let before = frame.update(0, d0).update(1, d1);
    assert(path.pads.carries(m, chain.pad, rate, before, &after.pads, h));
    assert(strip_path::bank_moves(path.eq, on, 0, c.0, after.eq));
    assert(strip_path::bank_moves(path.eq, on, 1, c.1, after.eq));
}

/// A mixer comes up at forty-eight thousand samples a second.
pub proof fn law_the_rate_a_mixer_comes_up_at<S: Sample>(v: spec_fn(S) -> real)
    requires
        exact::is_exact(v),
    ensures
        v(Engine::<S>::default_rate()) == 48000real,
{
    let (a, b) = (v(num::whole::<S>(48)), v(num::whole::<S>(1000)));
    assert(a * b == 48000real) by (nonlinear_arith)
        requires
            a == 48real,
            b == 1000real,
    ;
}

/// In one callback of the clock master with a buffer per channel, the master strip
/// hears what that device captured, a strip with nothing to feed it hears silence,
/// and the device plays what the first bus plays in this very block.
pub proof fn law_what_a_tick_moves<S: Sample, M: Elementary<S>>(
    m: M,
    driver: EngineIoDriver<S>,
    frames: usize,
    master_in: Seq<Vec<S>>,
    master_out: Seq<Vec<S>>,
    after: EngineIoDriver<S>,
    master_out_after: Seq<Vec<S>>,
    s: int,
    c: int,
    n: int,
)
    requires
        driver.ticks(m, frames, master_in, master_out, &after, master_out_after),
        0 <= s < NUM_STRIPS,
        0 <= c < CHANNELS,
        0 <= n < frames,
    ensures
        driver.master_strip() == Some(s as usize) && master_in.len() != 1 ==> ({
            let heard = after.inputs()[s]@[n]@[c];
            if c < master_in.len() && n < master_in[c]@.len() {
                heard == master_in[c]@[n]
            } else {
                heard == num::whole::<S>(0)
            }
        }),
        driver.master_strip() != Some(s as usize) && driver.source(s) is None
            ==> after.inputs()[s]@[n]@[c] == num::whole::<S>(0),
        master_out.len() != 1 && c < master_out.len() && n < master_out[c]@.len()
            ==> master_out_after[c]@[n] == after.outputs()[0]@[n]@[c],
{
    assert(after.inputs()[s]@.len() == frames);
    assert(after.outputs()[0]@.len() == frames);
    if c < master_out.len() && n < master_out[c]@.len() {
        assert(master_out_after[c]@[n] == channel_layout::unpacked(
            after.outputs()[MASTER_BUS as int]@,
            channel_layout::samples(master_out),
            c,
            n,
        ));
    }
    if driver.master_strip() == Some(s as usize) {
        assert(after.inputs()[s]@[n]@[c] == channel_layout::packed(
            channel_layout::samples(master_in),
            after.inputs()[s]@.len(),
            n,
            c,
        ));
    }
}

/// A device whose queue runs short plays silence once what it got is used up.
pub proof fn law_a_short_queue_ends_in_silence<S: Sample, P: Sample, W: Precision<S, P>>(
    v: spec_fn(S) -> real,
    w: W,
    ratio: S,
    resampler: (Resampler<S, P>, Resampler<S, P>),
    inbox: (Inbox<S>, Inbox<S>),
    room: int,
    done: Rendered<S>,
    output: Seq<S>,
    i: int,
)
    requires
        exact::is_exact(v),
        ioproc::renders_channel(
            w,
            ratio,
            resampler.0,
            inbox.0,
            room,
            done,
            resampler.1,
            inbox.1,
            output,
        ),
        done.produced.len() <= output.len(),
        0 <= i < output.len(),
    ensures
        i < done.produced.len() ==> output[i] == done.produced[i],
        i >= done.produced.len() ==> v(output[i]) == 0real,
        inbox.1.received() == inbox.0.received() + done.chunk,
{
}

} // verus!
