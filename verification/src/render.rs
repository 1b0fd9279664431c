//! Rendering without a device: one block in, one block out, and the tones to
//! measure it by.

use crate::elementary::{self, Elementary};
use crate::engine::Engine;
use crate::meter;
use crate::mix::Levels;
use crate::num::{self, get_ratio, get_whole, Sample};
use crate::signal_path::{self, SignalPath};
use crate::{Frame, CHANNELS, NUM_BUSES, NUM_STRIPS};
use vstd::prelude::*;
use vstd::std_specs::ops::{AddSpec, MulSpec, SubSpec};

verus! {

/// Renders one block of as many frames as the first strip's input has, and
/// returns what the buses play.
pub fn render_block<S: Sample, M: Elementary<S>>(
    engine: &mut Engine<S>,
    path: &mut SignalPath<S>,
    m: &M,
    inputs: &Vec<Vec<Frame<S>>>,
) -> (outputs: Vec<Vec<Frame<S>>>)
    requires
        num::lawful::<S>(),
        old(path).wf(*old(engine)),
        old(engine).patch_fits(),
        inputs@.len() == NUM_STRIPS,
        forall|s: int|
            0 <= s < NUM_STRIPS ==> inputs@[0]@.len() <= (#[trigger] inputs@[s])@.len(),
    ensures
        final(path).wf(*final(engine)),
        final(engine).strips == old(engine).strips,
        final(engine).buses == old(engine).buses,
        final(engine).patch == old(engine).patch,
        final(engine).sample_rate == old(engine).sample_rate,
        outputs@.len() == NUM_BUSES,
        forall|b: int|
            0 <= b < NUM_BUSES ==> (#[trigger] outputs@[b])@.len() == inputs@[0]@.len(),
        exists|levels: Levels<S>, states: Seq<SignalPath<S>>|
            levels.are_of(*m, *old(engine)) && states[0] == *old(path) && states[inputs@[0]@.len()
                as int] == *final(path) && #[trigger] signal_path::renders(
                *m,
                *old(engine),
                levels,
                inputs@,
                outputs@,
                inputs@[0]@.len() as int,
                states,
            ),
        forall|s: int, c: int|
            0 <= s < NUM_STRIPS && 0 <= c < CHANNELS ==> #[trigger] final(
                engine).strip_meters@[s].reading(c) == old(
                engine,
            ).strip_meters@[s].ballistics().read_all(
                old(engine).strip_meters@[s].reading(c),
                meter::channel_of(inputs@[s]@.take(inputs@[0]@.len() as int), c),
            ),
        forall|b: int, c: int|
            0 <= b < NUM_BUSES && 0 <= c < CHANNELS ==> #[trigger] final(
                engine).bus_meters@[b].reading(c) == old(
                engine,
            ).bus_meters@[b].ballistics().read_all(
                old(engine).bus_meters@[b].reading(c),
                meter::channel_of(outputs@[b]@.take(inputs@[0]@.len() as int), c),
            ),
{
    let zero: S = get_whole(0);
    let len: usize = inputs[0].len();
    let mut outputs: Vec<Vec<Frame<S>>> = Vec::new();
    let mut b: usize = 0;
    while b < NUM_BUSES
        invariant
            b <= NUM_BUSES,
            outputs@.len() == b,
            forall|k: int| 0 <= k < b ==> (#[trigger] outputs@[k])@.len() == len,
        decreases NUM_BUSES - b,
    {
        outputs.push(vec![[zero; CHANNELS]; len]);
        b = b + 1;
    }
    engine.process_block(path, m, len, inputs, &mut outputs);
    outputs
}

/// Sample `n` of a sine tone.
pub fn get_tone<S: Sample, M: Elementary<S>>(m: &M, n: usize, freq_hz: S, sample_rate: S) -> (r: S)
    requires
        num::lawful::<S>(),
    ensures
        elementary::tones(*m, n, freq_hz, sample_rate, r),
{
    let k: S = m.count(n);
    assert(elementary::counts(*m, n, k));
    let angle: S = m.angle(freq_hz);
    assert(elementary::angles(*m, freq_hz, angle));
    m.sine(angle * (k / sample_rate))
}

/// A sine tone on one channel, silence on the others.
pub fn sine_tone<S: Sample, M: Elementary<S>>(
    m: &M,
    frames: usize,
    sample_rate: S,
    freq_hz: S,
    channel: usize,
) -> (r: Vec<Frame<S>>)
    requires
        num::lawful::<S>(),
        channel < CHANNELS,
    ensures
        r@.len() == frames,
        forall|n: int|
            0 <= n < frames ==> elementary::tones(
                *m,
                n as usize,
                freq_hz,
                sample_rate,
                (#[trigger] r@[n])@[channel as int],
            ),
        forall|n: int, c: int|
            0 <= n < frames && 0 <= c < CHANNELS && c != channel ==> #[trigger] r@[n]@[c]
                == num::whole::<S>(0),
{
    let zero: S = get_whole(0);
    let mut r: Vec<Frame<S>> = Vec::new();
    let mut n: usize = 0;
    while n < frames
        invariant
            num::lawful::<S>(),
            zero == num::whole::<S>(0),
            channel < CHANNELS,
            n <= frames,
            r@.len() == n,
            forall|k: int|
                0 <= k < n ==> elementary::tones(
                    *m,
                    k as usize,
                    freq_hz,
                    sample_rate,
                    (#[trigger] r@[k])@[channel as int],
                ),
            forall|k: int, c: int|
                0 <= k < n && 0 <= c < CHANNELS && c != channel ==> #[trigger] r@[k]@[c] == zero,
        decreases frames - n,
    {
        let mut frame = [zero; CHANNELS];
        let x: S = get_tone(m, n, freq_hz, sample_rate);
        frame[channel] = x;
        assert(frame@[channel as int] == x);
        r.push(frame);
        n = n + 1;
    }
    r
}

/// The two states of the filter that finds one frequency, behind the samples
/// of a channel.
pub open spec fn resonated<S: Sample>(
    block: Seq<Frame<S>>,
    channel: int,
    coeff: S,
) -> (S, S)
    decreases block.len(),
{
    if block.len() == 0 {
        (num::whole::<S>(0), num::whole::<S>(0))
    } else {
        let (q1, q2) = resonated(block.drop_last(), channel, coeff);
        (coeff.mul_spec(q1).sub_spec(q2).add_spec(block.last()@[channel]), q1)
    }
}

/// The squared magnitude of the frequency with that coefficient.
pub open spec fn power<S: Sample>(block: Seq<Frame<S>>, channel: int, coeff: S) -> S {
    let (q1, q2) = resonated(block, channel, coeff);
    q1.mul_spec(q1).add_spec(q2.mul_spec(q2)).sub_spec(q1.mul_spec(q2).mul_spec(coeff))
}

/// Twice the cosine of the angle of the bin nearest to a frequency, for a block
/// of `len` samples.
pub fn get_bin<S: Sample, M: Elementary<S>>(m: &M, len: usize, freq_hz: S, sample_rate: S) -> (r: S)
    requires
        num::lawful::<S>(),
    ensures
        elementary::bins(*m, len, freq_hz, sample_rate, r),
{
    let n: S = m.count(len);
    let k: S = m.floor(get_ratio::<S>(1, 2) + n * freq_hz / sample_rate);
    let turn: S = m.angle(get_whole(1));
    let c: S = m.cosine(turn / n * k);
    assert(elementary::bin_at(*m, len, freq_hz, sample_rate, n, k, turn, c));
    get_whole::<S>(2) * c
}

/// How much of one frequency is in a channel.
pub fn goertzel_magnitude<S: Sample, M: Elementary<S>>(
    m: &M,
    block: &Vec<Frame<S>>,
    channel: usize,
    freq_hz: S,
    sample_rate: S,
) -> (r: S)
    requires
        num::lawful::<S>(),
        channel < CHANNELS,
    ensures
        exists|coeff: S| #[trigger]
            elementary::bins(*m, block@.len() as usize, freq_hz, sample_rate, coeff)
                && elementary::roots(*m, power(block@, channel as int, coeff), r),
{
    let coeff: S = get_bin(m, block.len(), freq_hz, sample_rate);
    let mut q1: S = get_whole(0);
    let mut q2: S = get_whole(0);
    let mut n: usize = 0;
    assert(block@.take(0) =~= Seq::empty());
    while n < block.len()
        invariant
            num::lawful::<S>(),
            channel < CHANNELS,
            n <= block@.len(),
            (q1, q2) == resonated(block@.take(n as int), channel as int, coeff),
        decreases block@.len() - n,
    {
        assert(block@.take(n + 1).drop_last() =~= block@.take(n as int));
        let q0: S = coeff * q1 - q2 + block[n][channel];
        q2 = q1;
        q1 = q0;
        n = n + 1;
    }
    assert(block@.take(n as int) =~= block@);
    assert(elementary::bins(*m, block@.len() as usize, freq_hz, sample_rate, coeff));
    m.root(q1 * q1 + q2 * q2 - q1 * q2 * coeff)
}

} // verus!
