//! The equaliser at work: the cells of one channel in series, then its trim,
//! then its delay.

use crate::biquad::{Biquad, BiquadCoeffs, Boost, Corner};
use crate::elementary::{self, Elementary};
use crate::fader::gain_db_to_linear;
use crate::num::{self, clamp, get_whole, is_same, Sample};
use crate::parametric_eq::{EqCellParams, EqCellType, EqChannelParams, ParametricEq, NUM_CELLS};
use vstd::prelude::*;
use vstd::std_specs::ops::{DivSpec, MulSpec};

verus! {

/// What a cell's corner and gain come to on the caller's number type.
#[derive(Debug, Clone, Copy, PartialEq)]
pub struct CellTone<S> {
    pub corner: Corner<S>,
    pub boost: Boost<S>,
}

impl<S: Sample> EqCellParams<S> {
    /// The cell's filter, for its tone.
    pub open spec fn form(self, tone: CellTone<S>) -> BiquadCoeffs<S> {
        match self.cell_type {
            EqCellType::Peak => BiquadCoeffs::peak_form(
                tone.corner,
                self.q,
                tone.boost.amplitude,
            ),
            EqCellType::LowPass => BiquadCoeffs::low_pass_form(tone.corner, self.q),
            EqCellType::HighPass => BiquadCoeffs::high_pass_form(tone.corner, self.q),
            EqCellType::LowShelf => BiquadCoeffs::low_shelf_form(tone.corner, self.q, tone.boost),
            EqCellType::HighShelf => BiquadCoeffs::high_shelf_form(
                tone.corner,
                self.q,
                tone.boost,
            ),
            EqCellType::BandPass => BiquadCoeffs::band_pass_form(tone.corner, self.q),
            EqCellType::Notch => BiquadCoeffs::notch_form(
                tone.corner.cos,
                tone.corner.alpha(self.q),
            ),
        }
    }

    pub fn coeffs(&self, tone: &CellTone<S>) -> (r: BiquadCoeffs<S>)
        requires
            num::lawful::<S>(),
        ensures
            r == self.form(*tone),
    {
        match self.cell_type {
            EqCellType::Peak => BiquadCoeffs::peaking_of(tone.corner, self.q, tone.boost.amplitude),
            EqCellType::LowPass => BiquadCoeffs::low_pass_of(tone.corner, self.q),
            EqCellType::HighPass => BiquadCoeffs::high_pass_of(tone.corner, self.q),
            EqCellType::LowShelf => BiquadCoeffs::low_shelf_of(tone.corner, self.q, tone.boost),
            EqCellType::HighShelf => BiquadCoeffs::high_shelf_of(tone.corner, self.q, tone.boost),
            EqCellType::BandPass => BiquadCoeffs::band_pass_of(tone.corner, self.q),
            EqCellType::Notch => BiquadCoeffs::notch_of(tone.corner, self.q),
        }
    }
}

/// A channel's settings in the units of the signal path.
#[derive(Debug, Clone, Copy)]
pub struct ChannelTuning<S> {
    pub tones: [CellTone<S>; NUM_CELLS],
    /// The trim as an amplitude.
    pub trim_linear: S,
    /// The delay in samples.
    pub delay_samples: usize,
}

/// The delay of a channel, in samples before rounding: held to half a second.
pub open spec fn delay_length<S: Sample>(delay_ms: S, rate: S) -> S {
    num::clamped(delay_ms, num::whole::<S>(0), num::whole::<S>(500)).div_spec(
        num::whole::<S>(1000),
    ).mul_spec(rate)
}

impl<S: Sample> ChannelTuning<S> {
    /// This is the tuning of `params` at a sample rate.
    pub open spec fn suits<M: Elementary<S>>(
        self,
        m: M,
        params: EqChannelParams<S>,
        rate: S,
    ) -> bool {
        &&& forall|i: int|
            0 <= i < NUM_CELLS ==> elementary::corners(
                m,
                params.cells@[i].freq_hz,
                rate,
                (#[trigger] self.tones@[i]).corner,
            ) && elementary::boosts(m, params.cells@[i].gain_db, self.tones@[i].boost)
        &&& elementary::in_linear(m, params.trim_db, self.trim_linear)
        &&& elementary::rounds(m, delay_length(params.delay_ms, rate), self.delay_samples)
    }

    fn tone<M: Elementary<S>>(m: &M, cell: &EqCellParams<S>, sample_rate: S) -> (r: CellTone<S>)
        requires
            num::lawful::<S>(),
        ensures
            elementary::corners(*m, cell.freq_hz, sample_rate, r.corner),
            elementary::boosts(*m, cell.gain_db, r.boost),
    {
        CellTone {
            corner: Corner::new(m, cell.freq_hz, sample_rate),
            boost: Boost::new(m, cell.gain_db),
        }
    }

    pub fn new<M: Elementary<S>>(m: &M, params: &EqChannelParams<S>, sample_rate: S) -> (r: Self)
        requires
            num::lawful::<S>(),
        ensures
            r.suits(*m, *params, sample_rate),
    {
        let held = clamp(params.delay_ms, get_whole(0), get_whole(500));
        ChannelTuning {
            tones: [
                Self::tone(m, &params.cells[0], sample_rate),
                Self::tone(m, &params.cells[1], sample_rate),
                Self::tone(m, &params.cells[2], sample_rate),
                Self::tone(m, &params.cells[3], sample_rate),
                Self::tone(m, &params.cells[4], sample_rate),
                Self::tone(m, &params.cells[5], sample_rate),
            ],
            trim_linear: gain_db_to_linear(m, params.trim_db),
            delay_samples: m.nearest(held / get_whole(1000) * sample_rate),
        }
    }
}

/// A delay line: a ring of past samples and how far back to read it. At zero
/// it is bypassed, and not even written.
pub struct DelayLine<S> {
    pub buffer: Vec<S>,
    pub write_pos: usize,
    pub delay_samples: usize,
    /// The rate the ring is sized for.
    pub sample_rate: S,
}

/// `n` is the ring length for half a second at a sample rate.
pub open spec fn is_capacity<S: Sample, M: Elementary<S>>(m: M, rate: S, n: usize) -> bool {
    exists|longest: usize| #[trigger]
        elementary::rounds_up(
            m,
            num::whole::<S>(500).div_spec(num::whole::<S>(1000)).mul_spec(rate),
            longest,
        ) && n == (if longest < usize::MAX {
            longest + 1
        } else {
            longest as int
        })
}

/// The ring length for half a second at a sample rate.
pub fn capacity_for<S: Sample, M: Elementary<S>>(m: &M, sample_rate: S) -> (n: usize)
    requires
        num::lawful::<S>(),
    ensures
        is_capacity(*m, sample_rate, n),
        n > 0,
{
    let longest: usize = m.whole_up(get_whole::<S>(500) / get_whole(1000) * sample_rate);
    assert(elementary::rounds_up(
        *m,
        num::whole::<S>(500).div_spec(num::whole::<S>(1000)).mul_spec(sample_rate),
        longest,
    ));
    if longest < usize::MAX {
        longest + 1
    } else {
        longest
    }
}

/// Where the sample `age + 1` writes old stands in a ring of `cap` whose next
/// write goes to `write_pos`.
pub open spec fn past_slot(write_pos: int, age: int, cap: int) -> int {
    if age < write_pos {
        write_pos - 1 - age
    } else {
        write_pos + cap - 1 - age
    }
}

impl<S> View for DelayLine<S> {
    type V = Seq<S>;

    /// The ring's contents, the newest sample first.
    open spec fn view(&self) -> Seq<S> {
        Seq::new(
            self.buffer@.len(),
            |age: int| self.buffer@[past_slot(
                self.write_pos as int,
                age,
                self.buffer@.len() as int,
            )],
        )
    }
}

impl<S: Sample> DelayLine<S> {
    pub open spec fn wf(&self) -> bool {
        &&& self.write_pos < self.buffer@.len()
        &&& self.delay_samples < self.buffer@.len()
    }

    pub open spec fn is_silent(&self) -> bool {
        forall|i: int| 0 <= i < self@.len() ==> #[trigger] self@[i] == num::whole::<S>(0)
    }

    /// A delay held to what a ring of `cap` can give.
    pub open spec fn feasible(requested: nat, cap: nat) -> nat {
        if requested < cap {
            requested
        } else {
            (cap - 1) as nat
        }
    }

    /// A silent line that can delay by less than `capacity` samples, and does
    /// not delay yet.
    pub fn new(capacity: usize, sample_rate: S) -> (r: Self)
        requires
            num::lawful::<S>(),
            capacity > 0,
        ensures
            r.wf(),
            r.is_silent(),
            r@.len() == capacity,
            r.delay_samples == 0,
            r.sample_rate == sample_rate,
    {
        let zero: S = get_whole(0);
        let mut buffer: Vec<S> = Vec::new();
        let mut i: usize = 0;
        while i < capacity
            invariant
                i <= capacity,
                buffer@.len() == i,
                zero == num::whole::<S>(0),
                forall|k: int| 0 <= k < i ==> buffer@[k] == zero,
            decreases capacity - i,
        {
            buffer.push(zero);
            i = i + 1;
        }
        DelayLine { buffer, write_pos: 0, delay_samples: 0, sample_rate }
    }

    /// Reads `requested` samples back from now on, or as far as the ring goes.
    pub fn set_delay_samples(&mut self, requested: usize)
        requires
            old(self).wf(),
        ensures
            final(self).wf(),
            final(self)@ == old(self)@,
            final(self).sample_rate == old(self).sample_rate,
            final(self).delay_samples == Self::feasible(requested as nat, old(self)@.len()),
    {
        let capacity: usize = self.buffer.len();
        self.delay_samples = if requested < capacity {
            requested
        } else {
            capacity - 1
        };
    }

    pub fn process(&mut self, x: S) -> (y: S)
        requires
            old(self).wf(),
        ensures
            final(self).wf(),
            final(self).delay_samples == old(self).delay_samples,
            final(self).sample_rate == old(self).sample_rate,
            old(self).delay_samples == 0 ==> y == x && final(self)@ == old(self)@,
            old(self).delay_samples > 0 ==> y == old(self)@[old(self).delay_samples - 1]
                && final(self)@ == old(self)@.drop_last().insert(0, x),
    {
        if self.delay_samples == 0 {
            return x;
        }
        let capacity: usize = self.buffer.len();
        let read_pos: usize = if self.delay_samples <= self.write_pos {
            self.write_pos - self.delay_samples
        } else {
            capacity - (self.delay_samples - self.write_pos)
        };
        let y = self.buffer[read_pos];
        let at: usize = self.write_pos;
        self.buffer[at] = x;
        self.write_pos = if at + 1 == capacity {
            0
        } else {
            at + 1
        };
        proof {
            let after = self@;
            let expected = old(self)@.drop_last().insert(0, x);
            assert forall|age: int| 0 <= age < capacity implies #[trigger] after[age]
                == expected[age] by {
                let slot = past_slot(self.write_pos as int, age, capacity as int);
                if age == 0 {
                    assert(slot == at);
                } else {
                    assert(slot == past_slot(at as int, age - 1, capacity as int));
                    assert(slot != at);
                    assert(expected[age] == old(self)@[age - 1]);
                }
            }
            assert(after =~= expected);
        }
        y
    }
}

/// The history of a delay line after `xs` has gone through, newest first.
pub open spec fn remembered<S>(history: Seq<S>, xs: Seq<S>) -> Seq<S>
    decreases xs.len(),
{
    if xs.len() == 0 {
        history
    } else {
        remembered(history, xs.drop_last()).drop_last().insert(0, xs.last())
    }
}

/// A delay of `d` gives back, after `n` samples, the sample that went in `d`
/// samples ago, and before that what was in the line to begin with.
pub proof fn law_delay_is_exact<S: Sample>(history: Seq<S>, xs: Seq<S>, d: int)
    requires
        0 < d < history.len(),
    ensures
        remembered(history, xs).len() == history.len(),
        remembered(history, xs)[d - 1] == (if d <= xs.len() {
            xs[xs.len() - d]
        } else {
            history[d - 1 - xs.len()]
        }),
{
    lemma_remembered(history, xs);
}

proof fn lemma_remembered<S>(history: Seq<S>, xs: Seq<S>)
    requires
        history.len() > 0,
    ensures
        remembered(history, xs).len() == history.len(),
        forall|k: int|
            0 <= k < history.len() ==> #[trigger] remembered(history, xs)[k] == (if k < xs.len() {
                xs[xs.len() - 1 - k]
            } else {
                history[k - xs.len()]
            }),
    decreases xs.len(),
{
    if xs.len() > 0 {
        let before = xs.drop_last();
        lemma_remembered(history, before);
        let h = remembered(history, before);
        assert forall|k: int| 0 <= k < history.len() implies #[trigger] remembered(history, xs)[k]
            == (if k < xs.len() {
            xs[xs.len() - 1 - k]
        } else {
            history[k - xs.len()]
        }) by {
            if k > 0 {
                assert(remembered(history, xs)[k] == h[k - 1]);
            }
        }
    }
}

/// One channel at work.
pub struct EqChannel<S> {
    pub biquads: [Biquad<S>; NUM_CELLS],
    pub trim_linear: S,
    pub delay: DelayLine<S>,
}

/// `x` after the first `count` cells of `cells`.
pub open spec fn chained<S: Sample>(cells: Seq<Biquad<S>>, count: nat, x: S) -> S
    decreases count,
{
    if count == 0 {
        x
    } else {
        cells[count - 1].output(chained(cells, (count - 1) as nat, x))
    }
}

impl<S: Sample> EqChannel<S> {
    pub open spec fn wf(&self) -> bool {
        &&& forall|i: int| 0 <= i < NUM_CELLS ==> (#[trigger] self.biquads@[i]).wf()
        &&& self.delay.wf()
    }

    /// The signal between the trim and the delay.
    pub open spec fn trimmed(&self, x: S) -> S {
        let y = chained(self.biquads@, NUM_CELLS as nat, x);
        if num::same(self.trim_linear, num::whole::<S>(1)) {
            y
        } else {
            y.mul_spec(self.trim_linear)
        }
    }

    pub open spec fn output(&self, x: S) -> S {
        if self.delay.delay_samples == 0 {
            self.trimmed(x)
        } else {
            self.delay@[self.delay.delay_samples - 1]
        }
    }

    /// `after` is this channel after `x` has gone through.
    pub open spec fn moves_to(&self, x: S, after: &EqChannel<S>) -> bool {
        &&& forall|i: int|
            0 <= i < NUM_CELLS ==> #[trigger] after.biquads@[i] == self.biquads@[i].after(
                chained(self.biquads@, i as nat, x),
            )
        &&& after.trim_linear == self.trim_linear
        &&& after.delay.delay_samples == self.delay.delay_samples
        &&& after.delay.sample_rate == self.delay.sample_rate
        &&& after.delay@ == (if self.delay.delay_samples == 0 {
            self.delay@
        } else {
            self.delay@.drop_last().insert(0, self.trimmed(x))
        })
    }

    /// Every cell bypassed, no trim, no delay and nothing in the line.
    pub open spec fn is_idle(&self, delay_capacity: nat, rate: S) -> bool {
        &&& forall|i: int|
            0 <= i < NUM_CELLS ==> #[trigger] self.biquads@[i] == Biquad::<S>::idle()
        &&& self.trim_linear == num::whole::<S>(1)
        &&& self.delay.is_silent()
        &&& self.delay.delay_samples == 0
        &&& self.delay@.len() == delay_capacity
        &&& self.delay.sample_rate == rate
    }

    /// A channel with every cell bypassed, no trim and no delay.
    pub fn new(delay_capacity: usize, sample_rate: S) -> (r: Self)
        requires
            num::lawful::<S>(),
            delay_capacity > 0,
        ensures
            r.wf(),
            r.is_idle(delay_capacity as nat, sample_rate),
    {
        let cell: Biquad<S> = Biquad::bypassed();
        EqChannel {
            biquads: [cell; NUM_CELLS],
            trim_linear: get_whole(1),
            delay: DelayLine::new(delay_capacity, sample_rate),
        }
    }

    /// `after` is this channel brought in line with its settings.
    pub open spec fn tuned_to(
        &self,
        params: EqChannelParams<S>,
        tuning: ChannelTuning<S>,
        after: &EqChannel<S>,
    ) -> bool {
        &&& forall|i: int|
            0 <= i < NUM_CELLS ==> #[trigger] after.biquads@[i] == (if params.cells@[i].on {
                self.biquads@[i].retuned(params.cells@[i].form(tuning.tones@[i]))
            } else {
                self.biquads@[i].released()
            })
        &&& after.trim_linear == (if num::same(params.trim_db, num::whole::<S>(0)) {
            num::whole::<S>(1)
        } else {
            tuning.trim_linear
        })
        &&& after.delay@ == self.delay@
        &&& after.delay.sample_rate == self.delay.sample_rate
        &&& after.delay.delay_samples == DelayLine::<S>::feasible(
            tuning.delay_samples as nat,
            self.delay@.len(),
        )
    }

    /// `after` is this channel brought in line with `params` at a sample rate.
    pub open spec fn in_line<M: Elementary<S>>(
        &self,
        m: M,
        params: EqChannelParams<S>,
        rate: S,
        after: &EqChannel<S>,
    ) -> bool {
        exists|tuning: ChannelTuning<S>| #[trigger]
            tuning.suits(m, params, rate) && self.tuned_to(params, tuning, after)
    }

    /// Brings the channel in line with its settings.
    pub fn apply_params(&mut self, params: &EqChannelParams<S>, tuning: &ChannelTuning<S>)
        requires
            num::lawful::<S>(),
            old(self).wf(),
        ensures
            final(self).wf(),
            old(self).tuned_to(*params, *tuning, final(self)),
    {
        let mut i: usize = 0;
        while i < NUM_CELLS
            invariant
                num::lawful::<S>(),
                i <= NUM_CELLS,
                self.delay == old(self).delay,
                self.wf(),
                forall|k: int|
                    0 <= k < NUM_CELLS ==> #[trigger] self.biquads@[k] == (if k >= i {
                        old(self).biquads@[k]
                    } else if params.cells@[k].on {
                        old(self).biquads@[k].retuned(params.cells@[k].form(tuning.tones@[k]))
                    } else {
                        old(self).biquads@[k].released()
                    }),
            decreases NUM_CELLS - i,
        {
            assert(self.biquads@[i as int].wf());
            if params.cells[i].on {
                let c = params.cells[i].coeffs(&tuning.tones[i]);
                self.biquads[i].set_coeffs(c);
            } else {
                self.biquads[i].bypass();
            }
            i = i + 1;
        }
        self.trim_linear = if is_same(params.trim_db, get_whole(0)) {
            get_whole(1)
        } else {
            tuning.trim_linear
        };
        self.delay.set_delay_samples(tuning.delay_samples);
    }

    pub fn process(&mut self, x: S) -> (y: S)
        requires
            num::lawful::<S>(),
            old(self).wf(),
        ensures
            final(self).wf(),
            y == old(self).output(x),
            old(self).moves_to(x, final(self)),
    {
        let mut v = x;
        let mut i: usize = 0;
        while i < NUM_CELLS
            invariant
                num::lawful::<S>(),
                i <= NUM_CELLS,
                self.delay == old(self).delay,
                self.trim_linear == old(self).trim_linear,
                self.wf(),
                v == chained(old(self).biquads@, i as nat, x),
                forall|k: int|
                    0 <= k < NUM_CELLS ==> #[trigger] self.biquads@[k] == (if k < i {
                        old(self).biquads@[k].after(chained(old(self).biquads@, k as nat, x))
                    } else {
                        old(self).biquads@[k]
                    }),
            decreases NUM_CELLS - i,
        {
            assert(self.biquads@[i as int].wf());
            v = self.biquads[i].process(v);
            i = i + 1;
        }
        if !is_same(self.trim_linear, get_whole(1)) {
            v = v * self.trim_linear;
        }
        self.delay.process(v)
    }
}

/// The channels of one equaliser at work.
pub struct EqBank<S> {
    pub channels: Vec<EqChannel<S>>,
}

impl<S: Sample> EqBank<S> {
    pub open spec fn wf(&self) -> bool {
        forall|c: int| 0 <= c < self.channels@.len() ==> (#[trigger] self.channels@[c]).wf()
    }

    /// `count` idle channels.
    pub open spec fn is_idle(&self, count: nat, delay_capacity: nat, rate: S) -> bool {
        &&& self.channels@.len() == count
        &&& forall|c: int|
            0 <= c < count ==> (#[trigger] self.channels@[c]).is_idle(delay_capacity, rate)
    }

    /// `count` neutral channels.
    pub fn new(count: usize, delay_capacity: usize, sample_rate: S) -> (r: Self)
        requires
            num::lawful::<S>(),
            delay_capacity > 0,
        ensures
            r.wf(),
            r.is_idle(count as nat, delay_capacity as nat, sample_rate),
    {
        let mut channels: Vec<EqChannel<S>> = Vec::new();
        let mut c: usize = 0;
        while c < count
            invariant
                num::lawful::<S>(),
                delay_capacity > 0,
                c <= count,
                channels@.len() == c,
                forall|k: int|
                    0 <= k < c ==> (#[trigger] channels@[k]).wf() && channels@[k].is_idle(
                        delay_capacity as nat,
                        sample_rate,
                    ),
            decreases count - c,
        {
            channels.push(EqChannel::new(delay_capacity, sample_rate));
            c = c + 1;
        }
        EqBank { channels }
    }

    /// One sample through one channel. An equaliser that is off is transparent
    /// and its channels stand still.
    pub fn process_channel(&mut self, on: bool, channel: usize, x: S) -> (y: S)
        requires
            num::lawful::<S>(),
            old(self).wf(),
            channel < old(self).channels@.len(),
        ensures
            final(self).wf(),
            final(self).channels@.len() == old(self).channels@.len(),
            forall|c: int|
                0 <= c < old(self).channels@.len() && (c != channel || !on)
                    ==> #[trigger] final(self).channels@[c] == old(self).channels@[c],
            !on ==> y == x,
            on ==> y == old(self).channels@[channel as int].output(x)
                && old(self).channels@[channel as int].moves_to(
                x,
                &final(self).channels@[channel as int],
            ),
    {
        if !on {
            return x;
        }
        assert(self.channels@[channel as int].wf());
        self.channels[channel].process(x)
    }
}

impl<S: Sample> EqBank<S> {
    /// `after` is this bank with `channel` brought in line with `params`.
    pub open spec fn synced<M: Elementary<S>>(
        &self,
        m: M,
        channel: int,
        params: EqChannelParams<S>,
        rate: S,
        after: &Self,
    ) -> bool {
        &&& after.channels@.len() == self.channels@.len()
        &&& forall|c: int|
            0 <= c < self.channels@.len() && c != channel ==> #[trigger] after.channels@[c]
                == self.channels@[c]
        &&& self.channels@[channel].in_line(m, params, rate, &after.channels@[channel])
    }

    /// `after` is this bank with its delay lines sized for a sample rate: new
    /// and silent, unless they were made for that rate.
    pub open spec fn resized(&self, delay_capacity: nat, rate: S, after: &Self) -> bool {
        &&& after.channels@.len() == self.channels@.len()
        &&& forall|c: int|
            0 <= c < self.channels@.len() ==> {
                let (before, now) = (self.channels@[c], #[trigger] after.channels@[c]);
                &&& now.biquads == before.biquads
                &&& now.trim_linear == before.trim_linear
                &&& if num::same(before.delay.sample_rate, rate) {
                    now.delay == before.delay
                } else {
                    &&& now.delay.is_silent()
                    &&& now.delay@.len() == delay_capacity
                    &&& now.delay.delay_samples == 0
                    &&& now.delay.sample_rate == rate
                }
            }
    }

    /// `after` is this bank with every channel in line with `eq`.
    pub open spec fn in_line<const N: usize, M: Elementary<S>>(
        &self,
        m: M,
        eq: ParametricEq<S, N>,
        rate: S,
        after: &Self,
    ) -> bool {
        &&& after.channels@.len() == N
        &&& forall|c: int|
            0 <= c < N ==> self.channels@[c].in_line(
                m,
                eq.current(c),
                rate,
                &(#[trigger] after.channels@[c]),
            )
    }

    /// `after` is this bank at a sample rate, with its delay lines sized for
    /// it.
    pub open spec fn at_rate<const N: usize, M: Elementary<S>>(
        &self,
        m: M,
        eq: ParametricEq<S, N>,
        rate: S,
        delay_capacity: nat,
        after: &Self,
    ) -> bool {
        exists|between: Self|
            #![trigger self.resized(delay_capacity, rate, &between)]
            self.resized(delay_capacity, rate, &between) && between.in_line(m, eq, rate, after)
    }

    /// Follows a change of the sample rate.
    pub fn set_sample_rate<const N: usize, M: Elementary<S>>(
        &mut self,
        m: &M,
        eq: &ParametricEq<S, N>,
        sample_rate: S,
        delay_capacity: usize,
    )
        requires
            num::lawful::<S>(),
            old(self).wf(),
            old(self).channels@.len() == N,
            delay_capacity > 0,
        ensures
            final(self).wf(),
            final(self).channels@.len() == N,
            old(self).at_rate(*m, *eq, sample_rate, delay_capacity as nat, final(self)),
    {
        self.resize_delays(delay_capacity, sample_rate);
        let ghost between = *self;
        self.resync(m, eq, sample_rate);
        assert(old(self).resized(delay_capacity as nat, sample_rate, &between));
    }

    /// Sizes the delay lines for a sample rate.
    pub fn resize_delays(&mut self, delay_capacity: usize, sample_rate: S)
        requires
            num::lawful::<S>(),
            old(self).wf(),
            delay_capacity > 0,
        ensures
            final(self).wf(),
            old(self).resized(delay_capacity as nat, sample_rate, final(self)),
    {
        let count: usize = self.channels.len();
        let mut c: usize = 0;
        while c < count
            invariant
                num::lawful::<S>(),
                delay_capacity > 0,
                self.wf(),
                c <= count,
                count == old(self).channels@.len(),
                self.channels@.len() == count,
                forall|k: int|
                    c <= k < count ==> #[trigger] self.channels@[k] == old(self).channels@[k],
                forall|k: int|
                    0 <= k < c ==> {
                        let (before, after) = (
                            old(self).channels@[k],
                            #[trigger] self.channels@[k],
                        );
                        &&& after.biquads == before.biquads
                        &&& after.trim_linear == before.trim_linear
                        &&& if num::same(before.delay.sample_rate, sample_rate) {
                            after.delay == before.delay
                        } else {
                            &&& after.delay.is_silent()
                            &&& after.delay@.len() == delay_capacity
                            &&& after.delay.delay_samples == 0
                            &&& after.delay.sample_rate == sample_rate
                        }
                    },
            decreases count - c,
        {
            assert(self.channels@[c as int].wf());
            if !is_same(self.channels[c].delay.sample_rate, sample_rate) {
                self.channels[c].delay = DelayLine::new(delay_capacity, sample_rate);
            }
            c = c + 1;
        }
    }

    /// Brings one channel in line with the equaliser's settings.
    pub fn sync_channel<const N: usize, M: Elementary<S>>(
        &mut self,
        m: &M,
        eq: &ParametricEq<S, N>,
        channel: usize,
        sample_rate: S,
    )
        requires
            num::lawful::<S>(),
            old(self).wf(),
            old(self).channels@.len() == N,
            channel < N,
        ensures
            final(self).wf(),
            old(self).synced(
                *m,
                channel as int,
                eq.current(channel as int),
                sample_rate,
                final(self),
            ),
    {
        let params = *eq.channel_params(channel);
        let tuning = ChannelTuning::new(m, &params, sample_rate);
        assert(self.channels@[channel as int].wf());
        self.channels[channel].apply_params(&params, &tuning);
    }

    /// Brings every channel in line with the equaliser's settings.
    pub fn resync<const N: usize, M: Elementary<S>>(
        &mut self,
        m: &M,
        eq: &ParametricEq<S, N>,
        sample_rate: S,
    )
        requires
            num::lawful::<S>(),
            old(self).wf(),
            old(self).channels@.len() == N,
        ensures
            final(self).wf(),
            old(self).in_line(*m, *eq, sample_rate, final(self)),
    {
        let mut channel: usize = 0;
        while channel < N
            invariant
                num::lawful::<S>(),
                self.wf(),
                channel <= N,
                self.channels@.len() == N,
                old(self).channels@.len() == N,
                forall|c: int|
                    channel <= c < N ==> #[trigger] self.channels@[c] == old(self).channels@[c],
                forall|c: int|
                    0 <= c < channel ==> old(self).channels@[c].in_line(
                        *m,
                        eq.current(c),
                        sample_rate,
                        &(#[trigger] self.channels@[c]),
                    ),
            decreases N - channel,
        {
            self.sync_channel(m, eq, channel, sample_rate);
            channel = channel + 1;
        }
    }
}

/// A channel with every cell bypassed, no trim and no delay is transparent.
pub proof fn law_neutral_channel_is_transparent<S: Sample>(channel: EqChannel<S>, x: S)
    requires
        channel.wf(),
        forall|i: int| 0 <= i < NUM_CELLS ==> (#[trigger] channel.biquads@[i]).coeffs is None,
        num::same(channel.trim_linear, num::whole::<S>(1)),
        channel.delay.delay_samples == 0,
    ensures
        channel.output(x) == x,
{
    lemma_bypassed_chain(channel, NUM_CELLS as nat, x);
}

proof fn lemma_bypassed_chain<S: Sample>(channel: EqChannel<S>, count: nat, x: S)
    requires
        channel.wf(),
        count <= NUM_CELLS,
        forall|i: int| 0 <= i < NUM_CELLS ==> (#[trigger] channel.biquads@[i]).coeffs is None,
    ensures
        chained(channel.biquads@, count, x) == x,
    decreases count,
{
    if count > 0 {
        lemma_bypassed_chain(channel, (count - 1) as nat, x);
        let cell = channel.biquads@[count - 1];
        assert(cell.wf() && cell.coeffs is None);
    }
}

} // verus!
