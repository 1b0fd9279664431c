//! A windowed-sinc polyphase resampler for one channel.
//!
//! The filter is a bank of fractional delays, made once. A sample of output is
//! the filter of the nearest fraction over the most recent samples of input.

use crate::num::{self, get_magnitude, get_ratio, get_whole, is_at_most, is_below, Sample};
use crate::precision::{self, Precision};
use vstd::prelude::*;
use vstd::std_specs::ops::{AddSpec, DivSpec, MulSpec, SubSpec};

verus! {

/// Input samples under the filter.
pub const TAPS: usize = 32;

/// Fractional positions the filter is made for.
pub const NUM_PHASES: usize = 256;

/// The distance of tap `k` from the position of phase `p`, in samples.
pub open spec fn tap_distance<P: Sample>(p: int, k: int) -> P {
    num::whole::<P>(k - (TAPS / 2 - 1)).sub_spec(num::ratio::<P>(p, NUM_PHASES as int))
}

/// `y` is `sin(pi x) / (pi x)`, one at zero.
pub open spec fn is_sinc<S, P: Sample, W: Precision<S, P>>(w: W, x: P, y: P) -> bool {
    if num::below(num::magnitude(x), tiny::<P>()) {
        y == num::whole::<P>(1)
    } else {
        exists|angle: P, s: P|
            precision::angles(w, x, angle) && precision::sines(w, angle, s) && y
                == #[trigger] s.div_spec(angle)
    }
}

/// A billionth.
pub open spec fn tiny<P: Sample>() -> P {
    num::whole::<P>(1).div_spec(
        num::whole::<P>(1000).mul_spec(num::whole::<P>(1000)).mul_spec(num::whole::<P>(1000)),
    )
}

/// `y` is the raised cosine over the filter's width at `x`.
pub open spec fn is_window<S, P: Sample, W: Precision<S, P>>(w: W, x: P, y: P) -> bool {
    let half = num::ratio::<P>(TAPS as int, 2);
    if num::at_most(half, num::magnitude(x)) {
        y == num::whole::<P>(0)
    } else {
        exists|angle: P, c: P| #[trigger]
            windowed_by(w, x, half, angle, c) && y == num::ratio::<P>(1, 2).add_spec(
                num::ratio::<P>(1, 2).mul_spec(c),
            )
    }
}

pub open spec fn windowed_by<S, P: Sample, W: Precision<S, P>>(
    w: W,
    x: P,
    half: P,
    angle: P,
    c: P,
) -> bool {
    precision::angles(w, x, angle) && precision::cosines(w, angle.div_spec(half), c)
}

/// `v` is the filter at distance `x`, before it is scaled.
pub open spec fn is_tap<S, P: Sample, W: Precision<S, P>>(w: W, x: P, v: P) -> bool {
    exists|a: P, b: P|
        is_sinc(w, x, a) && is_window(w, x, b) && v == #[trigger] a.mul_spec(b)
}

/// The sum of the filter's values, in order.
pub open spec fn total<P: Sample>(values: Seq<P>) -> P
    decreases values.len(),
{
    if values.len() == 0 {
        num::whole::<P>(0)
    } else {
        total(values.drop_last()).add_spec(values.last())
    }
}

/// `t` is the filter value `v`, as a sample, scaled to a sum of one.
pub open spec fn is_scaled<S, P: Sample, W: Precision<S, P>>(w: W, v: P, sum: P, t: S) -> bool {
    exists|first: S, wide: P| #[trigger]
        scaled_by(w, v, first, wide) && precision::narrows(w, wide.div_spec(sum), t)
}

pub open spec fn scaled_by<S, P: Sample, W: Precision<S, P>>(w: W, v: P, first: S, wide: P) -> bool {
    precision::narrows(w, v, first) && precision::widens(w, first, wide)
}

/// The filter of phase `p`.
pub open spec fn is_phase<S, P: Sample, W: Precision<S, P>>(w: W, p: int, row: Seq<S>) -> bool {
    exists|values: Seq<P>| #[trigger]
        designed(w, p, values) && forall|k: int|
            0 <= k < TAPS ==> is_scaled(w, values[k], total(values), #[trigger] row[k])
}

/// The unscaled filter of phase `p`.
pub open spec fn designed<S, P: Sample, W: Precision<S, P>>(w: W, p: int, values: Seq<P>) -> bool {
    &&& values.len() == TAPS
    &&& forall|k: int|
        0 <= k < TAPS ==> is_tap::<S, P, W>(w, tap_distance::<P>(p, k), #[trigger] values[k])
}

/// The filter's state: the most recent input, oldest first, how much of it has
/// arrived at all, and how far the next output lies behind its middle.
#[verifier::ext_equal]
pub struct Reading<S, P> {
    pub history: Seq<S>,
    pub filled: int,
    pub offset: P,
}

impl<S: Sample, P: Sample> Reading<S, P> {
    /// More input is needed before the next output.
    pub open spec fn hungry(self) -> bool {
        self.filled < TAPS || num::at_most(num::whole::<P>(1), self.offset)
    }

    /// One more sample of input.
    pub open spec fn taking(self, x: S) -> Self {
        Reading {
            history: self.history.drop_first().push(x),
            filled: if self.filled < TAPS {
                self.filled + 1
            } else {
                self.filled
            },
            offset: if self.filled < TAPS {
                self.offset
            } else {
                self.offset.sub_spec(num::whole::<P>(1))
            },
        }
    }

    /// One sample of output further on.
    pub open spec fn advanced(self, step: P) -> Self {
        Reading { offset: self.offset.add_spec(step), ..self }
    }

    /// Takes input from place `pos` on until there is enough for an output.
    /// Gives the state, the place behind what was taken, and whether there was
    /// enough.
    pub open spec fn settled(self, input: Seq<S>, pos: int) -> (Self, int, bool)
        decreases input.len() - pos,
    {
        if !self.hungry() {
            (self, pos, true)
        } else if pos >= input.len() {
            (self, pos, false)
        } else {
            self.taking(input[pos]).settled(input, pos + 1)
        }
    }
}

/// The sum of the products of two sequences, in order.
pub open spec fn dot<S: Sample>(a: Seq<S>, b: Seq<S>) -> S
    decreases a.len(),
{
    if a.len() == 0 {
        num::whole::<S>(0)
    } else {
        dot(a.drop_last(), b.drop_last()).add_spec(a.last().mul_spec(b.last()))
    }
}

/// `y` is the output at `reading`, by the filter of the nearest phase.
pub open spec fn interpolates<S: Sample, P: Sample, W: Precision<S, P>>(
    w: W,
    kernel: Seq<[S; TAPS]>,
    reading: Reading<S, P>,
    y: S,
) -> bool {
    exists|n: usize| #[trigger]
        precision::rounds::<S, P, W>(
            w,
            reading.offset.mul_spec(num::whole::<P>(NUM_PHASES as int)),
            n,
        ) && y == dot(
            reading.history,
            kernel[if n < NUM_PHASES {
                n as int
            } else {
                NUM_PHASES - 1
            }]@,
        )
}

/// A run of the resampler over `input`: before output `n` it stands at
/// `states[n]` with the input before `places[n]` taken.
pub open spec fn runs<S: Sample, P: Sample, W: Precision<S, P>>(
    w: W,
    kernel: Seq<[S; TAPS]>,
    step: P,
    input: Seq<S>,
    output: Seq<S>,
    states: Seq<Reading<S, P>>,
    places: Seq<int>,
) -> bool {
    &&& states.len() == output.len() + 1
    &&& places.len() == output.len() + 1
    &&& forall|n: int|
        0 <= n < output.len() ==> #[trigger] one_output(
            w,
            kernel,
            step,
            input,
            output,
            states,
            places,
            n,
        )
}

/// Output `n` of a run.
pub open spec fn one_output<S: Sample, P: Sample, W: Precision<S, P>>(
    w: W,
    kernel: Seq<[S; TAPS]>,
    step: P,
    input: Seq<S>,
    output: Seq<S>,
    states: Seq<Reading<S, P>>,
    places: Seq<int>,
    n: int,
) -> bool {
    let (at, place, enough) = states[n].settled(input, places[n]);
    &&& enough
    &&& interpolates(w, kernel, at, output[n])
    &&& states[n + 1] == at.advanced(step)
    &&& places[n + 1] == place
}

/// Resampling `input` into room for `room` samples gives `output`: it stops
/// where the room is used, or where the input has run out.
pub open spec fn resamples<S: Sample, P: Sample, W: Precision<S, P>>(
    w: W,
    kernel: Seq<[S; TAPS]>,
    step: P,
    before: Reading<S, P>,
    input: Seq<S>,
    room: int,
    output: Seq<S>,
    after: Reading<S, P>,
    consumed: int,
) -> bool {
    exists|states: Seq<Reading<S, P>>, places: Seq<int>| #[trigger]
        runs(w, kernel, step, input, output, states, places) && states[0] == before && places[0]
            == 0 && ends(states.last(), places.last(), input, room, output, after, consumed)
}

pub open spec fn ends<S: Sample, P: Sample>(
    last: Reading<S, P>,
    place: int,
    input: Seq<S>,
    room: int,
    output: Seq<S>,
    after: Reading<S, P>,
    consumed: int,
) -> bool {
    if output.len() == room {
        after == last && consumed == place
    } else {
        &&& output.len() < room
        &&& last.settled(input, place) == (after, consumed, false)
    }
}

pub struct Resampler<S, P> {
    kernel: Vec<[S; TAPS]>,
    history: [S; TAPS],
    filled: usize,
    read_offset: P,
}

/// The filter value at distance `x`.
fn tap_value<S: Sample, P: Sample, W: Precision<S, P>>(w: &W, x: P) -> (v: P)
    requires
        num::lawful::<P>(),
    ensures
        is_tap::<S, P, W>(*w, x, v),
{
    let half: P = get_ratio(TAPS as i16, 2);
    let thousand: P = get_whole(1000);
    let small: P = get_whole::<P>(1) / (thousand * thousand * thousand);
    let sinc: P = if is_below(get_magnitude(x), small) {
        get_whole(1)
    } else {
        let angle = w.times_pi(x);
        let s = w.sine(angle);
        s / angle
    };
    assert(is_sinc::<S, P, W>(*w, x, sinc));
    let window: P = if is_at_most(half, get_magnitude(x)) {
        get_whole(0)
    } else {
        let angle = w.times_pi(x);
        let c = w.cosine(angle / half);
        assert(windowed_by::<S, P, W>(*w, x, half, angle, c));
        get_ratio::<P>(1, 2) + get_ratio::<P>(1, 2) * c
    };
    assert(is_window::<S, P, W>(*w, x, window));
    sinc * window
}

/// The filter of phase `p`.
fn design_phase<S: Sample, P: Sample, W: Precision<S, P>>(w: &W, p: usize) -> (row: [S; TAPS])
    requires
        num::lawful::<S>(),
        num::lawful::<P>(),
        p < NUM_PHASES,
    ensures
        is_phase::<S, P, W>(*w, p as int, row@),
{
    let zero: S = get_whole(0);
    let d: P = get_ratio(p as i16, NUM_PHASES as i16);
    let mut values: Vec<P> = Vec::new();
    let mut sum: P = get_whole(0);
    let mut k: usize = 0;
    while k < TAPS
        invariant
            num::lawful::<P>(),
            k <= TAPS,
            p < NUM_PHASES,
            d == num::ratio::<P>(p as int, NUM_PHASES as int),
            values@.len() == k,
            sum == total(values@),
            forall|j: int|
                0 <= j < k ==> is_tap::<S, P, W>(
                    *w,
                    tap_distance::<P>(p as int, j),
                    #[trigger] values@[j],
                ),
        decreases TAPS - k,
    {
        let off: P = get_whole((k as i16) - (TAPS as i16 / 2 - 1));
        let value: P = tap_value::<S, P, W>(w, off - d);
        let ghost before = values@;
        values.push(value);
        assert(values@.drop_last() =~= before);
        sum = sum + value;
        k = k + 1;
    }
    assert(designed::<S, P, W>(*w, p as int, values@));
    let mut row = [zero; TAPS];
    let mut k: usize = 0;
    while k < TAPS
        invariant
            num::lawful::<P>(),
            k <= TAPS,
            values@.len() == TAPS,
            sum == total(values@),
            forall|j: int|
                0 <= j < k ==> is_scaled(*w, values@[j], total(values@), #[trigger] row@[j]),
        decreases TAPS - k,
    {
        let first: S = w.narrow(values[k]);
        let wide: P = w.widen(first);
        let scaled: S = w.narrow(wide / sum);
        assert(scaled_by(*w, values@[k as int], first, wide));
        row[k] = scaled;
        k = k + 1;
    }
    row
}

impl<S: Sample, P: Sample> Resampler<S, P> {
    pub closed spec fn kernel(&self) -> Seq<[S; TAPS]> {
        self.kernel@
    }

    pub closed spec fn reading(&self) -> Reading<S, P> {
        Reading { history: self.history@, filled: self.filled as int, offset: self.read_offset }
    }

    /// The filter bank is the windowed sinc, phase by phase.
    pub open spec fn designed<W: Precision<S, P>>(&self, w: W) -> bool {
        &&& self.kernel().len() == NUM_PHASES
        &&& forall|p: int|
            0 <= p < NUM_PHASES ==> is_phase::<S, P, W>(w, p, (#[trigger] self.kernel()[p])@)
    }

    pub closed spec fn wf(&self) -> bool {
        &&& self.kernel@.len() == NUM_PHASES
        &&& self.filled <= TAPS
    }

    /// Resampling `input` at `ratio` into room for `room` samples gave `output`
    /// and took `consumed` of the input.
    pub open spec fn resampled<W: Precision<S, P>>(
        &self,
        w: W,
        ratio: S,
        input: Seq<S>,
        room: int,
        output: Seq<S>,
        after: &Self,
        consumed: int,
    ) -> bool {
        &&& after.kernel() == self.kernel()
        &&& exists|wide: P|
            precision::widens(w, ratio, wide) && resamples(
                w,
                self.kernel(),
                #[trigger] num::whole::<P>(1).div_spec(wide),
                self.reading(),
                input,
                room,
                output,
                after.reading(),
                consumed,
            )
    }

    /// Its filter is made, and it has heard nothing.
    pub open spec fn is_new<W: Precision<S, P>>(&self, w: W) -> bool {
        &&& self.wf()
        &&& self.designed(w)
        &&& self.reading() == (Reading {
            history: Seq::new(TAPS as nat, |k: int| num::whole::<S>(0)),
            filled: 0,
            offset: num::whole::<P>(0),
        })
    }

    /// A resampler that has heard nothing, with its filter made.
    pub fn new<W: Precision<S, P>>(w: &W) -> (r: Self)
        requires
            num::lawful::<S>(),
            num::lawful::<P>(),
        ensures
            r.is_new(*w),
    {
        let mut kernel: Vec<[S; TAPS]> = Vec::new();
        let mut p: usize = 0;
        while p < NUM_PHASES
            invariant
                num::lawful::<S>(),
                num::lawful::<P>(),
                p <= NUM_PHASES,
                kernel@.len() == p,
                forall|q: int|
                    0 <= q < p ==> is_phase::<S, P, W>(*w, q, (#[trigger] kernel@[q])@),
            decreases NUM_PHASES - p,
        {
            kernel.push(design_phase::<S, P, W>(w, p));
            p = p + 1;
        }
        let zero: S = get_whole(0);
        let r = Resampler {
            kernel,
            history: [zero; TAPS],
            filled: 0,
            read_offset: get_whole(0),
        };
        assert(r.history@ =~= Seq::new(TAPS as nat, |k: int| num::whole::<S>(0)));
        r
    }

    /// Takes one sample of input in.
    fn push(&mut self, sample: S)
        requires
            old(self).wf(),
        ensures
            final(self).wf(),
            final(self).kernel == old(self).kernel,
            final(self).read_offset == old(self).read_offset,
            final(self).history@ == old(self).history@.drop_first().push(sample),
            final(self).filled == (if old(self).filled < TAPS {
                old(self).filled + 1
            } else {
                old(self).filled as int
            }),
    {
        let mut k: usize = 0;
        while k < TAPS - 1
            invariant
                k <= TAPS - 1,
                self.wf(),
                self.kernel == old(self).kernel,
                self.read_offset == old(self).read_offset,
                self.filled == old(self).filled,
                forall|j: int|
                    0 <= j < TAPS ==> #[trigger] self.history@[j] == (if j < k {
                        old(self).history@[j + 1]
                    } else {
                        old(self).history@[j]
                    }),
            decreases TAPS - 1 - k,
        {
            self.history[k] = self.history[k + 1];
            k = k + 1;
        }
        self.history[TAPS - 1] = sample;
        assert(self.history@ =~= old(self).history@.drop_first().push(sample));
        if self.filled < TAPS {
            self.filled = self.filled + 1;
        }
    }

    /// Takes input until there is enough for an output.
    fn settle(&mut self, input: &[S], in_pos: usize) -> (r: (usize, bool))
        requires
            num::lawful::<P>(),
            old(self).wf(),
            in_pos <= input@.len(),
        ensures
            final(self).wf(),
            final(self).kernel == old(self).kernel,
            in_pos <= r.0 <= input@.len(),
            (final(self).reading(), r.0 as int, r.1) == old(self).reading().settled(
                input@,
                in_pos as int,
            ),
    {
        let mut pos: usize = in_pos;
        loop
            invariant
                num::lawful::<P>(),
                self.wf(),
                self.kernel == old(self).kernel,
                in_pos <= pos <= input@.len(),
                self.reading().settled(input@, pos as int) == old(self).reading().settled(
                    input@,
                    in_pos as int,
                ),
            decreases input@.len() - pos,
        {
            let primed: bool = self.filled == TAPS;
            if primed && !is_at_most(get_whole(1), self.read_offset) {
                return (pos, true);
            }
            if pos >= input.len() {
                return (pos, false);
            }
            let ghost before = self.reading();
            self.push(input[pos]);
            if primed {
                self.read_offset = self.read_offset - get_whole(1);
            }
            assert(self.reading() == before.taking(input@[pos as int]));
            pos = pos + 1;
        }
    }

    /// The output at the present position.
    fn interpolate<W: Precision<S, P>>(&self, w: &W) -> (y: S)
        requires
            num::lawful::<S>(),
            num::lawful::<P>(),
            self.wf(),
        ensures
            interpolates(*w, self.kernel(), self.reading(), y),
    {
        let nearest: usize = w.nearest(self.read_offset * get_whole(NUM_PHASES as i16));
        let phase: usize = if nearest < NUM_PHASES {
            nearest
        } else {
            NUM_PHASES - 1
        };
        let ghost row = self.kernel@[phase as int]@;
        let mut sum: S = get_whole(0);
        let mut k: usize = 0;
        assert(dot(self.history@.take(0), row.take(0)) == num::whole::<S>(0));
        while k < TAPS
            invariant
                num::lawful::<S>(),
                self.wf(),
                phase < NUM_PHASES,
                row == self.kernel@[phase as int]@,
                k <= TAPS,
                sum == dot(self.history@.take(k as int), row.take(k as int)),
            decreases TAPS - k,
        {
            assert(self.history@.take(k + 1).drop_last() =~= self.history@.take(k as int));
            assert(row.take(k + 1).drop_last() =~= row.take(k as int));
            sum = sum + self.history[k] * self.kernel[phase][k];
            k = k + 1;
        }
        assert(self.history@.take(TAPS as int) =~= self.history@);
        assert(row.take(TAPS as int) =~= row);
        assert(precision::rounds::<S, P, W>(
            *w,
            self.reading().offset.mul_spec(num::whole::<P>(NUM_PHASES as int)),
            nearest,
        ));
        sum
    }

    /// Resamples `input` into `output`, `ratio` samples of output for one of
    /// input. Returns how much was written and how much was taken. Where the
    /// input runs out first, the run goes on from here with the next input.
    pub fn process<W: Precision<S, P>>(
        &mut self,
        w: &W,
        ratio: S,
        input: &[S],
        output: &mut Vec<S>,
    ) -> (r: (usize, usize))
        requires
            num::lawful::<S>(),
            num::lawful::<P>(),
            old(self).wf(),
        ensures
            final(self).wf(),
            r.0 <= old(output)@.len(),
            r.1 <= input@.len(),
            final(output)@.len() == old(output)@.len(),
            r.0 < old(output)@.len() ==> r.1 == input@.len(),
            final(output)@.skip(r.0 as int) == old(output)@.skip(r.0 as int),
            old(self).resampled(
                *w,
                ratio,
                input@,
                old(output)@.len() as int,
                final(output)@.take(r.0 as int),
                final(self),
                r.1 as int,
            ),
    {
        let wide: P = w.widen(ratio);
        let step: P = get_whole::<P>(1) / wide;
        let room: usize = output.len();
        let ghost kernel = self.kernel();
        let ghost mut states: Seq<Reading<S, P>> = seq![self.reading()];
        let ghost mut places: Seq<int> = seq![0int];
        let mut in_pos: usize = 0;
        let mut out_pos: usize = 0;
        assert(runs(*w, kernel, step, input@, output@.take(0), states, places));
        while out_pos < room
            invariant
                num::lawful::<S>(),
                num::lawful::<P>(),
                self.wf(),
                self.kernel() == kernel,
                kernel == old(self).kernel(),
                precision::widens(*w, ratio, wide),
                step == num::whole::<P>(1).div_spec(wide),
                out_pos <= room,
                room == output@.len(),
                room == old(output)@.len(),
                in_pos <= input@.len(),
                output@.skip(out_pos as int) == old(output)@.skip(out_pos as int),
                runs(*w, kernel, step, input@, output@.take(out_pos as int), states, places),
                states[0] == old(self).reading(),
                places[0] == 0,
                states.last() == self.reading(),
                places.last() == in_pos,
            decreases room - out_pos,
        {
            let ghost from = self.reading();
            let (pos, enough) = self.settle(input, in_pos);
            if !enough {
                assert(from.settled(input@, in_pos as int) == (self.reading(), pos as int, false));
                proof {
                    lemma_settled_place(from, input@, in_pos as int);
                }
                assert(resamples(
                    *w,
                    kernel,
                    step,
                    old(self).reading(),
                    input@,
                    room as int,
                    output@.take(out_pos as int),
                    self.reading(),
                    pos as int,
                ));
                return (out_pos, pos);
            }
            let ghost at = self.reading();
            let y = self.interpolate(w);
            let ghost earlier = output@;
            output[out_pos] = y;
            self.read_offset = self.read_offset + step;
            proof {
                let more_states = states.push(self.reading());
                let more_places = places.push(pos as int);
                let before = earlier.take(out_pos as int);
                let now = output@.take(out_pos + 1);
                assert(output@.skip(out_pos + 1) =~= earlier.skip(out_pos as int).skip(1));
                assert(old(output)@.skip(out_pos + 1) =~= old(output)@.skip(out_pos as int).skip(
                    1,
                ));
                assert forall|n: int| 0 <= n < now.len() implies #[trigger] one_output(
                    *w,
                    kernel,
                    step,
                    input@,
                    now,
                    more_states,
                    more_places,
                    n,
                ) by {
                    if n < out_pos {
                        assert(one_output(
                            *w,
                            kernel,
                            step,
                            input@,
                            before,
                            states,
                            places,
                            n,
                        ));
                        assert(now[n] == before[n]);
                        assert(more_states[n] == states[n] && more_states[n + 1] == states[n + 1]);
                        assert(more_places[n] == places[n] && more_places[n + 1] == places[n + 1]);
                    } else {
                        assert(more_states[n] == from);
                        assert(more_places[n] == in_pos);
                        assert(self.reading() == at.advanced(step));
                    }
                }
                states = more_states;
                places = more_places;
            }
            in_pos = pos;
            out_pos = out_pos + 1;
        }
        assert(resamples(
            *w,
            kernel,
            step,
            old(self).reading(),
            input@,
            room as int,
            output@.take(out_pos as int),
            self.reading(),
            in_pos as int,
        ));
        (out_pos, in_pos)
    }
}

/// Settling takes no more than there is, and stops short only at the end.
proof fn lemma_settled_place<S: Sample, P: Sample>(r: Reading<S, P>, input: Seq<S>, pos: int)
    requires
        0 <= pos <= input.len(),
    ensures
        pos <= r.settled(input, pos).1 <= input.len(),
        !r.settled(input, pos).2 ==> r.settled(input, pos).1 == input.len() && r.settled(
            input,
            pos,
        ).0.hungry(),
    decreases input.len() - pos,
{
    if r.hungry() && pos < input.len() {
        lemma_settled_place(r.taking(input[pos]), input, pos + 1);
    }
}

/// More input behind what was enough changes nothing; behind what was not, it
/// is taken up where the first ended.
proof fn lemma_settled_longer<S: Sample, P: Sample>(
    r: Reading<S, P>,
    a: Seq<S>,
    b: Seq<S>,
    pos: int,
)
    requires
        0 <= pos <= a.len(),
    ensures
        r.settled(a, pos).2 ==> r.settled(a + b, pos) == r.settled(a, pos),
        !r.settled(a, pos).2 ==> r.settled(a + b, pos) == r.settled(a, pos).0.settled(
            a + b,
            a.len() as int,
        ),
    decreases a.len() - pos,
{
    if r.hungry() && pos < a.len() {
        lemma_settled_longer(r.taking(a[pos]), a, b, pos + 1);
    }
}

proof fn lemma_settled_behind<S: Sample, P: Sample>(
    r: Reading<S, P>,
    a: Seq<S>,
    b: Seq<S>,
    pos: int,
)
    requires
        0 <= pos <= b.len(),
    ensures
        r.settled(a + b, a.len() + pos) == (
            r.settled(b, pos).0,
            a.len() + r.settled(b, pos).1,
            r.settled(b, pos).2,
        ),
    decreases b.len() - pos,
{
    if r.hungry() && pos < b.len() {
        lemma_settled_behind(r.taking(b[pos]), a, b, pos + 1);
    }
}

/// A run's places stay inside its input.
proof fn lemma_places<S: Sample, P: Sample, W: Precision<S, P>>(
    w: W,
    kernel: Seq<[S; TAPS]>,
    step: P,
    input: Seq<S>,
    output: Seq<S>,
    states: Seq<Reading<S, P>>,
    places: Seq<int>,
    n: int,
)
    requires
        runs(w, kernel, step, input, output, states, places),
        places[0] == 0,
        0 <= n <= output.len(),
    ensures
        0 <= places[n] <= input.len(),
    decreases n,
{
    if n > 0 {
        lemma_places(w, kernel, step, input, output, states, places, n - 1);
        assert(one_output(w, kernel, step, input, output, states, places, n - 1));
        lemma_settled_place(states[n - 1], input, places[n - 1]);
    }
}

/// The cut between two calls cannot be heard: where the input of the first ran
/// out, resampling the rest with the room that was left gives together what
/// one call on all the input gives.
pub proof fn law_resuming_is_seamless<S: Sample, P: Sample, W: Precision<S, P>>(
    w: W,
    kernel: Seq<[S; TAPS]>,
    step: P,
    before: Reading<S, P>,
    a: Seq<S>,
    b: Seq<S>,
    room: int,
    first: Seq<S>,
    between: Reading<S, P>,
    consumed: int,
    second: Seq<S>,
    after: Reading<S, P>,
    consumed_after: int,
)
    requires
        resamples(w, kernel, step, before, a, room, first, between, consumed),
        first.len() < room,
        resamples(
            w,
            kernel,
            step,
            between,
            b,
            room - first.len(),
            second,
            after,
            consumed_after,
        ),
    ensures
        consumed == a.len(),
        resamples(
            w,
            kernel,
            step,
            before,
            a + b,
            room,
            first + second,
            after,
            a.len() + consumed_after,
        ),
{
    let (states1, places1) = choose|states: Seq<Reading<S, P>>, places: Seq<int>| #[trigger]
        runs(w, kernel, step, a, first, states, places) && states[0] == before && places[0] == 0
            && ends(states.last(), places.last(), a, room, first, between, consumed);
    let (states2, places2) = choose|states: Seq<Reading<S, P>>, places: Seq<int>| #[trigger]
        runs(w, kernel, step, b, second, states, places) && states[0] == between && places[0] == 0
            && ends(
            states.last(),
            places.last(),
            b,
            room - first.len(),
            second,
            after,
            consumed_after,
        );
    let cut = first.len() as int;
    lemma_places(w, kernel, step, a, first, states1, places1, cut);
    lemma_settled_place(states1[cut], a, places1[cut]);
    lemma_settled_longer(states1[cut], a, b, places1[cut]);
    lemma_settled_behind(between, a, b, 0);
    let output = first + second;
    let states = states1 + states2.skip(1);
    let places = places1 + Seq::new(second.len(), |i: int| a.len() + places2[i + 1]);
    assert forall|n: int| 0 <= n < output.len() implies #[trigger] one_output(
        w,
        kernel,
        step,
        a + b,
        output,
        states,
        places,
        n,
    ) by {
        if n < cut {
            assert(one_output(w, kernel, step, a, first, states1, places1, n));
            lemma_places(w, kernel, step, a, first, states1, places1, n);
            lemma_settled_longer(states1[n], a, b, places1[n]);
            assert(states[n] == states1[n] && states[n + 1] == states1[n + 1]);
            assert(places[n] == places1[n] && places[n + 1] == places1[n + 1]);
        } else {
            let k = n - cut;
            assert(one_output(w, kernel, step, b, second, states2, places2, k));
            lemma_places(w, kernel, step, b, second, states2, places2, k);
            lemma_settled_behind(states2[k], a, b, places2[k]);
            assert(output[n] == second[k]);
            assert(states[n + 1] == states2[k + 1]);
            assert(places[n + 1] == a.len() + places2[k + 1]);
            if k > 0 {
                assert(states[n] == states2[k]);
                assert(places[n] == a.len() + places2[k]);
            }
        }
    }
    assert(runs(w, kernel, step, a + b, output, states, places));
    let last = second.len() as int;
    lemma_places(w, kernel, step, b, second, states2, places2, last);
    lemma_settled_behind(states2[last], a, b, places2[last]);
    assert(states[0] == before && places[0] == 0);
    if last > 0 {
        assert(states.last() == states2[last]);
        assert(places.last() == a.len() + places2[last]);
    } else {
        assert(states.last() == states1[cut]);
        assert(places.last() == places1[cut]);
    }
}

/// Two runs over the same input from the same state go the same way.
proof fn lemma_same_run<S: Sample, P: Sample, W: Precision<S, P>>(
    w: W,
    kernel: Seq<[S; TAPS]>,
    step: P,
    input: Seq<S>,
    output1: Seq<S>,
    states1: Seq<Reading<S, P>>,
    places1: Seq<int>,
    output2: Seq<S>,
    states2: Seq<Reading<S, P>>,
    places2: Seq<int>,
    n: int,
)
    requires
        precision::is_settled::<S, P, W>(w),
        runs(w, kernel, step, input, output1, states1, places1),
        runs(w, kernel, step, input, output2, states2, places2),
        states1[0] == states2[0],
        places1[0] == places2[0],
        0 <= n <= output1.len(),
        n <= output2.len(),
    ensures
        states1[n] == states2[n],
        places1[n] == places2[n],
        forall|k: int| 0 <= k < n ==> #[trigger] output1[k] == output2[k],
    decreases n,
{
    if n > 0 {
        lemma_same_run(
            w,
            kernel,
            step,
            input,
            output1,
            states1,
            places1,
            output2,
            states2,
            places2,
            n - 1,
        );
        assert(one_output(w, kernel, step, input, output1, states1, places1, n - 1));
        assert(one_output(w, kernel, step, input, output2, states2, places2, n - 1));
    }
}

/// A run that ended for want of input is not the beginning of a longer one.
proof fn lemma_run_ends_once<S: Sample, P: Sample, W: Precision<S, P>>(
    w: W,
    kernel: Seq<[S; TAPS]>,
    step: P,
    before: Reading<S, P>,
    input: Seq<S>,
    room: int,
    output1: Seq<S>,
    after1: Reading<S, P>,
    consumed1: int,
    output2: Seq<S>,
    after2: Reading<S, P>,
    consumed2: int,
)
    requires
        precision::is_settled::<S, P, W>(w),
        resamples(w, kernel, step, before, input, room, output1, after1, consumed1),
        resamples(w, kernel, step, before, input, room, output2, after2, consumed2),
        output1.len() <= output2.len(),
    ensures
        output1 == output2,
        after1 == after2,
        consumed1 == consumed2,
{
    let (states1, places1) = choose|states: Seq<Reading<S, P>>, places: Seq<int>| #[trigger]
        runs(w, kernel, step, input, output1, states, places) && states[0] == before && places[0]
            == 0 && ends(states.last(), places.last(), input, room, output1, after1, consumed1);
    let (states2, places2) = choose|states: Seq<Reading<S, P>>, places: Seq<int>| #[trigger]
        runs(w, kernel, step, input, output2, states, places) && states[0] == before && places[0]
            == 0 && ends(states.last(), places.last(), input, room, output2, after2, consumed2);
    let n = output1.len() as int;
    lemma_same_run(
        w,
        kernel,
        step,
        input,
        output1,
        states1,
        places1,
        output2,
        states2,
        places2,
        n,
    );
    if n < output2.len() {
        assert(one_output(w, kernel, step, input, output2, states2, places2, n));
    }
    assert(output1 =~= output2);
}

/// Feeding the input in two pieces, at the same ratio, gives the same samples
/// and leaves the resampler in the same state as feeding it in one.
pub proof fn law_two_pieces_are_as_good_as_one<S: Sample, P: Sample, W: Precision<S, P>>(
    w: W,
    ratio: S,
    start: Resampler<S, P>,
    a: Seq<S>,
    b: Seq<S>,
    room: int,
    first: Seq<S>,
    between: Resampler<S, P>,
    consumed: int,
    second: Seq<S>,
    end: Resampler<S, P>,
    consumed_after: int,
    at_once: Seq<S>,
    end_at_once: Resampler<S, P>,
    consumed_at_once: int,
)
    requires
        precision::is_settled::<S, P, W>(w),
        start.resampled(w, ratio, a, room, first, &between, consumed),
        first.len() < room,
        between.resampled(w, ratio, b, room - first.len(), second, &end, consumed_after),
        start.resampled(w, ratio, a + b, room, at_once, &end_at_once, consumed_at_once),
    ensures
        at_once == first + second,
        end_at_once.reading() == end.reading(),
        end_at_once.kernel() == end.kernel(),
        consumed == a.len(),
        consumed_at_once == a.len() + consumed_after,
{
    let wide1 = choose|wide: P| #[trigger]
        precision::widens(w, ratio, wide) && resamples(
            w,
            start.kernel(),
            num::whole::<P>(1).div_spec(wide),
            start.reading(),
            a,
            room,
            first,
            between.reading(),
            consumed,
        );
    let step = num::whole::<P>(1).div_spec(wide1);
    law_resuming_is_seamless(
        w,
        start.kernel(),
        step,
        start.reading(),
        a,
        b,
        room,
        first,
        between.reading(),
        consumed,
        second,
        end.reading(),
        consumed_after,
    );
    if at_once.len() <= (first + second).len() {
        lemma_run_ends_once(
            w,
            start.kernel(),
            step,
            start.reading(),
            a + b,
            room,
            at_once,
            end_at_once.reading(),
            consumed_at_once,
            first + second,
            end.reading(),
            a.len() + consumed_after,
        );
    } else {
        lemma_run_ends_once(
            w,
            start.kernel(),
            step,
            start.reading(),
            a + b,
            room,
            first + second,
            end.reading(),
            a.len() + consumed_after,
            at_once,
            end_at_once.reading(),
            consumed_at_once,
        );
    }
}

} // verus!
