//! The two-dimensional pad of a hardware strip: Color, Position or
//! Modulation, one at a time.

use crate::biquad::{self, Biquad, BiquadCoeffs};
use crate::elementary::{self, Elementary};
use crate::num::{self, clamp, get_magnitude, get_ratio, get_whole, is_at_most, is_below, is_same, Sample};
use crate::pan::{self, StereoBalance};
use crate::Frame;
use core::ops::Neg;
use vstd::prelude::*;
use vstd::std_specs::ops::{AddSpec, DivSpec, MulSpec, NegSpec, SubSpec};

verus! {

#[derive(Debug, Clone, Copy, PartialEq, Eq, Structural)]
pub enum IntellipanMode {
    Color,
    Position,
    Modulation,
}

impl Default for IntellipanMode {
    fn default() -> (r: Self)
        ensures
            r == IntellipanMode::Color,
    {
        IntellipanMode::Color
    }
}

/// Where one pad stands: `x` in -0.5..0.5, `y` in 0..1.
#[derive(Debug, Clone, Copy, PartialEq)]
pub struct PadPosition<S> {
    pub x: S,
    pub y: S,
}

impl<S: Sample> PadPosition<S> {
    pub open spec fn origin() -> Self {
        PadPosition { x: num::whole::<S>(0), y: num::whole::<S>(0) }
    }

    /// `(x, y)` held inside the pad.
    pub open spec fn at(x: S, y: S) -> Self {
        PadPosition {
            x: num::clamped(x, num::ratio::<S>(-1, 2), num::ratio::<S>(1, 2)),
            y: num::clamped(y, num::whole::<S>(0), num::whole::<S>(1)),
        }
    }

    pub fn new() -> (r: Self)
        requires
            num::lawful::<S>(),
        ensures
            r == Self::origin(),
    {
        PadPosition { x: get_whole(0), y: get_whole(0) }
    }

    pub fn set_position(&mut self, x: S, y: S)
        requires
            num::lawful::<S>(),
        ensures
            *final(self) == Self::at(x, y),
    {
        self.x = clamp(x, get_ratio(-1, 2), get_ratio(1, 2));
        self.y = clamp(y, get_whole(0), get_whole(1));
    }
}

/// The pad's controls. All three positions are kept; the mode picks one.
#[derive(Debug, Clone, Copy, PartialEq)]
pub struct IntellipanPads<S> {
    pub mode: IntellipanMode,
    pub color: PadPosition<S>,
    pub position: PadPosition<S>,
    pub modulation: PadPosition<S>,
}

impl<S: Sample> IntellipanPads<S> {
    pub open spec fn idle() -> Self {
        let o = PadPosition::<S>::origin();
        IntellipanPads { mode: IntellipanMode::Color, color: o, position: o, modulation: o }
    }

    /// The position of the pad of `mode`.
    pub open spec fn pad(self, mode: IntellipanMode) -> PadPosition<S> {
        match mode {
            IntellipanMode::Color => self.color,
            IntellipanMode::Position => self.position,
            IntellipanMode::Modulation => self.modulation,
        }
    }

    /// The pads with the active one moved to `to`.
    pub open spec fn moved(self, to: PadPosition<S>) -> Self {
        match self.mode {
            IntellipanMode::Color => IntellipanPads { color: to, ..self },
            IntellipanMode::Position => IntellipanPads { position: to, ..self },
            IntellipanMode::Modulation => IntellipanPads { modulation: to, ..self },
        }
    }

    /// The pads after switching to `mode`: the pad that becomes active starts
    /// at its origin, the others keep their place.
    pub open spec fn switched(self, mode: IntellipanMode) -> Self {
        (IntellipanPads { mode, ..self }).moved(PadPosition::<S>::origin())
    }

    pub fn new() -> (r: Self)
        requires
            num::lawful::<S>(),
        ensures
            r == Self::idle(),
    {
        let o: PadPosition<S> = PadPosition::new();
        IntellipanPads { mode: IntellipanMode::Color, color: o, position: o, modulation: o }
    }

    pub fn mode(&self) -> (r: IntellipanMode)
        ensures
            r == self.mode,
    {
        self.mode
    }

    /// The active pad's position.
    pub fn position(&self) -> (r: (S, S))
        ensures
            r == (self.pad(self.mode).x, self.pad(self.mode).y),
    {
        match self.mode {
            IntellipanMode::Color => (self.color.x, self.color.y),
            IntellipanMode::Position => (self.position.x, self.position.y),
            IntellipanMode::Modulation => (self.modulation.x, self.modulation.y),
        }
    }

    pub fn set_mode(&mut self, mode: IntellipanMode)
        requires
            num::lawful::<S>(),
        ensures
            *final(self) == old(self).switched(mode),
    {
        self.mode = mode;
        match mode {
            IntellipanMode::Color => {
                self.color = PadPosition::new();
            },
            IntellipanMode::Position => {
                self.position = PadPosition::new();
            },
            IntellipanMode::Modulation => {
                self.modulation = PadPosition::new();
            },
        }
    }

    pub fn set_position(&mut self, x: S, y: S)
        requires
            num::lawful::<S>(),
        ensures
            *final(self) == old(self).moved(PadPosition::at(x, y)),
    {
        match self.mode {
            IntellipanMode::Color => {
                self.color.set_position(x, y);
            },
            IntellipanMode::Position => {
                self.position.set_position(x, y);
            },
            IntellipanMode::Modulation => {
                self.modulation.set_position(x, y);
            },
        }
    }
}

/// Re-entering a mode starts clean, and leaves the two other pads where they
/// were.
pub proof fn law_switching_resets_only_the_new_pad<S: Sample>(
    pads: IntellipanPads<S>,
    mode: IntellipanMode,
)
    ensures
        pads.switched(mode).mode == mode,
        pads.switched(mode).pad(mode) == PadPosition::<S>::origin(),
        forall|m: IntellipanMode| m != mode ==> pads.switched(mode).pad(m) == pads.pad(m),
{
}

/// Color at work: a bass and a treble bell on each side of the front pair.
#[derive(Debug, Clone, Copy)]
pub struct ColorPad<S> {
    pub bass_l: Biquad<S>,
    pub bass_r: Biquad<S>,
    pub treble_l: Biquad<S>,
    pub treble_r: Biquad<S>,
}

impl<S: Sample> ColorPad<S> {
    pub open spec fn wf(self) -> bool {
        self.bass_l.wf() && self.bass_r.wf() && self.treble_l.wf() && self.treble_r.wf()
    }

    pub open spec fn idle() -> Self {
        let b = Biquad::<S>::idle();
        ColorPad { bass_l: b, bass_r: b, treble_l: b, treble_r: b }
    }

    /// The tilt of a pad position: 12 dB at either edge.
    pub open spec fn tilt_db(pad: PadPosition<S>) -> S {
        pad.x.div_spec(num::ratio::<S>(1, 2)).mul_spec(num::whole::<S>(12))
    }

    pub open spec fn released(self) -> Self {
        ColorPad {
            bass_l: self.bass_l.released(),
            bass_r: self.bass_r.released(),
            treble_l: self.treble_l.released(),
            treble_r: self.treble_r.released(),
        }
    }

    pub open spec fn retuned(self, bass: BiquadCoeffs<S>, treble: BiquadCoeffs<S>) -> Self {
        ColorPad {
            bass_l: self.bass_l.retuned(bass),
            bass_r: self.bass_r.retuned(bass),
            treble_l: self.treble_l.retuned(treble),
            treble_r: self.treble_r.retuned(treble),
        }
    }

    pub fn new() -> (r: Self)
        requires
            num::lawful::<S>(),
        ensures
            r == Self::idle(),
            r.wf(),
    {
        let b: Biquad<S> = Biquad::bypassed();
        ColorPad { bass_l: b, bass_r: b, treble_l: b, treble_r: b }
    }

    /// Back to the just-constructed state: bypassed, with a silent history.
    pub fn reset(&mut self)
        requires
            num::lawful::<S>(),
        ensures
            *final(self) == Self::idle(),
            final(self).wf(),
    {
        *self = Self::new();
    }

    /// `after` is this filter tuned to a pad position: bypassed without tilt;
    /// otherwise a bass bell at 200 Hz and a treble bell at 5000 Hz lean
    /// against each other.
    pub open spec fn set_to<M: Elementary<S>>(
        self,
        m: M,
        rate: S,
        pad: PadPosition<S>,
        after: Self,
    ) -> bool {
        let tilt = Self::tilt_db(pad);
        let q = num::ratio::<S>(7, 10);
        if num::same(tilt, num::whole::<S>(0)) {
            after == self.released()
        } else {
            exists|bass: BiquadCoeffs<S>, treble: BiquadCoeffs<S>|
                #[trigger] biquad::bells(m, rate, num::whole::<S>(200), q, tilt.neg_spec(), bass)
                    && #[trigger] biquad::bells(m, rate, num::whole::<S>(5000), q, tilt, treble)
                    && after == self.retuned(bass, treble)
        }
    }

    pub fn recompute<M: Elementary<S>>(&mut self, m: &M, sample_rate: S, pad: &PadPosition<S>)
        requires
            num::lawful::<S>(),
            old(self).wf(),
        ensures
            final(self).wf(),
            old(self).set_to(*m, sample_rate, *pad, *final(self)),
    {
        let tilt_db = pad.x / get_ratio(1, 2) * get_whole(12);
        if is_same(tilt_db, get_whole(0)) {
            self.bass_l.bypass();
            self.bass_r.bypass();
            self.treble_l.bypass();
            self.treble_r.bypass();
            return;
        }
        let q: S = get_ratio(7, 10);
        let bass = BiquadCoeffs::peaking(m, sample_rate, get_whole(200), q, tilt_db.neg());
        let treble = BiquadCoeffs::peaking(m, sample_rate, get_whole(5000), q, tilt_db);
        self.bass_l.set_coeffs(bass);
        self.bass_r.set_coeffs(bass);
        self.treble_l.set_coeffs(treble);
        self.treble_r.set_coeffs(treble);
    }

    pub fn process(&mut self, frame: &mut Frame<S>)
        requires
            num::lawful::<S>(),
            old(self).wf(),
        ensures
            final(self).wf(),
            final(frame)@ == ({
                let f = old(frame)@;
                f.update(0, old(self).treble_l.output(old(self).bass_l.output(f[0]))).update(
                    1,
                    old(self).treble_r.output(old(self).bass_r.output(f[1])),
                )
            }),
            *final(self) == ({
                let f = old(frame)@;
                ColorPad {
                    bass_l: old(self).bass_l.after(f[0]),
                    bass_r: old(self).bass_r.after(f[1]),
                    treble_l: old(self).treble_l.after(old(self).bass_l.output(f[0])),
                    treble_r: old(self).treble_r.after(old(self).bass_r.output(f[1])),
                }
            }),
    {
        let l = self.bass_l.process(frame[0]);
        frame[0] = self.treble_l.process(l);
        let r = self.bass_r.process(frame[1]);
        frame[1] = self.treble_r.process(r);
    }
}

/// The slot `back` samples before slot `at` in a ring of `len`.
pub open spec fn slot_back(at: int, back: int, len: int) -> int {
    (at - back) % len
}

fn get_slot_back(at: usize, back: usize, len: usize) -> (r: usize)
    requires
        at < len,
    ensures
        r == slot_back(at as int, back as int, len as int),
        r < len,
{
    let b: usize = back % len;
    proof {
        vstd::arithmetic::div_mod::lemma_sub_mod_noop_right(at as int, back as int, len as int);
        vstd::arithmetic::div_mod::lemma_fundamental_div_mod(back as int, len as int);
    }
    if at >= b {
        proof {
            vstd::arithmetic::div_mod::lemma_small_mod((at - b) as nat, len as nat);
        }
        at - b
    } else {
        proof {
            vstd::arithmetic::div_mod::lemma_mod_add_multiples_vanish(at - b, len as int);
            vstd::arithmetic::div_mod::lemma_small_mod((at - b + len) as nat, len as nat);
        }
        len - (b - at)
    }
}

/// The ring read `whole + fraction` samples back, linearly interpolated.
pub open spec fn tap<S: Sample>(ring: Seq<S>, at: int, whole: int, fraction: S) -> S {
    let a = ring[slot_back(at, whole, ring.len() as int)];
    let b = ring[slot_back(at, whole + 1, ring.len() as int)];
    a.add_spec(b.sub_spec(a).mul_spec(fraction))
}

fn get_tap<S: Sample>(ring: &Vec<S>, at: usize, whole: usize, fraction: S) -> (r: S)
    requires
        num::lawful::<S>(),
        at < ring@.len(),
    ensures
        r == tap(ring@, at as int, whole as int, fraction),
{
    let len: usize = ring.len();
    let i: usize = get_slot_back(at, whole, len);
    let j: usize = get_slot_back(i, 1, len);
    proof {
        vstd::arithmetic::div_mod::lemma_sub_mod_noop(at - whole, 1, len as int);
        vstd::arithmetic::div_mod::lemma_sub_mod_noop(i as int, 1, len as int);
        vstd::arithmetic::div_mod::lemma_mod_twice(at - whole, len as int);
        assert(slot_back(i as int, 1, len as int) == slot_back(
            at as int,
            whole + 1,
            len as int,
        ));
    }
    let a = ring[i];
    let b = ring[j];
    a + (b - a) * fraction
}

/// Two delay rings written in step, one per side of the front pair.
pub struct DelayPair<S> {
    pub buf_l: Vec<S>,
    pub buf_r: Vec<S>,
    pub write_idx: usize,
}

impl<S: Sample> DelayPair<S> {
    pub open spec fn wf(&self) -> bool {
        &&& self.buf_l@.len() == self.buf_r@.len()
        &&& self.write_idx < self.buf_l@.len()
    }

    /// Both rings silent, the next write at the start.
    pub open spec fn is_silent(&self) -> bool {
        &&& self.write_idx == 0
        &&& forall|i: int| 0 <= i < self.buf_l@.len() ==> self.buf_l@[i] == num::whole::<S>(0)
        &&& forall|i: int| 0 <= i < self.buf_r@.len() ==> self.buf_r@[i] == num::whole::<S>(0)
    }

    /// The write position one sample on.
    pub open spec fn next_idx(&self) -> int {
        (self.write_idx + 1) % self.buf_l@.len() as int
    }

    /// Rings of `len` samples.
    pub fn new(len: usize) -> (r: Self)
        requires
            num::lawful::<S>(),
            len > 0,
        ensures
            r.wf(),
            r.is_silent(),
            r.buf_l@.len() == len,
    {
        let zero: S = get_whole(0);
        let mut buf_l: Vec<S> = Vec::new();
        let mut buf_r: Vec<S> = Vec::new();
        let mut i: usize = 0;
        while i < len
            invariant
                i <= len,
                zero == num::whole::<S>(0),
                buf_l@.len() == i,
                buf_r@.len() == i,
                forall|k: int| 0 <= k < i ==> buf_l@[k] == zero && buf_r@[k] == zero,
            decreases len - i,
        {
            buf_l.push(zero);
            buf_r.push(zero);
            i = i + 1;
        }
        DelayPair { buf_l, buf_r, write_idx: 0 }
    }

    /// Silences the rings in place.
    pub fn reset(&mut self)
        requires
            num::lawful::<S>(),
            old(self).wf(),
        ensures
            final(self).wf(),
            final(self).is_silent(),
            final(self).buf_l@.len() == old(self).buf_l@.len(),
    {
        let zero: S = get_whole(0);
        let len: usize = self.buf_l.len();
        let mut i: usize = 0;
        while i < len
            invariant
                i <= len,
                zero == num::whole::<S>(0),
                self.buf_l@.len() == len,
                self.buf_r@.len() == len,
                forall|k: int| 0 <= k < i ==> self.buf_l@[k] == zero && self.buf_r@[k] == zero,
            decreases len - i,
        {
            self.buf_l[i] = zero;
            self.buf_r[i] = zero;
            i = i + 1;
        }
        self.write_idx = 0;
    }

    fn advance(&mut self)
        requires
            old(self).wf(),
        ensures
            final(self).wf(),
            final(self).buf_l == old(self).buf_l,
            final(self).buf_r == old(self).buf_r,
            final(self).write_idx == old(self).next_idx(),
    {
        let len: usize = self.buf_l.len();
        if self.write_idx + 1 == len {
            proof {
                vstd::arithmetic::div_mod::lemma_mod_self_0(len as int);
            }
            self.write_idx = 0;
        } else {
            proof {
                vstd::arithmetic::div_mod::lemma_small_mod(
                    (self.write_idx + 1) as nat,
                    len as nat,
                );
            }
            self.write_idx = self.write_idx + 1;
        }
    }
}

/// The interaural delay of a pad position, in samples: one millisecond at
/// either edge.
pub open spec fn itd_samples<S: Sample>(x: S, sample_rate: S) -> S {
    num::magnitude(x).div_spec(num::ratio::<S>(1, 2)).mul_spec(
        num::whole::<S>(1).div_spec(num::whole::<S>(1000)),
    ).mul_spec(sample_rate)
}

/// A ring read `delay` samples back, where `split` is the delay's whole and
/// fractional part; no delay reads the newest sample itself.
pub open spec fn delayed<S: Sample>(ring: Seq<S>, at: int, delay: S, split: (usize, S)) -> S {
    if num::at_most(delay, num::whole::<S>(0)) {
        ring[at]
    } else {
        tap(ring, at, split.0 as int, split.1)
    }
}

/// The delays of the left and the right side: the side away from the source
/// lags.
pub open spec fn itd_pair<S: Sample>(x: S, sample_rate: S) -> (S, S) {
    let o = num::whole::<S>(0);
    if num::below(x, o) {
        (o, itd_samples(x, sample_rate))
    } else {
        (itd_samples(x, sample_rate), o)
    }
}

/// The frame `f` with its front pair read from the rings, each side with its
/// own delay and gain.
pub open spec fn placed<S: Sample>(
    f: Seq<S>,
    ring_l: Seq<S>,
    ring_r: Seq<S>,
    at: int,
    x: S,
    sample_rate: S,
    sl: (usize, S),
    sr: (usize, S),
) -> Seq<S> {
    let g = pan::balance(x.mul_spec(num::whole::<S>(2)));
    let d = itd_pair(x, sample_rate);
    f.update(0, g.0.mul_spec(delayed(ring_l, at, d.0, sl))).update(
        1,
        g.1.mul_spec(delayed(ring_r, at, d.1, sr)),
    )
}

impl<S: Sample> DelayPair<S> {
    /// Position at work: both sides are written, then read back with the far
    /// side delayed, and balanced. `after` and `out` are what comes of the
    /// frame `f`.
    pub open spec fn positions<M: Elementary<S>>(
        &self,
        m: M,
        pad: PadPosition<S>,
        rate: S,
        f: Seq<S>,
        after: &Self,
        out: Seq<S>,
    ) -> bool {
        let at = self.write_idx as int;
        let d = itd_pair(pad.x, rate);
        &&& after.buf_l@ == self.buf_l@.update(at, f[0])
        &&& after.buf_r@ == self.buf_r@.update(at, f[1])
        &&& after.write_idx == self.next_idx()
        &&& exists|sl: (usize, S), sr: (usize, S)|
            #[trigger] elementary::splits(m, d.0, sl) && #[trigger] elementary::splits(m, d.1, sr)
                && out == placed(f, after.buf_l@, after.buf_r@, at, pad.x, rate, sl, sr)
    }

    pub fn process_position<M: Elementary<S>>(
        &mut self,
        m: &M,
        pad: &PadPosition<S>,
        sample_rate: S,
        frame: &mut Frame<S>,
    )
        requires
            num::lawful::<S>(),
            old(self).wf(),
        ensures
            final(self).wf(),
            old(self).positions(*m, *pad, sample_rate, old(frame)@, final(self), final(frame)@),
    {
        let zero: S = get_whole(0);
        let (gl, gr) = StereoBalance::gains(pad.x * get_whole(2));
        let at: usize = self.write_idx;
        self.buf_l[at] = frame[0];
        self.buf_r[at] = frame[1];
        let itd = get_magnitude(pad.x) / get_ratio(1, 2) * (get_whole::<S>(1) / get_whole(1000))
            * sample_rate;
        let (left, right) = if is_below(pad.x, zero) {
            (zero, itd)
        } else {
            (itd, zero)
        };
        let sl = m.split(left);
        let sr = m.split(right);
        let l = Self::read_delayed(&self.buf_l, at, left, sl);
        let r = Self::read_delayed(&self.buf_r, at, right, sr);
        frame[0] = gl * l;
        frame[1] = gr * r;
        self.advance();
        proof {
            let d = itd_pair(pad.x, sample_rate);
            assert(elementary::splits(*m, d.0, sl));
            assert(elementary::splits(*m, d.1, sr));
            assert(frame@ == placed(
                old(frame)@,
                self.buf_l@,
                self.buf_r@,
                at as int,
                pad.x,
                sample_rate,
                sl,
                sr,
            ));
        }
    }

    fn read_delayed(ring: &Vec<S>, at: usize, delay: S, split: (usize, S)) -> (r: S)
        requires
            num::lawful::<S>(),
            at < ring@.len(),
        ensures
            r == delayed(ring@, at as int, delay, split),
    {
        if is_at_most(delay, get_whole(0)) {
            ring[at]
        } else {
            get_tap(ring, at, split.0, split.1)
        }
    }
}

/// The feedback of the modulation pad: up to one half, on its left side only.
pub open spec fn feedback<S: Sample>(x: S) -> S {
    if num::below(x, num::whole::<S>(0)) {
        x.neg_spec().div_spec(num::ratio::<S>(1, 2)).mul_spec(num::ratio::<S>(1, 2))
    } else {
        num::whole::<S>(0)
    }
}

impl<S: Sample> DelayPair<S> {
    /// Each side mixed half and half with itself `split` samples back, with the
    /// echo fed back. `after` and `out` are what comes of the frame `f`.
    pub open spec fn echoes(
        &self,
        pad: PadPosition<S>,
        split: (usize, S),
        f: Seq<S>,
        after: &Self,
        out: Seq<S>,
    ) -> bool {
        let at = self.write_idx as int;
        let half = num::ratio::<S>(1, 2);
        let fb = feedback(pad.x);
        let l = tap(self.buf_l@, at, split.0 as int, split.1);
        let r = tap(self.buf_r@, at, split.0 as int, split.1);
        &&& out == f.update(0, f[0].add_spec(l).mul_spec(half)).update(
            1,
            f[1].add_spec(r).mul_spec(half),
        )
        &&& after.buf_l@ == self.buf_l@.update(at, f[0].add_spec(l.mul_spec(fb)))
        &&& after.buf_r@ == self.buf_r@.update(at, f[1].add_spec(r.mul_spec(fb)))
        &&& after.write_idx == self.next_idx()
    }

    pub fn process_modulation(
        &mut self,
        pad: &PadPosition<S>,
        split: (usize, S),
        frame: &mut Frame<S>,
    )
        requires
            num::lawful::<S>(),
            old(self).wf(),
        ensures
            final(self).wf(),
            old(self).echoes(*pad, split, old(frame)@, final(self), final(frame)@),
    {
        let half: S = get_ratio(1, 2);
        let fb: S = if is_below(pad.x, get_whole(0)) {
            pad.x.neg() / half * half
        } else {
            get_whole(0)
        };
        let at: usize = self.write_idx;
        let l = get_tap(&self.buf_l, at, split.0, split.1);
        let r = get_tap(&self.buf_r, at, split.0, split.1);
        self.buf_l[at] = frame[0] + l * fb;
        self.buf_r[at] = frame[1] + r * fb;
        self.advance();
        frame[0] = (frame[0] + l) * half;
        frame[1] = (frame[1] + r) * half;
    }
}

/// The sweep of the modulation pad, from 0 to 1 over each cycle.
#[derive(Debug, Clone, Copy, PartialEq)]
pub struct Sweep<S> {
    pub phase: S,
}

impl<S: Sample> Sweep<S> {
    /// The sweep one sample on: four fifths of a hertz, wrapped at one.
    pub open spec fn next(self, sample_rate: S) -> S {
        let p = self.phase.add_spec(num::ratio::<S>(8, 10).div_spec(sample_rate));
        if num::at_most(num::whole::<S>(1), p) {
            p.sub_spec(num::whole::<S>(1))
        } else {
            p
        }
    }

    pub fn advance(&mut self, sample_rate: S)
        requires
            num::lawful::<S>(),
        ensures
            final(self).phase == old(self).next(sample_rate),
    {
        self.phase = self.phase + get_ratio::<S>(8, 10) / sample_rate;
        if is_at_most(get_whole(1), self.phase) {
            self.phase = self.phase - get_whole(1);
        }
    }

    pub fn new() -> (r: Self)
        requires
            num::lawful::<S>(),
        ensures
            r.phase == num::whole::<S>(0),
    {
        Sweep { phase: get_whole(0) }
    }

    /// The delay, in samples, for the oscillator value `lfo`: 15 ms, swept by
    /// up to 8 ms.
    pub open spec fn delay_samples(pad: PadPosition<S>, lfo: S, sample_rate: S) -> S {
        num::whole::<S>(15).add_spec(
            lfo.mul_spec(pad.y.mul_spec(num::whole::<S>(8))),
        ).div_spec(num::whole::<S>(1000)).mul_spec(sample_rate)
    }

    pub fn get_delay_samples(pad: &PadPosition<S>, lfo: S, sample_rate: S) -> (r: S)
        requires
            num::lawful::<S>(),
        ensures
            r == Self::delay_samples(*pad, lfo, sample_rate),
    {
        let depth_ms = pad.y * get_whole(8);
        (get_whole::<S>(15) + lfo * depth_ms) / get_whole(1000) * sample_rate
    }
}

/// Samples of the position pad's rings.
pub const POSITION_RING: usize = 2048;

/// Samples of the modulation pad's rings.
pub const MODULATION_RING: usize = 8192;

/// The position pad at work: the far side is later and softer.
pub struct PositionPad<S> {
    pub delays: DelayPair<S>,
}

impl<S: Sample> PositionPad<S> {
    pub open spec fn wf(&self) -> bool {
        self.delays.wf()
    }

    pub open spec fn is_silent(&self) -> bool {
        self.delays.is_silent()
    }

    /// How many samples it remembers.
    pub open spec fn depth(&self) -> nat {
        self.delays.buf_l@.len()
    }

    pub fn new() -> (r: Self)
        requires
            num::lawful::<S>(),
        ensures
            r.wf(),
            r.is_silent(),
            r.depth() == POSITION_RING,
    {
        PositionPad { delays: DelayPair::new(POSITION_RING) }
    }

    pub fn reset(&mut self)
        requires
            num::lawful::<S>(),
            old(self).wf(),
        ensures
            final(self).wf(),
            final(self).is_silent(),
            final(self).depth() == old(self).depth(),
    {
        self.delays.reset();
    }

    /// `after` and `g` are what comes of the frame `f`.
    pub open spec fn carries<M: Elementary<S>>(
        &self,
        m: M,
        pad: PadPosition<S>,
        rate: S,
        f: Seq<S>,
        after: &Self,
        g: Seq<S>,
    ) -> bool {
        self.delays.positions(m, pad, rate, f, &after.delays, g)
    }

    pub fn process<M: Elementary<S>>(
        &mut self,
        m: &M,
        pad: &PadPosition<S>,
        sample_rate: S,
        frame: &mut Frame<S>,
    )
        requires
            num::lawful::<S>(),
            old(self).wf(),
        ensures
            final(self).wf(),
            old(self).carries(*m, *pad, sample_rate, old(frame)@, final(self), final(frame)@),
    {
        self.delays.process_position(m, pad, sample_rate, frame);
    }
}

/// The modulation pad at work: an echo whose delay is swept.
pub struct ModulationPad<S> {
    pub delays: DelayPair<S>,
    pub sweep: Sweep<S>,
}

impl<S: Sample> ModulationPad<S> {
    pub open spec fn wf(&self) -> bool {
        self.delays.wf()
    }

    /// Nothing to echo, and the sweep at its start.
    pub open spec fn is_silent(&self) -> bool {
        self.delays.is_silent() && self.sweep.phase == num::whole::<S>(0)
    }

    /// How many samples it remembers.
    pub open spec fn depth(&self) -> nat {
        self.delays.buf_l@.len()
    }

    pub fn new() -> (r: Self)
        requires
            num::lawful::<S>(),
        ensures
            r.wf(),
            r.is_silent(),
            r.depth() == MODULATION_RING,
    {
        ModulationPad { delays: DelayPair::new(MODULATION_RING), sweep: Sweep::new() }
    }

    pub fn reset(&mut self)
        requires
            num::lawful::<S>(),
            old(self).wf(),
        ensures
            final(self).wf(),
            final(self).is_silent(),
            final(self).depth() == old(self).depth(),
    {
        self.delays.reset();
        self.sweep = Sweep::new();
    }

    /// `after` and `g` are what comes of the frame `f`. Without depth the pad
    /// is transparent and stands still.
    pub open spec fn carries<M: Elementary<S>>(
        &self,
        m: M,
        pad: PadPosition<S>,
        rate: S,
        f: Seq<S>,
        after: &Self,
        g: Seq<S>,
    ) -> bool {
        if num::at_most(pad.y, num::whole::<S>(0)) {
            g == f && *after == *self
        } else {
            &&& after.sweep.phase == self.sweep.next(rate)
            &&& exists|lfo: S, split: (usize, S)|
                #[trigger] elementary::swings(m, self.sweep.phase, lfo)
                    && #[trigger] elementary::splits(
                    m,
                    Sweep::delay_samples(pad, lfo, rate),
                    split,
                ) && self.delays.echoes(pad, split, f, &after.delays, g)
        }
    }

    pub fn process<M: Elementary<S>>(
        &mut self,
        m: &M,
        pad: &PadPosition<S>,
        sample_rate: S,
        frame: &mut Frame<S>,
    )
        requires
            num::lawful::<S>(),
            old(self).wf(),
        ensures
            final(self).wf(),
            old(self).carries(*m, *pad, sample_rate, old(frame)@, final(self), final(frame)@),
    {
        if is_at_most(pad.y, get_whole(0)) {
            return;
        }
        let angle = m.angle(self.sweep.phase);
        assert(elementary::angles(*m, self.sweep.phase, angle));
        let lfo = m.sine(angle);
        let delay = Sweep::get_delay_samples(pad, lfo, sample_rate);
        let split = m.split(delay);
        assert(elementary::swings(*m, self.sweep.phase, lfo));
        assert(elementary::splits(*m, Sweep::delay_samples(*pad, lfo, sample_rate), split));
        self.sweep.advance(sample_rate);
        self.delays.process_modulation(pad, split, frame);
    }
}

} // verus!
