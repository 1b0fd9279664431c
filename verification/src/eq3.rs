//! The three-band equaliser of a virtual strip.

use crate::biquad::{self, Biquad, BiquadCoeffs};
use crate::elementary::Elementary;
use crate::num::{self, get_ratio, get_whole, is_same, Sample};
use crate::Frame;
use vstd::prelude::*;

verus! {

/// The three gains. A band at zero decibels is bypassed.
#[derive(Debug, Clone, Copy, PartialEq)]
pub struct ThreeBandEq<S> {
    pub bass_db: S,
    pub mid_db: S,
    pub treble_db: S,
}

impl<S: Sample> ThreeBandEq<S> {
    pub open spec fn flat() -> Self {
        let o = num::whole::<S>(0);
        ThreeBandEq { bass_db: o, mid_db: o, treble_db: o }
    }

    pub fn new() -> (r: Self)
        requires
            num::lawful::<S>(),
        ensures
            r == Self::flat(),
    {
        let o: S = get_whole(0);
        ThreeBandEq { bass_db: o, mid_db: o, treble_db: o }
    }

    pub fn set_gains(&mut self, bass_db: S, mid_db: S, treble_db: S)
        ensures
            *final(self) == (ThreeBandEq { bass_db, mid_db, treble_db }),
    {
        self.bass_db = bass_db;
        self.mid_db = mid_db;
        self.treble_db = treble_db;
    }
}

/// One filter on each side.
#[derive(Debug, Clone, Copy)]
pub struct StereoBiquad<S> {
    pub left: Biquad<S>,
    pub right: Biquad<S>,
}

impl<S: Sample> StereoBiquad<S> {
    pub open spec fn wf(self) -> bool {
        self.left.wf() && self.right.wf()
    }

    pub open spec fn idle() -> Self {
        StereoBiquad { left: Biquad::<S>::idle(), right: Biquad::<S>::idle() }
    }

    pub open spec fn released(self) -> Self {
        StereoBiquad { left: self.left.released(), right: self.right.released() }
    }

    pub open spec fn retuned(self, coeffs: BiquadCoeffs<S>) -> Self {
        StereoBiquad { left: self.left.retuned(coeffs), right: self.right.retuned(coeffs) }
    }

    pub open spec fn output(self, l: S, r: S) -> (S, S) {
        (self.left.output(l), self.right.output(r))
    }

    pub open spec fn after(self, l: S, r: S) -> Self {
        StereoBiquad { left: self.left.after(l), right: self.right.after(r) }
    }

    pub fn new() -> (r: Self)
        requires
            num::lawful::<S>(),
        ensures
            r == Self::idle(),
            r.wf(),
    {
        StereoBiquad { left: Biquad::bypassed(), right: Biquad::bypassed() }
    }

    /// `after` is this band set to a bell of `gain_db` around `freq_hz`:
    /// bypassed at zero decibels.
    pub open spec fn set_to<M: Elementary<S>>(
        self,
        m: M,
        rate: S,
        freq_hz: S,
        gain_db: S,
        after: Self,
    ) -> bool {
        if num::same(gain_db, num::whole::<S>(0)) {
            after == self.released()
        } else {
            exists|c: BiquadCoeffs<S>|
                #[trigger] biquad::bells(m, rate, freq_hz, num::ratio::<S>(7, 10), gain_db, c)
                    && after == self.retuned(c)
        }
    }

    pub fn set_gain<M: Elementary<S>>(&mut self, m: &M, sample_rate: S, freq_hz: S, gain_db: S)
        requires
            num::lawful::<S>(),
            old(self).wf(),
        ensures
            final(self).wf(),
            old(self).set_to(*m, sample_rate, freq_hz, gain_db, *final(self)),
    {
        if is_same(gain_db, get_whole(0)) {
            self.left.bypass();
            self.right.bypass();
        } else {
            let c = BiquadCoeffs::peaking(m, sample_rate, freq_hz, get_ratio(7, 10), gain_db);
            self.left.set_coeffs(c);
            self.right.set_coeffs(c);
        }
    }

    pub fn process(&mut self, l: S, r: S) -> (out: (S, S))
        requires
            num::lawful::<S>(),
            old(self).wf(),
        ensures
            final(self).wf(),
            out == old(self).output(l, r),
            *final(self) == old(self).after(l, r),
    {
        (self.left.process(l), self.right.process(r))
    }
}

/// The three bands at work, in series.
#[derive(Debug, Clone, Copy)]
pub struct ThreeBandFilter<S> {
    pub bass: StereoBiquad<S>,
    pub mid: StereoBiquad<S>,
    pub treble: StereoBiquad<S>,
}

impl<S: Sample> ThreeBandFilter<S> {
    pub open spec fn wf(self) -> bool {
        self.bass.wf() && self.mid.wf() && self.treble.wf()
    }

    /// The front pair after the bass, the mid and the treble band.
    pub open spec fn output(self, l: S, r: S) -> (S, S) {
        let b = self.bass.output(l, r);
        let m = self.mid.output(b.0, b.1);
        self.treble.output(m.0, m.1)
    }

    pub open spec fn after(self, l: S, r: S) -> Self {
        let b = self.bass.output(l, r);
        let m = self.mid.output(b.0, b.1);
        ThreeBandFilter {
            bass: self.bass.after(l, r),
            mid: self.mid.after(b.0, b.1),
            treble: self.treble.after(m.0, m.1),
        }
    }

    pub open spec fn is_idle(self) -> bool {
        &&& self.bass == StereoBiquad::<S>::idle()
        &&& self.mid == StereoBiquad::<S>::idle()
        &&& self.treble == StereoBiquad::<S>::idle()
    }

    pub fn new() -> (r: Self)
        requires
            num::lawful::<S>(),
        ensures
            r.wf(),
            r.is_idle(),
    {
        ThreeBandFilter {
            bass: StereoBiquad::new(),
            mid: StereoBiquad::new(),
            treble: StereoBiquad::new(),
        }
    }

    /// `after` is this filter set to the three gains: bells around 200, 1000
    /// and 5000 Hz.
    pub open spec fn set_to<M: Elementary<S>>(
        self,
        m: M,
        rate: S,
        eq: ThreeBandEq<S>,
        after: Self,
    ) -> bool {
        &&& self.bass.set_to(m, rate, num::whole::<S>(200), eq.bass_db, after.bass)
        &&& self.mid.set_to(m, rate, num::whole::<S>(1000), eq.mid_db, after.mid)
        &&& self.treble.set_to(m, rate, num::whole::<S>(5000), eq.treble_db, after.treble)
    }

    pub fn recompute<M: Elementary<S>>(&mut self, m: &M, sample_rate: S, eq: &ThreeBandEq<S>)
        requires
            num::lawful::<S>(),
            old(self).wf(),
        ensures
            final(self).wf(),
            old(self).set_to(*m, sample_rate, *eq, *final(self)),
    {
        self.bass.set_gain(m, sample_rate, get_whole(200), eq.bass_db);
        self.mid.set_gain(m, sample_rate, get_whole(1000), eq.mid_db);
        self.treble.set_gain(m, sample_rate, get_whole(5000), eq.treble_db);
    }

    pub fn process(&mut self, frame: &mut Frame<S>)
        requires
            num::lawful::<S>(),
            old(self).wf(),
        ensures
            final(self).wf(),
            *final(self) == old(self).after(old(frame)@[0], old(frame)@[1]),
            final(frame)@ == ({
                let out = old(self).output(old(frame)@[0], old(frame)@[1]);
                old(frame)@.update(0, out.0).update(1, out.1)
            }),
    {
        let (l, r) = self.bass.process(frame[0], frame[1]);
        let (l, r) = self.mid.process(l, r);
        let (l, r) = self.treble.process(l, r);
        frame[0] = l;
        frame[1] = r;
    }
}

/// With every band bypassed the equaliser is transparent.
pub proof fn law_flat_is_transparent<S: Sample>(filter: ThreeBandFilter<S>, l: S, r: S)
    requires
        filter.wf(),
    ensures
        ({
            let flat = ThreeBandFilter {
                bass: filter.bass.released(),
                mid: filter.mid.released(),
                treble: filter.treble.released(),
            };
            flat.output(l, r) == (l, r) && flat.after(l, r) == flat
        }),
{
}

} // verus!
