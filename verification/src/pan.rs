//! The pan pot of a hardware strip and the position pad of a virtual one.

use crate::num::{self, clamp, get_ratio, get_whole, is_at_most, Sample};
use crate::{Frame, CH_FL, CH_FR, CH_RL, CH_RR};
use vstd::prelude::*;
use vstd::std_specs::ops::{AddSpec, MulSpec, SubSpec};

verus! {

/// The gains of the left and right channel for a pan position: the far side
/// falls linearly, the near side stays at unity. The centre is unity on both.
pub open spec fn balance<S: Sample>(pan: S) -> (S, S) {
    let one = num::whole::<S>(1);
    let p = num::clamped(pan, num::whole::<S>(-1), one);
    if num::at_most(p, num::whole::<S>(0)) {
        (one, one.add_spec(p))
    } else {
        (one.sub_spec(p), one)
    }
}

#[derive(Debug, Clone, Copy, PartialEq)]
pub struct StereoBalance<S> {
    pub pan: S,
}

impl<S: Sample> StereoBalance<S> {
    pub open spec fn centred() -> Self {
        StereoBalance { pan: num::whole::<S>(0) }
    }

    /// The frame with the front pair panned.
    pub open spec fn panned(self, f: Seq<S>) -> Seq<S> {
        let g = balance(self.pan);
        f.update(0, f[0].mul_spec(g.0)).update(1, f[1].mul_spec(g.1))
    }

    pub fn gains(pan: S) -> (r: (S, S))
        requires
            num::lawful::<S>(),
        ensures
            r == balance(pan),
    {
        let one: S = get_whole(1);
        let p = clamp(pan, get_whole(-1), one);
        if is_at_most(p, get_whole(0)) {
            (one, one + p)
        } else {
            (one - p, one)
        }
    }

    pub fn process(&self, frame: &mut Frame<S>)
        requires
            num::lawful::<S>(),
        ensures
            final(frame)@ == self.panned(old(frame)@),
    {
        let (gl, gr) = Self::gains(self.pan);
        frame[CH_FL] = frame[CH_FL] * gl;
        frame[CH_FR] = frame[CH_FR] * gr;
    }
}

impl<S: Sample> Default for StereoBalance<S> {
    fn default() -> (r: Self)
        ensures
            num::lawful::<S>() ==> r == Self::centred(),
    {
        StereoBalance { pan: S::from(0) }
    }
}

/// A pad that moves the front pair left to right and front to rear.
#[derive(Debug, Clone, Copy, PartialEq)]
pub struct PositionPad5_1<S> {
    pub x: S,
    pub y: S,
}

impl<S: Sample> PositionPad5_1<S> {
    pub open spec fn centred() -> Self {
        PositionPad5_1 { x: num::whole::<S>(0), y: num::whole::<S>(0) }
    }

    pub open spec fn placed(self, f: Seq<S>) -> Seq<S> {
        let x = num::clamped(self.x, num::ratio::<S>(-1, 2), num::ratio::<S>(1, 2));
        let y = num::clamped(self.y, num::whole::<S>(0), num::whole::<S>(1));
        let g = balance(x.mul_spec(num::whole::<S>(2)));
        let front = num::whole::<S>(1).sub_spec(y);
        let l = f[0].mul_spec(g.0);
        let r = f[1].mul_spec(g.1);
        f.update(0, l.mul_spec(front)).update(1, r.mul_spec(front)).update(4, l.mul_spec(y)).update(
            5,
            r.mul_spec(y),
        )
    }

    pub fn process(&self, frame: &mut Frame<S>)
        requires
            num::lawful::<S>(),
        ensures
            final(frame)@ == self.placed(old(frame)@),
    {
        let x = clamp(self.x, get_ratio(-1, 2), get_ratio(1, 2));
        let y = clamp(self.y, get_whole(0), get_whole(1));
        let (gl, gr) = StereoBalance::gains(x * get_whole(2));
        let front = get_whole::<S>(1) - y;
        let l = frame[CH_FL] * gl;
        let r = frame[CH_FR] * gr;
        frame[CH_FL] = l * front;
        frame[CH_FR] = r * front;
        frame[CH_RL] = l * y;
        frame[CH_RR] = r * y;
    }
}

impl<S: Sample> Default for PositionPad5_1<S> {
    fn default() -> (r: Self)
        ensures
            num::lawful::<S>() ==> r == Self::centred(),
    {
        PositionPad5_1 { x: S::from(0), y: S::from(0) }
    }
}

/// The pan pot and the pad touch the front pair, the pad the rear pair too,
/// and no other channel.
pub proof fn law_other_channels_are_untouched<S: Sample>(
    pot: StereoBalance<S>,
    pad: PositionPad5_1<S>,
    f: Seq<S>,
    c: int,
)
    requires
        f.len() == crate::CHANNELS,
        2 <= c < 8,
    ensures
        pot.panned(f)[c] == f[c],
        c != 4 && c != 5 ==> pad.placed(f)[c] == f[c],
{
}

} // verus!
