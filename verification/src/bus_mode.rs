//! The twelve bus modes: what a bus does to its summed frame before the bus
//! equaliser.

use crate::num::{self, get_ratio, get_whole, Sample};
use crate::{Frame, CHANNELS, CH_FC, CH_FL, CH_FR, CH_RL, CH_RR, CH_SL, CH_SR, CH_SW};
use vstd::prelude::*;
use vstd::std_specs::ops::{AddSpec, MulSpec, SubSpec};

verus! {

#[derive(Debug, Clone, Copy, PartialEq, Eq, Structural)]
pub enum BusMode {
    Normal,
    MixDownA,
    MixDownB,
    StereoRepeat,
    /// Filled from the composite patch by the engine; [`transform`] leaves the
    /// frame alone.
    Composite,
    UpMixTv,
    UpMix21,
    UpMix41,
    UpMix61,
    CenterOnly,
    LfeOnly,
    RearOnly,
}

impl Default for BusMode {
    fn default() -> (r: Self)
        ensures
            r == BusMode::Normal,
    {
        BusMode::Normal
    }
}

/// `a + 0.7 * centre + lfe`, the part of a mixdown both sides share.
pub open spec fn mixdown_base<S: Sample>(a: S, centre: S, lfe: S) -> S {
    a.add_spec(num::ratio::<S>(7, 10).mul_spec(centre)).add_spec(lfe)
}

/// The subwoofer feed of the up-mixes: half the sum of the front pair.
pub open spec fn sub_feed<S: Sample>(fl: S, fr: S) -> S {
    num::ratio::<S>(1, 2).mul_spec(fl.add_spec(fr))
}

/// What a bus in `mode` makes of the frame `f`, channel by channel.
pub open spec fn shaped<S: Sample>(mode: BusMode, f: Seq<S>) -> Seq<S> {
    let o = num::whole::<S>(0);
    let (fl, fr, fc, sw) = (f[0], f[1], f[2], f[3]);
    let (rl, rr, sl, sr) = (f[4], f[5], f[6], f[7]);
    match mode {
        BusMode::Normal | BusMode::Composite => f,
        BusMode::MixDownA => seq![
            mixdown_base(fl, fc, sw).add_spec(rl).sub_spec(sl),
            mixdown_base(fr, fc, sw).sub_spec(rr).add_spec(sr),
            o, o, o, o, o, o,
        ],
        BusMode::MixDownB => seq![
            mixdown_base(fl, fc, sw).add_spec(rl).add_spec(sl),
            mixdown_base(fr, fc, sw).add_spec(rr).add_spec(sr),
            o, o, o, o, o, o,
        ],
        BusMode::StereoRepeat => seq![fl, fr, fl, fr, fl, fr, fl, fr],
        BusMode::UpMixTv => seq![
            fl,
            fr,
            num::ratio::<S>(2, 10).mul_spec(fl.add_spec(fr)),
            sub_feed(fl, fr),
            num::ratio::<S>(7, 10).mul_spec(fl.sub_spec(fr)),
            num::ratio::<S>(7, 10).mul_spec(fr.sub_spec(fl)),
            num::ratio::<S>(7, 10).mul_spec(fl.sub_spec(fr)),
            num::ratio::<S>(7, 10).mul_spec(fr.sub_spec(fl)),
        ],
        BusMode::UpMix21 => seq![fl, fr, o, sub_feed(fl, fr), o, o, o, o],
        BusMode::UpMix41 => seq![fl, fr, o, sub_feed(fl, fr), fl, fr, o, o],
        BusMode::UpMix61 => seq![fl, fr, o, sub_feed(fl, fr), fl, fr, fl, fr],
        BusMode::CenterOnly => seq![fc, fc, o, o, o, o, o, o],
        BusMode::LfeOnly => seq![sw, sw, o, o, o, o, o, o],
        BusMode::RearOnly => seq![rl, rr, o, o, o, o, o, o],
    }
}

/// Applies a bus mode to a bus's summed frame. The right side of both mixdowns
/// is built on FR, as a stereo mixdown has to be.
pub fn transform<S: Sample>(mode: BusMode, frame: Frame<S>) -> (r: Frame<S>)
    requires
        num::lawful::<S>(),
    ensures
        r@ == shaped(mode, frame@),
{
    let fl = frame[CH_FL];
    let fr = frame[CH_FR];
    let fc = frame[CH_FC];
    let sw = frame[CH_SW];
    let rl = frame[CH_RL];
    let rr = frame[CH_RR];
    let sl = frame[CH_SL];
    let sr = frame[CH_SR];
    let zero: S = get_whole(0);
    let mut out = [zero; CHANNELS];
    match mode {
        BusMode::Normal | BusMode::Composite => {
            out = frame;
        },
        BusMode::MixDownA => {
            let centre = get_ratio::<S>(7, 10) * fc;
            out[CH_FL] = fl + centre + sw + rl - sl;
            out[CH_FR] = fr + centre + sw - rr + sr;
        },
        BusMode::MixDownB => {
            let centre = get_ratio::<S>(7, 10) * fc;
            out[CH_FL] = fl + centre + sw + rl + sl;
            out[CH_FR] = fr + centre + sw + rr + sr;
        },
        BusMode::StereoRepeat => {
            out = [fl, fr, fl, fr, fl, fr, fl, fr];
        },
        BusMode::UpMixTv => {
            let side = get_ratio::<S>(7, 10);
            out[CH_FL] = fl;
            out[CH_FR] = fr;
            out[CH_FC] = get_ratio::<S>(2, 10) * (fl + fr);
            out[CH_SW] = get_ratio::<S>(1, 2) * (fl + fr);
            out[CH_RL] = side * (fl - fr);
            out[CH_SL] = side * (fl - fr);
            out[CH_RR] = side * (fr - fl);
            out[CH_SR] = side * (fr - fl);
        },
        BusMode::UpMix21 => {
            out[CH_FL] = fl;
            out[CH_FR] = fr;
            out[CH_SW] = get_ratio::<S>(1, 2) * (fl + fr);
        },
        BusMode::UpMix41 => {
            out[CH_FL] = fl;
            out[CH_FR] = fr;
            out[CH_SW] = get_ratio::<S>(1, 2) * (fl + fr);
            out[CH_RL] = fl;
            out[CH_RR] = fr;
        },
        BusMode::UpMix61 => {
            out[CH_FL] = fl;
            out[CH_FR] = fr;
            out[CH_SW] = get_ratio::<S>(1, 2) * (fl + fr);
            out[CH_RL] = fl;
            out[CH_RR] = fr;
            out[CH_SL] = fl;
            out[CH_SR] = fr;
        },
        BusMode::CenterOnly => {
            out[CH_FL] = fc;
            out[CH_FR] = fc;
        },
        BusMode::LfeOnly => {
            out[CH_FL] = sw;
            out[CH_FR] = sw;
        },
        BusMode::RearOnly => {
            out[CH_FL] = rl;
            out[CH_FR] = rr;
        },
    }
    out
}

/// Every mode but Normal, Composite and Stereo Repeat reads at most the
/// channels its formula names: two frames that agree on the front pair are
/// up-mixed alike.
pub proof fn law_upmix_reads_only_the_front_pair<S: Sample>(mode: BusMode, f: Seq<S>, g: Seq<S>)
    requires
        mode == BusMode::StereoRepeat || mode == BusMode::UpMixTv || mode == BusMode::UpMix21
            || mode == BusMode::UpMix41 || mode == BusMode::UpMix61,
        f[0] == g[0],
        f[1] == g[1],
    ensures
        shaped(mode, f) == shaped(mode, g),
{
}

} // verus!
