//! What a mixer in its neutral position leaves alone.

use crate::bus::BusMono;
use crate::bus_mode::BusMode;
use crate::elementary::{self, Elementary};
use crate::engine::Engine;
use crate::eq3::ThreeBandFilter;
use crate::intellipan::{ColorPad, IntellipanMode};
use crate::karaoke::KaraokeMode;
use crate::limiter::{self, Limiter};
use crate::mix::Levels;
use crate::num::{self, Sample};
use crate::pan::{PositionPad5_1, StereoBalance};
use crate::strip_dsp::{HardwareChain, VirtualChain};
use crate::strip_path::{HardwarePath, VirtualPath};
use crate::{Frame, CHANNELS, NUM_BUSES, NUM_STRIPS};
use vstd::prelude::*;
use vstd::std_specs::ops::{AddSpec, MulSpec};

verus! {

/// Every channel of the frame is a number.
pub open spec fn is_sound<S: Sample>(f: Seq<S>) -> bool {
    f.len() == CHANNELS && forall|c: int| 0 <= c < CHANNELS ==> num::is_number(#[trigger] f[c])
}

/// The frame is under the limiter's ceiling.
pub open spec fn is_quiet<S: Sample, M: Elementary<S>>(m: M, l: Limiter<S>, f: Seq<S>) -> bool {
    forall|t: S| #[trigger]
        elementary::in_linear(m, l.threshold_db, t) ==> num::at_most(limiter::loudest(f), t)
}

/// Every effect of the chain is switched off or in the middle.
pub open spec fn hardware_is_neutral<S: Sample>(chain: HardwareChain<S>) -> bool {
    &&& chain.denoiser.is_bypassed()
    &&& chain.gate.bypass
    &&& chain.compressor.bypass
    &&& !chain.eq.on
    &&& match chain.pad.mode {
        IntellipanMode::Color => num::same(
            ColorPad::<S>::tilt_db(chain.pad.color),
            num::whole::<S>(0),
        ),
        IntellipanMode::Position => false,
        IntellipanMode::Modulation => num::at_most(chain.pad.modulation.y, num::whole::<S>(0)),
    }
    &&& chain.pan == StereoBalance::<S>::centred()
}

/// A neutral hardware strip hands on exactly what it is given, whatever its
/// effects have heard before. Its colour filter has been tuned to the pad.
pub proof fn law_neutral_hardware_strip_is_transparent<S: Sample, M: Elementary<S>>(
    m: M,
    path: HardwarePath<S>,
    untuned: ColorPad<S>,
    chain: HardwareChain<S>,
    rate: S,
    f: Seq<S>,
    after: HardwarePath<S>,
    g: Seq<S>,
)
    requires
        num::has_units::<S>(),
        path.wf(),
        untuned.set_to(m, rate, chain.pad.color, path.pads.color),
        hardware_is_neutral(chain),
        is_sound(f),
        is_quiet(m, chain.limiter, f),
        path.carries(m, chain, rate, f, &after, g),
    ensures
        g == f,
{
    let (a, b, c, h) = choose|a: (S, S), b: (S, S), c: (S, S), h: Seq<S>| #[trigger]
        path.stages(m, chain, rate, f, a, b, c, h, &after, g);
    assert(c == (f[0], f[1]));
    assert(f.update(0, f[0]).update(1, f[1]) =~= f);
    assert(h =~= f);
    lemma_centred_pot(f);
}

proof fn lemma_centred_pot<S: Sample>(f: Seq<S>)
    requires
        num::has_units::<S>(),
        is_sound(f),
    ensures
        StereoBalance::<S>::centred().panned(f) == f,
{
    assert(StereoBalance::<S>::centred().panned(f) =~= f);
}

/// Every effect of the chain is switched off or in the middle.
pub open spec fn virtual_is_neutral<S: Sample>(chain: VirtualChain<S>) -> bool {
    &&& num::same(chain.eq.bass_db, num::whole::<S>(0))
    &&& num::same(chain.eq.mid_db, num::whole::<S>(0))
    &&& num::same(chain.eq.treble_db, num::whole::<S>(0))
    &&& !chain.mc
    &&& chain.is_aux ==> chain.karaoke.mode == KaraokeMode::Off
    &&& chain.pan_pad == PositionPad5_1::<S>::centred()
}

/// A neutral virtual strip hands on exactly what it is given, but for the rear
/// pair, on which the pad in the middle puts nothing of the front pair.
pub proof fn law_neutral_virtual_strip_is_transparent<S: Sample, M: Elementary<S>>(
    m: M,
    path: VirtualPath<S>,
    untuned: ThreeBandFilter<S>,
    chain: VirtualChain<S>,
    rate: S,
    f: Seq<S>,
    after: VirtualPath<S>,
    g: Seq<S>,
)
    requires
        num::has_units::<S>(),
        path.wf(),
        untuned.set_to(m, rate, chain.eq, path.eq),
        virtual_is_neutral(chain),
        is_sound(f),
        is_quiet(m, chain.limiter, rear_emptied(f)),
        path.carries(m, chain, f, &after, g),
    ensures
        g == rear_emptied(f),
{
    assert(path.toned(chain, f) =~= f);
    assert(path.voiced(chain, f) =~= f);
    lemma_centred_pad(f);
}

/// The frame with none of the front pair on the rear pair.
pub open spec fn rear_emptied<S: Sample>(f: Seq<S>) -> Seq<S> {
    f.update(4, f[0].mul_spec(num::whole::<S>(0))).update(5, f[1].mul_spec(num::whole::<S>(0)))
}

proof fn lemma_centred_pad<S: Sample>(f: Seq<S>)
    requires
        num::has_units::<S>(),
        is_sound(f),
    ensures
        PositionPad5_1::<S>::centred().placed(f) == rear_emptied(f),
{
    assert(PositionPad5_1::<S>::centred().placed(f) =~= rear_emptied(f));
}

/// A bus that one strip alone is sent to, all at unity, plays that strip.
pub proof fn law_lone_strip_passes_through<S: Sample>(
    engine: Engine<S>,
    levels: Levels<S>,
    inputs: Seq<Frame<S>>,
    processed: Seq<Frame<S>>,
    s: int,
    b: int,
    c: int,
)
    requires
        num::has_units::<S>(),
        0 <= s < NUM_STRIPS,
        0 <= b < NUM_BUSES,
        0 <= c < CHANNELS,
        engine.heard(s),
        engine.strips@[s].bus_assign@[b],
        forall|k: int|
            0 <= k < NUM_STRIPS && k != s ==> !(#[trigger] engine.strips@[k]).bus_assign@[b],
        engine.buses@[b].mode == BusMode::Normal,
        engine.buses@[b].mono == BusMono::Off,
        !engine.buses@[b].mute,
        levels.gain(s, b) == num::whole::<S>(1),
        levels.buses@[b] == num::whole::<S>(1),
        num::is_number(processed[s]@[c]),
    ensures
        num::same(
            engine.finished(levels, b, engine.gathered(levels, inputs, processed, b))[c],
            processed[s]@[c],
        ),
{
    lemma_lone_sum(engine, levels, processed, s, b, c, NUM_STRIPS as int);
    let x = processed[s]@[c];
    assert(engine.sum_of(levels, processed, b)[c] == num::whole::<S>(0).add_spec(x));
    assert(engine.gathered(levels, inputs, processed, b)[c] == num::whole::<S>(0).add_spec(x));
}

proof fn lemma_lone_sum<S: Sample>(
    engine: Engine<S>,
    levels: Levels<S>,
    processed: Seq<Frame<S>>,
    s: int,
    b: int,
    c: int,
    count: int,
)
    requires
        num::has_units::<S>(),
        0 <= s < NUM_STRIPS,
        0 <= count <= NUM_STRIPS,
        engine.heard(s),
        engine.strips@[s].bus_assign@[b],
        forall|k: int|
            0 <= k < NUM_STRIPS && k != s ==> !(#[trigger] engine.strips@[k]).bus_assign@[b],
        levels.gain(s, b) == num::whole::<S>(1),
        num::is_number(processed[s]@[c]),
    ensures
        engine.summed(levels, processed, b, c, count) == (if count <= s {
            num::whole::<S>(0)
        } else {
            num::whole::<S>(0).add_spec(processed[s]@[c])
        }),
    decreases count,
{
    if count > 0 {
        lemma_lone_sum(engine, levels, processed, s, b, c, count - 1);
        if count - 1 != s {
            assert(!engine.strips@[count - 1].bus_assign@[b]);
        }
    }
}

} // verus!
