//! From strips to buses: which strip is heard where, how loud, and what a bus
//! makes of it.

use crate::bus::BusMono;
use crate::bus_mode::{self, transform, BusMode};
use crate::elementary::{self, Elementary};
use crate::engine::Engine;
use crate::fader::gain_db_to_linear;
use crate::num::{self, get_ratio, get_whole, is_same, Sample};
use crate::patch::CompositeSource;
use crate::{Frame, CHANNELS, NUM_BUSES, NUM_STRIPS};
use vstd::prelude::*;
use vstd::std_specs::ops::{AddSpec, MulSpec};

verus! {

/// The faders as amplitudes: of every strip on every bus, and of every bus.
#[derive(Debug, Clone, Copy)]
pub struct Levels<S> {
    pub strips: [[S; NUM_BUSES]; NUM_STRIPS],
    pub buses: [S; NUM_BUSES],
}

impl<S: Sample> Levels<S> {
    /// The gain of strip `s` on bus `b`.
    pub open spec fn gain(&self, s: int, b: int) -> S {
        self.strips@[s]@[b]
    }

    /// These are the levels of the engine's faders.
    pub open spec fn are_of<M: Elementary<S>>(&self, m: M, engine: Engine<S>) -> bool {
        &&& forall|s: int, b: int|
            0 <= s < NUM_STRIPS && 0 <= b < NUM_BUSES ==> elementary::in_linear(
                m,
                engine.strips@[s].gain_layer_db@[b],
                #[trigger] self.gain(s, b),
            )
        &&& forall|b: int|
            0 <= b < NUM_BUSES ==> elementary::in_linear(
                m,
                engine.buses@[b].gain_db,
                #[trigger] self.buses@[b],
            )
    }

    pub fn new<M: Elementary<S>>(m: &M, engine: &Engine<S>) -> (r: Self)
        requires
            num::lawful::<S>(),
        ensures
            r.are_of(*m, *engine),
    {
        let zero: S = get_whole(0);
        let mut levels = Levels {
            strips: [[zero; NUM_BUSES]; NUM_STRIPS],
            buses: [zero; NUM_BUSES],
        };
        let mut b: usize = 0;
        while b < NUM_BUSES
            invariant
                num::lawful::<S>(),
                b <= NUM_BUSES,
                forall|k: int|
                    0 <= k < b ==> elementary::in_linear(
                        *m,
                        engine.buses@[k].gain_db,
                        #[trigger] levels.buses@[k],
                    ),
            decreases NUM_BUSES - b,
        {
            levels.buses[b] = gain_db_to_linear(m, engine.buses[b].gain_db());
            b = b + 1;
        }
        let mut s: usize = 0;
        while s < NUM_STRIPS
            invariant
                num::lawful::<S>(),
                s <= NUM_STRIPS,
                forall|k: int|
                    0 <= k < NUM_BUSES ==> elementary::in_linear(
                        *m,
                        engine.buses@[k].gain_db,
                        #[trigger] levels.buses@[k],
                    ),
                forall|i: int, k: int|
                    0 <= i < s && 0 <= k < NUM_BUSES ==> elementary::in_linear(
                        *m,
                        engine.strips@[i].gain_layer_db@[k],
                        #[trigger] levels.gain(i, k),
                    ),
            decreases NUM_STRIPS - s,
        {
            let mut row = [zero; NUM_BUSES];
            let mut k: usize = 0;
            while k < NUM_BUSES
                invariant
                    num::lawful::<S>(),
                    k <= NUM_BUSES,
                    s < NUM_STRIPS,
                    forall|j: int|
                        0 <= j < k ==> elementary::in_linear(
                            *m,
                            engine.strips@[s as int].gain_layer_db@[j],
                            #[trigger] row@[j],
                        ),
                decreases NUM_BUSES - k,
            {
                row[k] = gain_db_to_linear(m, engine.strips[s].gain_layer_db(k));
                k = k + 1;
            }
            let ghost before = levels;
            levels.strips[s] = row;
            proof {
                assert forall|i: int, k: int|
                    0 <= i < s + 1 && 0 <= k < NUM_BUSES implies elementary::in_linear(
                    *m,
                    engine.strips@[i].gain_layer_db@[k],
                    #[trigger] levels.gain(i, k),
                ) by {
                    if i < s {
                        assert(levels.gain(i, k) == before.gain(i, k));
                    } else {
                        assert(levels.gain(i, k) == row@[k]);
                    }
                }
            }
            s = s + 1;
        }
        levels
    }
}

/// The front pair replaced by its mean.
pub open spec fn mono<S: Sample>(f: Seq<S>) -> Seq<S> {
    let mid = f[0].add_spec(f[1]).mul_spec(num::ratio::<S>(1, 2));
    f.update(0, mid).update(1, mid)
}

/// The front channels in each other's place.
pub open spec fn reversed<S>(f: Seq<S>) -> Seq<S> {
    f.update(0, f[1]).update(1, f[0])
}

/// Sums the front pair to mono in place.
pub fn sum_to_mono<S: Sample>(frame: &mut Frame<S>)
    requires
        num::lawful::<S>(),
    ensures
        final(frame)@ == mono(old(frame)@),
{
    let mid = (frame[0] + frame[1]) * get_ratio(1, 2);
    frame[0] = mid;
    frame[1] = mid;
}

impl<S: Sample> Engine<S> {
    pub open spec fn any_solo(&self) -> bool {
        exists|s: int| 0 <= s < NUM_STRIPS && (#[trigger] self.strips@[s]).solo
    }

    /// Strip `s` is let through: not muted, and soloed where any strip is.
    pub open spec fn heard(&self, s: int) -> bool {
        !self.strips@[s].mute && (!self.any_solo() || self.strips@[s].solo)
    }

    /// Some bus is in Composite mode.
    pub open spec fn any_composite(&self) -> bool {
        exists|b: int| 0 <= b < NUM_BUSES && (#[trigger] self.buses@[b]).mode == BusMode::Composite
    }

    /// Where some bus is in Composite mode, every strip and channel that the
    /// patch names exists. Otherwise nobody asks.
    pub open spec fn patch_fits(&self) -> bool {
        self.any_composite() ==> self.patch.wf()
    }

    /// Strip `s` has to run: it is heard, or a composite takes it after the
    /// fader, where a mute does not reach.
    pub open spec fn runs(&self, s: int) -> bool {
        self.heard(s) || (self.any_composite() && self.patch.composite_post_fader
            && self.patch.taps(s as usize))
    }

    /// Strip `s` goes into the sum of bus `b`.
    pub open spec fn contributes(&self, levels: Levels<S>, s: int, b: int) -> bool {
        self.heard(s) && self.strips@[s].bus_assign@[b] && !num::same(
            levels.gain(s, b),
            num::whole::<S>(0),
        )
    }

    /// Channel `c` of bus `b` after the first `count` strips: the sum, in
    /// order, of those that contribute, each at its gain.
    pub open spec fn summed(
        &self,
        levels: Levels<S>,
        processed: Seq<Frame<S>>,
        b: int,
        c: int,
        count: int,
    ) -> S
        decreases count,
    {
        if count <= 0 {
            num::whole::<S>(0)
        } else {
            let before = self.summed(levels, processed, b, c, count - 1);
            let s = count - 1;
            if self.contributes(levels, s, b) {
                before.add_spec(processed[s]@[c].mul_spec(levels.gain(s, b)))
            } else {
                before
            }
        }
    }

    /// The whole sum of bus `b`.
    pub open spec fn sum_of(
        &self,
        levels: Levels<S>,
        processed: Seq<Frame<S>>,
        b: int,
    ) -> Seq<S> {
        Seq::new(
            CHANNELS as nat,
            |c: int| self.summed(levels, processed, b, c, NUM_STRIPS as int),
        )
    }

    /// Channel `c` of bus `b` in Composite mode: what the patch puts there, or
    /// the ordinary sum.
    pub open spec fn patched(
        &self,
        levels: Levels<S>,
        inputs: Seq<Frame<S>>,
        processed: Seq<Frame<S>>,
        b: int,
        c: int,
    ) -> S {
        match self.patch.composite@[c] {
            CompositeSource::Default => self.summed(levels, processed, b, c, NUM_STRIPS as int),
            CompositeSource::Strip { strip, channel } => if self.patch.composite_post_fader {
                processed[strip as int]@[channel as int].mul_spec(levels.gain(strip as int, b))
            } else {
                inputs[strip as int]@[channel as int]
            },
        }
    }

    /// The frame of bus `b` before its equaliser.
    pub open spec fn gathered(
        &self,
        levels: Levels<S>,
        inputs: Seq<Frame<S>>,
        processed: Seq<Frame<S>>,
        b: int,
    ) -> Seq<S> {
        if self.buses@[b].mode == BusMode::Composite {
            Seq::new(
                CHANNELS as nat,
                |c: int| self.patched(levels, inputs, processed, b, c),
            )
        } else {
            bus_mode::shaped(self.buses@[b].mode, self.sum_of(levels, processed, b))
        }
    }

    /// The frame of bus `b` after its equaliser has made `f` of it: mono or
    /// reversed, then at the bus's gain, or silenced.
    pub open spec fn finished(&self, levels: Levels<S>, b: int, f: Seq<S>) -> Seq<S> {
        let front = match self.buses@[b].mono {
            BusMono::Off => f,
            BusMono::Mono => mono(f),
            BusMono::StereoReverse => reversed(f),
        };
        let gain = if self.buses@[b].mute {
            num::whole::<S>(0)
        } else {
            levels.buses@[b]
        };
        front.map_values(|x: S| x.mul_spec(gain))
    }

    pub fn has_solo(&self) -> (r: bool)
        ensures
            r == self.any_solo(),
    {
        let mut s: usize = 0;
        while s < NUM_STRIPS
            invariant
                s <= NUM_STRIPS,
                forall|k: int| 0 <= k < s ==> !(#[trigger] self.strips@[k]).solo,
            decreases NUM_STRIPS - s,
        {
            if self.strips[s].solo {
                assert(self.strips@[s as int].solo);
                return true;
            }
            s = s + 1;
        }
        false
    }

    fn has_composite(&self) -> (r: bool)
        ensures
            r == self.any_composite(),
    {
        let mut b: usize = 0;
        while b < NUM_BUSES
            invariant
                b <= NUM_BUSES,
                forall|k: int|
                    0 <= k < b ==> (#[trigger] self.buses@[k]).mode != BusMode::Composite,
            decreases NUM_BUSES - b,
        {
            if self.buses[b].mode == BusMode::Composite {
                assert(self.buses@[b as int].mode == BusMode::Composite);
                return true;
            }
            b = b + 1;
        }
        false
    }

    /// Which strips have to run.
    pub fn strip_active(&self) -> (r: [bool; NUM_STRIPS])
        ensures
            forall|s: int| 0 <= s < NUM_STRIPS ==> #[trigger] r@[s] == self.runs(s),
    {
        let any_solo: bool = self.has_solo();
        let tapping: bool = self.has_composite() && self.patch.composite_post_fader;
        let mut active = [false; NUM_STRIPS];
        let mut s: usize = 0;
        while s < NUM_STRIPS
            invariant
                s <= NUM_STRIPS,
                any_solo == self.any_solo(),
                tapping == (self.any_composite() && self.patch.composite_post_fader),
                forall|k: int| 0 <= k < s ==> #[trigger] active@[k] == self.runs(k),
            decreases NUM_STRIPS - s,
        {
            let unmuted: bool = !(self.strips[s].mute || (any_solo && !self.strips[s].solo));
            active[s] = unmuted || (tapping && self.patch.composite_references_strip(s));
            s = s + 1;
        }
        active
    }

    /// The sum of bus `b`.
    fn sum_bus(
        &self,
        levels: &Levels<S>,
        any_solo: bool,
        processed: &[Frame<S>; NUM_STRIPS],
        b: usize,
    ) -> (r: Frame<S>)
        requires
            num::lawful::<S>(),
            b < NUM_BUSES,
            any_solo == self.any_solo(),
        ensures
            r@ == self.sum_of(*levels, processed@, b as int),
    {
        let zero: S = get_whole(0);
        let mut frame = [zero; CHANNELS];
        let mut s: usize = 0;
        while s < NUM_STRIPS
            invariant
                num::lawful::<S>(),
                b < NUM_BUSES,
                s <= NUM_STRIPS,
                any_solo == self.any_solo(),
                zero == num::whole::<S>(0),
                forall|c: int|
                    0 <= c < CHANNELS ==> #[trigger] frame@[c] == self.summed(
                        *levels,
                        processed@,
                        b as int,
                        c,
                        s as int,
                    ),
            decreases NUM_STRIPS - s,
        {
            let gain = levels.strips[s][b];
            let heard: bool = !(self.strips[s].mute || (any_solo && !self.strips[s].solo))
                && self.strips[s].bus_assign[b];
            assert(gain == levels.gain(s as int, b as int));
            if heard && !is_same(gain, zero) {
                let mut c: usize = 0;
                while c < CHANNELS
                    invariant
                        num::lawful::<S>(),
                        b < NUM_BUSES,
                        s < NUM_STRIPS,
                        c <= CHANNELS,
                        gain == levels.gain(s as int, b as int),
                        self.contributes(*levels, s as int, b as int),
                        forall|k: int|
                            0 <= k < CHANNELS ==> #[trigger] frame@[k] == self.summed(
                                *levels,
                                processed@,
                                b as int,
                                k,
                                if k < c {
                                    s + 1
                                } else {
                                    s as int
                                },
                            ),
                    decreases CHANNELS - c,
                {
                    frame[c] = frame[c] + processed[s][c] * gain;
                    c = c + 1;
                }
            }
            s = s + 1;
        }
        assert(frame@ =~= self.sum_of(*levels, processed@, b as int));
        frame
    }

    /// The frame of bus `b` before its equaliser.
    pub fn gather(
        &self,
        levels: &Levels<S>,
        any_solo: bool,
        inputs: &[Frame<S>; NUM_STRIPS],
        processed: &[Frame<S>; NUM_STRIPS],
        b: usize,
    ) -> (r: Frame<S>)
        requires
            num::lawful::<S>(),
            b < NUM_BUSES,
            any_solo == self.any_solo(),
            self.patch_fits(),
        ensures
            r@ == self.gathered(*levels, inputs@, processed@, b as int),
    {
        let sum = self.sum_bus(levels, any_solo, processed, b);
        if self.buses[b].mode != BusMode::Composite {
            return transform(self.buses[b].mode, sum);
        }
        assert(self.any_composite());
        let mut frame = sum;
        let mut c: usize = 0;
        while c < CHANNELS
            invariant
                num::lawful::<S>(),
                b < NUM_BUSES,
                c <= CHANNELS,
                self.patch.wf(),
                sum@ == self.sum_of(*levels, processed@, b as int),
                forall|k: int|
                    0 <= k < CHANNELS ==> #[trigger] frame@[k] == (if k < c {
                        self.patched(*levels, inputs@, processed@, b as int, k)
                    } else {
                        sum@[k]
                    }),
            decreases CHANNELS - c,
        {
            assert(frame@[c as int] == sum@[c as int]);
            if let CompositeSource::Strip { strip, channel } = self.patch.composite[c] {
                assert(self.patch.composite@[c as int] is Strip);
                frame[c] = if self.patch.composite_post_fader {
                    let gain = levels.strips[strip][b];
                    processed[strip][channel] * gain
                } else {
                    inputs[strip][channel]
                };
            }
            c = c + 1;
        }
        assert(frame@ =~= self.gathered(*levels, inputs@, processed@, b as int));
        frame
    }

    /// The last steps of bus `b`: mono or reverse, then gain or mute.
    pub fn finish(&self, levels: &Levels<S>, b: usize, frame: &mut Frame<S>)
        requires
            num::lawful::<S>(),
            b < NUM_BUSES,
        ensures
            final(frame)@ == self.finished(*levels, b as int, old(frame)@),
    {
        match self.buses[b].mono {
            BusMono::Off => {},
            BusMono::Mono => {
                sum_to_mono(frame);
            },
            BusMono::StereoReverse => {
                let left = frame[0];
                frame[0] = frame[1];
                frame[1] = left;
            },
        }
        let ghost front = frame@;
        let gain: S = if self.buses[b].mute {
            get_whole(0)
        } else {
            levels.buses[b]
        };
        let mut c: usize = 0;
        while c < CHANNELS
            invariant
                num::lawful::<S>(),
                c <= CHANNELS,
                front.len() == CHANNELS,
                forall|k: int|
                    0 <= k < CHANNELS ==> #[trigger] frame@[k] == (if k < c {
                        front[k].mul_spec(gain)
                    } else {
                        front[k]
                    }),
            decreases CHANNELS - c,
        {
            frame[c] = frame[c] * gain;
            c = c + 1;
        }
        assert(frame@ =~= self.finished(*levels, b as int, old(frame)@));
    }
}

/// A strip that is not heard, or not assigned to a bus, does not reach the
/// bus's sum: whatever it plays, the sum is the same.
pub proof fn law_unheard_strip_is_silent<S: Sample>(
    engine: Engine<S>,
    levels: Levels<S>,
    processed: Seq<Frame<S>>,
    other: Seq<Frame<S>>,
    s: int,
    b: int,
)
    requires
        0 <= s < NUM_STRIPS,
        0 <= b < NUM_BUSES,
        !engine.heard(s) || !engine.strips@[s].bus_assign@[b],
        forall|k: int| 0 <= k < NUM_STRIPS && k != s ==> #[trigger] processed[k] == other[k],
    ensures
        engine.sum_of(levels, processed, b) == engine.sum_of(levels, other, b),
{
    assert forall|c: int| 0 <= c < CHANNELS implies engine.summed(
        levels,
        processed,
        b,
        c,
        NUM_STRIPS as int,
    ) == engine.summed(levels, other, b, c, NUM_STRIPS as int) by {
        lemma_sum_ignores(engine, levels, processed, other, s, b, c, NUM_STRIPS as int);
    }
    assert(engine.sum_of(levels, processed, b) =~= engine.sum_of(levels, other, b));
}

proof fn lemma_sum_ignores<S: Sample>(
    engine: Engine<S>,
    levels: Levels<S>,
    processed: Seq<Frame<S>>,
    other: Seq<Frame<S>>,
    s: int,
    b: int,
    c: int,
    count: int,
)
    requires
        0 <= count <= NUM_STRIPS,
        !engine.contributes(levels, s, b),
        forall|k: int| 0 <= k < NUM_STRIPS && k != s ==> #[trigger] processed[k] == other[k],
    ensures
        engine.summed(levels, processed, b, c, count) == engine.summed(levels, other, b, c, count),
    decreases count,
{
    if count > 0 {
        lemma_sum_ignores(engine, levels, processed, other, s, b, c, count - 1);
        if count - 1 != s {
            assert(processed[count - 1] == other[count - 1]);
        }
    }
}

/// As soon as one strip is soloed, only soloed strips are heard.
pub proof fn law_solo_silences_the_rest<S: Sample>(engine: Engine<S>, soloed: int, s: int)
    requires
        0 <= soloed < NUM_STRIPS,
        0 <= s < NUM_STRIPS,
        engine.strips@[soloed].solo,
    ensures
        engine.heard(s) ==> engine.strips@[s].solo && !engine.strips@[s].mute,
{
}

/// A bus with no strip assigned is silent before its mode.
pub proof fn law_unassigned_bus_sums_to_silence<S: Sample>(
    engine: Engine<S>,
    levels: Levels<S>,
    processed: Seq<Frame<S>>,
    b: int,
    c: int,
)
    requires
        0 <= b < NUM_BUSES,
        0 <= c < CHANNELS,
        forall|s: int| 0 <= s < NUM_STRIPS ==> !(#[trigger] engine.strips@[s]).bus_assign@[b],
    ensures
        engine.sum_of(levels, processed, b)[c] == num::whole::<S>(0),
{
    lemma_nothing_sums(engine, levels, processed, b, c, NUM_STRIPS as int);
}

proof fn lemma_nothing_sums<S: Sample>(
    engine: Engine<S>,
    levels: Levels<S>,
    processed: Seq<Frame<S>>,
    b: int,
    c: int,
    count: int,
)
    requires
        0 <= count <= NUM_STRIPS,
        forall|s: int| 0 <= s < NUM_STRIPS ==> !(#[trigger] engine.strips@[s]).bus_assign@[b],
    ensures
        engine.summed(levels, processed, b, c, count) == num::whole::<S>(0),
    decreases count,
{
    if count > 0 {
        lemma_nothing_sums(engine, levels, processed, b, c, count - 1);
        assert(!engine.strips@[count - 1].bus_assign@[b]);
    }
}

/// Reversing twice restores the frame.
pub proof fn law_reverse_undoes_itself<S>(f: Seq<S>)
    requires
        f.len() == CHANNELS,
    ensures
        reversed(reversed(f)) == f,
{
    assert(reversed(reversed(f)) =~= f);
}

/// In Composite mode a slot left at its default carries the bus's own sum.
pub proof fn law_default_slot_is_the_sum<S: Sample>(
    engine: Engine<S>,
    levels: Levels<S>,
    inputs: Seq<Frame<S>>,
    processed: Seq<Frame<S>>,
    b: int,
    c: int,
)
    requires
        0 <= b < NUM_BUSES,
        0 <= c < CHANNELS,
        engine.buses@[b].mode == BusMode::Composite,
        engine.patch.composite@[c] == CompositeSource::Default,
    ensures
        engine.gathered(levels, inputs, processed, b)[c] == engine.sum_of(
            levels,
            processed,
            b,
        )[c],
{
}

} // verus!
