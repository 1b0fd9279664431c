//! The mixer at work: every strip's effects and every bus's equaliser, and the
//! rendering of one block.

use crate::elementary::Elementary;
use crate::engine::Engine;
use crate::eq_channel::{self, capacity_for, EqBank};
use crate::meter::{self, Meter};
use crate::mix::{self, sum_to_mono, Levels};
use crate::num::{self, get_whole, Sample};
use crate::parametric_eq::ParametricEq;
use crate::strip_path::{self, StripPath};
use crate::{Frame, CHANNELS, NUM_BUSES, NUM_STRIPS};
use vstd::prelude::*;
use vstd::slice::slice_subrange;

verus! {

pub struct SignalPath<S> {
    pub strips: Vec<StripPath<S>>,
    pub buses: Vec<EqBank<S>>,
}

impl<S: Sample> SignalPath<S> {
    pub open spec fn wf(&self, engine: Engine<S>) -> bool {
        &&& self.strips@.len() == NUM_STRIPS
        &&& self.buses@.len() == NUM_BUSES
        &&& forall|s: int|
            0 <= s < NUM_STRIPS ==> (#[trigger] self.strips@[s]).wf() && self.strips@[s].fits(
                engine.strips@[s].chain,
            )
        &&& forall|b: int|
            0 <= b < NUM_BUSES ==> (#[trigger] self.buses@[b]).wf()
                && self.buses@[b].channels@.len() == CHANNELS
    }

    /// Strip `s`, given `input`, plays `out`: its chain runs if it has to and
    /// stands still otherwise; a strip that is not run plays silence.
    pub open spec fn strip_plays<M: Elementary<S>>(
        &self,
        m: M,
        engine: Engine<S>,
        s: int,
        input: Frame<S>,
        after: &Self,
        out: Frame<S>,
    ) -> bool {
        if engine.runs(s) {
            exists|raw: Seq<S>|
                #[trigger] self.strips@[s].carries(
                    m,
                    engine.strips@[s].chain,
                    engine.sample_rate,
                    input@,
                    &after.strips@[s],
                    raw,
                ) && out@ == (if engine.strips@[s].mono {
                    mix::mono(raw)
                } else {
                    raw
                })
        } else {
            &&& after.strips@[s] == self.strips@[s]
            &&& forall|c: int| 0 <= c < CHANNELS ==> #[trigger] out@[c] == num::whole::<S>(0)
        }
    }

    /// The frame of bus `b` behind its equaliser, for the frame `f` before it.
    pub open spec fn equalised(&self, engine: Engine<S>, b: int, f: Seq<S>) -> Seq<S> {
        Seq::new(
            CHANNELS as nat,
            |c: int| strip_path::bank_output(self.buses@[b], engine.buses@[b].eq.on, c, f[c]),
        )
    }

    /// Bus `b` plays `out` for what the strips put in and play.
    pub open spec fn bus_plays(
        &self,
        engine: Engine<S>,
        levels: Levels<S>,
        inputs: Seq<Frame<S>>,
        processed: Seq<Frame<S>>,
        b: int,
        after: &Self,
        out: Frame<S>,
    ) -> bool {
        let f = engine.gathered(levels, inputs, processed, b);
        &&& out@ == engine.finished(levels, b, self.equalised(engine, b, f))
        &&& forall|c: int|
            0 <= c < CHANNELS ==> #[trigger] strip_path::bank_moves(
                self.buses@[b],
                engine.buses@[b].eq.on,
                c,
                f[c],
                after.buses@[b],
            )
    }

    /// One sample through the mixer: `after` is the path behind it and `out`
    /// what the buses play, for the strips' `inputs`.
    pub open spec fn plays<M: Elementary<S>>(
        &self,
        m: M,
        engine: Engine<S>,
        levels: Levels<S>,
        inputs: Seq<Frame<S>>,
        processed: Seq<Frame<S>>,
        after: &Self,
        out: Seq<Frame<S>>,
    ) -> bool {
        &&& forall|s: int|
            0 <= s < NUM_STRIPS ==> self.strip_plays(
                m,
                engine,
                s,
                inputs[s],
                after,
                #[trigger] processed[s],
            )
        &&& forall|b: int|
            0 <= b < NUM_BUSES ==> self.bus_plays(
                engine,
                levels,
                inputs,
                processed,
                b,
                after,
                #[trigger] out[b],
            )
    }

    /// `after` is this path at the engine's sample rate, tuned to its settings.
    pub open spec fn at_rate<M: Elementary<S>>(
        &self,
        m: M,
        engine: Engine<S>,
        delay_capacity: nat,
        after: &Self,
    ) -> bool {
        &&& after.strips@.len() == NUM_STRIPS
        &&& forall|s: int|
            0 <= s < NUM_STRIPS ==> self.strips@[s].at_rate(
                m,
                engine.strips@[s].chain,
                engine.sample_rate,
                delay_capacity,
                &(#[trigger] after.strips@[s]),
            )
        &&& after.buses@.len() == NUM_BUSES
        &&& forall|b: int|
            0 <= b < NUM_BUSES ==> self.buses@[b].at_rate(
                m,
                engine.buses@[b].eq,
                engine.sample_rate,
                delay_capacity,
                &(#[trigger] after.buses@[b]),
            )
    }

    /// This path is at rest, tuned to `engine`.
    pub open spec fn starts<M: Elementary<S>>(
        &self,
        m: M,
        engine: Engine<S>,
        delay_capacity: nat,
    ) -> bool {
        &&& forall|s: int|
            0 <= s < NUM_STRIPS ==> StripPath::starts(
                m,
                engine.strips@[s].chain,
                engine.sample_rate,
                delay_capacity,
                &(#[trigger] self.strips@[s]),
            )
        &&& forall|b: int|
            0 <= b < NUM_BUSES ==> bank_starts(
                m,
                engine.buses@[b].eq,
                engine.sample_rate,
                delay_capacity,
                #[trigger] self.buses@[b],
            )
    }

    /// A path at rest, tuned to `engine`.
    pub fn new<M: Elementary<S>>(m: &M, engine: &Engine<S>) -> (r: Self)
        requires
            num::lawful::<S>(),
        ensures
            r.wf(*engine),
            exists|capacity: usize| #[trigger]
                eq_channel::is_capacity(*m, engine.sample_rate, capacity) && r.starts(
                    *m,
                    *engine,
                    capacity as nat,
                ),
    {
        let delay_capacity: usize = capacity_for(m, engine.sample_rate);
        let mut strips: Vec<StripPath<S>> = Vec::new();
        let mut s: usize = 0;
        while s < NUM_STRIPS
            invariant
                num::lawful::<S>(),
                delay_capacity > 0,
                s <= NUM_STRIPS,
                strips@.len() == s,
                forall|k: int|
                    0 <= k < s ==> (#[trigger] strips@[k]).wf() && strips@[k].fits(
                        engine.strips@[k].chain,
                    ) && StripPath::starts(
                        *m,
                        engine.strips@[k].chain,
                        engine.sample_rate,
                        delay_capacity as nat,
                        &strips@[k],
                    ),
            decreases NUM_STRIPS - s,
        {
            strips.push(
                StripPath::new(m, &engine.strips[s].chain, engine.sample_rate, delay_capacity),
            );
            s = s + 1;
        }
        let mut buses: Vec<EqBank<S>> = Vec::new();
        let mut b: usize = 0;
        while b < NUM_BUSES
            invariant
                num::lawful::<S>(),
                delay_capacity > 0,
                b <= NUM_BUSES,
                buses@.len() == b,
                forall|k: int|
                    0 <= k < b ==> (#[trigger] buses@[k]).wf() && buses@[k].channels@.len()
                        == CHANNELS && bank_starts(
                        *m,
                        engine.buses@[k].eq,
                        engine.sample_rate,
                        delay_capacity as nat,
                        buses@[k],
                    ),
            decreases NUM_BUSES - b,
        {
            let mut bank: EqBank<S> = EqBank::new(CHANNELS, delay_capacity, engine.sample_rate);
            let ghost start = bank;
            bank.set_sample_rate(m, &engine.buses[b].eq, engine.sample_rate, delay_capacity);
            assert(start.is_idle(CHANNELS as nat, delay_capacity as nat, engine.sample_rate));
            buses.push(bank);
            b = b + 1;
        }
        SignalPath { strips, buses }
    }

    /// Follows a change of the engine's sample rate.
    pub fn set_sample_rate<M: Elementary<S>>(
        &mut self,
        m: &M,
        engine: &Engine<S>,
    )
        requires
            num::lawful::<S>(),
            old(self).wf(*engine),
        ensures
            final(self).wf(*engine),
            exists|capacity: usize| #[trigger]
                eq_channel::is_capacity(*m, engine.sample_rate, capacity) && old(self).at_rate(
                    *m,
                    *engine,
                    capacity as nat,
                    final(self),
                ),
    {
        let delay_capacity: usize = capacity_for(m, engine.sample_rate);
        let mut s: usize = 0;
        while s < NUM_STRIPS
            invariant
                num::lawful::<S>(),
                delay_capacity > 0,
                s <= NUM_STRIPS,
                self.wf(*engine),
                self.buses == old(self).buses,
                forall|k: int|
                    s <= k < NUM_STRIPS ==> #[trigger] self.strips@[k] == old(self).strips@[k],
                forall|k: int|
                    0 <= k < s ==> old(self).strips@[k].at_rate(
                        *m,
                        engine.strips@[k].chain,
                        engine.sample_rate,
                        delay_capacity as nat,
                        &(#[trigger] self.strips@[k]),
                    ),
            decreases NUM_STRIPS - s,
        {
            assert(self.strips@[s as int].wf());
            self.strips[s].set_sample_rate(
                m,
                &engine.strips[s].chain,
                engine.sample_rate,
                delay_capacity,
            );
            s = s + 1;
        }
        let ghost strips = self.strips@;
        let mut b: usize = 0;
        while b < NUM_BUSES
            invariant
                num::lawful::<S>(),
                delay_capacity > 0,
                b <= NUM_BUSES,
                self.wf(*engine),
                self.strips@ == strips,
                forall|k: int|
                    b <= k < NUM_BUSES ==> #[trigger] self.buses@[k] == old(self).buses@[k],
                forall|k: int|
                    0 <= k < b ==> old(self).buses@[k].at_rate(
                        *m,
                        engine.buses@[k].eq,
                        engine.sample_rate,
                        delay_capacity as nat,
                        &(#[trigger] self.buses@[k]),
                    ),
            decreases NUM_BUSES - b,
        {
            assert(self.buses@[b as int].wf());
            self.buses[b].set_sample_rate(
                m,
                &engine.buses[b].eq,
                engine.sample_rate,
                delay_capacity,
            );
            b = b + 1;
        }
    }

    /// Runs every strip that has to run on its input.
    fn play_strips<M: Elementary<S>>(
        &mut self,
        m: &M,
        engine: &Engine<S>,
        active: &[bool; NUM_STRIPS],
        inputs: &[Frame<S>; NUM_STRIPS],
    ) -> (processed: [Frame<S>; NUM_STRIPS])
        requires
            num::lawful::<S>(),
            old(self).wf(*engine),
            forall|s: int| 0 <= s < NUM_STRIPS ==> #[trigger] active@[s] == engine.runs(s),
        ensures
            final(self).wf(*engine),
            final(self).buses == old(self).buses,
            forall|s: int|
                0 <= s < NUM_STRIPS ==> old(self).strip_plays(
                    *m,
                    *engine,
                    s,
                    inputs@[s],
                    final(self),
                    #[trigger] processed@[s],
                ),
    {
        let zero: S = get_whole(0);
        let mut processed = [[zero; CHANNELS]; NUM_STRIPS];
        let mut s: usize = 0;
        while s < NUM_STRIPS
            invariant
                num::lawful::<S>(),
                zero == num::whole::<S>(0),
                s <= NUM_STRIPS,
                self.wf(*engine),
                self.buses == old(self).buses,
                forall|k: int| 0 <= k < NUM_STRIPS ==> #[trigger] active@[k] == engine.runs(k),
                forall|k: int|
                    s <= k < NUM_STRIPS ==> #[trigger] self.strips@[k] == old(self).strips@[k],
                forall|k: int, c: int|
                    s <= k < NUM_STRIPS && 0 <= c < CHANNELS ==> #[trigger] processed@[k]@[c]
                        == zero,
                forall|k: int|
                    0 <= k < s ==> old(self).strip_plays(
                        *m,
                        *engine,
                        k,
                        inputs@[k],
                        self,
                        #[trigger] processed@[k],
                    ),
            decreases NUM_STRIPS - s,
        {
            let ghost before = *self;
            if active[s] {
                let mut frame = inputs[s];
                assert(self.strips@[s as int].wf());
                self.strips[s].process(
                    m,
                    &engine.strips[s].chain,
                    engine.sample_rate,
                    &mut frame,
                );
                let ghost raw = frame@;
                if engine.strips[s].mono {
                    sum_to_mono(&mut frame);
                }
                processed[s] = frame;
                assert(old(self).strips@[s as int].carries(
                    *m,
                    engine.strips@[s as int].chain,
                    engine.sample_rate,
                    inputs@[s as int]@,
                    &self.strips@[s as int],
                    raw,
                ));
            }
            assert(old(self).strip_plays(
                *m,
                *engine,
                s as int,
                inputs@[s as int],
                self,
                processed@[s as int],
            ));
            proof {
                assert forall|k: int| 0 <= k < s implies old(self).strip_plays(
                    *m,
                    *engine,
                    k,
                    inputs@[k],
                    self,
                    #[trigger] processed@[k],
                ) by {
                    assert(self.strips@[k] == before.strips@[k]);
                }
            }
            s = s + 1;
        }
        processed
    }

    /// Runs one bus on what the strips put in and play.
    fn play_bus(
        &mut self,
        engine: &Engine<S>,
        levels: &Levels<S>,
        any_solo: bool,
        inputs: &[Frame<S>; NUM_STRIPS],
        processed: &[Frame<S>; NUM_STRIPS],
        b: usize,
    ) -> (out: Frame<S>)
        requires
            num::lawful::<S>(),
            old(self).wf(*engine),
            engine.patch_fits(),
            any_solo == engine.any_solo(),
            b < NUM_BUSES,
        ensures
            final(self).wf(*engine),
            final(self).strips == old(self).strips,
            forall|k: int|
                0 <= k < NUM_BUSES && k != b ==> #[trigger] final(self).buses@[k] == old(
                    self,
                ).buses@[k],
            old(self).bus_plays(
                *engine,
                *levels,
                inputs@,
                processed@,
                b as int,
                final(self),
                out,
            ),
    {
        let mut frame = engine.gather(levels, any_solo, inputs, processed, b);
        let ghost f = frame@;
        let on: bool = engine.buses[b].eq.on;
        let mut c: usize = 0;
        while c < CHANNELS
            invariant
                num::lawful::<S>(),
                b < NUM_BUSES,
                c <= CHANNELS,
                self.wf(*engine),
                old(self).wf(*engine),
                on == engine.buses@[b as int].eq.on,
                self.strips == old(self).strips,
                f.len() == CHANNELS,
                forall|k: int|
                    0 <= k < NUM_BUSES && k != b ==> #[trigger] self.buses@[k] == old(
                        self,
                    ).buses@[k],
                forall|k: int|
                    0 <= k < CHANNELS ==> #[trigger] frame@[k] == (if k < c {
                        old(self).equalised(*engine, b as int, f)[k]
                    } else {
                        f[k]
                    }),
                forall|k: int|
                    c <= k < CHANNELS ==> #[trigger] self.buses@[b as int].channels@[k] == old(
                        self,
                    ).buses@[b as int].channels@[k],
                forall|k: int|
                    0 <= k < c ==> #[trigger] strip_path::bank_moves(
                        old(self).buses@[b as int],
                        on,
                        k,
                        f[k],
                        self.buses@[b as int],
                    ),
            decreases CHANNELS - c,
        {
            assert(self.buses@[b as int].wf());
            let ghost before = self.buses@[b as int];
            let x = frame[c];
            assert(x == f[c as int]);
            let y = self.buses[b].process_channel(on, c, x);
            frame[c] = y;
            proof {
                assert(before.channels@[c as int] == old(self).buses@[b as int].channels@[c as int]);
                assert(strip_path::bank_moves(
                    old(self).buses@[b as int],
                    on,
                    c as int,
                    f[c as int],
                    self.buses@[b as int],
                ));
                assert forall|k: int| 0 <= k < c implies #[trigger] strip_path::bank_moves(
                    old(self).buses@[b as int],
                    on,
                    k,
                    f[k],
                    self.buses@[b as int],
                ) by {
                    assert(strip_path::bank_moves(
                        old(self).buses@[b as int],
                        on,
                        k,
                        f[k],
                        before,
                    ));
                    assert(self.buses@[b as int].channels@[k] == before.channels@[k]);
                }
            }
            c = c + 1;
        }
        assert(frame@ =~= old(self).equalised(*engine, b as int, f));
        engine.finish(levels, b, &mut frame);
        frame
    }

    /// Plays one sample.
    pub fn play<M: Elementary<S>>(
        &mut self,
        m: &M,
        engine: &Engine<S>,
        levels: &Levels<S>,
        active: &[bool; NUM_STRIPS],
        any_solo: bool,
        inputs: &[Frame<S>; NUM_STRIPS],
    ) -> (out: [Frame<S>; NUM_BUSES])
        requires
            num::lawful::<S>(),
            old(self).wf(*engine),
            engine.patch_fits(),
            any_solo == engine.any_solo(),
            forall|s: int| 0 <= s < NUM_STRIPS ==> #[trigger] active@[s] == engine.runs(s),
        ensures
            final(self).wf(*engine),
            exists|processed: Seq<Frame<S>>| #[trigger]
                old(self).plays(
                    *m,
                    *engine,
                    *levels,
                    inputs@,
                    processed,
                    final(self),
                    out@,
                ),
    {
        let zero: S = get_whole(0);
        let processed = self.play_strips(m, engine, active, inputs);
        let ghost mid = *self;
        let mut out = [[zero; CHANNELS]; NUM_BUSES];
        let mut b: usize = 0;
        while b < NUM_BUSES
            invariant
                num::lawful::<S>(),
                b <= NUM_BUSES,
                self.wf(*engine),
                engine.patch_fits(),
                any_solo == engine.any_solo(),
                self.strips == mid.strips,
                mid.buses == old(self).buses,
                forall|k: int|
                    b <= k < NUM_BUSES ==> #[trigger] self.buses@[k] == mid.buses@[k],
                forall|k: int|
                    0 <= k < b ==> old(self).bus_plays(
                        *engine,
                        *levels,
                        inputs@,
                        processed@,
                        k,
                        self,
                        #[trigger] out@[k],
                    ),
            decreases NUM_BUSES - b,
        {
            let ghost before = *self;
            let frame = self.play_bus(engine, levels, any_solo, inputs, &processed, b);
            out[b] = frame;
            proof {
                lemma_bus_plays_same(
                    before,
                    *old(self),
                    *engine,
                    *levels,
                    inputs@,
                    processed@,
                    b as int,
                    *self,
                    *self,
                    frame,
                );
                assert forall|k: int| 0 <= k < b implies old(self).bus_plays(
                    *engine,
                    *levels,
                    inputs@,
                    processed@,
                    k,
                    self,
                    #[trigger] out@[k],
                ) by {
                    lemma_bus_plays_same(
                        *old(self),
                        *old(self),
                        *engine,
                        *levels,
                        inputs@,
                        processed@,
                        k,
                        before,
                        *self,
                        out@[k],
                    );
                }
            }
            b = b + 1;
        }
        proof {
            assert forall|s: int| 0 <= s < NUM_STRIPS implies old(self).strip_plays(
                *m,
                *engine,
                s,
                inputs@[s],
                self,
                #[trigger] processed@[s],
            ) by {
                assert(old(self).strip_plays(
                    *m,
                    *engine,
                    s,
                    inputs@[s],
                    &mid,
                    processed@[s],
                ));
            }
            assert(old(self).plays(
                *m,
                *engine,
                *levels,
                inputs@,
                processed@,
                self,
                out@,
            ));
        }
        out
    }
}

/// A bus's equaliser at rest, tuned to its settings.
pub open spec fn bank_starts<S: Sample, M: Elementary<S>>(
    m: M,
    eq: ParametricEq<S, CHANNELS>,
    rate: S,
    delay_capacity: nat,
    bank: EqBank<S>,
) -> bool {
    exists|start: EqBank<S>| #[trigger]
        start.is_idle(CHANNELS as nat, delay_capacity, rate) && start.at_rate(
            m,
            eq,
            rate,
            delay_capacity,
            &bank,
        )
}

/// What a bus plays depends on that bus's equaliser alone.
proof fn lemma_bus_plays_same<S: Sample>(
    from: SignalPath<S>,
    from2: SignalPath<S>,
    engine: Engine<S>,
    levels: Levels<S>,
    inputs: Seq<Frame<S>>,
    processed: Seq<Frame<S>>,
    b: int,
    to: SignalPath<S>,
    to2: SignalPath<S>,
    out: Frame<S>,
)
    requires
        from.buses@[b] == from2.buses@[b],
        to.buses@[b] == to2.buses@[b],
        from.bus_plays(engine, levels, inputs, processed, b, &to, out),
    ensures
        from2.bus_plays(engine, levels, inputs, processed, b, &to2, out),
{
    let f = engine.gathered(levels, inputs, processed, b);
    assert(from.equalised(engine, b, f) =~= from2.equalised(engine, b, f));
    assert forall|c: int| 0 <= c < CHANNELS implies #[trigger] strip_path::bank_moves(
        from2.buses@[b],
        engine.buses@[b].eq.on,
        c,
        f[c],
        to2.buses@[b],
    ) by {
        assert(strip_path::bank_moves(
            from.buses@[b],
            engine.buses@[b].eq.on,
            c,
            f[c],
            to.buses@[b],
        ));
    }
}

/// The frames of sample `n` across blocks.
pub open spec fn column<S>(blocks: Seq<Vec<Frame<S>>>, n: int) -> Seq<Frame<S>> {
    Seq::new(blocks.len(), |i: int| blocks[i]@[n])
}

/// A run of samples: `states[n]` is the path before sample `n`, and each
/// sample is played at `levels` from one state to the next.
pub open spec fn renders<S: Sample, M: Elementary<S>>(
    m: M,
    engine: Engine<S>,
    levels: Levels<S>,
    inputs: Seq<Vec<Frame<S>>>,
    outputs: Seq<Vec<Frame<S>>>,
    frames: int,
    states: Seq<SignalPath<S>>,
) -> bool {
    &&& states.len() == frames + 1
    &&& forall|n: int|
        0 <= n < frames ==> #[trigger] sample_played(
            m,
            engine,
            levels,
            states,
            inputs,
            outputs,
            n,
        )
}

/// Sample `n` is played from `states[n]` to `states[n + 1]`.
pub open spec fn sample_played<S: Sample, M: Elementary<S>>(
    m: M,
    engine: Engine<S>,
    levels: Levels<S>,
    states: Seq<SignalPath<S>>,
    inputs: Seq<Vec<Frame<S>>>,
    outputs: Seq<Vec<Frame<S>>>,
    n: int,
) -> bool {
    exists|processed: Seq<Frame<S>>| #[trigger]
        states[n].plays(
            m,
            engine,
            levels,
            column(inputs, n),
            processed,
            &states[n + 1],
            column(outputs, n),
        )
}

impl<S: Sample> Engine<S> {
    /// Sets the sample rate, which every effect follows.
    pub fn set_sample_rate<M: Elementary<S>>(
        &mut self,
        path: &mut SignalPath<S>,
        m: &M,
        sample_rate: S,
    )
        requires
            num::lawful::<S>(),
            old(path).wf(*old(self)),
        ensures
            *final(self) == (Engine { sample_rate, ..*old(self) }),
            final(path).wf(*final(self)),
            exists|capacity: usize| #[trigger]
                eq_channel::is_capacity(*m, sample_rate, capacity) && old(path).at_rate(
                    *m,
                    *final(self),
                    capacity as nat,
                    final(path),
                ),
    {
        self.sample_rate = sample_rate;
        path.set_sample_rate(m, self);
    }

    /// Renders one block of `frames` samples: `strip_inputs[s]` is what comes
    /// in on strip `s`, and `bus_outputs[b]` receives what bus `b` plays. The
    /// meters read both. What is heard is what `path` is tuned to: it is made in
    /// tune with the settings, and `perform` keeps it so.
    pub fn process_block<M: Elementary<S>>(
        &mut self,
        path: &mut SignalPath<S>,
        m: &M,
        frames: usize,
        strip_inputs: &Vec<Vec<Frame<S>>>,
        bus_outputs: &mut Vec<Vec<Frame<S>>>,
    )
        requires
            num::lawful::<S>(),
            old(path).wf(*old(self)),
            old(self).patch_fits(),
            strip_inputs@.len() == NUM_STRIPS,
            old(bus_outputs)@.len() == NUM_BUSES,
            forall|s: int|
                0 <= s < NUM_STRIPS ==> frames <= (#[trigger] strip_inputs@[s])@.len(),
            forall|b: int|
                0 <= b < NUM_BUSES ==> frames <= (#[trigger] old(bus_outputs)@[b])@.len(),
        ensures
            final(path).wf(*final(self)),
            final(self).strips == old(self).strips,
            final(self).buses == old(self).buses,
            final(self).patch == old(self).patch,
            final(self).sample_rate == old(self).sample_rate,
            final(bus_outputs)@.len() == NUM_BUSES,
            forall|b: int|
                0 <= b < NUM_BUSES ==> (#[trigger] final(bus_outputs)@[b])@.len() == old(
                    bus_outputs,
                )@[b]@.len() && final(bus_outputs)@[b]@.skip(frames as int) == old(
                    bus_outputs,
                )@[b]@.skip(frames as int),
            exists|levels: Levels<S>, states: Seq<SignalPath<S>>|
                levels.are_of(*m, *old(self)) && states[0] == *old(path) && states[frames as int]
                    == *final(path) && #[trigger] renders(
                    *m,
                    *old(self),
                    levels,
                    strip_inputs@,
                    final(bus_outputs)@,
                    frames as int,
                    states,
                ),
            forall|i: int|
                0 <= i < NUM_STRIPS ==> (#[trigger] final(self).strip_meters@[i]).ballistics()
                    == old(self).strip_meters@[i].ballistics(),
            forall|i: int|
                0 <= i < NUM_BUSES ==> (#[trigger] final(self).bus_meters@[i]).ballistics() == old(
                    self,
                ).bus_meters@[i].ballistics(),
            forall|s: int, c: int|
                0 <= s < NUM_STRIPS && 0 <= c < CHANNELS ==> #[trigger] final(
                    self).strip_meters@[s].reading(c) == old(
                    self,
                ).strip_meters@[s].ballistics().read_all(
                    old(self).strip_meters@[s].reading(c),
                    meter::channel_of(strip_inputs@[s]@.take(frames as int), c),
                ),
            forall|b: int, c: int|
                0 <= b < NUM_BUSES && 0 <= c < CHANNELS ==> #[trigger] final(
                    self).bus_meters@[b].reading(c) == old(
                    self,
                ).bus_meters@[b].ballistics().read_all(
                    old(self).bus_meters@[b].reading(c),
                    meter::channel_of(final(bus_outputs)@[b]@.take(frames as int), c),
                ),
    {
        let levels = Levels::new(m, &*self);
        let any_solo: bool = self.has_solo();
        let active = self.strip_active();
        let ghost mut states: Seq<SignalPath<S>> = seq![*path];
        let mut n: usize = 0;
        while n < frames
            invariant
                num::lawful::<S>(),
                n <= frames,
                *self == *old(self),
                path.wf(*self),
                self.patch_fits(),
                any_solo == self.any_solo(),
                forall|s: int| 0 <= s < NUM_STRIPS ==> #[trigger] active@[s] == self.runs(s),
                strip_inputs@.len() == NUM_STRIPS,
                bus_outputs@.len() == NUM_BUSES,
                forall|s: int|
                    0 <= s < NUM_STRIPS ==> frames <= (#[trigger] strip_inputs@[s])@.len(),
                forall|b: int|
                    0 <= b < NUM_BUSES ==> frames <= (#[trigger] bus_outputs@[b])@.len()
                        && bus_outputs@[b]@.len() == old(bus_outputs)@[b]@.len()
                        && bus_outputs@[b]@.skip(frames as int) == old(bus_outputs)@[b]@.skip(
                        frames as int,
                    ),
                states.len() == n + 1,
                states[0] == *old(path),
                states[n as int] == *path,
                forall|k: int|
                    0 <= k < n ==> #[trigger] sample_played(
                        *m,
                        *self,
                        levels,
                        states,
                        strip_inputs@,
                        bus_outputs@,
                        k,
                    ),
            decreases frames - n,
        {
            let inputs = [
                strip_inputs[0][n],
                strip_inputs[1][n],
                strip_inputs[2][n],
                strip_inputs[3][n],
                strip_inputs[4][n],
                strip_inputs[5][n],
                strip_inputs[6][n],
                strip_inputs[7][n],
            ];
            assert(inputs@ =~= column(strip_inputs@, n as int));
            let ghost before = *path;
            let out = path.play(m, &*self, &levels, &active, any_solo, &inputs);
            let ghost blocks = bus_outputs@;
            write_column(bus_outputs, n, &out);
            proof {
                let more = states.push(*path);
                let processed = choose|processed: Seq<Frame<S>>| #[trigger]
                    before.plays(
                        *m,
                        *self,
                        levels,
                        inputs@,
                        processed,
                        path,
                        out@,
                    );
                assert(column(bus_outputs@, n as int) =~= out@);
                assert(more[n as int].plays(
                    *m,
                    *self,
                    levels,
                    column(strip_inputs@, n as int),
                    processed,
                    &more[n + 1],
                    column(bus_outputs@, n as int),
                ));
                assert forall|k: int| 0 <= k < n + 1 implies #[trigger] sample_played(
                    *m,
                    *self,
                    levels,
                    more,
                    strip_inputs@,
                    bus_outputs@,
                    k,
                ) by {
                    if k < n {
                        assert(sample_played(
                            *m,
                            *self,
                            levels,
                            states,
                            strip_inputs@,
                            blocks,
                            k,
                        ));
                        assert(column(blocks, k) =~= column(bus_outputs@, k));
                        assert(more[k] == states[k] && more[k + 1] == states[k + 1]);
                    }
                }
                states = more;
            }
            n = n + 1;
        }
        assert(renders(
            *m,
            *old(self),
            levels,
            strip_inputs@,
            bus_outputs@,
            frames as int,
            states,
        ));
        observe_all(&mut self.strip_meters, strip_inputs, frames);
        observe_all(&mut self.bus_meters, bus_outputs, frames);
    }
}

/// Writes one frame into sample `n` of every block.
fn write_column<S: Sample>(
    blocks: &mut Vec<Vec<Frame<S>>>,
    n: usize,
    out: &[Frame<S>; NUM_BUSES],
)
    requires
        old(blocks)@.len() == NUM_BUSES,
        forall|b: int| 0 <= b < NUM_BUSES ==> n < (#[trigger] old(blocks)@[b])@.len(),
    ensures
        final(blocks)@.len() == NUM_BUSES,
        forall|b: int|
            0 <= b < NUM_BUSES ==> (#[trigger] final(blocks)@[b])@ == old(blocks)@[b]@.update(
                n as int,
                out@[b],
            ),
{
    let mut b: usize = 0;
    while b < NUM_BUSES
        invariant
            b <= NUM_BUSES,
            blocks@.len() == NUM_BUSES,
            forall|k: int| 0 <= k < NUM_BUSES ==> n < (#[trigger] old(blocks)@[k])@.len(),
            forall|k: int|
                0 <= k < NUM_BUSES ==> (#[trigger] blocks@[k])@ == (if k < b {
                    old(blocks)@[k]@.update(n as int, out@[k])
                } else {
                    old(blocks)@[k]@
                }),
        decreases NUM_BUSES - b,
    {
        assert(blocks@[b as int]@.len() == old(blocks)@[b as int]@.len());
        blocks[b][n] = out[b];
        b = b + 1;
    }
}

/// Reads the first `frames` samples of every block into its meter.
fn observe_all<S: Sample>(
    meters: &mut [Meter<S>; NUM_STRIPS],
    blocks: &Vec<Vec<Frame<S>>>,
    frames: usize,
)
    requires
        num::lawful::<S>(),
        blocks@.len() == NUM_STRIPS,
        forall|i: int| 0 <= i < NUM_STRIPS ==> frames <= (#[trigger] blocks@[i])@.len(),
    ensures
        forall|i: int|
            0 <= i < NUM_STRIPS ==> (#[trigger] final(meters)@[i]).ballistics() == old(
                meters,
            )@[i].ballistics(),
        forall|i: int, c: int|
            0 <= i < NUM_STRIPS && 0 <= c < CHANNELS ==> #[trigger] final(meters)@[i].reading(c)
                == old(meters)@[i].ballistics().read_all(
                old(meters)@[i].reading(c),
                meter::channel_of(blocks@[i]@.take(frames as int), c),
            ),
{
    let mut i: usize = 0;
    while i < NUM_STRIPS
        invariant
            num::lawful::<S>(),
            i <= NUM_STRIPS,
            blocks@.len() == NUM_STRIPS,
            forall|k: int| 0 <= k < NUM_STRIPS ==> frames <= (#[trigger] blocks@[k])@.len(),
            forall|k: int|
                0 <= k < NUM_STRIPS ==> (#[trigger] meters@[k]).ballistics() == old(
                    meters,
                )@[k].ballistics(),
            forall|k: int| i <= k < NUM_STRIPS ==> #[trigger] meters@[k] == old(meters)@[k],
            forall|k: int, c: int|
                0 <= k < i && 0 <= c < CHANNELS ==> #[trigger] meters@[k].reading(c) == old(
                    meters,
                )@[k].ballistics().read_all(
                    old(meters)@[k].reading(c),
                    meter::channel_of(blocks@[k]@.take(frames as int), c),
                ),
        decreases NUM_STRIPS - i,
    {
        assert(frames <= blocks@[i as int]@.len());
        let block = slice_subrange(blocks[i].as_slice(), 0, frames);
        assert(block@ =~= blocks@[i as int]@.take(frames as int));
        meters[i].observe(block);
        i = i + 1;
    }
}

} // verus!
