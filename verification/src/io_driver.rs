//! One callback of the clock master: the strips' input is collected, the
//! engine renders a block, and the buses' output is handed on.

use crate::channel_layout::{self, pack_channels, unpack_channels};
use crate::elementary::Elementary;
use crate::engine::Engine;
use crate::engine_io::{BusSink, StripSource};
use crate::master_clock::{MasterClock, MasterClockHandle};
use crate::meter;
use crate::mix::Levels;
use crate::num::{self, get_whole, Sample};
use crate::signal_path::{self, SignalPath};
use crate::{Frame, CHANNELS, NUM_BUSES, NUM_STRIPS};
use core::sync::atomic::AtomicU64;
use vstd::prelude::*;

verus! {

/// The main output's bus, which the clock master plays directly.
pub const MASTER_BUS: usize = 0;

/// The engine with what feeds its strips and what its buses feed.
#[verifier::reject_recursive_types(S)]
pub struct EngineIoDriver<S> {
    engine: Engine<S>,
    path: SignalPath<S>,
    strip_sources: Vec<Option<StripSource<S>>>,
    bus_sinks: Vec<Option<BusSink<S>>>,
    master_clock: MasterClock,
    master_strip: Option<usize>,
    max_block_frames: usize,
    inputs: Vec<Vec<Frame<S>>>,
    outputs: Vec<Vec<Frame<S>>>,
}

/// How one strip gets its block: from the clock master's own channels, from
/// its source, or not at all, which is silence.
pub open spec fn feeds<S: Sample>(
    is_master: bool,
    source: Option<StripSource<S>>,
    master_in: Seq<Vec<S>>,
    source_after: Option<StripSource<S>>,
    block: Seq<Frame<S>>,
) -> bool {
    if is_master {
        &&& source_after == source
        &&& forall|f: int, c: int|
            0 <= f < block.len() && 0 <= c < CHANNELS ==> #[trigger] block[f]@[c]
                == channel_layout::packed(channel_layout::samples(master_in), block.len(), f, c)
    } else {
        match source {
            Some(source) => match source_after {
                Some(after) => source.supplies(block, &after),
                None => false,
            },
            None => {
                &&& source_after is None
                &&& forall|f: int, c: int|
                    0 <= f < block.len() && 0 <= c < CHANNELS ==> #[trigger] block[f]@[c]
                        == num::whole::<S>(0)
            },
        }
    }
}

/// A bus hands its block to its sink, if it has one.
pub open spec fn serves<S: Sample>(
    sink: Option<BusSink<S>>,
    block: Seq<Frame<S>>,
    sink_after: Option<BusSink<S>>,
) -> bool {
    match sink {
        Some(sink) => match sink_after {
            Some(after) => sink.delivers(block, &after),
            None => false,
        },
        None => sink_after is None,
    }
}

fn feed_strip<S: Sample>(
    is_master: bool,
    source: &mut Option<StripSource<S>>,
    master_in: &Vec<Vec<S>>,
    block: &mut Vec<Frame<S>>,
)
    requires
        num::lawful::<S>(),
        *old(source) matches Some(source) ==> source.wf(),
    ensures
        *final(source) matches Some(source) ==> source.wf(),
        final(block)@.len() == old(block)@.len(),
        feeds(is_master, *old(source), master_in@, *final(source), final(block)@),
{
    if is_master {
        pack_channels(master_in, block);
    } else {
        match source {
            Some(attached) => {
                attached.pull_into(block);
            },
            None => {
                let zero: S = get_whole(0);
                let mut f: usize = 0;
                while f < block.len()
                    invariant
                        zero == num::whole::<S>(0),
                        f <= block@.len(),
                        block@.len() == old(block)@.len(),
                        *source is None,
                        forall|g: int, c: int|
                            0 <= g < f && 0 <= c < CHANNELS ==> #[trigger] block@[g]@[c] == zero,
                    decreases block@.len() - f,
                {
                    block[f] = [zero; CHANNELS];
                    f = f + 1;
                }
            },
        }
    }
}

fn serve_bus<S: Sample>(sink: &mut Option<BusSink<S>>, block: &Vec<Frame<S>>)
    requires
        *old(sink) matches Some(sink) ==> sink.wf(),
    ensures
        *final(sink) matches Some(sink) ==> sink.wf(),
        serves(*old(sink), block@, *final(sink)),
{
    match sink {
        Some(attached) => {
            attached.push_from(block);
        },
        None => {},
    }
}

/// `count` blocks of `frames` silent frames.
fn blank_blocks<S: Sample>(count: usize, frames: usize) -> (r: Vec<Vec<Frame<S>>>)
    requires
        num::lawful::<S>(),
    ensures
        r@.len() == count,
        forall|i: int| 0 <= i < count ==> (#[trigger] r@[i])@.len() == frames,
{
    let zero: S = get_whole(0);
    let mut r: Vec<Vec<Frame<S>>> = Vec::new();
    let mut i: usize = 0;
    while i < count
        invariant
            i <= count,
            r@.len() == i,
            forall|k: int| 0 <= k < i ==> (#[trigger] r@[k])@.len() == frames,
        decreases count - i,
    {
        r.push(vec![[zero; CHANNELS]; frames]);
        i = i + 1;
    }
    r
}

/// Makes every block `frames` long.
fn resize_blocks<S: Sample>(blocks: &mut Vec<Vec<Frame<S>>>, frames: usize)
    requires
        num::lawful::<S>(),
    ensures
        final(blocks)@.len() == old(blocks)@.len(),
        forall|i: int|
            0 <= i < old(blocks)@.len() ==> (#[trigger] final(blocks)@[i])@.len() == frames,
{
    let zero: S = get_whole(0);
    let mut i: usize = 0;
    while i < blocks.len()
        invariant
            i <= blocks@.len(),
            blocks@.len() == old(blocks)@.len(),
            forall|k: int| 0 <= k < i ==> (#[trigger] blocks@[k])@.len() == frames,
        decreases blocks@.len() - i,
    {
        blocks[i].resize(frames, [zero; CHANNELS]);
        i = i + 1;
    }
}

impl<S: Sample> EngineIoDriver<S> {
    pub closed spec fn engine(&self) -> Engine<S> {
        self.engine
    }

    pub closed spec fn path(&self) -> SignalPath<S> {
        self.path
    }

    pub closed spec fn source(&self, strip: int) -> Option<StripSource<S>> {
        self.strip_sources@[strip]
    }

    pub closed spec fn sink(&self, bus: int) -> Option<BusSink<S>> {
        self.bus_sinks@[bus]
    }

    /// The count that handles on the clock look at.
    pub closed spec fn clock_cell(&self) -> AtomicU64 {
        self.master_clock.cell()
    }

    pub closed spec fn clock(&self) -> u64 {
        self.master_clock.position()
    }

    pub closed spec fn master_strip(&self) -> Option<usize> {
        self.master_strip
    }

    pub closed spec fn max_block(&self) -> usize {
        self.max_block_frames
    }

    /// What went into the strips in the last block.
    pub closed spec fn inputs(&self) -> Seq<Vec<Frame<S>>> {
        self.inputs@
    }

    /// What the buses played in the last block.
    pub closed spec fn outputs(&self) -> Seq<Vec<Frame<S>>> {
        self.outputs@
    }

    pub closed spec fn wf(&self) -> bool {
        &&& self.path.wf(self.engine)
        &&& self.engine.patch_fits()
        &&& self.strip_sources@.len() == NUM_STRIPS
        &&& self.bus_sinks@.len() == NUM_BUSES
        &&& self.inputs@.len() == NUM_STRIPS
        &&& self.outputs@.len() == NUM_BUSES
        &&& forall|s: int|
            0 <= s < NUM_STRIPS ==> ((#[trigger] self.strip_sources@[s]) matches Some(source)
                ==> source.wf())
        &&& forall|b: int|
            0 <= b < NUM_BUSES ==> ((#[trigger] self.bus_sinks@[b]) matches Some(sink)
                ==> sink.wf())
    }

    /// The engine with nothing attached to it. Blocks are sized here, once, for
    /// callbacks of up to `max_block_frames`.
    pub fn new(
        engine: Engine<S>,
        path: SignalPath<S>,
        master_clock: MasterClock,
        master_strip: Option<usize>,
        max_block_frames: usize,
    ) -> (r: Self)
        requires
            num::lawful::<S>(),
            path.wf(engine),
            engine.patch_fits(),
        ensures
            r.wf(),
            r.engine() == engine,
            r.path() == path,
            r.clock() == master_clock.position(),
            r.clock_cell() == master_clock.cell(),
            r.master_strip() == master_strip,
            r.max_block() == max_block_frames,
            forall|s: int| 0 <= s < NUM_STRIPS ==> (#[trigger] r.source(s)) is None,
            forall|b: int| 0 <= b < NUM_BUSES ==> (#[trigger] r.sink(b)) is None,
    {
        let mut strip_sources: Vec<Option<StripSource<S>>> = Vec::new();
        let mut bus_sinks: Vec<Option<BusSink<S>>> = Vec::new();
        let mut i: usize = 0;
        while i < NUM_STRIPS
            invariant
                i <= NUM_STRIPS,
                strip_sources@.len() == i,
                forall|k: int| 0 <= k < i ==> (#[trigger] strip_sources@[k]) is None,
            decreases NUM_STRIPS - i,
        {
            strip_sources.push(None);
            i = i + 1;
        }
        let mut i: usize = 0;
        while i < NUM_BUSES
            invariant
                i <= NUM_BUSES,
                bus_sinks@.len() == i,
                forall|k: int| 0 <= k < i ==> (#[trigger] bus_sinks@[k]) is None,
            decreases NUM_BUSES - i,
        {
            bus_sinks.push(None);
            i = i + 1;
        }
        EngineIoDriver {
            engine,
            path,
            strip_sources,
            bus_sinks,
            master_clock,
            master_strip,
            max_block_frames,
            inputs: blank_blocks(NUM_STRIPS, max_block_frames),
            outputs: blank_blocks(NUM_BUSES, max_block_frames),
        }
    }

    /// The engine, to read.
    pub fn get_engine(&self) -> (r: &Engine<S>)
        ensures
            *r == self.engine(),
    {
        &self.engine
    }

    /// The engine and its signal path, to change together.
    pub fn engine_mut(&mut self) -> (r: (&mut Engine<S>, &mut SignalPath<S>))
        requires
            old(self).wf(),
        ensures
            *r.0 == old(self).engine(),
            *r.1 == old(self).path(),
            r.1.wf(*r.0),
            r.0.patch_fits(),
            final(self).engine() == *final(r.0),
            final(self).path() == *final(r.1),
            final(self).wf() == (final(r.1).wf(*final(r.0)) && final(r.0).patch_fits()),
            final(self).clock() == old(self).clock(),
            final(self).clock_cell() == old(self).clock_cell(),
            final(self).master_strip() == old(self).master_strip(),
            final(self).max_block() == old(self).max_block(),
            forall|s: int| #[trigger] final(self).source(s) == old(self).source(s),
            forall|b: int| #[trigger] final(self).sink(b) == old(self).sink(b),
    {
        (&mut self.engine, &mut self.path)
    }

    /// The clock master's position.
    pub fn clock_frames(&self) -> (r: u64)
        ensures
            r == self.clock(),
    {
        self.master_clock.frames()
    }

    /// A view on the clock master's position.
    pub fn clock_handle(&self) -> (r: MasterClockHandle)
        ensures
            r.cell() == self.clock_cell(),
    {
        self.master_clock.handle()
    }

    pub fn set_strip_source(&mut self, strip: usize, source: StripSource<S>)
        requires
            old(self).wf(),
            source.wf(),
            strip < NUM_STRIPS,
        ensures
            final(self).wf(),
            final(self).source(strip as int) == Some(source),
            forall|s: int|
                0 <= s < NUM_STRIPS && s != strip ==> #[trigger] final(self).source(s) == old(self).source(s),
            forall|b: int| #[trigger] final(self).sink(b) == old(self).sink(b),
            final(self).engine() == old(self).engine(),
            final(self).path() == old(self).path(),
            final(self).clock() == old(self).clock(),
            final(self).clock_cell() == old(self).clock_cell(),
            final(self).master_strip() == old(self).master_strip(),
            final(self).max_block() == old(self).max_block(),
    {
        self.strip_sources[strip] = Some(source);
    }

    pub fn set_bus_sink(&mut self, bus: usize, sink: BusSink<S>)
        requires
            old(self).wf(),
            sink.wf(),
            bus < NUM_BUSES,
        ensures
            final(self).wf(),
            final(self).sink(bus as int) == Some(sink),
            forall|b: int|
                0 <= b < NUM_BUSES && b != bus ==> #[trigger] final(self).sink(b) == old(self).sink(b),
            forall|s: int| #[trigger] final(self).source(s) == old(self).source(s),
            final(self).engine() == old(self).engine(),
            final(self).path() == old(self).path(),
            final(self).clock() == old(self).clock(),
            final(self).clock_cell() == old(self).clock_cell(),
            final(self).master_strip() == old(self).master_strip(),
            final(self).max_block() == old(self).max_block(),
    {
        self.bus_sinks[bus] = Some(sink);
    }

    /// Fills the block of every strip.
    fn collect_inputs(&mut self, frames: usize, master_in: &Vec<Vec<S>>)
        requires
            num::lawful::<S>(),
            old(self).wf(),
            forall|s: int|
                0 <= s < NUM_STRIPS ==> (#[trigger] old(self).inputs@[s])@.len() == frames,
        ensures
            final(self).wf(),
            final(self).engine == old(self).engine,
            final(self).path == old(self).path,
            final(self).bus_sinks == old(self).bus_sinks,
            final(self).outputs == old(self).outputs,
            final(self).master_clock == old(self).master_clock,
            final(self).master_strip == old(self).master_strip,
            final(self).max_block_frames == old(self).max_block_frames,
            forall|s: int|
                0 <= s < NUM_STRIPS ==> (#[trigger] final(self).inputs@[s])@.len() == frames
                    && feeds(
                    old(self).master_strip == Some(s as usize),
                    old(self).strip_sources@[s],
                    master_in@,
                    final(self).strip_sources@[s],
                    final(self).inputs@[s]@,
                ),
    {
        let mut s: usize = 0;
        while s < NUM_STRIPS
            invariant
                num::lawful::<S>(),
                s <= NUM_STRIPS,
                self.wf(),
                self.engine == old(self).engine,
                self.path == old(self).path,
                self.bus_sinks == old(self).bus_sinks,
                self.outputs == old(self).outputs,
                self.master_clock == old(self).master_clock,
                self.master_strip == old(self).master_strip,
                self.max_block_frames == old(self).max_block_frames,
                forall|k: int|
                    0 <= k < NUM_STRIPS ==> (#[trigger] self.inputs@[k])@.len() == frames,
                forall|k: int|
                    s <= k < NUM_STRIPS ==> #[trigger] self.strip_sources@[k] == old(
                        self,
                    ).strip_sources@[k],
                forall|k: int|
                    0 <= k < s ==> feeds(
                        old(self).master_strip == Some(k as usize),
                        old(self).strip_sources@[k],
                        master_in@,
                        self.strip_sources@[k],
                        (#[trigger] self.inputs@[k])@,
                    ),
            decreases NUM_STRIPS - s,
        {
            let is_master: bool = match self.master_strip {
                Some(strip) => strip == s,
                None => false,
            };
            assert(is_master == (old(self).master_strip == Some(s)));
            feed_strip(is_master, &mut self.strip_sources[s], master_in, &mut self.inputs[s]);
            s = s + 1;
        }
    }

    /// Hands the block of every bus but the main one to its sink.
    fn serve_buses(&mut self)
        requires
            old(self).wf(),
        ensures
            final(self).wf(),
            final(self).engine == old(self).engine,
            final(self).path == old(self).path,
            final(self).strip_sources == old(self).strip_sources,
            final(self).inputs == old(self).inputs,
            final(self).outputs == old(self).outputs,
            final(self).master_clock == old(self).master_clock,
            final(self).master_strip == old(self).master_strip,
            final(self).max_block_frames == old(self).max_block_frames,
            final(self).bus_sinks@[MASTER_BUS as int] == old(self).bus_sinks@[MASTER_BUS as int],
            forall|b: int|
                0 <= b < NUM_BUSES && b != MASTER_BUS ==> serves(
                    old(self).bus_sinks@[b],
                    old(self).outputs@[b]@,
                    #[trigger] final(self).bus_sinks@[b],
                ),
    {
        let mut b: usize = 0;
        while b < NUM_BUSES
            invariant
                b <= NUM_BUSES,
                self.wf(),
                self.engine == old(self).engine,
                self.path == old(self).path,
                self.strip_sources == old(self).strip_sources,
                self.inputs == old(self).inputs,
                self.outputs == old(self).outputs,
                self.master_clock == old(self).master_clock,
                self.master_strip == old(self).master_strip,
                self.max_block_frames == old(self).max_block_frames,
                self.bus_sinks@[MASTER_BUS as int] == old(self).bus_sinks@[MASTER_BUS as int],
                forall|k: int|
                    b <= k < NUM_BUSES ==> #[trigger] self.bus_sinks@[k] == old(
                        self,
                    ).bus_sinks@[k],
                forall|k: int|
                    0 <= k < b && k != MASTER_BUS ==> serves(
                        old(self).bus_sinks@[k],
                        old(self).outputs@[k]@,
                        #[trigger] self.bus_sinks@[k],
                    ),
            decreases NUM_BUSES - b,
        {
            if b != MASTER_BUS {
                serve_bus(&mut self.bus_sinks[b], &self.outputs[b]);
            }
            b = b + 1;
        }
    }

    /// One callback took the driver to `after`: the strips were fed, the engine
    /// rendered the block, the meters read it, and the buses were served, the
    /// main one into `master_out`.
    pub open spec fn ticks<M: Elementary<S>>(
        &self,
        m: M,
        block_frames: usize,
        master_in: Seq<Vec<S>>,
        master_out: Seq<Vec<S>>,
        after: &Self,
        master_out_after: Seq<Vec<S>>,
    ) -> bool {
        &&& after.clock_cell() == self.clock_cell()
        &&& after.clock() == self.clock().wrapping_add((block_frames as u32) as u64)
        &&& after.master_strip() == self.master_strip()
        &&& after.max_block() == self.max_block()
        &&& after.engine().strips == self.engine().strips
        &&& after.engine().buses == self.engine().buses
        &&& after.engine().patch == self.engine().patch
        &&& after.engine().sample_rate == self.engine().sample_rate
        &&& forall|s: int|
            0 <= s < NUM_STRIPS ==> (#[trigger] after.inputs()[s])@.len() == block_frames && feeds(
                self.master_strip() == Some(s as usize),
                self.source(s),
                master_in,
                after.source(s),
                after.inputs()[s]@,
            )
        &&& self.plays(m, block_frames as int, after)
        &&& forall|b: int|
            0 <= b < NUM_BUSES ==> (#[trigger] after.outputs()[b])@.len() == block_frames
        &&& forall|s: int|
            0 <= s < NUM_STRIPS ==> (#[trigger] after.engine().strip_meters@[s]).ballistics()
                == self.engine().strip_meters@[s].ballistics()
        &&& forall|b: int|
            0 <= b < NUM_BUSES ==> (#[trigger] after.engine().bus_meters@[b]).ballistics()
                == self.engine().bus_meters@[b].ballistics()
        &&& forall|s: int, c: int|
            0 <= s < NUM_STRIPS && 0 <= c < CHANNELS
                ==> #[trigger] after.engine().strip_meters@[s].reading(c)
                == self.engine().strip_meters@[s].ballistics().read_all(
                self.engine().strip_meters@[s].reading(c),
                meter::channel_of(after.inputs()[s]@, c),
            )
        &&& forall|b: int, c: int|
            0 <= b < NUM_BUSES && 0 <= c < CHANNELS
                ==> #[trigger] after.engine().bus_meters@[b].reading(c)
                == self.engine().bus_meters@[b].ballistics().read_all(
                self.engine().bus_meters@[b].reading(c),
                meter::channel_of(after.outputs()[b]@, c),
            )
        &&& after.sink(MASTER_BUS as int) == self.sink(MASTER_BUS as int)
        &&& forall|b: int|
            0 <= b < NUM_BUSES && b != MASTER_BUS ==> serves(
                self.sink(b),
                after.outputs()[b]@,
                #[trigger] after.sink(b),
            )
        &&& master_out_after.len() == master_out.len()
        &&& forall|k: int|
            0 <= k < master_out.len() ==> (#[trigger] master_out_after[k])@.len()
                == master_out[k]@.len()
        &&& forall|k: int, i: int|
            0 <= k < master_out.len() && 0 <= i < master_out[k]@.len()
                ==> #[trigger] master_out_after[k]@[i] == channel_layout::unpacked(
                after.outputs()[MASTER_BUS as int]@,
                channel_layout::samples(master_out),
                k,
                i,
            )
    }

    /// The engine rendered the block that `after` holds.
    pub open spec fn plays<M: Elementary<S>>(&self, m: M, frames: int, after: &Self) -> bool {
        exists|levels: Levels<S>, states: Seq<SignalPath<S>>|
            levels.are_of(m, self.engine()) && states[0] == self.path() && states[frames]
                == after.path() && #[trigger] signal_path::renders(
                m,
                self.engine(),
                levels,
                after.inputs(),
                after.outputs(),
                frames,
                states,
            )
    }

    /// One callback of the clock master, `block_frames` long. `master_in` is
    /// what that device captured; it feeds the master strip, past any queue.
    /// `master_out` receives what the main bus plays in this very block, which
    /// is why it does not go through a queue either.
    pub fn on_master_tick<M: Elementary<S>>(
        &mut self,
        m: &M,
        block_frames: usize,
        master_in: &Vec<Vec<S>>,
        master_out: &mut Vec<Vec<S>>,
    )
        requires
            num::lawful::<S>(),
            old(self).wf(),
            block_frames <= old(self).max_block(),
        ensures
            final(self).wf(),
            old(self).ticks(
                *m,
                block_frames,
                master_in@,
                old(master_out)@,
                final(self),
                final(master_out)@,
            ),
    {
        resize_blocks(&mut self.inputs, block_frames);
        resize_blocks(&mut self.outputs, block_frames);
        self.master_clock.advance(#[verifier::truncate] (block_frames as u32));
        self.collect_inputs(block_frames, master_in);
        let ghost before = *self;
        self.engine.process_block(
            &mut self.path,
            m,
            block_frames,
            &self.inputs,
            &mut self.outputs,
        );
        let ghost (levels, states) = choose|levels: Levels<S>, states: Seq<SignalPath<S>>|
            levels.are_of(*m, before.engine) && states[0] == before.path
                && states[block_frames as int] == self.path && #[trigger] signal_path::renders(
                *m,
                before.engine,
                levels,
                before.inputs@,
                self.outputs@,
                block_frames as int,
                states,
            );
        assert forall|s: int| 0 <= s < NUM_STRIPS implies (
        #[trigger] self.inputs@[s])@.take(block_frames as int) == self.inputs@[s]@ by {
            assert(self.inputs@[s]@.take(block_frames as int) =~= self.inputs@[s]@);
        }
        assert forall|b: int| 0 <= b < NUM_BUSES implies (
        #[trigger] self.outputs@[b])@.take(block_frames as int) == self.outputs@[b]@ by {
            assert(self.outputs@[b]@.take(block_frames as int) =~= self.outputs@[b]@);
        }
        unpack_channels(&self.outputs[MASTER_BUS], master_out);
        self.serve_buses();
        assert(signal_path::renders(
            *m,
            old(self).engine(),
            levels,
            self.inputs(),
            self.outputs(),
            block_frames as int,
            states,
        ));
    }
}

} // verus!
