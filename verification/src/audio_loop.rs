//! The whole of what happens in one callback of the clock master: commands in,
//! a block of audio, snapshots out.

use crate::command::EngineCommand;
use crate::control::{self, CommandDrain, LatestValuePublisher};
use crate::elementary::Elementary;
use crate::engine::Engine;
use crate::io_driver::EngineIoDriver;
use crate::num::{self, Sample};
use crate::ring;
use crate::signal_path::SignalPath;
use crate::snapshot::{ControlSnapshot, EqSnapshot, MeterSnapshot};
use vstd::prelude::*;

verus! {

/// The most commands that are performed ahead of one block.
pub const COMMANDS_PER_BLOCK: usize = 64;

#[verifier::reject_recursive_types(S)]
pub struct AudioLoop<S: Copy> {
    pub driver: EngineIoDriver<S>,
    pub drain: CommandDrain<S>,
    pub controls: LatestValuePublisher<ControlSnapshot<S>>,
    pub meters: LatestValuePublisher<MeterSnapshot<S>>,
    pub equalisers: LatestValuePublisher<EqSnapshot<S>>,
}

/// `value` was published, or dropped because the reader had fallen behind.
pub open spec fn offered<T>(
    before: LatestValuePublisher<T>,
    value: T,
    after: LatestValuePublisher<T>,
) -> bool {
    &&& after.outbox.wf()
    &&& after.outbox.queue() == before.outbox.queue()
    &&& after.outbox.capacity() == before.outbox.capacity()
    &&& after.outbox.accepted() == before.outbox.accepted().push(value) || (
    after.outbox.accepted() == before.outbox.accepted() && before.outbox.room() == 0)
    &&& after.outbox.room() == ring::less(before.outbox.room(), 1)
}

/// No command touches the patch.
proof fn lemma_patch_stays<S: Sample>(commands: Seq<EngineCommand<S>>, e: Engine<S>)
    ensures
        control::applied_all(commands, e).patch == e.patch,
    decreases commands.len(),
{
    if commands.len() > 0 {
        lemma_patch_stays(commands.drop_last(), e);
    }
}

impl<S: Sample> AudioLoop<S> {
    /// A command may put a bus into Composite mode at any time, so the patch
    /// has to be fit for it.
    pub open spec fn wf(&self) -> bool {
        &&& self.driver.wf()
        &&& self.driver.engine().patch.wf()
        &&& self.drain.inbox.wf()
        &&& self.controls.outbox.wf()
        &&& self.meters.outbox.wf()
        &&& self.equalisers.outbox.wf()
    }

    /// The commands in `done` brought the engine of `before` to that of
    /// `after`, in order, and nothing else of the driver changed.
    pub open spec fn performs<M: Elementary<S>>(
        m: M,
        before: EngineIoDriver<S>,
        done: Seq<EngineCommand<S>>,
        after: EngineIoDriver<S>,
    ) -> bool {
        &&& after.wf()
        &&& after.engine() == control::applied_all(done, before.engine())
        &&& after.clock() == before.clock()
        &&& after.clock_cell() == before.clock_cell()
        &&& after.master_strip() == before.master_strip()
        &&& after.max_block() == before.max_block()
        &&& forall|s: int| #[trigger] after.source(s) == before.source(s)
        &&& forall|b: int| #[trigger] after.sink(b) == before.sink(b)
        &&& exists|states: Seq<SignalPath<S>>|
            states[0] == before.path() && states[done.len() as int] == after.path()
                && #[trigger] control::carried(m, done, before.engine(), states)
    }

    /// Performs the commands that have arrived, renders a block, and shows the
    /// engine to whoever watches it.
    pub fn tick<M: Elementary<S>>(
        &mut self,
        m: &M,
        block_frames: usize,
        master_in: &Vec<Vec<S>>,
        master_out: &mut Vec<Vec<S>>,
    )
        requires
            num::lawful::<S>(),
            old(self).wf(),
            block_frames <= old(self).driver.max_block(),
        ensures
            final(self).wf(),
            final(self).drain.inbox.queue() == old(self).drain.inbox.queue(),
            final(self).drain.inbox.capacity() == old(self).drain.inbox.capacity(),
            old(self).drain.inbox.received().is_prefix_of(final(self).drain.inbox.received()),
            final(self).drain.inbox.ready() == ring::less(
                old(self).drain.inbox.ready(),
                final(self).drain.since(&old(self).drain).len(),
            ),
            final(self).drain.since(&old(self).drain).len() <= COMMANDS_PER_BLOCK,
            final(self).drain.since(&old(self).drain).len() < COMMANDS_PER_BLOCK
                ==> final(self).drain.since(&old(self).drain).len()
                >= old(self).drain.inbox.ready(),
            exists|between: EngineIoDriver<S>| #[trigger]
                Self::performs(
                    *m,
                    old(self).driver,
                    final(self).drain.since(&old(self).drain),
                    between,
                ) && between.ticks(
                    *m,
                    block_frames,
                    master_in@,
                    old(master_out)@,
                    &final(self).driver,
                    final(master_out)@,
                ),
            exists|shown: ControlSnapshot<S>| #[trigger]
                offered(old(self).controls, shown, final(self).controls) && shown.shows(
                    final(self).driver.engine(),
                ),
            exists|shown: MeterSnapshot<S>| #[trigger]
                offered(old(self).meters, shown, final(self).meters) && shown.strips
                    == final(self).driver.engine().strip_meters && shown.buses
                    == final(self).driver.engine().bus_meters,
            exists|shown: EqSnapshot<S>| #[trigger]
                offered(old(self).equalisers, shown, final(self).equalisers) && shown.shows(
                    final(self).driver.engine(),
                ),
    {
        let (engine, path) = self.driver.engine_mut();
        let ghost before = *engine;
        let applied: usize = self.drain.drain_into(m, engine, path, COMMANDS_PER_BLOCK);
        proof {
            lemma_patch_stays(self.drain.since(&old(self).drain), before);
        }
        let ghost between = self.driver;
        let ghost done = self.drain.since(&old(self).drain);
        assert(done.len() == applied) by {
            assert(self.drain.inbox.received().len() == self.drain.inbox.taken());
        }
        assert(Self::performs(*m, old(self).driver, done, between));
        self.driver.on_master_tick(m, block_frames, master_in, master_out);
        let shown = ControlSnapshot::capture(self.driver.get_engine());
        self.controls.publish(shown);
        let levels = MeterSnapshot::capture(self.driver.get_engine());
        self.meters.publish(levels);
        let curves = EqSnapshot::capture(self.driver.get_engine());
        self.equalisers.publish(curves);
        assert(offered(old(self).controls, shown, self.controls));
        assert(offered(old(self).meters, levels, self.meters));
        assert(offered(old(self).equalisers, curves, self.equalisers));
    }
}

} // verus!
