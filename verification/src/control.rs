//! The crossing between the window and the audio thread.
//!
//! Commands go one way: coalesced per control on the sending side, pushed
//! through a queue, applied in order at the top of an audio callback.
//! Snapshots come back the other way: only the latest one matters.

use crate::command::{EngineCommand, ParamKey};
use crate::elementary::Elementary;
use crate::engine::Engine;
use crate::num::{self, Sample};
use crate::ring::{self, channel, Inbox, Outbox};
use crate::shared_count::{self, SharedCount, Tally};
use crate::signal_path::SignalPath;
use core::sync::atomic::AtomicU64;
use vstd::prelude::*;

verus! {

/// Room for every control at once, several times over: it only fills when the
/// audio thread has stopped draining.
pub const COMMAND_QUEUE_CAPACITY: usize = 1024;

/// A live view on how often a command found the queue full, for any thread to
/// look at. The count itself is kept by the sending side, and wraps.
#[derive(Debug)]
pub struct OverflowCounter {
    shown: SharedCount,
}

impl OverflowCounter {
    /// Which count this is a view on.
    pub closed spec fn cell(&self) -> AtomicU64 {
        self.shown.cell()
    }

    /// The count, as far as the sending side has come.
    pub fn get(&self) -> (r: u64)
        ensures
            shared_count::is_seen(self.cell(), r),
    {
        self.shown.get()
    }

    /// The count, with the sending side's own at hand.
    pub fn get_beside(&self, keeper: &Tally) -> (r: u64)
        ensures
            self.cell() == keeper.cell() ==> r == keeper.count(),
    {
        self.shown.get_beside(keeper)
    }
}

impl Default for OverflowCounter {
    /// A view on a count of its own, which starts at zero and which nobody keeps.
    fn default() -> (r: Self)
        ensures
            shared_count::starts_at(r.cell(), 0),
    {
        OverflowCounter { shown: Tally::default().view_on() }
    }
}

impl Clone for OverflowCounter {
    fn clone(&self) -> (r: Self)
        ensures
            r.cell() == self.cell(),
    {
        OverflowCounter { shown: self.shown.clone() }
    }
}

/// The place of the command for `key` among `pending`, or the length where
/// there is none.
pub open spec fn place<S>(pending: Seq<EngineCommand<S>>, key: ParamKey) -> int
    decreases pending.len(),
{
    if pending.len() == 0 {
        0
    } else {
        let i = place(pending.drop_last(), key);
        if i < pending.len() - 1 || pending.last().target() == key {
            i
        } else {
            i + 1
        }
    }
}

/// `pending` with `command` in the place of the one for the same control, or
/// at the end where there is none.
pub open spec fn coalesced<S>(
    pending: Seq<EngineCommand<S>>,
    command: EngineCommand<S>,
) -> Seq<EngineCommand<S>> {
    let i = place(pending, command.target());
    if i < pending.len() {
        pending.update(i, command)
    } else {
        pending.push(command)
    }
}

/// No two pending commands are for one control.
pub open spec fn one_per_control<S>(pending: Seq<EngineCommand<S>>) -> bool {
    forall|i: int, j: int|
        0 <= i < j < pending.len() ==> (#[trigger] pending[i]).target() != (
        #[trigger] pending[j]).target()
}

pub(crate) proof fn lemma_place<S>(pending: Seq<EngineCommand<S>>, key: ParamKey)
    ensures
        0 <= place(pending, key) <= pending.len(),
        place(pending, key) < pending.len() ==> pending[place(pending, key)].target() == key,
        forall|i: int|
            0 <= i < place(pending, key) ==> (#[trigger] pending[i]).target() != key,
    decreases pending.len(),
{
    if pending.len() > 0 {
        lemma_place(pending.drop_last(), key);
        assert forall|i: int| 0 <= i < place(pending, key) implies (#[trigger] pending[i]).target()
            != key by {
            if i < pending.len() - 1 {
                assert(pending.drop_last()[i] == pending[i]);
            }
        }
    }
}

proof fn lemma_place_is<S>(pending: Seq<EngineCommand<S>>, key: ParamKey, i: int)
    requires
        0 <= i <= pending.len(),
        forall|k: int| 0 <= k < i ==> (#[trigger] pending[k]).target() != key,
        i < pending.len() ==> pending[i].target() == key,
    ensures
        place(pending, key) == i,
{
    lemma_place(pending, key);
}

/// Coalescing keeps one command per control, and what is pending for the
/// control afterwards is the command that came last.
pub proof fn law_coalescing_keeps_the_last<S>(
    pending: Seq<EngineCommand<S>>,
    command: EngineCommand<S>,
)
    requires
        one_per_control(pending),
    ensures
        one_per_control(coalesced(pending, command)),
        coalesced(pending, command).contains(command),
        forall|k: int|
            0 <= k < coalesced(pending, command).len() && (#[trigger] coalesced(
                pending,
                command,
            )[k]).target() == command.target() ==> coalesced(pending, command)[k] == command,
        coalesced(pending, command).len() <= pending.len() + 1,
        place(pending, command.target()) < pending.len() ==> coalesced(pending, command).len()
            == pending.len(),
{
    lemma_place(pending, command.target());
    let i = place(pending, command.target());
    let after = coalesced(pending, command);
    if i < pending.len() {
        assert(after[i] == command);
    } else {
        assert(after[pending.len() as int] == command);
    }
}

/// The entries of `items` whose flag in `flags` is `want`, in order.
pub open spec fn chosen<T>(items: Seq<T>, flags: Seq<bool>, want: bool) -> Seq<T>
    decreases items.len(),
{
    if items.len() == 0 {
        Seq::empty()
    } else {
        let rest = chosen(items.drop_last(), flags.drop_last(), want);
        if flags.last() == want {
            rest.push(items.last())
        } else {
            rest
        }
    }
}

/// Every entry is chosen one way or the other, and none twice.
pub proof fn law_nothing_is_lost<T>(items: Seq<T>, flags: Seq<bool>)
    requires
        flags.len() == items.len(),
    ensures
        chosen(items, flags, true).len() + chosen(items, flags, false).len() == items.len(),
        chosen(items, flags, true).to_multiset().add(chosen(items, flags, false).to_multiset())
            == items.to_multiset(),
    decreases items.len(),
{
    broadcast use vstd::seq_lib::group_to_multiset_ensures;

    if items.len() > 0 {
        law_nothing_is_lost(items.drop_last(), flags.drop_last());
        let a = chosen(items.drop_last(), flags.drop_last(), true);
        let b = chosen(items.drop_last(), flags.drop_last(), false);
        assert(items =~= items.drop_last().push(items.last()));
        assert(chosen(items, flags, true).to_multiset().add(
            chosen(items, flags, false).to_multiset(),
        ) =~= items.to_multiset());
    } else {
        assert(chosen(items, flags, true).to_multiset().add(
            chosen(items, flags, false).to_multiset(),
        ) =~= items.to_multiset());
    }
}

/// The sending side: the commands that are pending, one per control, and the
/// queue they go through.
#[verifier::reject_recursive_types(S)]
pub struct CommandSink<S> {
    pub outbox: Outbox<EngineCommand<S>>,
    pub pending: Vec<EngineCommand<S>>,
    pub overflow: Tally,
}

/// The audio thread's side.
#[verifier::reject_recursive_types(S)]
pub struct CommandDrain<S> {
    pub inbox: Inbox<EngineCommand<S>>,
}

/// Opens a command channel: nothing pending, nothing in the queue.
pub fn control_channel<S: Sample>() -> (r: (CommandSink<S>, CommandDrain<S>))
    requires
        ring::fits::<EngineCommand<S>>(COMMAND_QUEUE_CAPACITY as int),
    ensures
        r.0.wf(),
        r.1.inbox.wf(),
        r.0.pending@.len() == 0,
        r.0.overflow.count() == 0,
        r.0.outbox.sent() == 0,
        r.0.outbox.capacity() == COMMAND_QUEUE_CAPACITY,
        ring::in_step(r.0.outbox, r.1.inbox),
        r.1.inbox.taken() == 0,
{
    let (outbox, inbox) = channel(COMMAND_QUEUE_CAPACITY);
    (
        CommandSink { outbox, pending: Vec::new(), overflow: Tally::default() },
        CommandDrain { inbox },
    )
}

impl<S: Sample> CommandSink<S> {
    pub open spec fn wf(&self) -> bool {
        &&& self.outbox.wf()
        &&& one_per_control(self.pending@)
    }

    /// Notes a command, in place of one that is pending for the same control.
    /// The queue is not touched.
    pub fn enqueue(&mut self, command: EngineCommand<S>)
        requires
            old(self).wf(),
        ensures
            final(self).wf(),
            final(self).pending@ == coalesced(old(self).pending@, command),
            final(self).outbox == old(self).outbox,
            final(self).overflow == old(self).overflow,
    {
        let key = command.key();
        let mut i: usize = 0;
        while i < self.pending.len() && self.pending[i].key() != key
            invariant
                i <= self.pending@.len(),
                key == command.target(),
                *self == *old(self),
                forall|k: int| 0 <= k < i ==> (#[trigger] self.pending@[k]).target() != key,
            decreases self.pending@.len() - i,
        {
            i = i + 1;
        }
        proof {
            lemma_place_is(self.pending@, key, i as int);
            law_coalescing_keeps_the_last(self.pending@, command);
        }
        if i < self.pending.len() {
            self.pending[i] = command;
        } else {
            self.pending.push(command);
        }
    }

    /// `after` is what a flush leaves: some of the pending commands went into
    /// the queue, in order, and the others are pending still and have been
    /// counted. None stayed back before the slots known to be free were used
    /// up.
    pub open spec fn flushed(&self, after: &Self) -> bool {
        &&& after.outbox.queue() == self.outbox.queue()
        &&& after.outbox.capacity() == self.outbox.capacity()
        &&& exists|ok: Seq<bool>|
            ok.len() == self.pending@.len() && after.outbox.accepted() == self.outbox.accepted()
                + #[trigger] chosen(self.pending@, ok, true) && after.pending@ == chosen(
                self.pending@,
                ok,
                false,
            )
        &&& after.overflow.cell() == self.overflow.cell()
        &&& after.overflow.count() == (self.overflow.count() + after.pending@.len())
            % 0x1_0000_0000_0000_0000
        &&& after.outbox.sent() + after.pending@.len() == self.outbox.sent() + self.pending@.len()
        &&& after.pending@.len() > 0 ==> after.outbox.sent() >= self.outbox.sent()
            + self.outbox.room()
        &&& after.outbox.room() == ring::less(
            self.outbox.room(),
            (after.outbox.sent() - self.outbox.sent()) as nat,
        )
    }

    /// Pushes every pending command. One that finds the queue full stays
    /// pending, to be tried again with whatever value it has then, and is
    /// counted. None stays back before the slots known to be free are used up.
    pub fn flush(&mut self)
        requires
            old(self).wf(),
        ensures
            final(self).wf(),
            old(self).flushed(final(self)),
    {
        let mut kept: Vec<EngineCommand<S>> = Vec::new();
        let ghost mut ok: Seq<bool> = Seq::empty();
        let ghost all = self.pending@;
        let mut i: usize = 0;
        assert(all.take(0) =~= Seq::empty());
        assert(self.outbox.accepted() + chosen(all.take(0), ok, true) =~= self.outbox.accepted());
        while i < self.pending.len()
            invariant
                i <= all.len(),
                all == old(self).pending@,
                self.pending@ == all,
                one_per_control(all),
                self.outbox.wf(),
                self.outbox.queue() == old(self).outbox.queue(),
                self.outbox.capacity() == old(self).outbox.capacity(),
                ok.len() == i,
                self.outbox.accepted() == old(self).outbox.accepted() + chosen(
                    all.take(i as int),
                    ok,
                    true,
                ),
                kept@ == chosen(all.take(i as int), ok, false),
                self.outbox.sent() + kept@.len() == old(self).outbox.sent() + i,
                self.overflow.cell() == old(self).overflow.cell(),
                self.overflow.count() == (old(self).overflow.count() + kept@.len())
                    % 0x1_0000_0000_0000_0000,
                self.outbox.room() == ring::less(old(self).outbox.room(), (i - kept@.len()) as nat),
                kept@.len() > 0 ==> self.outbox.room() == 0 && i - kept@.len() >= old(
                    self,
                ).outbox.room(),
            decreases all.len() - i,
        {
            let command = self.pending[i];
            let ghost before = self.outbox.accepted();
            assert(all.take(i + 1).drop_last() =~= all.take(i as int));
            match self.outbox.try_push(command) {
                Ok(()) => {
                    proof {
                        assert(ok.push(true).drop_last() =~= ok);
                        ok = ok.push(true);
                        assert(self.outbox.accepted().len() == before.len() + 1);
                        assert(self.outbox.accepted() =~= old(self).outbox.accepted() + chosen(
                            all.take(i + 1),
                            ok,
                            true,
                        ));
                    }
                },
                Err(_) => {
                    self.overflow.increment();
                    kept.push(command);
                    proof {
                        assert(ok.push(false).drop_last() =~= ok);
                        ok = ok.push(false);
                    }
                },
            }
            i = i + 1;
        }
        assert(all.take(all.len() as int) =~= all);
        proof {
            lemma_chosen_one_per_control(all, ok, false);
        }
        self.pending = kept;
    }

    /// A view on how often a command found the queue full.
    pub fn overflow_counter(&self) -> (r: OverflowCounter)
        ensures
            r.cell() == self.overflow.cell(),
    {
        OverflowCounter { shown: self.overflow.view_on() }
    }

    pub fn pending_len(&self) -> (r: usize)
        ensures
            r == self.pending@.len(),
    {
        self.pending.len()
    }
}

pub(crate) proof fn lemma_chosen_one_per_control<S>(
    items: Seq<EngineCommand<S>>,
    flags: Seq<bool>,
    want: bool,
)
    requires
        one_per_control(items),
        flags.len() == items.len(),
    ensures
        one_per_control(chosen(items, flags, want)),
        forall|k: int|
            0 <= k < chosen(items, flags, want).len() ==> items.contains(
                #[trigger] chosen(items, flags, want)[k],
            ),
    decreases items.len(),
{
    if items.len() > 0 {
        let init = items.drop_last();
        assert(one_per_control(init)) by {
            assert forall|i: int, j: int| 0 <= i < j < init.len() implies (
            #[trigger] init[i]).target() != (#[trigger] init[j]).target() by {
                assert(init[i] == items[i] && init[j] == items[j]);
            }
        }
        lemma_chosen_one_per_control(init, flags.drop_last(), want);
        let rest = chosen(init, flags.drop_last(), want);
        let all = chosen(items, flags, want);
        assert forall|k: int| 0 <= k < rest.len() implies items.contains(#[trigger] rest[k])
            && rest[k].target() != items.last().target() by {
            let m = choose|m: int| 0 <= m < init.len() && init[m] == rest[k];
            assert(items[m] == rest[k]);
            assert(items[m].target() != items[items.len() - 1].target());
        }
        assert(items[items.len() - 1] == items.last());
        assert forall|k: int| 0 <= k < all.len() implies items.contains(#[trigger] all[k]) by {
            if k < rest.len() {
                assert(all[k] == rest[k]);
            }
        }
        assert forall|i: int, j: int| 0 <= i < j < all.len() implies (#[trigger] all[i]).target()
            != (#[trigger] all[j]).target() by {
            assert(all[i] == rest[i]);
            if j < rest.len() {
                assert(all[j] == rest[j]);
            }
        }
    }
}

/// The engine after a run of commands.
pub open spec fn applied_all<S: Sample>(commands: Seq<EngineCommand<S>>, e: Engine<S>) -> Engine<S>
    decreases commands.len(),
{
    if commands.len() == 0 {
        e
    } else {
        commands.last().applied(applied_all(commands.drop_last(), e))
    }
}

/// A run of commands carried through to the signal path: `states[k]` is the
/// path before command `k`.
pub open spec fn carried<S: Sample, M: Elementary<S>>(
    m: M,
    commands: Seq<EngineCommand<S>>,
    engine: Engine<S>,
    states: Seq<SignalPath<S>>,
) -> bool {
    &&& states.len() == commands.len() + 1
    &&& forall|k: int|
        0 <= k < commands.len() ==> #[trigger] command_carried(m, commands, engine, states, k)
}

/// Command `k` is carried from `states[k]` to `states[k + 1]`.
pub open spec fn command_carried<S: Sample, M: Elementary<S>>(
    m: M,
    commands: Seq<EngineCommand<S>>,
    engine: Engine<S>,
    states: Seq<SignalPath<S>>,
    k: int,
) -> bool {
    &&& states[k].wf(applied_all(commands.take(k), engine))
    &&& states[k].follows(
        m,
        commands[k],
        applied_all(commands.take(k), engine),
        applied_all(commands.take(k + 1), engine),
        &states[k + 1],
    )
}

impl<S: Sample> CommandDrain<S> {
    /// The commands taken out since `earlier`.
    pub open spec fn since(&self, earlier: &Self) -> Seq<EngineCommand<S>> {
        self.inbox.received().skip(earlier.inbox.taken() as int)
    }

    /// Performs up to `max` commands in the order they were sent, and says how
    /// many. What is not drained waits for the next call.
    pub fn drain_into<M: Elementary<S>>(
        &mut self,
        m: &M,
        engine: &mut Engine<S>,
        path: &mut SignalPath<S>,
        max: usize,
    ) -> (r: usize)
        requires
            num::lawful::<S>(),
            old(self).inbox.wf(),
            old(path).wf(*old(engine)),
        ensures
            final(self).inbox.wf(),
            final(self).inbox.queue() == old(self).inbox.queue(),
            final(self).inbox.capacity() == old(self).inbox.capacity(),
            final(self).inbox.ready() == ring::less(old(self).inbox.ready(), r as nat),
            old(self).inbox.received().is_prefix_of(final(self).inbox.received()),
            r <= max,
            r < max ==> r >= old(self).inbox.ready(),
            final(self).inbox.taken() == old(self).inbox.taken() + r,
            *final(engine) == applied_all(final(self).since(old(self)), *old(engine)),
            final(path).wf(*final(engine)),
            exists|states: Seq<SignalPath<S>>|
                states[0] == *old(path) && states[r as int] == *final(path) && #[trigger] carried(
                    *m,
                    final(self).since(old(self)),
                    *old(engine),
                    states,
                ),
    {
        let ghost start = self.inbox.taken() as int;
        let ghost mut states: Seq<SignalPath<S>> = seq![*path];
        let mut applied: usize = 0;
        assert(self.since(old(self)) =~= Seq::empty());
        while applied < max
            invariant
                num::lawful::<S>(),
                applied <= max,
                self.inbox.wf(),
                self.inbox.queue() == old(self).inbox.queue(),
                self.inbox.capacity() == old(self).inbox.capacity(),
                self.inbox.ready() == ring::less(old(self).inbox.ready(), applied as nat),
                old(self).inbox.received().is_prefix_of(self.inbox.received()),
                start == old(self).inbox.taken(),
                self.inbox.taken() == start + applied,
                self.since(old(self)).len() == applied,
                *engine == applied_all(self.since(old(self)), *old(engine)),
                path.wf(*engine),
                states[0] == *old(path),
                states[applied as int] == *path,
                carried(*m, self.since(old(self)), *old(engine), states),
            ensures
                applied < max ==> applied >= old(self).inbox.ready(),
            decreases max - applied,
        {
            let ghost before = self.inbox.received();
            let ghost done = self.since(old(self));
            let ghost was = *engine;
            match self.inbox.try_pop() {
                Some(command) => {
                    proof {
                        assert(before.len() == start + applied);
                        assert(self.inbox.received().len() == before.len() + 1);
                        assert(self.since(old(self)) =~= done.push(command));
                        assert(self.since(old(self)).drop_last() =~= done);
                    }
                    command.perform(m, engine, path);
                    applied = applied + 1;
                    proof {
                        let more = states.push(*path);
                        let now = self.since(old(self));
                        assert(now.take(applied as int) =~= now);
                        assert(now.take(applied - 1) =~= done);
                        assert forall|k: int| 0 <= k < now.len() implies #[trigger] command_carried(
                            *m,
                            now,
                            *old(engine),
                            more,
                            k,
                        ) by {
                            if k < done.len() {
                                assert(command_carried(*m, done, *old(engine), states, k));
                                assert(now.take(k) =~= done.take(k));
                                assert(now.take(k + 1) =~= done.take(k + 1));
                                assert(more[k] == states[k] && more[k + 1] == states[k + 1]);
                            } else {
                                assert(more[k] == states[k] && more[k + 1] == *path);
                            }
                        }
                        states = more;
                    }
                },
                None => {
                    break;
                },
            }
        }
        applied
    }
}

/// The publishing side of a latest-value crossing.
#[verifier::reject_recursive_types(T)]
pub struct LatestValuePublisher<T> {
    pub outbox: Outbox<T>,
}

/// The reading side, with the last value it has seen.
#[verifier::reject_recursive_types(T)]
pub struct LatestValueReader<T> {
    pub inbox: Inbox<T>,
    pub latest: T,
}

/// Opens a latest-value crossing with room for `capacity` unread values; until
/// something is published it reads as `initial`.
pub fn latest_value_channel<T: Copy>(capacity: usize, initial: T) -> (r: (
    LatestValuePublisher<T>,
    LatestValueReader<T>,
))
    requires
        ring::fits::<T>(capacity as int),
    ensures
        r.0.outbox.wf(),
        r.1.inbox.wf(),
        ring::in_step(r.0.outbox, r.1.inbox),
        r.0.outbox.sent() == 0,
        r.0.outbox.capacity() == capacity,
        r.1.inbox.taken() == 0,
        r.1.latest == initial,
{
    let (outbox, inbox) = channel(capacity);
    (LatestValuePublisher { outbox }, LatestValueReader { inbox, latest: initial })
}

impl<T: Copy> LatestValuePublisher<T> {
    /// Publishes a value, or drops it where the reader has fallen behind by
    /// the whole capacity.
    pub fn publish(&mut self, value: T)
        requires
            old(self).outbox.wf(),
        ensures
            final(self).outbox.wf(),
            final(self).outbox.queue() == old(self).outbox.queue(),
            final(self).outbox.capacity() == old(self).outbox.capacity(),
            final(self).outbox.room() == ring::less(old(self).outbox.room(), 1),
            final(self).outbox.accepted() == old(self).outbox.accepted().push(value)
                || final(self).outbox.accepted() == old(self).outbox.accepted(),
            old(self).outbox.room() > 0
                ==> final(self).outbox.accepted() == old(self).outbox.accepted().push(value),
    {
        let _ = self.outbox.try_push(value);
    }
}

impl<T: Copy> LatestValueReader<T> {
    /// A read gave `r` and left the reader as `after`: everything known to wait
    /// was taken, and `r` is the newest of what was taken, or the value of the
    /// last read where nothing was.
    pub open spec fn reads(&self, after: &Self, r: T) -> bool {
        &&& after.inbox.queue() == self.inbox.queue()
        &&& after.inbox.capacity() == self.inbox.capacity()
        &&& self.inbox.received().is_prefix_of(after.inbox.received())
        &&& after.inbox.taken() >= self.inbox.taken() + self.inbox.ready()
        &&& r == after.latest
        &&& r == (if after.inbox.taken() > self.inbox.taken() {
            after.inbox.received().last()
        } else {
            self.latest
        })
    }

    /// Takes everything that has arrived and gives the newest of it, or the
    /// value of the last read where nothing has.
    pub fn read(&mut self) -> (r: T)
        requires
            old(self).inbox.wf(),
        ensures
            final(self).inbox.wf(),
            old(self).reads(final(self), r),
    {
        let arrived: usize = self.inbox.waiting();
        let mut i: usize = 0;
        while i < arrived
            invariant
                i <= arrived,
                self.inbox.wf(),
                self.inbox.queue() == old(self).inbox.queue(),
                self.inbox.capacity() == old(self).inbox.capacity(),
                old(self).inbox.received().is_prefix_of(self.inbox.received()),
                self.inbox.taken() == old(self).inbox.taken() + i,
                self.inbox.ready() == arrived - i,
                self.latest == (if i > 0 {
                    self.inbox.received().last()
                } else {
                    old(self).latest
                }),
            decreases arrived - i,
        {
            match self.inbox.try_pop() {
                Some(value) => {
                    self.latest = value;
                },
                None => {},
            }
            i = i + 1;
        }
        self.latest
    }
}

/// While nobody publishes, a read takes all that the crossing has accepted and
/// gives the newest of it; where nothing is new it gives what it gave before.
pub proof fn law_a_read_gives_the_newest<T: Copy>(
    publisher: LatestValuePublisher<T>,
    before: LatestValueReader<T>,
    publisher_after: LatestValuePublisher<T>,
    after: LatestValueReader<T>,
    r: T,
)
    requires
        ring::in_step(publisher.outbox, before.inbox),
        ring::in_step(publisher_after.outbox, after.inbox),
        publisher_after.outbox.accepted() == publisher.outbox.accepted(),
        before.reads(&after, r),
    ensures
        after.inbox.received() == publisher.outbox.accepted(),
        r == (if publisher.outbox.sent() > before.inbox.taken() {
            publisher.outbox.accepted().last()
        } else {
            before.latest
        }),
{
    assert(after.inbox.received() =~= publisher.outbox.accepted());
}

} // verus!
