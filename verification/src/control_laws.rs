//! What holds of the command channel over any number of calls.

use crate::command::{EngineCommand, ParamKey};
use crate::control::{self, CommandDrain, CommandSink};
use crate::num::Sample;
use crate::ring;
use vstd::prelude::*;

verus! {

/// The last command for `key` in `commands`.
pub open spec fn latest<S>(commands: Seq<EngineCommand<S>>, key: ParamKey) -> Option<
    EngineCommand<S>,
>
    decreases commands.len(),
{
    if commands.len() == 0 {
        None
    } else if commands.last().target() == key {
        Some(commands.last())
    } else {
        latest(commands.drop_last(), key)
    }
}

/// What the sending side stands for: of each control the command that is
/// pending, or else the last one the queue has accepted.
pub open spec fn standing<S>(
    pending: Seq<EngineCommand<S>>,
    accepted: Seq<EngineCommand<S>>,
    key: ParamKey,
) -> Option<EngineCommand<S>> {
    match latest(pending, key) {
        Some(c) => Some(c),
        None => latest(accepted, key),
    }
}

proof fn lemma_latest_concat<S>(
    a: Seq<EngineCommand<S>>,
    b: Seq<EngineCommand<S>>,
    key: ParamKey,
)
    ensures
        latest(a + b, key) == (match latest(b, key) {
            Some(c) => Some(c),
            None => latest(a, key),
        }),
    decreases b.len(),
{
    if b.len() == 0 {
        assert(a + b =~= a);
    } else {
        assert((a + b).drop_last() =~= a + b.drop_last());
        assert((a + b).last() == b.last());
        lemma_latest_concat(a, b.drop_last(), key);
    }
}

pub(crate) proof fn lemma_latest<S>(commands: Seq<EngineCommand<S>>, key: ParamKey)
    ensures
        latest(commands, key) matches Some(c) ==> c.target() == key && exists|i: int|
            0 <= i < commands.len() && #[trigger] commands[i] == c,
        latest(commands, key) is None ==> forall|i: int|
            0 <= i < commands.len() ==> (#[trigger] commands[i]).target() != key,
    decreases commands.len(),
{
    if commands.len() > 0 {
        let init = commands.drop_last();
        lemma_latest(init, key);
        if commands.last().target() == key {
            assert(commands[commands.len() - 1] == commands.last());
        } else {
            match latest(init, key) {
                Some(c) => {
                    let i = choose|i: int| 0 <= i < init.len() && #[trigger] init[i] == c;
                    assert(commands[i] == c);
                },
                None => {
                    assert forall|i: int| 0 <= i < commands.len() implies (
                    #[trigger] commands[i]).target() != key by {
                        if i < init.len() {
                            assert(init[i] == commands[i]);
                        }
                    }
                },
            }
        }
    }
}

proof fn lemma_latest_of_chosen<S>(
    pending: Seq<EngineCommand<S>>,
    ok: Seq<bool>,
    key: ParamKey,
)
    requires
        control::one_per_control(pending),
        ok.len() == pending.len(),
    ensures
        ({
            let sent = latest(control::chosen(pending, ok, true), key);
            let kept = latest(control::chosen(pending, ok, false), key);
            match latest(pending, key) {
                None => sent is None && kept is None,
                Some(c) => (sent == Some(c) && kept is None) || (sent is None && kept == Some(c)),
            }
        }),
    decreases pending.len(),
{
    if pending.len() > 0 {
        let init = pending.drop_last();
        let flags = ok.drop_last();
        assert(control::one_per_control(init)) by {
            assert forall|i: int, j: int| 0 <= i < j < init.len() implies (
            #[trigger] init[i]).target() != (#[trigger] init[j]).target() by {
                assert(init[i] == pending[i] && init[j] == pending[j]);
            }
        }
        lemma_latest_of_chosen(init, flags, key);
        if pending.last().target() == key {
            lemma_latest(init, key);
            if let Some(c) = latest(init, key) {
                let i = choose|i: int| 0 <= i < init.len() && #[trigger] init[i] == c;
                assert(pending[i] == c);
                assert(pending[pending.len() - 1] == pending.last());
                assert(false);
            }
        }
        let sent = control::chosen(init, flags, true);
        let kept = control::chosen(init, flags, false);
        assert(sent.push(pending.last()).drop_last() =~= sent);
        assert(kept.push(pending.last()).drop_last() =~= kept);
    }
}

/// Noting a command makes it what stands for its control, and changes nothing
/// for the others.
pub proof fn law_enqueue_stands<S: Sample>(
    pending: Seq<EngineCommand<S>>,
    accepted: Seq<EngineCommand<S>>,
    command: EngineCommand<S>,
    key: ParamKey,
)
    requires
        control::one_per_control(pending),
    ensures
        standing(control::coalesced(pending, command), accepted, key) == (if key
            == command.target() {
            Some(command)
        } else {
            standing(pending, accepted, key)
        }),
{
    control::law_coalescing_keeps_the_last(pending, command);
    let after = control::coalesced(pending, command);
    lemma_latest(after, key);
    lemma_latest(pending, key);
    if key == command.target() {
        let m = choose|m: int| 0 <= m < after.len() && after[m] == command;
        assert(after[m].target() == key);
    } else {
        lemma_other_keys_stand(pending, command, key);
    }
}

proof fn lemma_other_keys_stand<S>(
    pending: Seq<EngineCommand<S>>,
    command: EngineCommand<S>,
    key: ParamKey,
)
    requires
        control::one_per_control(pending),
        key != command.target(),
    ensures
        latest(control::coalesced(pending, command), key) == latest(pending, key),
{
    let after = control::coalesced(pending, command);
    let i = control::place(pending, command.target());
    control::lemma_place(pending, command.target());
    lemma_latest(after, key);
    lemma_latest(pending, key);
    control::law_coalescing_keeps_the_last(pending, command);
    if i < pending.len() {
        match latest(pending, key) {
            Some(c) => {
                let m = choose|m: int| 0 <= m < pending.len() && #[trigger] pending[m] == c;
                assert(after[m] == c);
                if let Some(d) = latest(after, key) {
                    let n = choose|n: int| 0 <= n < after.len() && #[trigger] after[n] == d;
                    if n != m {
                        assert(after[n].target() == after[m].target());
                        assert(false);
                    }
                }
            },
            None => {
                if let Some(d) = latest(after, key) {
                    let n = choose|n: int| 0 <= n < after.len() && #[trigger] after[n] == d;
                    assert(n != i);
                    assert(pending[n] == d);
                }
            },
        }
    } else {
        assert(after.drop_last() =~= pending);
    }
}

/// A flush changes nothing of what stands, whichever of the commands found the
/// queue full: none is lost, none overtakes a later one. So once nothing is
/// pending, the last command the queue has accepted for a control is the last
/// one that was asked for.
pub proof fn law_flush_keeps_what_stands<S: Sample>(
    pending: Seq<EngineCommand<S>>,
    accepted: Seq<EngineCommand<S>>,
    ok: Seq<bool>,
    key: ParamKey,
)
    requires
        control::one_per_control(pending),
        ok.len() == pending.len(),
    ensures
        standing(
            control::chosen(pending, ok, false),
            accepted + control::chosen(pending, ok, true),
            key,
        ) == standing(pending, accepted, key),
{
    lemma_latest_of_chosen(pending, ok, key);
    lemma_latest_concat(accepted, control::chosen(pending, ok, true), key);
}

/// The commands that have been drained are the first of those the queue has
/// accepted, in the order it accepted them.
pub proof fn law_commands_arrive_in_order<S: Sample>(sink: CommandSink<S>, drain: CommandDrain<S>)
    requires
        ring::in_step(sink.outbox, drain.inbox),
    ensures
        drain.inbox.received() == sink.outbox.accepted().take(drain.inbox.taken() as int),
{
}

/// While nobody drains, a flush puts through as many of the pending commands as
/// there are free slots, and exactly the others stay pending.
pub proof fn law_a_flush_uses_the_free_slots<S: Sample>(
    before: CommandSink<S>,
    after: CommandSink<S>,
    drain: CommandDrain<S>,
    drain_after: CommandDrain<S>,
)
    requires
        ring::in_step(before.outbox, drain.inbox),
        before.flushed(&after),
        ring::in_step(after.outbox, drain_after.inbox),
        drain_after.inbox.received() == drain.inbox.received(),
    ensures
        before.pending@.len() <= before.outbox.room() ==> after.pending@.len() == 0,
        before.pending@.len() > before.outbox.room() ==> after.pending@.len()
            == before.pending@.len() - before.outbox.room(),
        after.outbox.sent() - before.outbox.sent() == before.pending@.len() - after.pending@.len(),
{
}

} // verus!
