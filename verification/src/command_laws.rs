//! What holds of every command.

use crate::bus::Bus;
use crate::command::EngineCommand;
use crate::engine::Engine;
use crate::num::{self, Sample};
use crate::parametric_eq::{self, EqChannelParams, ParametricEq, NUM_CELLS};
use crate::strip::Strip;
use crate::strip_dsp::StripChain;
use crate::{NUM_BUSES, NUM_STRIPS};
use vstd::prelude::*;

verus! {

/// A command with an index out of range does nothing.
pub proof fn law_out_of_range_is_ignored<S: Sample>(c: EngineCommand<S>, e: Engine<S>)
    requires
        !c.in_range(),
    ensures
        c.applied(e) == e,
{
}

/// A command for a hardware strip does nothing to a virtual one, and a command
/// for a virtual strip nothing to a hardware one.
pub proof fn law_wrong_kind_is_ignored<S: Sample>(c: EngineCommand<S>, e: Engine<S>)
    requires
        c.strip() matches Some(s) && s < NUM_STRIPS && (match e.strips@[s as int].chain {
            StripChain::Hardware(_) => c.is_virtual(),
            StripChain::Virtual(_) => c.is_hardware() || c.is_hardware_eq(),
        }),
    ensures
        c.applied(e) == e,
{
    assert(c.applied(e).strips =~= e.strips);
}

/// A command changes the strip or the bus it addresses, and nothing else.
pub proof fn law_command_is_local<S: Sample>(c: EngineCommand<S>, e: Engine<S>)
    ensures
        forall|s: int|
            0 <= s < NUM_STRIPS && c.strip() != Some(s as usize)
                ==> #[trigger] c.applied(e).strips@[s] == e.strips@[s],
        forall|b: int|
            0 <= b < NUM_BUSES && c.bus() != Some(b as usize)
                ==> #[trigger] c.applied(e).buses@[b] == e.buses@[b],
        c.applied(e).patch == e.patch,
        c.applied(e).strip_meters == e.strip_meters,
        c.applied(e).bus_meters == e.bus_meters,
        c.applied(e).sample_rate == e.sample_rate,
{
}

/// Whether the effect of `first` is wholly replaced by that of `last`, a
/// command for the same control. It is not where `last` still shows something
/// that `first` did: a knob turned to zero bypasses its effect with the
/// settings it had; a pad mode that is left keeps the reset it came with; a
/// copy that copies nothing leaves the channel as it is.
pub open spec fn overrides<S: Sample>(last: EngineCommand<S>, first: EngineCommand<S>) -> bool {
    match (first, last) {
        (EngineCommand::SetStripGateKnob(_, k1), EngineCommand::SetStripGateKnob(_, k2))
        | (EngineCommand::SetStripCompKnob(_, k1), EngineCommand::SetStripCompKnob(_, k2)) =>
        !num::at_most(k2, num::whole::<S>(0)) || num::at_most(k1, num::whole::<S>(0)),
        (
            EngineCommand::SetStripIntellipanMode(_, m1),
            EngineCommand::SetStripIntellipanMode(_, m2),
        ) => m1 == m2,
        (EngineCommand::CopyStripEqChannel(..), EngineCommand::CopyStripEqChannel(_, from, to))
        | (EngineCommand::CopyBusEqChannel(..), EngineCommand::CopyBusEqChannel(_, from, to)) =>
        from != to && last.in_range(),
        _ => true,
    }
}

/// Of two commands for one control the last one decides, so that the first
/// need not be sent at all.
pub proof fn law_last_command_decides<S: Sample>(
    first: EngineCommand<S>,
    last: EngineCommand<S>,
    e: Engine<S>,
)
    requires
        first.target() == last.target(),
        overrides(last, first),
    ensures
        last.applied(first.applied(e)) == last.applied(e),
{
    let twice = last.applied(first.applied(e));
    let once = last.applied(e);
    if first.in_range() && last.in_range() {
        if let Some(s) = last.strip() {
            lemma_strip_decided(first, last, e.strips@[s as int]);
            assert(twice.strips =~= once.strips);
        } else if let Some(b) = last.bus() {
            lemma_bus_decided(first, last, e.buses@[b as int]);
            assert(twice.buses =~= once.buses);
        }
    }
}

proof fn lemma_bus_decided<S: Sample>(
    first: EngineCommand<S>,
    last: EngineCommand<S>,
    bus: Bus<S>,
)
    requires
        first.target() == last.target(),
        overrides(last, first),
        first.in_range(),
        last.in_range(),
        last.bus() is Some,
    ensures
        last.edited_bus(first.edited_bus(bus)) == last.edited_bus(bus),
{
    match last {
        EngineCommand::SetBusMute(..)
        | EngineCommand::SetBusMono(..)
        | EngineCommand::SetBusMode(..)
        | EngineCommand::SetBusGain(..) => {},
        _ => {
            lemma_eq_decided(first, last, bus.eq);
        },
    }
}

proof fn lemma_strip_decided<S: Sample>(
    first: EngineCommand<S>,
    last: EngineCommand<S>,
    strip: Strip<S>,
)
    requires
        first.target() == last.target(),
        overrides(last, first),
        first.in_range(),
        last.in_range(),
        last.strip() is Some,
    ensures
        last.edited_strip(first.edited_strip(strip)) == last.edited_strip(strip),
{
    let twice = last.edited_strip(first.edited_strip(strip));
    let once = last.edited_strip(strip);
    assert(twice.bus_assign =~= once.bus_assign);
    assert(twice.gain_layer_db =~= once.gain_layer_db);
    if last.is_hardware_eq() {
        if let StripChain::Hardware(c) = strip.chain {
            lemma_eq_decided(first, last, c.eq);
        }
    }
}

/// The indices of an equaliser command are good for `N` channels.
spec fn addresses<S: Sample>(c: EngineCommand<S>, channels: int) -> bool {
    match c {
        EngineCommand::SetStripEqCell(_, ch, cell, _)
        | EngineCommand::SetBusEqCell(_, ch, cell, _) => ch < channels && cell < NUM_CELLS,
        EngineCommand::SetStripEqTrim(_, ch, _)
        | EngineCommand::SetBusEqTrim(_, ch, _)
        | EngineCommand::SetStripEqDelay(_, ch, _)
        | EngineCommand::SetBusEqDelay(_, ch, _)
        | EngineCommand::ResetStripEqChannel(_, ch)
        | EngineCommand::ResetBusEqChannel(_, ch) => ch < channels,
        EngineCommand::CopyStripEqChannel(_, from, to)
        | EngineCommand::CopyBusEqChannel(_, from, to) => from < channels && to < channels,
        _ => true,
    }
}

proof fn lemma_eq_decided<S: Sample, const N: usize>(
    first: EngineCommand<S>,
    last: EngineCommand<S>,
    eq: ParametricEq<S, N>,
)
    requires
        first.target() == last.target(),
        overrides(last, first),
        addresses(first, N as int),
        addresses(last, N as int),
    ensures
        last.edited_eq(first.edited_eq(eq)) == last.edited_eq(eq),
{
    match (first, last) {
        (
            EngineCommand::SetStripEqCell(_, _, _, p1),
            EngineCommand::SetStripEqCell(_, ch, cell, p2),
        )
        | (
            EngineCommand::SetBusEqCell(_, _, _, p1),
            EngineCommand::SetBusEqCell(_, ch, cell, p2),
        ) => {
            let cur = eq.current(ch as int);
            let a = cur.with_cell(cell as int, p1);
            let b = cur.with_cell(cell as int, p2);
            assert(a.with_cell(cell as int, p2).cells =~= b.cells);
            lemma_edit_decided(eq, ch as int, a, b);
        },
        (EngineCommand::SetStripEqTrim(_, _, t1), EngineCommand::SetStripEqTrim(_, ch, t2))
        | (EngineCommand::SetBusEqTrim(_, _, t1), EngineCommand::SetBusEqTrim(_, ch, t2)) => {
            let cur = eq.current(ch as int);
            let a = EqChannelParams { trim_db: t1, ..cur };
            lemma_edit_decided(eq, ch as int, a, EqChannelParams { trim_db: t2, ..cur });
        },
        (EngineCommand::SetStripEqDelay(_, _, d1), EngineCommand::SetStripEqDelay(_, ch, d2))
        | (EngineCommand::SetBusEqDelay(_, _, d1), EngineCommand::SetBusEqDelay(_, ch, d2)) => {
            let cur = eq.current(ch as int);
            let a = EqChannelParams { delay_ms: d1, ..cur };
            lemma_edit_decided(eq, ch as int, a, EqChannelParams { delay_ms: d2, ..cur });
        },
        (EngineCommand::ResetStripEqChannel(..), EngineCommand::ResetStripEqChannel(_, ch))
        | (EngineCommand::ResetBusEqChannel(..), EngineCommand::ResetBusEqChannel(_, ch)) => {
            let n = EqChannelParams::<S>::neutral();
            lemma_edit_decided(eq, ch as int, n, n);
        },
        (
            EngineCommand::CopyStripEqChannel(_, from1, _),
            EngineCommand::CopyStripEqChannel(_, from, to),
        )
        | (
            EngineCommand::CopyBusEqChannel(_, from1, _),
            EngineCommand::CopyBusEqChannel(_, from, to),
        ) => {
            lemma_edit_decided(
                eq,
                to as int,
                eq.current(from1 as int),
                eq.current(from as int),
            );
        },
        _ => {},
    }
}

proof fn lemma_edit_decided<S: Copy, const N: usize>(
    eq: ParametricEq<S, N>,
    channel: int,
    first: EqChannelParams<S>,
    last: EqChannelParams<S>,
)
    requires
        0 <= channel < N,
    ensures
        eq.with_channel(channel, first).with_channel(channel, last) == eq.with_channel(
            channel,
            last,
        ),
        eq.with_channel(channel, first).current(channel) == first,
        eq.with_channel(channel, first).active == eq.active,
        forall|c: int|
            0 <= c < N && c != channel ==> #[trigger] eq.with_channel(channel, first).current(c)
                == eq.current(c),
{
    parametric_eq::law_edit_is_local(eq, channel, first);
    parametric_eq::law_last_edit_stands(eq, channel, first, last);
}

} // verus!
