//! What the mixer ends up with, after any number of commands have been asked
//! for, held back and performed.

use crate::bus::{Bus, BusMono};
use crate::bus_mode::BusMode;
use crate::command::{EngineCommand, ParamKey};
use crate::command_laws;
use crate::control::{self, CommandDrain, CommandSink};
use crate::control_laws;
use crate::engine::Engine;
use crate::intellipan::{IntellipanMode, PadPosition};
use crate::karaoke::KaraokeMode;
use crate::num::Sample;
use crate::parametric_eq::{self, EqCellParams, EqChannelParams, Memory, ParametricEq, NUM_CELLS};
use crate::ring;
use crate::strip::Strip;
use crate::strip_dsp::{HardwareChain, StripChain, VirtualChain, STRIP_EQ_CHANNELS};
use crate::{CHANNELS, NUM_BUSES, NUM_STRIPS};
use vstd::prelude::*;

verus! {

/// The value of a control that holds one.
pub enum Setting<S> {
    Switch(bool),
    Level(S),
    Levels(S, S, S),
    Place(S, S),
    Mono(BusMono),
    Mode(BusMode),
    Karaoke(KaraokeMode),
    Memory(Memory),
    Pad(PadPosition<S>),
    PadMode(IntellipanMode),
    Cell(EqCellParams<S>),
}

/// The strip a control is on, where it is on one.
pub open spec fn strip_of(key: ParamKey) -> Option<usize> {
    match key {
        ParamKey::StripMute(s)
        | ParamKey::StripSolo(s)
        | ParamKey::StripMono(s)
        | ParamKey::StripBusAssign(s, _)
        | ParamKey::StripGainLayer(s, _)
        | ParamKey::StripPan(s)
        | ParamKey::StripEqCell(s, _, _)
        | ParamKey::StripGateKnob(s)
        | ParamKey::StripCompKnob(s)
        | ParamKey::StripDenoiserKnob(s)
        | ParamKey::StripLimiterThreshold(s)
        | ParamKey::StripIntellipanMode(s)
        | ParamKey::StripIntellipanXY(s)
        | ParamKey::StripEq3(s)
        | ParamKey::StripPositionPad(s)
        | ParamKey::StripMc(s)
        | ParamKey::StripKaraoke(s)
        | ParamKey::StripEqOn(s)
        | ParamKey::StripEqMemory(s)
        | ParamKey::StripEqTrim(s, _)
        | ParamKey::StripEqDelay(s, _)
        | ParamKey::ResetStripEqChannel(s, _)
        | ParamKey::CopyStripEqChannel(s, _) => Some(s),
        _ => None,
    }
}

/// The bus a control is on, where it is on one.
pub open spec fn bus_of(key: ParamKey) -> Option<usize> {
    match key {
        ParamKey::BusMute(b)
        | ParamKey::BusMono(b)
        | ParamKey::BusMode(b)
        | ParamKey::BusGain(b)
        | ParamKey::BusEqCell(b, _, _)
        | ParamKey::BusEqOn(b)
        | ParamKey::BusEqMemory(b)
        | ParamKey::BusEqTrim(b, _)
        | ParamKey::BusEqDelay(b, _)
        | ParamKey::ResetBusEqChannel(b, _)
        | ParamKey::CopyBusEqChannel(b, _) => Some(b),
        _ => None,
    }
}

/// A command for `other` changes what the control `key` shows as well: a new
/// pad mode brings another pad's place, a new memory other settings, and a
/// reset or a copy sets a whole channel at once.
pub open spec fn upsets(other: ParamKey, key: ParamKey) -> bool {
    match (other, key) {
        (ParamKey::StripIntellipanMode(s), ParamKey::StripIntellipanXY(t)) => s == t,
        (ParamKey::StripEqMemory(s), ParamKey::StripEqCell(t, _, _))
        | (ParamKey::StripEqMemory(s), ParamKey::StripEqTrim(t, _))
        | (ParamKey::StripEqMemory(s), ParamKey::StripEqDelay(t, _))
        | (ParamKey::BusEqMemory(s), ParamKey::BusEqCell(t, _, _))
        | (ParamKey::BusEqMemory(s), ParamKey::BusEqTrim(t, _))
        | (ParamKey::BusEqMemory(s), ParamKey::BusEqDelay(t, _)) => s == t,
        (ParamKey::ResetStripEqChannel(s, c), ParamKey::StripEqCell(t, d, _))
        | (ParamKey::ResetStripEqChannel(s, c), ParamKey::StripEqTrim(t, d))
        | (ParamKey::ResetStripEqChannel(s, c), ParamKey::StripEqDelay(t, d))
        | (ParamKey::CopyStripEqChannel(s, c), ParamKey::StripEqCell(t, d, _))
        | (ParamKey::CopyStripEqChannel(s, c), ParamKey::StripEqTrim(t, d))
        | (ParamKey::CopyStripEqChannel(s, c), ParamKey::StripEqDelay(t, d))
        | (ParamKey::ResetBusEqChannel(s, c), ParamKey::BusEqCell(t, d, _))
        | (ParamKey::ResetBusEqChannel(s, c), ParamKey::BusEqTrim(t, d))
        | (ParamKey::ResetBusEqChannel(s, c), ParamKey::BusEqDelay(t, d))
        | (ParamKey::CopyBusEqChannel(s, c), ParamKey::BusEqCell(t, d, _))
        | (ParamKey::CopyBusEqChannel(s, c), ParamKey::BusEqTrim(t, d))
        | (ParamKey::CopyBusEqChannel(s, c), ParamKey::BusEqDelay(t, d)) => s == t && c == d,
        _ => false,
    }
}

/// None of the commands changes what the control `key` shows, unless it is for
/// that control itself.
pub open spec fn left_alone<S>(commands: Seq<EngineCommand<S>>, key: ParamKey) -> bool {
    forall|i: int|
        0 <= i < commands.len() ==> !upsets((#[trigger] commands[i]).target(), key)
}

/// What a control of the engine is set to: of a pad the active one's place, and
/// of an equaliser what stands in its active memory. There is none for an index
/// out of range, for a control that the strip does not have, and for what resets
/// or copies a channel.
pub open spec fn setting<S: Sample>(e: Engine<S>, key: ParamKey) -> Option<Setting<S>> {
    match (strip_of(key), bus_of(key)) {
        (Some(s), _) => if s < NUM_STRIPS {
            strip_setting(e.strips@[s as int], key)
        } else {
            None
        },
        (None, Some(b)) => if b < NUM_BUSES {
            bus_setting(e.buses@[b as int], key)
        } else {
            None
        },
        (None, None) => None,
    }
}

/// What a control of a strip is set to.
pub open spec fn strip_setting<S: Sample>(strip: Strip<S>, key: ParamKey) -> Option<Setting<S>> {
    match key {
        ParamKey::StripMute(_) => Some(Setting::Switch(strip.mute)),
        ParamKey::StripSolo(_) => Some(Setting::Switch(strip.solo)),
        ParamKey::StripMono(_) => Some(Setting::Switch(strip.mono)),
        ParamKey::StripBusAssign(_, b) => if b < NUM_BUSES {
            Some(Setting::Switch(strip.bus_assign@[b as int]))
        } else {
            None
        },
        ParamKey::StripGainLayer(_, b) => if b < NUM_BUSES {
            Some(Setting::Level(strip.gain_layer_db@[b as int]))
        } else {
            None
        },
        ParamKey::StripLimiterThreshold(_) => Some(
            Setting::Level(strip.chain.limiter().threshold_db),
        ),
        _ => chain_setting(strip.chain, key),
    }
}

/// What a control of a bus is set to.
pub open spec fn bus_setting<S: Sample>(bus: Bus<S>, key: ParamKey) -> Option<Setting<S>> {
    match key {
        ParamKey::BusMute(_) => Some(Setting::Switch(bus.mute)),
        ParamKey::BusMono(_) => Some(Setting::Mono(bus.mono)),
        ParamKey::BusMode(_) => Some(Setting::Mode(bus.mode)),
        ParamKey::BusGain(_) => Some(Setting::Level(bus.gain_db)),
        _ => eq_setting(bus.eq, key),
    }
}

/// What a control of an equaliser is set to.
pub open spec fn eq_setting<S: Sample, const N: usize>(
    eq: ParametricEq<S, N>,
    key: ParamKey,
) -> Option<Setting<S>> {
    match key {
        ParamKey::StripEqOn(_) | ParamKey::BusEqOn(_) => Some(Setting::Switch(eq.on)),
        ParamKey::StripEqMemory(_) | ParamKey::BusEqMemory(_) => Some(Setting::Memory(eq.active)),
        ParamKey::StripEqCell(_, channel, cell) | ParamKey::BusEqCell(_, channel, cell) =>
            if channel < N && cell < NUM_CELLS {
            Some(Setting::Cell(eq.current(channel as int).cells@[cell as int]))
        } else {
            None
        },
        ParamKey::StripEqTrim(_, channel) | ParamKey::BusEqTrim(_, channel) => if channel < N {
            Some(Setting::Level(eq.current(channel as int).trim_db))
        } else {
            None
        },
        ParamKey::StripEqDelay(_, channel) | ParamKey::BusEqDelay(_, channel) => if channel < N {
            Some(Setting::Level(eq.current(channel as int).delay_ms))
        } else {
            None
        },
        _ => None,
    }
}

/// What a control of a strip's effects is set to.
pub open spec fn chain_setting<S: Sample>(chain: StripChain<S>, key: ParamKey) -> Option<
    Setting<S>,
> {
    match (chain, key) {
        (StripChain::Hardware(c), ParamKey::StripPan(_)) => Some(Setting::Level(c.pan.pan)),
        (StripChain::Hardware(c), ParamKey::StripDenoiserKnob(_)) => Some(
            Setting::Level(c.denoiser.knob),
        ),
        (StripChain::Hardware(c), ParamKey::StripGateKnob(_)) => Some(Setting::Level(c.gate.knob)),
        (StripChain::Hardware(c), ParamKey::StripCompKnob(_)) => Some(
            Setting::Level(c.compressor.knob),
        ),
        (StripChain::Hardware(c), ParamKey::StripIntellipanMode(_)) => Some(
            Setting::PadMode(c.pad.mode),
        ),
        (StripChain::Hardware(c), ParamKey::StripIntellipanXY(_)) => Some(
            Setting::Pad(c.pad.pad(c.pad.mode)),
        ),
        (StripChain::Hardware(c), _) => eq_setting(c.eq, key),
        (StripChain::Virtual(c), ParamKey::StripEq3(_)) => Some(
            Setting::Levels(c.eq.bass_db, c.eq.mid_db, c.eq.treble_db),
        ),
        (StripChain::Virtual(c), ParamKey::StripPositionPad(_)) => Some(
            Setting::Place(c.pan_pad.x, c.pan_pad.y),
        ),
        (StripChain::Virtual(c), ParamKey::StripMc(_)) => Some(Setting::Switch(c.mc)),
        (StripChain::Virtual(c), ParamKey::StripKaraoke(_)) => Some(
            Setting::Karaoke(c.karaoke.mode),
        ),
        _ => None,
    }
}

/// The value a command asks for, where its control holds one. A pad is held
/// inside its bounds.
pub open spec fn asked_value<S: Sample>(c: EngineCommand<S>) -> Option<Setting<S>> {
    match c {
        EngineCommand::SetStripMute(_, on)
        | EngineCommand::SetStripSolo(_, on)
        | EngineCommand::SetStripMono(_, on)
        | EngineCommand::SetStripBusAssign(_, _, on)
        | EngineCommand::SetBusMute(_, on)
        | EngineCommand::SetBusEqOn(_, on)
        | EngineCommand::SetStripEqOn(_, on)
        | EngineCommand::SetStripMc(_, on) => Some(Setting::Switch(on)),
        EngineCommand::SetStripGainLayer(_, _, level)
        | EngineCommand::SetBusGain(_, level)
        | EngineCommand::SetStripPan(_, level)
        | EngineCommand::SetStripLimiterThreshold(_, level)
        | EngineCommand::SetStripGateKnob(_, level)
        | EngineCommand::SetStripCompKnob(_, level)
        | EngineCommand::SetStripEqTrim(_, _, level)
        | EngineCommand::SetStripEqDelay(_, _, level)
        | EngineCommand::SetBusEqTrim(_, _, level)
        | EngineCommand::SetBusEqDelay(_, _, level)
        | EngineCommand::SetStripDenoiserKnob(_, level) => Some(Setting::Level(level)),
        EngineCommand::SetStripIntellipanMode(_, mode) => Some(Setting::PadMode(mode)),
        EngineCommand::SetStripIntellipanXY(_, x, y) => Some(Setting::Pad(PadPosition::at(x, y))),
        EngineCommand::SetStripEqCell(_, _, _, cell)
        | EngineCommand::SetBusEqCell(_, _, _, cell) => Some(Setting::Cell(cell)),
        EngineCommand::SetStripEq3(_, a, b, c) => Some(Setting::Levels(a, b, c)),
        EngineCommand::SetStripPositionPad(_, x, y) => Some(Setting::Place(x, y)),
        EngineCommand::SetBusMono(_, mono) => Some(Setting::Mono(mono)),
        EngineCommand::SetBusMode(_, mode) => Some(Setting::Mode(mode)),
        EngineCommand::SetStripKaraoke(_, mode) => Some(Setting::Karaoke(mode)),
        EngineCommand::SetBusEqMemory(_, memory)
        | EngineCommand::SetStripEqMemory(_, memory) => Some(Setting::Memory(memory)),
        _ => None,
    }
}

proof fn lemma_target<S: Sample>(c: EngineCommand<S>)
    ensures
        strip_of(c.target()) == c.strip(),
        bus_of(c.target()) == c.bus(),
{
}

#[verifier::spinoff_prover]
proof fn lemma_eq_set<S: Sample, const N: usize>(
    c: EngineCommand<S>,
    eq: ParametricEq<S, N>,
    key: ParamKey,
)
    requires
        c.in_range(),
        strip_of(key) == c.strip(),
        bus_of(key) == c.bus(),
        c.strip() is Some ==> N == STRIP_EQ_CHANNELS,
        c.bus() is Some ==> N == CHANNELS,
        eq_setting(eq, key) is Some,
        !upsets(c.target(), key),
    ensures
        eq_setting(c.edited_eq(eq), key) == (if c.target() == key {
            asked_value(c)
        } else {
            eq_setting(eq, key)
        }),
{
    match c {
        EngineCommand::SetStripEqCell(_, channel, cell, params)
        | EngineCommand::SetBusEqCell(_, channel, cell, params) => {
            parametric_eq::law_edit_is_local(
                eq,
                channel as int,
                eq.current(channel as int).with_cell(cell as int, params),
            );
        },
        EngineCommand::SetStripEqTrim(_, channel, trim_db)
        | EngineCommand::SetBusEqTrim(_, channel, trim_db) => {
            parametric_eq::law_edit_is_local(
                eq,
                channel as int,
                EqChannelParams { trim_db, ..eq.current(channel as int) },
            );
        },
        EngineCommand::SetStripEqDelay(_, channel, delay_ms)
        | EngineCommand::SetBusEqDelay(_, channel, delay_ms) => {
            parametric_eq::law_edit_is_local(
                eq,
                channel as int,
                EqChannelParams { delay_ms, ..eq.current(channel as int) },
            );
        },
        EngineCommand::ResetStripEqChannel(_, channel)
        | EngineCommand::ResetBusEqChannel(_, channel) => {
            parametric_eq::law_edit_is_local(
                eq,
                channel as int,
                EqChannelParams::<S>::neutral(),
            );
        },
        EngineCommand::CopyStripEqChannel(_, from, to)
        | EngineCommand::CopyBusEqChannel(_, from, to) => {
            parametric_eq::law_edit_is_local(eq, to as int, eq.current(from as int));
        },
        _ => {},
    }
}

#[verifier::spinoff_prover]
proof fn lemma_bus_set<S: Sample>(c: EngineCommand<S>, bus: Bus<S>, key: ParamKey)
    requires
        c.in_range(),
        c.bus() is Some,
        c.strip() == strip_of(key),
        bus_of(key) == c.bus(),
        bus_setting(bus, key) is Some,
        !upsets(c.target(), key),
    ensures
        bus_setting(c.edited_bus(bus), key) == (if c.target() == key {
            asked_value(c)
        } else {
            bus_setting(bus, key)
        }),
{
    if eq_setting(bus.eq, key) is Some {
        lemma_eq_set(c, bus.eq, key);
    }
}

#[verifier::spinoff_prover]
proof fn lemma_hardware_set<S: Sample>(c: EngineCommand<S>, chain: HardwareChain<S>, key: ParamKey)
    requires
        c.in_range(),
        c.strip() is Some,
        c.bus() == bus_of(key),
        !c.is_routing(),
        strip_of(key) == c.strip(),
        chain_setting(StripChain::Hardware(chain), key) is Some,
        !upsets(c.target(), key),
    ensures
        chain_setting(StripChain::Hardware(c.edited_hardware(chain)), key) == (if c.target()
            == key {
            asked_value(c)
        } else {
            chain_setting(StripChain::Hardware(chain), key)
        }),
        c.edited_hardware(chain).limiter == chain.limiter,
{
    if eq_setting(chain.eq, key) is Some {
        lemma_eq_set(c, chain.eq, key);
    }
}

#[verifier::spinoff_prover]
proof fn lemma_virtual_set<S: Sample>(c: EngineCommand<S>, chain: VirtualChain<S>, key: ParamKey)
    requires
        c.strip() is Some,
        !c.is_routing(),
        strip_of(key) == c.strip(),
        chain_setting(StripChain::Virtual(chain), key) is Some,
    ensures
        chain_setting(StripChain::Virtual(c.edited_virtual(chain)), key) == (if c.target() == key {
            asked_value(c)
        } else {
            chain_setting(StripChain::Virtual(chain), key)
        }),
        c.edited_virtual(chain).limiter == chain.limiter,
{
}

#[verifier::spinoff_prover]
#[verifier::rlimit(50)]
proof fn lemma_strip_set<S: Sample>(c: EngineCommand<S>, strip: Strip<S>, key: ParamKey)
    requires
        c.in_range(),
        c.strip() is Some,
        c.bus() == bus_of(key),
        strip_of(key) == c.strip(),
        strip_setting(strip, key) is Some,
        !upsets(c.target(), key),
    ensures
        strip_setting(c.edited_strip(strip), key) == (if c.target() == key {
            asked_value(c)
        } else {
            strip_setting(strip, key)
        }),
{
    if c.is_routing() {
        match c {
            EngineCommand::SetStripLimiterThreshold(..) => {},
            _ => {
                assert(c.edited_strip(strip).chain == strip.chain);
            },
        }
    } else {
        let after = c.edited_strip(strip);
        assert(after == (Strip { chain: c.edited_chain(strip.chain), ..strip }));
        match strip.chain {
            StripChain::Hardware(chain) => {
                if chain_setting(strip.chain, key) is Some {
                    lemma_hardware_set(c, chain, key);
                }
                assert(c.edited_hardware(chain).limiter == chain.limiter);
            },
            StripChain::Virtual(chain) => {
                if chain_setting(strip.chain, key) is Some {
                    lemma_virtual_set(c, chain, key);
                }
                assert(c.edited_virtual(chain).limiter == chain.limiter);
            },
        }
    }
}

/// A command sets its own control to what it asks for, and leaves every other
/// one as it is, unless it is of the few that act on other controls.
pub proof fn law_a_command_sets_its_control<S: Sample>(
    c: EngineCommand<S>,
    e: Engine<S>,
    key: ParamKey,
)
    requires
        setting(e, key) is Some,
        !upsets(c.target(), key),
    ensures
        setting(c.applied(e), key) == (if c.target() == key {
            asked_value(c)
        } else {
            setting(e, key)
        }),
{
    lemma_target(c);
    command_laws::law_command_is_local(c, e);
    match (strip_of(key), bus_of(key)) {
        (Some(s), _) => {
            if c.strip() == Some(s) {
                if c.in_range() {
                    assert(c.applied(e).strips@[s as int] == c.edited_strip(e.strips@[s as int]));
                    lemma_strip_set(c, e.strips@[s as int], key);
                } else if c.target() == key {
                    lemma_in_range(c, e, key);
                }
            } else {
                assert(c.applied(e).strips@[s as int] == e.strips@[s as int]);
            }
        },
        (None, Some(b)) => {
            if c.bus() == Some(b) {
                if c.in_range() {
                    assert(c.applied(e).buses@[b as int] == c.edited_bus(e.buses@[b as int]));
                    lemma_bus_set(c, e.buses@[b as int], key);
                } else if c.target() == key {
                    lemma_in_range(c, e, key);
                }
            } else {
                assert(c.applied(e).buses@[b as int] == e.buses@[b as int]);
            }
        },
        (None, None) => {},
    }
}

/// A command for a control that is there has its indices in range.
#[verifier::spinoff_prover]
proof fn lemma_in_range<S: Sample>(c: EngineCommand<S>, e: Engine<S>, key: ParamKey)
    requires
        setting(e, key) is Some,
        c.target() == key,
    ensures
        c.in_range(),
{
}

/// After a run of commands every control that the others left alone holds the
/// value of the last command for it, or still its first one where there was none.
pub proof fn law_the_engine_holds_the_last_values<S: Sample>(
    commands: Seq<EngineCommand<S>>,
    e: Engine<S>,
    key: ParamKey,
)
    requires
        setting(e, key) is Some,
        left_alone(commands, key),
    ensures
        setting(control::applied_all(commands, e), key) == (match control_laws::latest(
            commands,
            key,
        ) {
            Some(c) => asked_value(c),
            None => setting(e, key),
        }),
        setting(control::applied_all(commands, e), key) is Some,
    decreases commands.len(),
{
    if commands.len() > 0 {
        let init = commands.drop_last();
        assert(left_alone(init, key)) by {
            assert forall|i: int| 0 <= i < init.len() implies !upsets(
                (#[trigger] init[i]).target(),
                key,
            ) by {
                assert(init[i] == commands[i]);
            }
        }
        assert(commands[commands.len() - 1] == commands.last());
        law_the_engine_holds_the_last_values(init, e, key);
        let between = control::applied_all(init, e);
        law_a_command_sets_its_control(commands.last(), between, key);
    }
}

/// One call on the command channel.
pub enum Call<S> {
    /// A command is noted.
    Enqueue(EngineCommand<S>),
    /// The pending commands are offered; of each one whether the queue took it.
    Flush(Seq<bool>),
    /// So many commands are performed.
    Drain(nat),
}

/// The command channel with the engine it feeds.
pub struct Session<S> {
    pub pending: Seq<EngineCommand<S>>,
    pub accepted: Seq<EngineCommand<S>>,
    pub performed: nat,
    pub engine: Engine<S>,
}

impl<S: Sample> Session<S> {
    /// Nothing asked for yet.
    pub open spec fn fresh(engine: Engine<S>) -> Self {
        Session { pending: Seq::empty(), accepted: Seq::empty(), performed: 0, engine }
    }

    /// The two sides of a channel, with the engine that the receiving side
    /// feeds.
    pub open spec fn of(sink: CommandSink<S>, drain: CommandDrain<S>, engine: Engine<S>) -> Self {
        Session {
            pending: sink.pending@,
            accepted: sink.outbox.accepted(),
            performed: drain.inbox.taken(),
            engine,
        }
    }

    /// The call can be made: a flush says what became of each pending command,
    /// and no more is drained than was accepted.
    pub open spec fn allows(self, call: Call<S>) -> bool {
        match call {
            Call::Enqueue(_) => true,
            Call::Flush(ok) => ok.len() == self.pending.len(),
            Call::Drain(n) => self.performed + n <= self.accepted.len(),
        }
    }

    pub open spec fn after(self, call: Call<S>) -> Self {
        match call {
            Call::Enqueue(c) => Session { pending: control::coalesced(self.pending, c), ..self },
            Call::Flush(ok) => Session {
                pending: control::chosen(self.pending, ok, false),
                accepted: self.accepted + control::chosen(self.pending, ok, true),
                ..self
            },
            Call::Drain(n) => Session {
                performed: self.performed + n,
                engine: control::applied_all(
                    self.accepted.subrange(
                        self.performed as int,
                        (self.performed + n) as int,
                    ),
                    self.engine,
                ),
                ..self
            },
        }
    }

    pub open spec fn after_all(self, calls: Seq<Call<S>>) -> Self
        decreases calls.len(),
    {
        if calls.len() == 0 {
            self
        } else {
            self.after_all(calls.drop_last()).after(calls.last())
        }
    }

    pub open spec fn allows_all(self, calls: Seq<Call<S>>) -> bool {
        forall|k: int|
            0 <= k < calls.len() ==> self.after_all(calls.take(k)).allows(#[trigger] calls[k])
    }
}

/// Enqueueing is a call of a session.
pub proof fn law_an_enqueue_is_a_call<S: Sample>(
    before: CommandSink<S>,
    c: EngineCommand<S>,
    after: CommandSink<S>,
    drain: CommandDrain<S>,
    engine: Engine<S>,
)
    requires
        after.pending@ == control::coalesced(before.pending@, c),
        after.outbox == before.outbox,
    ensures
        Session::of(after, drain, engine) == Session::of(before, drain, engine).after(
            Call::Enqueue(c),
        ),
{
}

/// Flushing is a call of a session.
pub proof fn law_a_flush_is_a_call<S: Sample>(
    before: CommandSink<S>,
    after: CommandSink<S>,
    drain: CommandDrain<S>,
    engine: Engine<S>,
)
    requires
        before.flushed(&after),
    ensures
        exists|ok: Seq<bool>|
            Session::of(before, drain, engine).allows(Call::Flush(ok)) && Session::of(
                after,
                drain,
                engine,
            ) == #[trigger] Session::of(before, drain, engine).after(Call::Flush(ok)),
{
    let ok = choose|ok: Seq<bool>|
        ok.len() == before.pending@.len() && after.outbox.accepted() == before.outbox.accepted()
            + #[trigger] control::chosen(before.pending@, ok, true) && after.pending@
            == control::chosen(before.pending@, ok, false);
    assert(Session::of(after, drain, engine) == Session::of(before, drain, engine).after(
        Call::Flush(ok),
    ));
}

/// Draining is a call of a session.
pub proof fn law_a_drain_is_a_call<S: Sample>(
    sink: CommandSink<S>,
    before: CommandDrain<S>,
    after: CommandDrain<S>,
    was: Engine<S>,
    now: Engine<S>,
)
    requires
        ring::in_step(sink.outbox, after.inbox),
        before.inbox.received().is_prefix_of(after.inbox.received()),
        now == control::applied_all(after.since(&before), was),
    ensures
        ({
            let n = (after.inbox.taken() - before.inbox.taken()) as nat;
            &&& Session::of(sink, before, was).allows(Call::Drain(n))
            &&& Session::of(sink, after, now) == Session::of(sink, before, was).after(
                Call::Drain(n),
            )
        }),
{
    let accepted = sink.outbox.accepted();
    assert(after.since(&before) =~= accepted.subrange(
        before.inbox.taken() as int,
        after.inbox.taken() as int,
    ));
}

/// The commands that were asked for, in order.
pub open spec fn asked<S>(calls: Seq<Call<S>>) -> Seq<EngineCommand<S>>
    decreases calls.len(),
{
    if calls.len() == 0 {
        Seq::empty()
    } else {
        match calls.last() {
            Call::Enqueue(c) => asked(calls.drop_last()).push(c),
            _ => asked(calls.drop_last()),
        }
    }
}

proof fn lemma_applied_in_two<S: Sample>(
    a: Seq<EngineCommand<S>>,
    b: Seq<EngineCommand<S>>,
    e: Engine<S>,
)
    ensures
        control::applied_all(a + b, e) == control::applied_all(b, control::applied_all(a, e)),
    decreases b.len(),
{
    if b.len() == 0 {
        assert(a + b =~= a);
    } else {
        assert((a + b).drop_last() =~= a + b.drop_last());
        lemma_applied_in_two(a, b.drop_last(), e);
    }
}

/// What holds after any run of calls: one command per control is pending, the
/// engine has seen what was performed, and what stands for a control is the
/// last of what was asked for, `wanted`.
spec fn keeps<S: Sample>(
    engine: Engine<S>,
    now: Session<S>,
    wanted: Seq<EngineCommand<S>>,
    key: ParamKey,
) -> bool {
    &&& control::one_per_control(now.pending)
    &&& now.performed <= now.accepted.len()
    &&& now.engine == control::applied_all(now.accepted.take(now.performed as int), engine)
    &&& control_laws::standing(now.pending, now.accepted, key) == control_laws::latest(wanted, key)
}

proof fn lemma_enqueue_keeps<S: Sample>(
    engine: Engine<S>,
    was: Session<S>,
    wanted: Seq<EngineCommand<S>>,
    c: EngineCommand<S>,
    key: ParamKey,
)
    requires
        keeps(engine, was, wanted, key),
    ensures
        keeps(engine, was.after(Call::Enqueue(c)), wanted.push(c), key),
{
    control::law_coalescing_keeps_the_last(was.pending, c);
    control_laws::law_enqueue_stands(was.pending, was.accepted, c, key);
    assert(wanted.push(c).drop_last() =~= wanted);
}

proof fn lemma_flush_keeps<S: Sample>(
    engine: Engine<S>,
    was: Session<S>,
    wanted: Seq<EngineCommand<S>>,
    ok: Seq<bool>,
    key: ParamKey,
)
    requires
        keeps(engine, was, wanted, key),
        was.allows(Call::Flush(ok)),
    ensures
        keeps(engine, was.after(Call::Flush(ok)), wanted, key),
{
    let now = was.after(Call::Flush(ok));
    control::lemma_chosen_one_per_control(was.pending, ok, false);
    control_laws::law_flush_keeps_what_stands(was.pending, was.accepted, ok, key);
    assert(now.accepted.take(now.performed as int) =~= was.accepted.take(was.performed as int));
}

proof fn lemma_drain_keeps<S: Sample>(
    engine: Engine<S>,
    was: Session<S>,
    wanted: Seq<EngineCommand<S>>,
    n: nat,
    key: ParamKey,
)
    requires
        keeps(engine, was, wanted, key),
        was.allows(Call::Drain(n)),
    ensures
        keeps(engine, was.after(Call::Drain(n)), wanted, key),
{
    let done = was.accepted.take(was.performed as int);
    let more = was.accepted.subrange(was.performed as int, (was.performed + n) as int);
    lemma_applied_in_two(done, more, engine);
    assert(was.accepted.take((was.performed + n) as int) =~= done + more);
}

proof fn lemma_session<S: Sample>(engine: Engine<S>, calls: Seq<Call<S>>, key: ParamKey)
    requires
        Session::fresh(engine).allows_all(calls),
    ensures
        keeps(engine, Session::fresh(engine).after_all(calls), asked(calls), key),
    decreases calls.len(),
{
    let start = Session::fresh(engine);
    if calls.len() == 0 {
        assert(start.accepted.take(0) =~= Seq::empty());
    } else {
        let init = calls.drop_last();
        assert(start.allows_all(init)) by {
            assert forall|k: int| 0 <= k < init.len() implies start.after_all(init.take(k)).allows(
                #[trigger] init[k],
            ) by {
                assert(init.take(k) =~= calls.take(k));
                assert(init[k] == calls[k]);
            }
        }
        lemma_session(engine, init, key);
        let was = start.after_all(init);
        assert(was.allows(calls.last())) by {
            assert(calls.take(calls.len() - 1) =~= init);
            assert(calls[calls.len() - 1] == calls.last());
        }
        match calls.last() {
            Call::Enqueue(c) => {
                lemma_enqueue_keeps(engine, was, asked(init), c, key);
            },
            Call::Flush(ok) => {
                lemma_flush_keeps(engine, was, asked(init), ok, key);
            },
            Call::Drain(n) => {
                lemma_drain_keeps(engine, was, asked(init), n, key);
            },
        }
    }
}

/// However commands were asked for, flushed and drained, in whatever order and
/// however often the queue was full: once nothing is pending and all that was
/// accepted has been performed, every control holds the last value that was
/// asked for, and one that was never asked for still its first. Of a pad's place
/// this holds while its mode was not touched, and of what an equaliser's channel
/// is set to while no other memory was asked for and that channel was neither
/// reset nor copied onto.
pub proof fn law_the_engine_converges<S: Sample>(
    engine: Engine<S>,
    calls: Seq<Call<S>>,
    key: ParamKey,
)
    requires
        Session::fresh(engine).allows_all(calls),
        Session::fresh(engine).after_all(calls).pending.len() == 0,
        Session::fresh(engine).after_all(calls).performed == Session::fresh(engine).after_all(
            calls,
        ).accepted.len(),
        setting(engine, key) is Some,
        left_alone(asked(calls), key),
    ensures
        setting(Session::fresh(engine).after_all(calls).engine, key) == (
        match control_laws::latest(asked(calls), key) {
            Some(c) => asked_value(c),
            None => setting(engine, key),
        }),
{
    let now = Session::fresh(engine).after_all(calls);
    lemma_session(engine, calls, key);
    assert(now.accepted.take(now.performed as int) =~= now.accepted);
    assert forall|i: int| 0 <= i < now.accepted.len() implies !upsets(
        (#[trigger] now.accepted[i]).target(),
        key,
    ) by {
        let other = now.accepted[i].target();
        lemma_session(engine, calls, other);
        control_laws::lemma_latest(now.accepted, other);
        control_laws::lemma_latest(asked(calls), other);
    }
    law_the_engine_holds_the_last_values(now.accepted, engine, key);
}

} // verus!
