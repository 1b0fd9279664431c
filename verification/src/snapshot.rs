//! What the window is shown of the mixer: its controls, its meters and its
//! equalisers.

use crate::bus::{Bus, BusMono};
use crate::bus_mode::BusMode;
use crate::command::EngineCommand;
use crate::control::{latest_value_channel, LatestValuePublisher, LatestValueReader};
use crate::engine::Engine;
use crate::intellipan::{IntellipanMode, PadPosition};
use crate::karaoke::KaraokeMode;
use crate::meter::Meter;
use crate::num::{self, get_whole, Sample};
use crate::parametric_eq::{EqChannelParams, Memory, ParametricEq};
use crate::ring;
use crate::strip::Strip;
use crate::strip_dsp::{StripChain, STRIP_EQ_CHANNELS};
use crate::{CHANNELS, NUM_BUSES, NUM_STRIPS};
use vstd::array::spec_array_update;
use vstd::prelude::*;

verus! {

/// The controls of one strip. A control the strip's kind does not have reads
/// as neutral.
#[derive(Debug, PartialEq)]
pub struct StripSnapshot<S> {
    pub mute: bool,
    pub solo: bool,
    pub mono: bool,
    pub bus_assign: [bool; NUM_BUSES],
    pub gain_layer_db: [S; NUM_BUSES],
    pub pan: S,
    pub gate_knob: S,
    pub comp_knob: S,
    pub denoiser_knob: S,
    pub limiter_threshold_db: S,
    pub intellipan_mode: IntellipanMode,
    pub intellipan_xy: (S, S),
    pub strip_eq_on: bool,
    pub strip_eq_memory: Memory,
    pub eq3_db: (S, S, S),
    pub position_pad: (S, S),
    pub mc: bool,
    pub karaoke: KaraokeMode,
}

impl<S: Copy> Clone for StripSnapshot<S> {
    fn clone(&self) -> (r: Self)
        ensures
            r == *self,
    {
        *self
    }
}

impl<S: Copy> Copy for StripSnapshot<S> {

}

impl<S: Sample> StripSnapshot<S> {
    /// What is seen of `strip`.
    pub open spec fn of(strip: Strip<S>) -> Self {
        let o = num::whole::<S>(0);
        let (mute, solo, mono) = (strip.mute, strip.solo, strip.mono);
        let (bus_assign, gain_layer_db) = (strip.bus_assign, strip.gain_layer_db);
        match strip.chain {
            StripChain::Hardware(c) => StripSnapshot {
                mute,
                solo,
                mono,
                bus_assign,
                gain_layer_db,
                pan: c.pan.pan,
                gate_knob: c.gate.knob,
                comp_knob: c.compressor.knob,
                denoiser_knob: c.denoiser.knob,
                limiter_threshold_db: c.limiter.threshold_db,
                intellipan_mode: c.pad.mode,
                intellipan_xy: (c.pad.pad(c.pad.mode).x, c.pad.pad(c.pad.mode).y),
                strip_eq_on: c.eq.on,
                strip_eq_memory: c.eq.active,
                eq3_db: (o, o, o),
                position_pad: (o, o),
                mc: false,
                karaoke: KaraokeMode::Off,
            },
            StripChain::Virtual(c) => StripSnapshot {
                mute,
                solo,
                mono,
                bus_assign,
                gain_layer_db,
                pan: o,
                gate_knob: o,
                comp_knob: o,
                denoiser_knob: o,
                limiter_threshold_db: c.limiter.threshold_db,
                intellipan_mode: IntellipanMode::Color,
                intellipan_xy: (o, o),
                strip_eq_on: false,
                strip_eq_memory: Memory::A,
                eq3_db: (c.eq.bass_db, c.eq.mid_db, c.eq.treble_db),
                position_pad: (c.pan_pad.x, c.pan_pad.y),
                mc: c.mc,
                karaoke: c.karaoke.mode,
            },
        }
    }

    pub fn capture(strip: &Strip<S>) -> (r: Self)
        requires
            num::lawful::<S>(),
        ensures
            r == Self::of(*strip),
    {
        let o: S = get_whole(0);
        match &strip.chain {
            StripChain::Hardware(c) => StripSnapshot {
                mute: strip.mute,
                solo: strip.solo,
                mono: strip.mono,
                bus_assign: strip.bus_assign,
                gain_layer_db: strip.gain_layer_db,
                pan: c.pan.pan,
                gate_knob: c.gate.knob(),
                comp_knob: c.compressor.knob(),
                denoiser_knob: c.denoiser.knob(),
                limiter_threshold_db: c.limiter.threshold_db,
                intellipan_mode: c.pad.mode(),
                intellipan_xy: c.pad.position(),
                strip_eq_on: c.eq.on,
                strip_eq_memory: c.eq.active_memory(),
                eq3_db: (o, o, o),
                position_pad: (o, o),
                mc: false,
                karaoke: KaraokeMode::Off,
            },
            StripChain::Virtual(c) => StripSnapshot {
                mute: strip.mute,
                solo: strip.solo,
                mono: strip.mono,
                bus_assign: strip.bus_assign,
                gain_layer_db: strip.gain_layer_db,
                pan: o,
                gate_knob: o,
                comp_knob: o,
                denoiser_knob: o,
                limiter_threshold_db: c.limiter.threshold_db,
                intellipan_mode: IntellipanMode::Color,
                intellipan_xy: (o, o),
                strip_eq_on: false,
                strip_eq_memory: Memory::A,
                eq3_db: (c.eq.bass_db, c.eq.mid_db, c.eq.treble_db),
                position_pad: (c.pan_pad.x, c.pan_pad.y),
                mc: c.mc,
                karaoke: c.karaoke.mode,
            },
        }
    }

    /// The snapshot as a window would change it on its own for a command to
    /// its strip, without waiting for the audio thread. `hardware` is the
    /// strip's kind.
    pub open spec fn mirrored(self, c: EngineCommand<S>, hardware: bool) -> Self {
        match c {
            EngineCommand::SetStripMute(_, mute) => StripSnapshot { mute, ..self },
            EngineCommand::SetStripSolo(_, solo) => StripSnapshot { solo, ..self },
            EngineCommand::SetStripMono(_, mono) => StripSnapshot { mono, ..self },
            EngineCommand::SetStripBusAssign(_, b, on) => StripSnapshot {
                bus_assign: spec_array_update(self.bus_assign, b as int, on),
                ..self
            },
            EngineCommand::SetStripGainLayer(_, b, db) => StripSnapshot {
                gain_layer_db: spec_array_update(self.gain_layer_db, b as int, db),
                ..self
            },
            EngineCommand::SetStripLimiterThreshold(_, db) => StripSnapshot {
                limiter_threshold_db: db,
                ..self
            },
            _ => if hardware {
                self.mirrored_hardware(c)
            } else {
                self.mirrored_virtual(c)
            },
        }
    }

    pub open spec fn mirrored_hardware(self, c: EngineCommand<S>) -> Self {
        match c {
            EngineCommand::SetStripPan(_, pan) => StripSnapshot { pan, ..self },
            EngineCommand::SetStripGateKnob(_, gate_knob) => StripSnapshot { gate_knob, ..self },
            EngineCommand::SetStripCompKnob(_, comp_knob) => StripSnapshot { comp_knob, ..self },
            EngineCommand::SetStripDenoiserKnob(_, denoiser_knob) => StripSnapshot {
                denoiser_knob,
                ..self
            },
            EngineCommand::SetStripIntellipanMode(_, mode) => StripSnapshot {
                intellipan_mode: mode,
                intellipan_xy: (num::whole::<S>(0), num::whole::<S>(0)),
                ..self
            },
            EngineCommand::SetStripIntellipanXY(_, x, y) => StripSnapshot {
                intellipan_xy: (PadPosition::at(x, y).x, PadPosition::at(x, y).y),
                ..self
            },
            EngineCommand::SetStripEqOn(_, strip_eq_on) => StripSnapshot { strip_eq_on, ..self },
            EngineCommand::SetStripEqMemory(_, strip_eq_memory) => StripSnapshot {
                strip_eq_memory,
                ..self
            },
            _ => self,
        }
    }

    pub open spec fn mirrored_virtual(self, c: EngineCommand<S>) -> Self {
        match c {
            EngineCommand::SetStripEq3(_, bass, mid, treble) => StripSnapshot {
                eq3_db: (bass, mid, treble),
                ..self
            },
            EngineCommand::SetStripPositionPad(_, x, y) => StripSnapshot {
                position_pad: (x, y),
                ..self
            },
            EngineCommand::SetStripMc(_, mc) => StripSnapshot { mc, ..self },
            EngineCommand::SetStripKaraoke(_, karaoke) => StripSnapshot { karaoke, ..self },
            _ => self,
        }
    }
}

/// The controls of one bus.
#[derive(Debug, Clone, Copy, PartialEq)]
pub struct BusSnapshot<S> {
    pub mute: bool,
    pub mono: BusMono,
    pub mode: BusMode,
    pub gain_db: S,
    pub eq_on: bool,
    pub eq_memory: Memory,
}

impl<S: Sample> BusSnapshot<S> {
    pub open spec fn of(bus: Bus<S>) -> Self {
        BusSnapshot {
            mute: bus.mute,
            mono: bus.mono,
            mode: bus.mode,
            gain_db: bus.gain_db,
            eq_on: bus.eq.on,
            eq_memory: bus.eq.active,
        }
    }

    pub fn capture(bus: &Bus<S>) -> (r: Self)
        ensures
            r == Self::of(*bus),
    {
        BusSnapshot {
            mute: bus.mute,
            mono: bus.mono,
            mode: bus.mode,
            gain_db: bus.gain_db(),
            eq_on: bus.eq.on,
            eq_memory: bus.eq.active_memory(),
        }
    }

    pub open spec fn mirrored(self, c: EngineCommand<S>) -> Self {
        match c {
            EngineCommand::SetBusMute(_, mute) => BusSnapshot { mute, ..self },
            EngineCommand::SetBusMono(_, mono) => BusSnapshot { mono, ..self },
            EngineCommand::SetBusMode(_, mode) => BusSnapshot { mode, ..self },
            EngineCommand::SetBusGain(_, gain_db) => BusSnapshot { gain_db, ..self },
            EngineCommand::SetBusEqOn(_, eq_on) => BusSnapshot { eq_on, ..self },
            EngineCommand::SetBusEqMemory(_, eq_memory) => BusSnapshot { eq_memory, ..self },
            _ => self,
        }
    }
}

/// Every control but the equaliser cells.
#[derive(Debug, PartialEq)]
pub struct ControlSnapshot<S> {
    pub strips: [StripSnapshot<S>; NUM_STRIPS],
    pub buses: [BusSnapshot<S>; NUM_BUSES],
}

impl<S: Copy> Clone for ControlSnapshot<S> {
    fn clone(&self) -> (r: Self)
        ensures
            r == *self,
    {
        *self
    }
}

impl<S: Copy> Copy for ControlSnapshot<S> {

}

impl<S: Sample> ControlSnapshot<S> {
    /// This snapshot shows `engine`.
    pub open spec fn shows(self, engine: Engine<S>) -> bool {
        &&& forall|s: int|
            0 <= s < NUM_STRIPS ==> #[trigger] self.strips@[s] == StripSnapshot::of(
                engine.strips@[s],
            )
        &&& forall|b: int|
            0 <= b < NUM_BUSES ==> #[trigger] self.buses@[b] == BusSnapshot::of(engine.buses@[b])
    }

    pub fn capture(engine: &Engine<S>) -> (r: Self)
        requires
            num::lawful::<S>(),
        ensures
            r.shows(*engine),
    {
        ControlSnapshot {
            strips: [
                StripSnapshot::capture(&engine.strips[0]),
                StripSnapshot::capture(&engine.strips[1]),
                StripSnapshot::capture(&engine.strips[2]),
                StripSnapshot::capture(&engine.strips[3]),
                StripSnapshot::capture(&engine.strips[4]),
                StripSnapshot::capture(&engine.strips[5]),
                StripSnapshot::capture(&engine.strips[6]),
                StripSnapshot::capture(&engine.strips[7]),
            ],
            buses: [
                BusSnapshot::capture(&engine.buses[0]),
                BusSnapshot::capture(&engine.buses[1]),
                BusSnapshot::capture(&engine.buses[2]),
                BusSnapshot::capture(&engine.buses[3]),
                BusSnapshot::capture(&engine.buses[4]),
                BusSnapshot::capture(&engine.buses[5]),
                BusSnapshot::capture(&engine.buses[6]),
                BusSnapshot::capture(&engine.buses[7]),
            ],
        }
    }

    /// The snapshot as a window would change it on its own for a command.
    /// `engine` tells the strips' kinds, which no command changes.
    pub open spec fn mirrored(self, c: EngineCommand<S>, engine: Engine<S>) -> Self {
        match (c.strip(), c.bus()) {
            (Some(s), _) => if c.in_range() {
                ControlSnapshot {
                    strips: spec_array_update(
                        self.strips,
                        s as int,
                        self.strips@[s as int].mirrored(
                            c,
                            engine.strips@[s as int].chain is Hardware,
                        ),
                    ),
                    ..self
                }
            } else {
                self
            },
            (None, Some(b)) => if c.in_range() {
                ControlSnapshot {
                    buses: spec_array_update(
                        self.buses,
                        b as int,
                        self.buses@[b as int].mirrored(c),
                    ),
                    ..self
                }
            } else {
                self
            },
            (None, None) => self,
        }
    }
}

/// A window that applies each command to its own snapshot at once agrees with
/// the engine that applies the command later: what it shows afterwards is what
/// a snapshot of the engine shows.
pub proof fn law_mirror_agrees<S: Sample>(
    snapshot: ControlSnapshot<S>,
    engine: Engine<S>,
    c: EngineCommand<S>,
)
    requires
        snapshot.shows(engine),
    ensures
        snapshot.mirrored(c, engine).shows(c.applied(engine)),
        forall|s: int|
            0 <= s < NUM_STRIPS ==> (#[trigger] c.applied(engine).strips@[s].chain is Hardware
                <==> engine.strips@[s].chain is Hardware),
{
    if c.in_range() {
        if let Some(s) = c.strip() {
            lemma_strip_mirror(c, engine.strips@[s as int]);
        }
    }
}

proof fn lemma_strip_mirror<S: Sample>(c: EngineCommand<S>, strip: Strip<S>)
    requires
        c.in_range(),
        c.strip() is Some,
    ensures
        StripSnapshot::of(c.edited_strip(strip)) == StripSnapshot::of(strip).mirrored(
            c,
            strip.chain is Hardware,
        ),
        c.edited_strip(strip).chain is Hardware <==> strip.chain is Hardware,
{
}

/// The meters of every strip and bus.
#[derive(Debug, Clone, Copy)]
pub struct MeterSnapshot<S> {
    pub strips: [Meter<S>; NUM_STRIPS],
    pub buses: [Meter<S>; NUM_BUSES],
}

impl<S: Sample> MeterSnapshot<S> {
    pub fn capture(engine: &Engine<S>) -> (r: Self)
        ensures
            r.strips == engine.strip_meters,
            r.buses == engine.bus_meters,
    {
        MeterSnapshot { strips: engine.strip_meters, buses: engine.bus_meters }
    }
}

/// The equaliser settings in force: the active memory of each. A virtual strip
/// has no parametric equaliser and reads as neutral.
#[derive(Debug, Clone, Copy, PartialEq)]
pub struct EqSnapshot<S> {
    pub strips: [[EqChannelParams<S>; STRIP_EQ_CHANNELS]; NUM_STRIPS],
    pub buses: [[EqChannelParams<S>; CHANNELS]; NUM_BUSES],
}

impl<S: Sample> EqSnapshot<S> {
    /// The settings of channel `ch` of a strip's equaliser.
    pub open spec fn strip_channel(strip: Strip<S>, ch: int) -> EqChannelParams<S> {
        match strip.chain {
            StripChain::Hardware(c) => c.eq.current(ch),
            StripChain::Virtual(_) => EqChannelParams::<S>::neutral(),
        }
    }

    /// This snapshot shows the equalisers of `engine`.
    pub open spec fn shows(self, engine: Engine<S>) -> bool {
        &&& forall|s: int, ch: int|
            0 <= s < NUM_STRIPS && 0 <= ch < STRIP_EQ_CHANNELS ==> #[trigger] self.strips@[s]@[ch]
                == Self::strip_channel(engine.strips@[s], ch)
        &&& forall|b: int, ch: int|
            0 <= b < NUM_BUSES && 0 <= ch < CHANNELS ==> #[trigger] self.buses@[b]@[ch]
                == engine.buses@[b].eq.current(ch)
    }

    fn of_strip(strip: &Strip<S>) -> (r: [EqChannelParams<S>; STRIP_EQ_CHANNELS])
        requires
            num::lawful::<S>(),
        ensures
            forall|ch: int|
                0 <= ch < STRIP_EQ_CHANNELS ==> #[trigger] r@[ch] == Self::strip_channel(
                    *strip,
                    ch,
                ),
    {
        match &strip.chain {
            StripChain::Hardware(c) => [*c.eq.channel_params(0), *c.eq.channel_params(1)],
            StripChain::Virtual(_) => [EqChannelParams::default(); STRIP_EQ_CHANNELS],
        }
    }

    fn of_bus(eq: &ParametricEq<S, CHANNELS>) -> (r: [EqChannelParams<S>; CHANNELS])
        ensures
            forall|ch: int| 0 <= ch < CHANNELS ==> #[trigger] r@[ch] == eq.current(ch),
    {
        [
            *eq.channel_params(0),
            *eq.channel_params(1),
            *eq.channel_params(2),
            *eq.channel_params(3),
            *eq.channel_params(4),
            *eq.channel_params(5),
            *eq.channel_params(6),
            *eq.channel_params(7),
        ]
    }

    pub fn capture(engine: &Engine<S>) -> (r: Self)
        requires
            num::lawful::<S>(),
        ensures
            r.shows(*engine),
    {
        EqSnapshot {
            strips: [
                Self::of_strip(&engine.strips[0]),
                Self::of_strip(&engine.strips[1]),
                Self::of_strip(&engine.strips[2]),
                Self::of_strip(&engine.strips[3]),
                Self::of_strip(&engine.strips[4]),
                Self::of_strip(&engine.strips[5]),
                Self::of_strip(&engine.strips[6]),
                Self::of_strip(&engine.strips[7]),
            ],
            buses: [
                Self::of_bus(&engine.buses[0].eq),
                Self::of_bus(&engine.buses[1].eq),
                Self::of_bus(&engine.buses[2].eq),
                Self::of_bus(&engine.buses[3].eq),
                Self::of_bus(&engine.buses[4].eq),
                Self::of_bus(&engine.buses[5].eq),
                Self::of_bus(&engine.buses[6].eq),
                Self::of_bus(&engine.buses[7].eq),
            ],
        }
    }
}

/// The crossing for control snapshots.
pub fn snapshot_channel<S: Sample>(capacity: usize, initial: ControlSnapshot<S>) -> (r: (
    LatestValuePublisher<ControlSnapshot<S>>,
    LatestValueReader<ControlSnapshot<S>>,
))
    requires
        ring::fits::<ControlSnapshot<S>>(capacity as int),
    ensures
        r.0.outbox.wf(),
        r.1.inbox.wf(),
        ring::in_step(r.0.outbox, r.1.inbox),
        r.0.outbox.sent() == 0,
        r.0.outbox.capacity() == capacity,
        r.1.inbox.taken() == 0,
        r.1.latest == initial,
{
    latest_value_channel(capacity, initial)
}

/// The crossing for equaliser snapshots.
pub fn eq_snapshot_channel<S: Sample>(capacity: usize, initial: EqSnapshot<S>) -> (r: (
    LatestValuePublisher<EqSnapshot<S>>,
    LatestValueReader<EqSnapshot<S>>,
))
    requires
        ring::fits::<EqSnapshot<S>>(capacity as int),
    ensures
        r.0.outbox.wf(),
        r.1.inbox.wf(),
        ring::in_step(r.0.outbox, r.1.inbox),
        r.0.outbox.sent() == 0,
        r.0.outbox.capacity() == capacity,
        r.1.inbox.taken() == 0,
        r.1.latest == initial,
{
    latest_value_channel(capacity, initial)
}

} // verus!
