//! One discrete change of a mixer control, and what it does.

use crate::bus::{Bus, BusMono};
use crate::bus_mode::BusMode;
use crate::engine::Engine;
use crate::denoiser::Denoiser;
use crate::eq3::ThreeBandEq;
use crate::intellipan::{IntellipanMode, PadPosition};
use crate::karaoke::{Karaoke, KaraokeMode};
use crate::limiter::Limiter;
use crate::num::{self, Sample};
use crate::pan::{PositionPad5_1, StereoBalance};
use crate::parametric_eq::{EqCellParams, EqChannelParams, Memory, ParametricEq, NUM_CELLS};
use crate::strip::Strip;
use crate::strip_dsp::{HardwareChain, StripChain, VirtualChain, STRIP_EQ_CHANNELS};
use crate::{CHANNELS, NUM_BUSES, NUM_STRIPS};
use vstd::array::spec_array_update;
use vstd::prelude::*;

verus! {

/// A command addresses its control by index. One whose indices are out of
/// range, or that is meant for the other kind of strip, does nothing.
#[derive(Debug, Clone, Copy, PartialEq)]
pub enum EngineCommand<S> {
    SetStripMute(usize, bool),
    SetStripSolo(usize, bool),
    SetStripMono(usize, bool),
    /// (strip, bus, on)
    SetStripBusAssign(usize, usize, bool),
    /// (strip, bus, dB)
    SetStripGainLayer(usize, usize, S),
    /// (strip, pan), hardware strips only
    SetStripPan(usize, S),
    SetBusMute(usize, bool),
    SetBusMono(usize, BusMono),
    SetBusMode(usize, BusMode),
    SetBusGain(usize, S),
    /// (strip, channel, cell, settings), hardware strips only
    SetStripEqCell(usize, usize, usize, EqCellParams<S>),
    /// (bus, channel, cell, settings)
    SetBusEqCell(usize, usize, usize, EqCellParams<S>),
    /// (strip, 0..10), hardware strips only
    SetStripGateKnob(usize, S),
    /// (strip, 0..10), hardware strips only
    SetStripCompKnob(usize, S),
    /// (strip, 0..10), hardware strips only
    SetStripDenoiserKnob(usize, S),
    /// (strip, dB), either kind of strip
    SetStripLimiterThreshold(usize, S),
    /// (strip, mode), hardware strips only
    SetStripIntellipanMode(usize, IntellipanMode),
    /// (strip, x, y) of the active pad, hardware strips only
    SetStripIntellipanXY(usize, S, S),
    /// (strip, bass, mid, treble), virtual strips only
    SetStripEq3(usize, S, S, S),
    /// (strip, x, y), virtual strips only
    SetStripPositionPad(usize, S, S),
    /// (strip, on), virtual strips only
    SetStripMc(usize, bool),
    /// (strip, mode), any virtual strip; only the AUX strip plays it
    SetStripKaraoke(usize, KaraokeMode),
    /// (strip, on), hardware strips only
    SetStripEqOn(usize, bool),
    /// (strip, memory), hardware strips only
    SetStripEqMemory(usize, Memory),
    SetBusEqOn(usize, bool),
    SetBusEqMemory(usize, Memory),
    /// (strip, channel, dB), hardware strips only
    SetStripEqTrim(usize, usize, S),
    /// (strip, channel, ms), hardware strips only
    SetStripEqDelay(usize, usize, S),
    /// (bus, channel, dB)
    SetBusEqTrim(usize, usize, S),
    /// (bus, channel, ms)
    SetBusEqDelay(usize, usize, S),
    /// (strip, channel), hardware strips only
    ResetStripEqChannel(usize, usize),
    /// (bus, channel)
    ResetBusEqChannel(usize, usize),
    /// (strip, from, to), hardware strips only
    CopyStripEqChannel(usize, usize, usize),
    /// (bus, from, to)
    CopyBusEqChannel(usize, usize, usize),
}

/// The control a command is about. Of several commands for one control only
/// the last matters.
#[derive(Debug, Clone, Copy, PartialEq, Eq, Hash, Structural)]
pub enum ParamKey {
    StripMute(usize),
    StripSolo(usize),
    StripMono(usize),
    StripBusAssign(usize, usize),
    StripGainLayer(usize, usize),
    StripPan(usize),
    BusMute(usize),
    BusMono(usize),
    BusMode(usize),
    BusGain(usize),
    StripEqCell(usize, usize, usize),
    BusEqCell(usize, usize, usize),
    StripGateKnob(usize),
    StripCompKnob(usize),
    StripDenoiserKnob(usize),
    StripLimiterThreshold(usize),
    StripIntellipanMode(usize),
    StripIntellipanXY(usize),
    StripEq3(usize),
    StripPositionPad(usize),
    StripMc(usize),
    StripKaraoke(usize),
    StripEqOn(usize),
    StripEqMemory(usize),
    BusEqOn(usize),
    BusEqMemory(usize),
    StripEqTrim(usize, usize),
    StripEqDelay(usize, usize),
    BusEqTrim(usize, usize),
    BusEqDelay(usize, usize),
    ResetStripEqChannel(usize, usize),
    ResetBusEqChannel(usize, usize),
    CopyStripEqChannel(usize, usize),
    CopyBusEqChannel(usize, usize),
}

impl<S> EngineCommand<S> {
    /// A copy is keyed by the channel it changes, not by the one it reads.
    pub open spec fn target(self) -> ParamKey {
        match self {
            EngineCommand::SetStripMute(s, _) => ParamKey::StripMute(s),
            EngineCommand::SetStripSolo(s, _) => ParamKey::StripSolo(s),
            EngineCommand::SetStripMono(s, _) => ParamKey::StripMono(s),
            EngineCommand::SetStripBusAssign(s, b, _) => ParamKey::StripBusAssign(s, b),
            EngineCommand::SetStripGainLayer(s, b, _) => ParamKey::StripGainLayer(s, b),
            EngineCommand::SetStripPan(s, _) => ParamKey::StripPan(s),
            EngineCommand::SetBusMute(b, _) => ParamKey::BusMute(b),
            EngineCommand::SetBusMono(b, _) => ParamKey::BusMono(b),
            EngineCommand::SetBusMode(b, _) => ParamKey::BusMode(b),
            EngineCommand::SetBusGain(b, _) => ParamKey::BusGain(b),
            EngineCommand::SetStripEqCell(s, ch, cell, _) => ParamKey::StripEqCell(s, ch, cell),
            EngineCommand::SetBusEqCell(b, ch, cell, _) => ParamKey::BusEqCell(b, ch, cell),
            EngineCommand::SetStripGateKnob(s, _) => ParamKey::StripGateKnob(s),
            EngineCommand::SetStripCompKnob(s, _) => ParamKey::StripCompKnob(s),
            EngineCommand::SetStripDenoiserKnob(s, _) => ParamKey::StripDenoiserKnob(s),
            EngineCommand::SetStripLimiterThreshold(s, _) => ParamKey::StripLimiterThreshold(s),
            EngineCommand::SetStripIntellipanMode(s, _) => ParamKey::StripIntellipanMode(s),
            EngineCommand::SetStripIntellipanXY(s, _, _) => ParamKey::StripIntellipanXY(s),
            EngineCommand::SetStripEq3(s, _, _, _) => ParamKey::StripEq3(s),
            EngineCommand::SetStripPositionPad(s, _, _) => ParamKey::StripPositionPad(s),
            EngineCommand::SetStripMc(s, _) => ParamKey::StripMc(s),
            EngineCommand::SetStripKaraoke(s, _) => ParamKey::StripKaraoke(s),
            EngineCommand::SetStripEqOn(s, _) => ParamKey::StripEqOn(s),
            EngineCommand::SetStripEqMemory(s, _) => ParamKey::StripEqMemory(s),
            EngineCommand::SetBusEqOn(b, _) => ParamKey::BusEqOn(b),
            EngineCommand::SetBusEqMemory(b, _) => ParamKey::BusEqMemory(b),
            EngineCommand::SetStripEqTrim(s, ch, _) => ParamKey::StripEqTrim(s, ch),
            EngineCommand::SetStripEqDelay(s, ch, _) => ParamKey::StripEqDelay(s, ch),
            EngineCommand::SetBusEqTrim(b, ch, _) => ParamKey::BusEqTrim(b, ch),
            EngineCommand::SetBusEqDelay(b, ch, _) => ParamKey::BusEqDelay(b, ch),
            EngineCommand::ResetStripEqChannel(s, ch) => ParamKey::ResetStripEqChannel(s, ch),
            EngineCommand::ResetBusEqChannel(b, ch) => ParamKey::ResetBusEqChannel(b, ch),
            EngineCommand::CopyStripEqChannel(s, _, to) => ParamKey::CopyStripEqChannel(s, to),
            EngineCommand::CopyBusEqChannel(b, _, to) => ParamKey::CopyBusEqChannel(b, to),
        }
    }

    pub fn key(&self) -> (r: ParamKey)
        ensures
            r == self.target(),
    {
        match self {
            EngineCommand::SetStripMute(s, _) => ParamKey::StripMute(*s),
            EngineCommand::SetStripSolo(s, _) => ParamKey::StripSolo(*s),
            EngineCommand::SetStripMono(s, _) => ParamKey::StripMono(*s),
            EngineCommand::SetStripBusAssign(s, b, _) => ParamKey::StripBusAssign(*s, *b),
            EngineCommand::SetStripGainLayer(s, b, _) => ParamKey::StripGainLayer(*s, *b),
            EngineCommand::SetStripPan(s, _) => ParamKey::StripPan(*s),
            EngineCommand::SetBusMute(b, _) => ParamKey::BusMute(*b),
            EngineCommand::SetBusMono(b, _) => ParamKey::BusMono(*b),
            EngineCommand::SetBusMode(b, _) => ParamKey::BusMode(*b),
            EngineCommand::SetBusGain(b, _) => ParamKey::BusGain(*b),
            EngineCommand::SetStripEqCell(s, ch, cell, _) => ParamKey::StripEqCell(
                *s,
                *ch,
                *cell,
            ),
            EngineCommand::SetBusEqCell(b, ch, cell, _) => ParamKey::BusEqCell(*b, *ch, *cell),
            EngineCommand::SetStripGateKnob(s, _) => ParamKey::StripGateKnob(*s),
            EngineCommand::SetStripCompKnob(s, _) => ParamKey::StripCompKnob(*s),
            EngineCommand::SetStripDenoiserKnob(s, _) => ParamKey::StripDenoiserKnob(*s),
            EngineCommand::SetStripLimiterThreshold(s, _) => ParamKey::StripLimiterThreshold(*s),
            EngineCommand::SetStripIntellipanMode(s, _) => ParamKey::StripIntellipanMode(*s),
            EngineCommand::SetStripIntellipanXY(s, _, _) => ParamKey::StripIntellipanXY(*s),
            EngineCommand::SetStripEq3(s, _, _, _) => ParamKey::StripEq3(*s),
            EngineCommand::SetStripPositionPad(s, _, _) => ParamKey::StripPositionPad(*s),
            EngineCommand::SetStripMc(s, _) => ParamKey::StripMc(*s),
            EngineCommand::SetStripKaraoke(s, _) => ParamKey::StripKaraoke(*s),
            EngineCommand::SetStripEqOn(s, _) => ParamKey::StripEqOn(*s),
            EngineCommand::SetStripEqMemory(s, _) => ParamKey::StripEqMemory(*s),
            EngineCommand::SetBusEqOn(b, _) => ParamKey::BusEqOn(*b),
            EngineCommand::SetBusEqMemory(b, _) => ParamKey::BusEqMemory(*b),
            EngineCommand::SetStripEqTrim(s, ch, _) => ParamKey::StripEqTrim(*s, *ch),
            EngineCommand::SetStripEqDelay(s, ch, _) => ParamKey::StripEqDelay(*s, *ch),
            EngineCommand::SetBusEqTrim(b, ch, _) => ParamKey::BusEqTrim(*b, *ch),
            EngineCommand::SetBusEqDelay(b, ch, _) => ParamKey::BusEqDelay(*b, *ch),
            EngineCommand::ResetStripEqChannel(s, ch) => ParamKey::ResetStripEqChannel(*s, *ch),
            EngineCommand::ResetBusEqChannel(b, ch) => ParamKey::ResetBusEqChannel(*b, *ch),
            EngineCommand::CopyStripEqChannel(s, _, to) => ParamKey::CopyStripEqChannel(*s, *to),
            EngineCommand::CopyBusEqChannel(b, _, to) => ParamKey::CopyBusEqChannel(*b, *to),
        }
    }
}

impl<S: Sample> EngineCommand<S> {
    /// Every index the command carries names something.
    pub open spec fn in_range(self) -> bool {
        match self {
            EngineCommand::SetStripMute(s, _)
            | EngineCommand::SetStripSolo(s, _)
            | EngineCommand::SetStripMono(s, _)
            | EngineCommand::SetStripPan(s, _)
            | EngineCommand::SetStripGateKnob(s, _)
            | EngineCommand::SetStripCompKnob(s, _)
            | EngineCommand::SetStripDenoiserKnob(s, _)
            | EngineCommand::SetStripLimiterThreshold(s, _)
            | EngineCommand::SetStripIntellipanMode(s, _)
            | EngineCommand::SetStripIntellipanXY(s, _, _)
            | EngineCommand::SetStripEq3(s, _, _, _)
            | EngineCommand::SetStripPositionPad(s, _, _)
            | EngineCommand::SetStripMc(s, _)
            | EngineCommand::SetStripKaraoke(s, _)
            | EngineCommand::SetStripEqOn(s, _)
            | EngineCommand::SetStripEqMemory(s, _) => s < NUM_STRIPS,
            EngineCommand::SetStripBusAssign(s, b, _)
            | EngineCommand::SetStripGainLayer(s, b, _) => s < NUM_STRIPS && b < NUM_BUSES,
            EngineCommand::SetBusMute(b, _)
            | EngineCommand::SetBusMono(b, _)
            | EngineCommand::SetBusMode(b, _)
            | EngineCommand::SetBusGain(b, _)
            | EngineCommand::SetBusEqOn(b, _)
            | EngineCommand::SetBusEqMemory(b, _) => b < NUM_BUSES,
            EngineCommand::SetStripEqCell(s, ch, cell, _) => s < NUM_STRIPS && ch
                < STRIP_EQ_CHANNELS && cell < NUM_CELLS,
            EngineCommand::SetBusEqCell(b, ch, cell, _) => b < NUM_BUSES && ch < CHANNELS && cell
                < NUM_CELLS,
            EngineCommand::SetStripEqTrim(s, ch, _)
            | EngineCommand::SetStripEqDelay(s, ch, _)
            | EngineCommand::ResetStripEqChannel(s, ch) => s < NUM_STRIPS && ch
                < STRIP_EQ_CHANNELS,
            EngineCommand::SetBusEqTrim(b, ch, _)
            | EngineCommand::SetBusEqDelay(b, ch, _)
            | EngineCommand::ResetBusEqChannel(b, ch) => b < NUM_BUSES && ch < CHANNELS,
            EngineCommand::CopyStripEqChannel(s, from, to) => s < NUM_STRIPS && from
                < STRIP_EQ_CHANNELS && to < STRIP_EQ_CHANNELS,
            EngineCommand::CopyBusEqChannel(b, from, to) => b < NUM_BUSES && from < CHANNELS && to
                < CHANNELS,
        }
    }

    /// The strip the command addresses, if it addresses one.
    pub open spec fn strip(self) -> Option<usize> {
        match self {
            EngineCommand::SetStripMute(s, _)
            | EngineCommand::SetStripSolo(s, _)
            | EngineCommand::SetStripMono(s, _)
            | EngineCommand::SetStripBusAssign(s, _, _)
            | EngineCommand::SetStripGainLayer(s, _, _)
            | EngineCommand::SetStripPan(s, _)
            | EngineCommand::SetStripEqCell(s, _, _, _)
            | EngineCommand::SetStripGateKnob(s, _)
            | EngineCommand::SetStripCompKnob(s, _)
            | EngineCommand::SetStripDenoiserKnob(s, _)
            | EngineCommand::SetStripLimiterThreshold(s, _)
            | EngineCommand::SetStripIntellipanMode(s, _)
            | EngineCommand::SetStripIntellipanXY(s, _, _)
            | EngineCommand::SetStripEq3(s, _, _, _)
            | EngineCommand::SetStripPositionPad(s, _, _)
            | EngineCommand::SetStripMc(s, _)
            | EngineCommand::SetStripKaraoke(s, _)
            | EngineCommand::SetStripEqOn(s, _)
            | EngineCommand::SetStripEqMemory(s, _)
            | EngineCommand::SetStripEqTrim(s, _, _)
            | EngineCommand::SetStripEqDelay(s, _, _)
            | EngineCommand::ResetStripEqChannel(s, _)
            | EngineCommand::CopyStripEqChannel(s, _, _) => Some(s),
            _ => None,
        }
    }

    /// The bus the command addresses, if it addresses one.
    pub open spec fn bus(self) -> Option<usize> {
        match self {
            EngineCommand::SetBusMute(b, _)
            | EngineCommand::SetBusMono(b, _)
            | EngineCommand::SetBusMode(b, _)
            | EngineCommand::SetBusGain(b, _)
            | EngineCommand::SetBusEqCell(b, _, _, _)
            | EngineCommand::SetBusEqOn(b, _)
            | EngineCommand::SetBusEqMemory(b, _)
            | EngineCommand::SetBusEqTrim(b, _, _)
            | EngineCommand::SetBusEqDelay(b, _, _)
            | EngineCommand::ResetBusEqChannel(b, _)
            | EngineCommand::CopyBusEqChannel(b, _, _) => Some(b),
            _ => None,
        }
    }

    /// What the command makes of the equaliser it addresses.
    pub open spec fn edited_eq<const N: usize>(self, eq: ParametricEq<S, N>) -> ParametricEq<S, N> {
        match self {
            EngineCommand::SetStripEqCell(_, ch, cell, params)
            | EngineCommand::SetBusEqCell(_, ch, cell, params) => eq.with_cell(
                ch as int,
                cell as int,
                params,
            ),
            EngineCommand::SetStripEqOn(_, on) | EngineCommand::SetBusEqOn(_, on) => ParametricEq {
                on,
                ..eq
            },
            EngineCommand::SetStripEqMemory(_, memory)
            | EngineCommand::SetBusEqMemory(_, memory) => eq.with_memory(memory),
            EngineCommand::SetStripEqTrim(_, ch, trim_db)
            | EngineCommand::SetBusEqTrim(_, ch, trim_db) => eq.with_trim(ch as int, trim_db),
            EngineCommand::SetStripEqDelay(_, ch, delay_ms)
            | EngineCommand::SetBusEqDelay(_, ch, delay_ms) => eq.with_delay(ch as int, delay_ms),
            EngineCommand::ResetStripEqChannel(_, ch)
            | EngineCommand::ResetBusEqChannel(_, ch) => eq.with_channel(
                ch as int,
                EqChannelParams::<S>::neutral(),
            ),
            EngineCommand::CopyStripEqChannel(_, from, to)
            | EngineCommand::CopyBusEqChannel(_, from, to) => eq.with_copy(from as int, to as int),
            _ => eq,
        }
    }

    /// What the command makes of a hardware chain.
    pub open spec fn edited_hardware(self, c: HardwareChain<S>) -> HardwareChain<S> {
        match self {
            EngineCommand::SetStripPan(_, pan) => HardwareChain { pan: StereoBalance { pan }, ..c },
            EngineCommand::SetStripGateKnob(_, knob) => HardwareChain {
                gate: c.gate.turned(knob),
                ..c
            },
            EngineCommand::SetStripCompKnob(_, knob) => HardwareChain {
                compressor: c.compressor.turned(knob),
                ..c
            },
            EngineCommand::SetStripDenoiserKnob(_, knob) => HardwareChain {
                denoiser: Denoiser { knob, ..c.denoiser },
                ..c
            },
            EngineCommand::SetStripIntellipanMode(_, mode) => HardwareChain {
                pad: c.pad.switched(mode),
                ..c
            },
            EngineCommand::SetStripIntellipanXY(_, x, y) => HardwareChain {
                pad: c.pad.moved(PadPosition::at(x, y)),
                ..c
            },
            _ => HardwareChain { eq: self.edited_eq(c.eq), ..c },
        }
    }

    /// What the command makes of a virtual chain.
    pub open spec fn edited_virtual(self, c: VirtualChain<S>) -> VirtualChain<S> {
        match self {
            EngineCommand::SetStripEq3(_, bass_db, mid_db, treble_db) => VirtualChain {
                eq: ThreeBandEq { bass_db, mid_db, treble_db },
                ..c
            },
            EngineCommand::SetStripPositionPad(_, x, y) => VirtualChain {
                pan_pad: PositionPad5_1 { x, y },
                ..c
            },
            EngineCommand::SetStripMc(_, mc) => VirtualChain { mc, ..c },
            EngineCommand::SetStripKaraoke(_, mode) => VirtualChain {
                karaoke: Karaoke { mode },
                ..c
            },
            _ => c,
        }
    }

    /// What the command makes of the chain it addresses: a command for one
    /// kind of strip does nothing to the other.
    pub open spec fn edited_chain(self, chain: StripChain<S>) -> StripChain<S> {
        match self {
            EngineCommand::SetStripLimiterThreshold(_, threshold_db) => chain.with_limiter(
                Limiter { threshold_db },
            ),
            _ => match chain {
                StripChain::Hardware(c) => StripChain::Hardware(self.edited_hardware(c)),
                StripChain::Virtual(c) => StripChain::Virtual(self.edited_virtual(c)),
            },
        }
    }

    /// What the command makes of the strip it addresses.
    pub open spec fn edited_strip(self, strip: Strip<S>) -> Strip<S> {
        match self {
            EngineCommand::SetStripMute(_, mute) => Strip { mute, ..strip },
            EngineCommand::SetStripSolo(_, solo) => Strip { solo, ..strip },
            EngineCommand::SetStripMono(_, mono) => Strip { mono, ..strip },
            EngineCommand::SetStripBusAssign(_, b, on) => Strip {
                bus_assign: spec_array_update(strip.bus_assign, b as int, on),
                ..strip
            },
            EngineCommand::SetStripGainLayer(_, b, db) => strip.with_gain_layer(b as int, db),
            _ => Strip { chain: self.edited_chain(strip.chain), ..strip },
        }
    }

    /// What the command makes of the bus it addresses.
    pub open spec fn edited_bus(self, bus: Bus<S>) -> Bus<S> {
        match self {
            EngineCommand::SetBusMute(_, mute) => Bus { mute, ..bus },
            EngineCommand::SetBusMono(_, mono) => Bus { mono, ..bus },
            EngineCommand::SetBusMode(_, mode) => Bus { mode, ..bus },
            EngineCommand::SetBusGain(_, gain_db) => Bus { gain_db, ..bus },
            _ => Bus { eq: self.edited_eq(bus.eq), ..bus },
        }
    }

    /// The engine after a command whose indices are in range: the strip or the
    /// bus it addresses is edited, and nothing else.
    pub open spec fn edited(self, e: Engine<S>) -> Engine<S> {
        match (self.strip(), self.bus()) {
            (Some(s), _) => e.with_strip(s as int, self.edited_strip(e.strips@[s as int])),
            (None, Some(b)) => e.with_bus(b as int, self.edited_bus(e.buses@[b as int])),
            (None, None) => e,
        }
    }

    /// The engine after the command.
    pub open spec fn applied(self, e: Engine<S>) -> Engine<S> {
        if self.in_range() {
            self.edited(e)
        } else {
            e
        }
    }

    /// The command is about a strip's routing and level.
    pub open spec fn is_routing(self) -> bool {
        match self {
            EngineCommand::SetStripMute(..)
            | EngineCommand::SetStripSolo(..)
            | EngineCommand::SetStripMono(..)
            | EngineCommand::SetStripBusAssign(..)
            | EngineCommand::SetStripGainLayer(..)
            | EngineCommand::SetStripLimiterThreshold(..) => true,
            _ => false,
        }
    }

    /// The command is about a hardware strip's effects.
    pub open spec fn is_hardware(self) -> bool {
        match self {
            EngineCommand::SetStripPan(..)
            | EngineCommand::SetStripGateKnob(..)
            | EngineCommand::SetStripCompKnob(..)
            | EngineCommand::SetStripDenoiserKnob(..)
            | EngineCommand::SetStripIntellipanMode(..)
            | EngineCommand::SetStripIntellipanXY(..) => true,
            _ => false,
        }
    }

    /// The command is about a hardware strip's equaliser.
    pub open spec fn is_hardware_eq(self) -> bool {
        match self {
            EngineCommand::SetStripEqCell(..)
            | EngineCommand::SetStripEqOn(..)
            | EngineCommand::SetStripEqMemory(..)
            | EngineCommand::SetStripEqTrim(..)
            | EngineCommand::SetStripEqDelay(..)
            | EngineCommand::ResetStripEqChannel(..)
            | EngineCommand::CopyStripEqChannel(..) => true,
            _ => false,
        }
    }

    /// The command is about a virtual strip's effects.
    pub open spec fn is_virtual(self) -> bool {
        match self {
            EngineCommand::SetStripEq3(..)
            | EngineCommand::SetStripPositionPad(..)
            | EngineCommand::SetStripMc(..)
            | EngineCommand::SetStripKaraoke(..) => true,
            _ => false,
        }
    }

    /// The command is about a bus.
    pub open spec fn is_bus(self) -> bool {
        match self {
            EngineCommand::SetBusMute(..)
            | EngineCommand::SetBusMono(..)
            | EngineCommand::SetBusMode(..)
            | EngineCommand::SetBusGain(..)
            | EngineCommand::SetBusEqCell(..)
            | EngineCommand::SetBusEqOn(..)
            | EngineCommand::SetBusEqMemory(..)
            | EngineCommand::SetBusEqTrim(..)
            | EngineCommand::SetBusEqDelay(..)
            | EngineCommand::ResetBusEqChannel(..)
            | EngineCommand::CopyBusEqChannel(..) => true,
            _ => false,
        }
    }

    fn apply_routing(self, engine: &mut Engine<S>)
        requires
            num::lawful::<S>(),
            self.is_routing(),
        ensures
            *final(engine) == self.applied(*old(engine)),
    {
        match self {
            EngineCommand::SetStripMute(s, on) => {
                if s < NUM_STRIPS {
                    engine.strips[s].mute = on;
                }
            },
            EngineCommand::SetStripSolo(s, on) => {
                if s < NUM_STRIPS {
                    engine.strips[s].solo = on;
                }
            },
            EngineCommand::SetStripMono(s, on) => {
                if s < NUM_STRIPS {
                    engine.strips[s].mono = on;
                }
            },
            EngineCommand::SetStripBusAssign(s, b, on) => {
                if s < NUM_STRIPS && b < NUM_BUSES {
                    engine.strips[s].bus_assign[b] = on;
                }
            },
            EngineCommand::SetStripGainLayer(s, b, db) => {
                if s < NUM_STRIPS && b < NUM_BUSES {
                    engine.strips[s].set_gain_layer_db(b, db);
                }
            },
            EngineCommand::SetStripLimiterThreshold(s, db) => {
                if s < NUM_STRIPS {
                    engine.strips[s].chain.limiter_mut().threshold_db = db;
                }
            },
            _ => {},
        }
    }

    fn apply_hardware(self, engine: &mut Engine<S>)
        requires
            num::lawful::<S>(),
            self.is_hardware(),
        ensures
            *final(engine) == self.applied(*old(engine)),
    {
        match self {
            EngineCommand::SetStripPan(s, pan) => {
                if s < NUM_STRIPS {
                    if let StripChain::Hardware(chain) = &mut engine.strips[s].chain {
                        chain.pan.pan = pan;
                    }
                }
            },
            EngineCommand::SetStripGateKnob(s, knob) => {
                if s < NUM_STRIPS {
                    if let StripChain::Hardware(chain) = &mut engine.strips[s].chain {
                        chain.gate.set_knob(knob);
                    }
                }
            },
            EngineCommand::SetStripCompKnob(s, knob) => {
                if s < NUM_STRIPS {
                    if let StripChain::Hardware(chain) = &mut engine.strips[s].chain {
                        chain.compressor.set_knob(knob);
                    }
                }
            },
            EngineCommand::SetStripDenoiserKnob(s, knob) => {
                if s < NUM_STRIPS {
                    if let StripChain::Hardware(chain) = &mut engine.strips[s].chain {
                        chain.denoiser.set_knob(knob);
                    }
                }
            },
            EngineCommand::SetStripIntellipanMode(s, mode) => {
                if s < NUM_STRIPS {
                    if let StripChain::Hardware(chain) = &mut engine.strips[s].chain {
                        chain.pad.set_mode(mode);
                    }
                }
            },
            EngineCommand::SetStripIntellipanXY(s, x, y) => {
                if s < NUM_STRIPS {
                    if let StripChain::Hardware(chain) = &mut engine.strips[s].chain {
                        chain.pad.set_position(x, y);
                    }
                }
            },
            _ => {},
        }
    }

    fn apply_hardware_eq(self, engine: &mut Engine<S>)
        requires
            num::lawful::<S>(),
            self.is_hardware_eq(),
        ensures
            *final(engine) == self.applied(*old(engine)),
    {
        match self {
            EngineCommand::SetStripEqCell(s, ch, cell, params) => {
                if s < NUM_STRIPS && ch < STRIP_EQ_CHANNELS && cell < NUM_CELLS {
                    if let StripChain::Hardware(chain) = &mut engine.strips[s].chain {
                        chain.eq.set_cell(ch, cell, params);
                    }
                }
            },
            EngineCommand::SetStripEqOn(s, on) => {
                if s < NUM_STRIPS {
                    if let StripChain::Hardware(chain) = &mut engine.strips[s].chain {
                        chain.eq.on = on;
                    }
                }
            },
            EngineCommand::SetStripEqMemory(s, memory) => {
                if s < NUM_STRIPS {
                    if let StripChain::Hardware(chain) = &mut engine.strips[s].chain {
                        chain.eq.set_active_memory(memory);
                    }
                }
            },
            EngineCommand::SetStripEqTrim(s, ch, trim_db) => {
                if s < NUM_STRIPS && ch < STRIP_EQ_CHANNELS {
                    if let StripChain::Hardware(chain) = &mut engine.strips[s].chain {
                        chain.eq.set_trim_db(ch, trim_db);
                    }
                }
            },
            EngineCommand::SetStripEqDelay(s, ch, delay_ms) => {
                if s < NUM_STRIPS && ch < STRIP_EQ_CHANNELS {
                    if let StripChain::Hardware(chain) = &mut engine.strips[s].chain {
                        chain.eq.set_delay_ms(ch, delay_ms);
                    }
                }
            },
            EngineCommand::ResetStripEqChannel(s, ch) => {
                if s < NUM_STRIPS && ch < STRIP_EQ_CHANNELS {
                    if let StripChain::Hardware(chain) = &mut engine.strips[s].chain {
                        chain.eq.reset_channel(ch);
                    }
                }
            },
            EngineCommand::CopyStripEqChannel(s, from, to) => {
                if s < NUM_STRIPS && from < STRIP_EQ_CHANNELS && to < STRIP_EQ_CHANNELS {
                    if let StripChain::Hardware(chain) = &mut engine.strips[s].chain {
                        chain.eq.copy_channel(from, to);
                    }
                }
            },
            _ => {},
        }
    }

    fn apply_virtual(self, engine: &mut Engine<S>)
        requires
            num::lawful::<S>(),
            self.is_virtual(),
        ensures
            *final(engine) == self.applied(*old(engine)),
    {
        match self {
            EngineCommand::SetStripEq3(s, bass, mid, treble) => {
                if s < NUM_STRIPS {
                    if let StripChain::Virtual(chain) = &mut engine.strips[s].chain {
                        chain.eq.set_gains(bass, mid, treble);
                    }
                }
            },
            EngineCommand::SetStripPositionPad(s, x, y) => {
                if s < NUM_STRIPS {
                    if let StripChain::Virtual(chain) = &mut engine.strips[s].chain {
                        chain.pan_pad.x = x;
                        chain.pan_pad.y = y;
                    }
                }
            },
            EngineCommand::SetStripMc(s, on) => {
                if s < NUM_STRIPS {
                    if let StripChain::Virtual(chain) = &mut engine.strips[s].chain {
                        chain.mc = on;
                    }
                }
            },
            EngineCommand::SetStripKaraoke(s, mode) => {
                if s < NUM_STRIPS {
                    if let StripChain::Virtual(chain) = &mut engine.strips[s].chain {
                        chain.karaoke.mode = mode;
                    }
                }
            },
            _ => {},
        }
    }

    fn apply_bus(self, engine: &mut Engine<S>)
        requires
            num::lawful::<S>(),
            self.is_bus(),
        ensures
            *final(engine) == self.applied(*old(engine)),
    {
        match self {
            EngineCommand::SetBusMute(b, on) => {
                if b < NUM_BUSES {
                    engine.buses[b].mute = on;
                }
            },
            EngineCommand::SetBusMono(b, mono) => {
                if b < NUM_BUSES {
                    engine.buses[b].mono = mono;
                }
            },
            EngineCommand::SetBusMode(b, mode) => {
                if b < NUM_BUSES {
                    engine.buses[b].mode = mode;
                }
            },
            EngineCommand::SetBusGain(b, db) => {
                if b < NUM_BUSES {
                    engine.buses[b].set_gain_db(db);
                }
            },
            EngineCommand::SetBusEqCell(b, ch, cell, params) => {
                if b < NUM_BUSES && ch < CHANNELS && cell < NUM_CELLS {
                    engine.buses[b].eq.set_cell(ch, cell, params);
                }
            },
            EngineCommand::SetBusEqOn(b, on) => {
                if b < NUM_BUSES {
                    engine.buses[b].eq.on = on;
                }
            },
            EngineCommand::SetBusEqMemory(b, memory) => {
                if b < NUM_BUSES {
                    engine.buses[b].eq.set_active_memory(memory);
                }
            },
            EngineCommand::SetBusEqTrim(b, ch, trim_db) => {
                if b < NUM_BUSES && ch < CHANNELS {
                    engine.buses[b].eq.set_trim_db(ch, trim_db);
                }
            },
            EngineCommand::SetBusEqDelay(b, ch, delay_ms) => {
                if b < NUM_BUSES && ch < CHANNELS {
                    engine.buses[b].eq.set_delay_ms(ch, delay_ms);
                }
            },
            EngineCommand::ResetBusEqChannel(b, ch) => {
                if b < NUM_BUSES && ch < CHANNELS {
                    engine.buses[b].eq.reset_channel(ch);
                }
            },
            EngineCommand::CopyBusEqChannel(b, from, to) => {
                if b < NUM_BUSES && from < CHANNELS && to < CHANNELS {
                    engine.buses[b].eq.copy_channel(from, to);
                }
            },
            _ => {},
        }
    }

    /// Applies the command to the settings where every index it carries is in
    /// range, and does nothing otherwise. For an engine that plays, `perform`
    /// carries it through to the running filters as well.
    pub fn apply(self, engine: &mut Engine<S>)
        requires
            num::lawful::<S>(),
        ensures
            *final(engine) == self.applied(*old(engine)),
    {
        match self {
            EngineCommand::SetStripMute(..)
            | EngineCommand::SetStripSolo(..)
            | EngineCommand::SetStripMono(..)
            | EngineCommand::SetStripBusAssign(..)
            | EngineCommand::SetStripGainLayer(..)
            | EngineCommand::SetStripLimiterThreshold(..) => self.apply_routing(engine),
            EngineCommand::SetStripPan(..)
            | EngineCommand::SetStripGateKnob(..)
            | EngineCommand::SetStripCompKnob(..)
            | EngineCommand::SetStripDenoiserKnob(..)
            | EngineCommand::SetStripIntellipanMode(..)
            | EngineCommand::SetStripIntellipanXY(..) => self.apply_hardware(engine),
            EngineCommand::SetStripEqCell(..)
            | EngineCommand::SetStripEqOn(..)
            | EngineCommand::SetStripEqMemory(..)
            | EngineCommand::SetStripEqTrim(..)
            | EngineCommand::SetStripEqDelay(..)
            | EngineCommand::ResetStripEqChannel(..)
            | EngineCommand::CopyStripEqChannel(..) => self.apply_hardware_eq(engine),
            EngineCommand::SetStripEq3(..)
            | EngineCommand::SetStripPositionPad(..)
            | EngineCommand::SetStripMc(..)
            | EngineCommand::SetStripKaraoke(..) => self.apply_virtual(engine),
            EngineCommand::SetBusMute(..)
            | EngineCommand::SetBusMono(..)
            | EngineCommand::SetBusMode(..)
            | EngineCommand::SetBusGain(..)
            | EngineCommand::SetBusEqCell(..)
            | EngineCommand::SetBusEqOn(..)
            | EngineCommand::SetBusEqMemory(..)
            | EngineCommand::SetBusEqTrim(..)
            | EngineCommand::SetBusEqDelay(..)
            | EngineCommand::ResetBusEqChannel(..)
            | EngineCommand::CopyBusEqChannel(..) => self.apply_bus(engine),
        }
    }
}

} // verus!
