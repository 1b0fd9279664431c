//! Carrying a command through to the signal path: the settings are edited, and
//! the part of the path that depends on them is tuned again.

use crate::command::EngineCommand;
use crate::elementary::Elementary;
use crate::engine::Engine;
use crate::eq_channel::EqBank;
use crate::intellipan::{ColorPad, IntellipanMode};
use crate::num::{self, Sample};
use crate::parametric_eq::{Memory, ParametricEq};
use crate::signal_path::SignalPath;
use crate::strip_dsp::{HardwareChain, StripChain, VirtualChain, STRIP_EQ_CHANNELS};
use crate::strip_path::{HardwarePath, StripPath, VirtualPath};
use crate::compressor::CompRates;
use crate::gate::GateRates;
use crate::{CHANNELS, NUM_BUSES, NUM_STRIPS};
use vstd::prelude::*;

verus! {

/// What of an equaliser has to be tuned again.
#[derive(Debug, Clone, Copy, PartialEq, Eq, Structural)]
pub enum Retune {
    Nothing,
    Channel(usize),
    Everything,
}

impl<S: Sample> EngineCommand<S> {
    /// What of the equaliser it addresses the command changes. Selecting the
    /// memory that is active already changes nothing.
    pub open spec fn disturbs(self, active: Memory) -> Retune {
        match self {
            EngineCommand::SetStripEqCell(_, ch, _, _)
            | EngineCommand::SetBusEqCell(_, ch, _, _)
            | EngineCommand::SetStripEqTrim(_, ch, _)
            | EngineCommand::SetBusEqTrim(_, ch, _)
            | EngineCommand::SetStripEqDelay(_, ch, _)
            | EngineCommand::SetBusEqDelay(_, ch, _)
            | EngineCommand::ResetStripEqChannel(_, ch)
            | EngineCommand::ResetBusEqChannel(_, ch)
            | EngineCommand::CopyStripEqChannel(_, _, ch)
            | EngineCommand::CopyBusEqChannel(_, _, ch) => Retune::Channel(ch),
            EngineCommand::SetStripEqMemory(_, memory)
            | EngineCommand::SetBusEqMemory(_, memory) => if memory == active {
                Retune::Nothing
            } else {
                Retune::Everything
            },
            _ => Retune::Nothing,
        }
    }

    fn get_disturbs(&self, active: Memory) -> (r: Retune)
        ensures
            r == self.disturbs(active),
    {
        match self {
            EngineCommand::SetStripEqCell(_, ch, _, _)
            | EngineCommand::SetBusEqCell(_, ch, _, _)
            | EngineCommand::SetStripEqTrim(_, ch, _)
            | EngineCommand::SetBusEqTrim(_, ch, _)
            | EngineCommand::SetStripEqDelay(_, ch, _)
            | EngineCommand::SetBusEqDelay(_, ch, _)
            | EngineCommand::ResetStripEqChannel(_, ch)
            | EngineCommand::ResetBusEqChannel(_, ch)
            | EngineCommand::CopyStripEqChannel(_, _, ch)
            | EngineCommand::CopyBusEqChannel(_, _, ch) => Retune::Channel(*ch),
            EngineCommand::SetStripEqMemory(_, memory)
            | EngineCommand::SetBusEqMemory(_, memory) => if *memory == active {
                Retune::Nothing
            } else {
                Retune::Everything
            },
            _ => Retune::Nothing,
        }
    }
}

impl<S: Sample> EqBank<S> {
    /// `after` is this bank with what `part` names brought in line with `eq`.
    pub open spec fn retuned<const N: usize, M: Elementary<S>>(
        &self,
        m: M,
        eq: ParametricEq<S, N>,
        rate: S,
        part: Retune,
        after: &Self,
    ) -> bool {
        &&& after.channels@.len() == self.channels@.len()
        &&& forall|c: int|
            0 <= c < self.channels@.len() ==> if part == Retune::Everything || part
                == Retune::Channel(c as usize) {
                self.channels@[c].in_line(
                    m,
                    eq.current(c),
                    rate,
                    &(#[trigger] after.channels@[c]),
                )
            } else {
                after.channels@[c] == self.channels@[c]
            }
    }

    /// Brings what `part` names in line with the settings.
    pub fn retune<const N: usize, M: Elementary<S>>(
        &mut self,
        m: &M,
        eq: &ParametricEq<S, N>,
        sample_rate: S,
        part: Retune,
    )
        requires
            num::lawful::<S>(),
            old(self).wf(),
            old(self).channels@.len() == N,
            part matches Retune::Channel(ch) ==> ch < N,
        ensures
            final(self).wf(),
            old(self).retuned(*m, *eq, sample_rate, part, final(self)),
    {
        match part {
            Retune::Nothing => {},
            Retune::Channel(ch) => {
                self.sync_channel(m, eq, ch, sample_rate);
            },
            Retune::Everything => {
                self.resync(m, eq, sample_rate);
            },
        }
    }
}

impl<S: Sample> HardwarePath<S> {
    /// `after` is this path brought in line with `chain` after `c`, where
    /// `active` was the equaliser's memory before.
    pub open spec fn retuned<M: Elementary<S>>(
        &self,
        m: M,
        chain: HardwareChain<S>,
        rate: S,
        c: EngineCommand<S>,
        active: Memory,
        after: &Self,
    ) -> bool {
        &&& after.noise == self.noise
        &&& after.noise_rates == self.noise_rates
        &&& after.gate == self.gate
        &&& after.comp == self.comp
        &&& self.eq.retuned(m, chain.eq, rate, c.disturbs(active), &after.eq)
        &&& if c is SetStripGateKnob {
            after.gate_rates.suit(m, chain.gate.params, rate)
        } else {
            after.gate_rates == self.gate_rates
        }
        &&& if c is SetStripCompKnob {
            after.comp_rates.suit(m, chain.compressor.params, rate)
        } else {
            after.comp_rates == self.comp_rates
        }
        &&& match c {
            EngineCommand::SetStripIntellipanMode(_, mode) => {
                &&& if mode == IntellipanMode::Color {
                    after.pads.color == ColorPad::<S>::idle()
                } else {
                    after.pads.color == self.pads.color
                }
                &&& if mode == IntellipanMode::Position {
                    after.pads.position.is_silent() && after.pads.position.depth()
                        == self.pads.position.depth()
                } else {
                    after.pads.position == self.pads.position
                }
                &&& if mode == IntellipanMode::Modulation {
                    after.pads.modulation.is_silent() && after.pads.modulation.depth()
                        == self.pads.modulation.depth()
                } else {
                    after.pads.modulation == self.pads.modulation
                }
            },
            EngineCommand::SetStripIntellipanXY(..) => {
                &&& if chain.pad.mode == IntellipanMode::Color {
                    self.pads.color.set_to(m, rate, chain.pad.color, after.pads.color)
                } else {
                    after.pads.color == self.pads.color
                }
                &&& after.pads.position == self.pads.position
                &&& after.pads.modulation == self.pads.modulation
            },
            _ => after.pads == self.pads,
        }
    }

    pub fn retune<M: Elementary<S>>(
        &mut self,
        m: &M,
        chain: &HardwareChain<S>,
        sample_rate: S,
        command: &EngineCommand<S>,
        active: Memory,
    )
        requires
            num::lawful::<S>(),
            old(self).wf(),
            command.disturbs(active) matches Retune::Channel(ch) ==> ch < STRIP_EQ_CHANNELS,
            *command matches EngineCommand::SetStripIntellipanMode(_, mode) ==> chain.pad.mode
                == mode,
        ensures
            final(self).wf(),
            old(self).retuned(*m, *chain, sample_rate, *command, active, final(self)),
    {
        self.eq.retune(m, &chain.eq, sample_rate, command.get_disturbs(active));
        match command {
            EngineCommand::SetStripGateKnob(..) => {
                self.gate_rates = GateRates::new(m, &chain.gate.params, sample_rate);
            },
            EngineCommand::SetStripCompKnob(..) => {
                self.comp_rates = CompRates::new(m, &chain.compressor.params, sample_rate);
            },
            EngineCommand::SetStripIntellipanMode(..) => {
                self.pads.reset(chain.pad.mode);
            },
            EngineCommand::SetStripIntellipanXY(..) => {
                if chain.pad.mode == IntellipanMode::Color {
                    self.pads.color.recompute(m, sample_rate, &chain.pad.color);
                }
            },
            _ => {},
        }
    }
}

impl<S: Sample> VirtualPath<S> {
    /// `after` is this path brought in line with `chain` after `c`.
    pub open spec fn retuned<M: Elementary<S>>(
        &self,
        m: M,
        chain: VirtualChain<S>,
        rate: S,
        c: EngineCommand<S>,
        after: &Self,
    ) -> bool {
        &&& after.notch == self.notch
        &&& if c is SetStripEq3 {
            self.eq.set_to(m, rate, chain.eq, after.eq)
        } else {
            after.eq == self.eq
        }
    }

    pub fn retune<M: Elementary<S>>(
        &mut self,
        m: &M,
        chain: &VirtualChain<S>,
        sample_rate: S,
        command: &EngineCommand<S>,
    )
        requires
            num::lawful::<S>(),
            old(self).wf(),
        ensures
            final(self).wf(),
            old(self).retuned(*m, *chain, sample_rate, *command, final(self)),
    {
        if let EngineCommand::SetStripEq3(..) = command {
            self.eq.recompute(m, sample_rate, &chain.eq);
        }
    }
}

/// The memory that is active in a strip's equaliser.
pub open spec fn strip_memory<S>(chain: StripChain<S>) -> Memory {
    match chain {
        StripChain::Hardware(c) => c.eq.active,
        StripChain::Virtual(_) => Memory::A,
    }
}

impl<S: Sample> SignalPath<S> {
    /// `after` is this path brought in line with `now`, the engine after `c`,
    /// which was `was` before: the strip or bus that the command addresses is
    /// tuned again, and nothing else.
    pub open spec fn follows<M: Elementary<S>>(
        &self,
        m: M,
        c: EngineCommand<S>,
        was: Engine<S>,
        now: Engine<S>,
        after: &Self,
    ) -> bool {
        &&& after.strips@.len() == self.strips@.len()
        &&& after.buses@.len() == self.buses@.len()
        &&& forall|s: int|
            0 <= s < NUM_STRIPS ==> if c.in_range() && c.strip() == Some(s as usize) {
                match (self.strips@[s], now.strips@[s].chain, #[trigger] after.strips@[s]) {
                    (
                        StripPath::Hardware(p),
                        StripChain::Hardware(chain),
                        StripPath::Hardware(q),
                    ) => p.retuned(
                        m,
                        chain,
                        now.sample_rate,
                        c,
                        strip_memory(was.strips@[s].chain),
                        &q,
                    ),
                    (
                        StripPath::Virtual(p),
                        StripChain::Virtual(chain),
                        StripPath::Virtual(q),
                    ) => p.retuned(m, chain, now.sample_rate, c, &q),
                    _ => false,
                }
            } else {
                after.strips@[s] == self.strips@[s]
            }
        &&& forall|b: int|
            0 <= b < NUM_BUSES ==> if c.in_range() && c.bus() == Some(b as usize) {
                self.buses@[b].retuned(
                    m,
                    now.buses@[b].eq,
                    now.sample_rate,
                    c.disturbs(was.buses@[b].eq.active),
                    &(#[trigger] after.buses@[b]),
                )
            } else {
                after.buses@[b] == self.buses@[b]
            }
    }

    fn retune_strip<M: Elementary<S>>(
        &mut self,
        m: &M,
        engine: &Engine<S>,
        command: &EngineCommand<S>,
        s: usize,
        active: Memory,
    )
        requires
            num::lawful::<S>(),
            old(self).wf(*engine),
            s < NUM_STRIPS,
            engine.strips@[s as int].chain matches StripChain::Hardware(c) ==> {
                &&& command.disturbs(active) matches Retune::Channel(ch) ==> ch < STRIP_EQ_CHANNELS
                &&& *command matches EngineCommand::SetStripIntellipanMode(_, mode) ==> c.pad.mode
                    == mode
            },
        ensures
            final(self).wf(*engine),
            final(self).buses == old(self).buses,
            forall|k: int|
                0 <= k < NUM_STRIPS && k != s ==> #[trigger] final(self).strips@[k] == old(
                    self,
                ).strips@[k],
            match (
                old(self).strips@[s as int],
                engine.strips@[s as int].chain,
                final(self).strips@[s as int],
            ) {
                (
                    StripPath::Hardware(p),
                    StripChain::Hardware(chain),
                    StripPath::Hardware(q),
                ) => p.retuned(*m, chain, engine.sample_rate, *command, active, &q),
                (
                    StripPath::Virtual(p),
                    StripChain::Virtual(chain),
                    StripPath::Virtual(q),
                ) => p.retuned(*m, chain, engine.sample_rate, *command, &q),
                _ => false,
            },
    {
        assert(self.strips@[s as int].wf());
        match &mut self.strips[s] {
            StripPath::Hardware(p) => {
                if let StripChain::Hardware(chain) = &engine.strips[s].chain {
                    p.retune(m, chain, engine.sample_rate, command, active);
                }
            },
            StripPath::Virtual(p) => {
                if let StripChain::Virtual(chain) = &engine.strips[s].chain {
                    p.retune(m, chain, engine.sample_rate, command);
                }
            },
        }
    }

    fn retune_bus<M: Elementary<S>>(
        &mut self,
        m: &M,
        engine: &Engine<S>,
        command: &EngineCommand<S>,
        b: usize,
        active: Memory,
    )
        requires
            num::lawful::<S>(),
            old(self).wf(*engine),
            b < NUM_BUSES,
            command.disturbs(active) matches Retune::Channel(ch) ==> ch < CHANNELS,
        ensures
            final(self).wf(*engine),
            final(self).strips == old(self).strips,
            forall|k: int|
                0 <= k < NUM_BUSES && k != b ==> #[trigger] final(self).buses@[k] == old(
                    self,
                ).buses@[k],
            old(self).buses@[b as int].retuned(
                *m,
                engine.buses@[b as int].eq,
                engine.sample_rate,
                command.disturbs(active),
                &final(self).buses@[b as int],
            ),
    {
        assert(self.buses@[b as int].wf());
        self.buses[b].retune(
            m,
            &engine.buses[b].eq,
            engine.sample_rate,
            command.get_disturbs(active),
        );
    }
}

impl<S: Sample> EngineCommand<S> {
    /// The strip the command addresses, where it addresses one.
    fn get_strip(&self) -> (r: Option<usize>)
        ensures
            r == self.strip(),
    {
        match self {
            EngineCommand::SetStripMute(s, _)
            | EngineCommand::SetStripSolo(s, _)
            | EngineCommand::SetStripMono(s, _)
            | EngineCommand::SetStripBusAssign(s, _, _)
            | EngineCommand::SetStripGainLayer(s, _, _)
            | EngineCommand::SetStripPan(s, _)
            | EngineCommand::SetStripEqCell(s, _, _, _)
            | EngineCommand::SetStripGateKnob(s, _)
            | EngineCommand::SetStripCompKnob(s, _)
            | EngineCommand::SetStripDenoiserKnob(s, _)
            | EngineCommand::SetStripLimiterThreshold(s, _)
            | EngineCommand::SetStripIntellipanMode(s, _)
            | EngineCommand::SetStripIntellipanXY(s, _, _)
            | EngineCommand::SetStripEq3(s, _, _, _)
            | EngineCommand::SetStripPositionPad(s, _, _)
            | EngineCommand::SetStripMc(s, _)
            | EngineCommand::SetStripKaraoke(s, _)
            | EngineCommand::SetStripEqOn(s, _)
            | EngineCommand::SetStripEqMemory(s, _)
            | EngineCommand::SetStripEqTrim(s, _, _)
            | EngineCommand::SetStripEqDelay(s, _, _)
            | EngineCommand::ResetStripEqChannel(s, _)
            | EngineCommand::CopyStripEqChannel(s, _, _) => Some(*s),
            _ => None,
        }
    }

    /// The bus the command addresses, where it addresses one.
    fn get_bus(&self) -> (r: Option<usize>)
        ensures
            r == self.bus(),
    {
        match self {
            EngineCommand::SetBusMute(b, _)
            | EngineCommand::SetBusMono(b, _)
            | EngineCommand::SetBusMode(b, _)
            | EngineCommand::SetBusGain(b, _)
            | EngineCommand::SetBusEqCell(b, _, _, _)
            | EngineCommand::SetBusEqOn(b, _)
            | EngineCommand::SetBusEqMemory(b, _)
            | EngineCommand::SetBusEqTrim(b, _, _)
            | EngineCommand::SetBusEqDelay(b, _, _)
            | EngineCommand::ResetBusEqChannel(b, _)
            | EngineCommand::CopyBusEqChannel(b, _, _) => Some(*b),
            _ => None,
        }
    }

    fn is_in_range(&self) -> (r: bool)
        ensures
            r == self.in_range(),
    {
        match self {
            EngineCommand::SetStripBusAssign(s, b, _) => *s < NUM_STRIPS && *b < NUM_BUSES,
            EngineCommand::SetStripGainLayer(s, b, _) => *s < NUM_STRIPS && *b < NUM_BUSES,
            EngineCommand::SetStripEqCell(s, ch, cell, _) => *s < NUM_STRIPS && *ch
                < STRIP_EQ_CHANNELS && *cell < crate::parametric_eq::NUM_CELLS,
            EngineCommand::SetBusEqCell(b, ch, cell, _) => *b < NUM_BUSES && *ch < CHANNELS
                && *cell < crate::parametric_eq::NUM_CELLS,
            EngineCommand::SetStripEqTrim(s, ch, _) => *s < NUM_STRIPS && *ch < STRIP_EQ_CHANNELS,
            EngineCommand::SetStripEqDelay(s, ch, _) => *s < NUM_STRIPS && *ch < STRIP_EQ_CHANNELS,
            EngineCommand::ResetStripEqChannel(s, ch) => *s < NUM_STRIPS && *ch
                < STRIP_EQ_CHANNELS,
            EngineCommand::SetBusEqTrim(b, ch, _) => *b < NUM_BUSES && *ch < CHANNELS,
            EngineCommand::SetBusEqDelay(b, ch, _) => *b < NUM_BUSES && *ch < CHANNELS,
            EngineCommand::ResetBusEqChannel(b, ch) => *b < NUM_BUSES && *ch < CHANNELS,
            EngineCommand::CopyStripEqChannel(s, from, to) => *s < NUM_STRIPS && *from
                < STRIP_EQ_CHANNELS && *to < STRIP_EQ_CHANNELS,
            EngineCommand::CopyBusEqChannel(b, from, to) => *b < NUM_BUSES && *from < CHANNELS
                && *to < CHANNELS,
            _ => match (self.get_strip(), self.get_bus()) {
                (Some(s), _) => s < NUM_STRIPS,
                (None, Some(b)) => b < NUM_BUSES,
                (None, None) => true,
            },
        }
    }

    /// Applies the command to the engine and carries it through to the path.
    pub fn perform<M: Elementary<S>>(
        self,
        m: &M,
        engine: &mut Engine<S>,
        path: &mut SignalPath<S>,
    )
        requires
            num::lawful::<S>(),
            old(path).wf(*old(engine)),
        ensures
            *final(engine) == self.applied(*old(engine)),
            final(path).wf(*final(engine)),
            old(path).follows(*m, self, *old(engine), *final(engine), final(path)),
    {
        let in_range: bool = self.is_in_range();
        let mut active = Memory::A;
        if in_range {
            if let Some(s) = self.get_strip() {
                if let StripChain::Hardware(c) = &engine.strips[s].chain {
                    active = c.eq.active_memory();
                }
            } else if let Some(b) = self.get_bus() {
                active = engine.buses[b].eq.active_memory();
            }
        }
        self.apply(engine);
        proof {
            assert forall|s: int| 0 <= s < NUM_STRIPS implies (engine.strips@[s].chain is Hardware
                <==> old(engine).strips@[s].chain is Hardware) by {}
            assert(path.wf(*engine));
        }
        if in_range {
            if let Some(s) = self.get_strip() {
                path.retune_strip(m, &*engine, &self, s, active);
            } else if let Some(b) = self.get_bus() {
                path.retune_bus(m, &*engine, &self, b, active);
            }
        }
    }
}

} // verus!
