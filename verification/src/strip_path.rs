//! A strip's effects chain at work: the state its effects keep from sample to
//! sample, and the order they run in.

use crate::compressor::{CompDetector, CompRates};
use crate::denoiser::{DenoiserRates, NoiseTracker};
use crate::elementary::{self, Elementary};
use crate::eq3::ThreeBandFilter;
use crate::eq_channel::EqBank;
use crate::gate::{GateDetector, GateRates};
use crate::intellipan::{
    ColorPad, IntellipanMode, IntellipanPads, ModulationPad, PositionPad, MODULATION_RING,
    POSITION_RING,
};
use crate::karaoke::VocalNotch;
use crate::num::{self, get_whole, is_at_most, Sample};
use crate::strip_dsp::{HardwareChain, StripChain, VirtualChain, STRIP_EQ_CHANNELS};
use crate::{Frame, CH_FC};
use vstd::prelude::*;

verus! {

/// The pads of a hardware strip at work.
pub struct PadPath<S> {
    pub color: ColorPad<S>,
    pub position: PositionPad<S>,
    pub modulation: ModulationPad<S>,
}

impl<S: Sample> PadPath<S> {
    pub open spec fn wf(&self) -> bool {
        self.color.wf() && self.position.wf() && self.modulation.wf()
    }

    /// `after` and `g` are what comes of the frame `f`: only the active pad
    /// works.
    pub open spec fn carries<M: Elementary<S>>(
        &self,
        m: M,
        pads: IntellipanPads<S>,
        rate: S,
        f: Seq<S>,
        after: &Self,
        g: Seq<S>,
    ) -> bool {
        match pads.mode {
            IntellipanMode::Color => {
                &&& g == f.update(0, self.color.treble_l.output(self.color.bass_l.output(f[0])))
                    .update(1, self.color.treble_r.output(self.color.bass_r.output(f[1])))
                &&& after.color == (ColorPad {
                    bass_l: self.color.bass_l.after(f[0]),
                    bass_r: self.color.bass_r.after(f[1]),
                    treble_l: self.color.treble_l.after(self.color.bass_l.output(f[0])),
                    treble_r: self.color.treble_r.after(self.color.bass_r.output(f[1])),
                })
                &&& after.position == self.position
                &&& after.modulation == self.modulation
            },
            IntellipanMode::Position => {
                &&& self.position.carries(m, pads.position, rate, f, &after.position, g)
                &&& after.color == self.color
                &&& after.modulation == self.modulation
            },
            IntellipanMode::Modulation => {
                &&& self.modulation.carries(m, pads.modulation, rate, f, &after.modulation, g)
                &&& after.color == self.color
                &&& after.position == self.position
            },
        }
    }

    /// Nothing in any pad.
    pub open spec fn is_idle(&self) -> bool {
        &&& self.color == ColorPad::<S>::idle()
        &&& self.position.is_silent()
        &&& self.position.depth() == POSITION_RING
        &&& self.modulation.is_silent()
        &&& self.modulation.depth() == MODULATION_RING
    }

    pub fn new() -> (r: Self)
        requires
            num::lawful::<S>(),
        ensures
            r.wf(),
            r.is_idle(),
    {
        PadPath {
            color: ColorPad::new(),
            position: PositionPad::new(),
            modulation: ModulationPad::new(),
        }
    }

    /// Puts the pad of `mode` back to its start; the others are left alone.
    pub fn reset(&mut self, mode: IntellipanMode)
        requires
            num::lawful::<S>(),
            old(self).wf(),
        ensures
            final(self).wf(),
            final(self).color == (if mode == IntellipanMode::Color {
                ColorPad::idle()
            } else {
                old(self).color
            }),
            if mode == IntellipanMode::Position {
                final(self).position.is_silent() && final(self).position.depth() == old(
                    self,
                ).position.depth()
            } else {
                final(self).position == old(self).position
            },
            if mode == IntellipanMode::Modulation {
                final(self).modulation.is_silent() && final(self).modulation.depth() == old(
                    self,
                ).modulation.depth()
            } else {
                final(self).modulation == old(self).modulation
            },
    {
        match mode {
            IntellipanMode::Color => {
                self.color.reset();
            },
            IntellipanMode::Position => {
                self.position.reset();
            },
            IntellipanMode::Modulation => {
                self.modulation.reset();
            },
        }
    }

    pub fn process<M: Elementary<S>>(
        &mut self,
        m: &M,
        pads: &IntellipanPads<S>,
        sample_rate: S,
        frame: &mut Frame<S>,
    )
        requires
            num::lawful::<S>(),
            old(self).wf(),
        ensures
            final(self).wf(),
            old(self).carries(*m, *pads, sample_rate, old(frame)@, final(self), final(frame)@),
    {
        match pads.mode {
            IntellipanMode::Color => {
                self.color.process(frame);
            },
            IntellipanMode::Position => {
                self.position.process(m, &pads.position, sample_rate, frame);
            },
            IntellipanMode::Modulation => {
                self.modulation.process(m, &pads.modulation, sample_rate, frame);
            },
        }
    }
}

/// A hardware strip at work.
pub struct HardwarePath<S> {
    pub noise: NoiseTracker<S>,
    pub noise_rates: DenoiserRates<S>,
    pub gate: GateDetector<S>,
    pub gate_rates: GateRates<S>,
    pub comp: CompDetector<S>,
    pub comp_rates: CompRates<S>,
    pub eq: EqBank<S>,
    pub pads: PadPath<S>,
}

/// What one channel of a bank makes of `x`.
pub open spec fn bank_output<S: Sample>(bank: EqBank<S>, on: bool, channel: int, x: S) -> S {
    if on {
        bank.channels@[channel].output(x)
    } else {
        x
    }
}

/// `after` is channel `channel` of the bank after `x`.
pub open spec fn bank_moves<S: Sample>(
    bank: EqBank<S>,
    on: bool,
    channel: int,
    x: S,
    after: EqBank<S>,
) -> bool {
    if on {
        bank.channels@[channel].moves_to(x, &after.channels@[channel])
    } else {
        after.channels@[channel] == bank.channels@[channel]
    }
}

impl<S: Sample> HardwarePath<S> {
    pub open spec fn wf(&self) -> bool {
        &&& self.gate.sidechain.wf()
        &&& self.eq.wf()
        &&& self.eq.channels@.len() == STRIP_EQ_CHANNELS
        &&& self.pads.wf()
    }

    /// `after` and `g` are what comes of the frame `f`: the front pair is
    /// denoised (which gives `a`), gated (`b`), compressed (`c`) and equalised,
    /// then the frame goes through the pad (`h`), the pan pot and the limiter.
    pub open spec fn stages<M: Elementary<S>>(
        &self,
        m: M,
        chain: HardwareChain<S>,
        rate: S,
        f: Seq<S>,
        a: (S, S),
        b: (S, S),
        c: (S, S),
        h: Seq<S>,
        after: &Self,
        g: Seq<S>,
    ) -> bool {
        let on = chain.eq.on;
        let d0 = bank_output(self.eq, on, 0, c.0);
        let d1 = bank_output(self.eq, on, 1, c.1);
        &&& self.noise.denoises(
            m,
            chain.denoiser,
            self.noise_rates,
            (f[0], f[1]),
            after.noise,
            a,
        )
        &&& self.gate.gates(m, chain.gate, self.gate_rates, a, after.gate, b)
        &&& self.comp.compresses(m, chain.compressor, self.comp_rates, b, after.comp, c)
        &&& bank_moves(self.eq, on, 0, c.0, after.eq)
        &&& bank_moves(self.eq, on, 1, c.1, after.eq)
        &&& self.pads.carries(
            m,
            chain.pad,
            rate,
            f.update(0, d0).update(1, d1),
            &after.pads,
            h,
        )
        &&& chain.limiter.limits(m, chain.pan.panned(h), g)
        &&& after.noise_rates == self.noise_rates
        &&& after.gate_rates == self.gate_rates
        &&& after.comp_rates == self.comp_rates
    }

    pub open spec fn carries<M: Elementary<S>>(
        &self,
        m: M,
        chain: HardwareChain<S>,
        rate: S,
        f: Seq<S>,
        after: &Self,
        g: Seq<S>,
    ) -> bool {
        exists|a: (S, S), b: (S, S), c: (S, S), h: Seq<S>| #[trigger]
            self.stages(m, chain, rate, f, a, b, c, h, after, g)
    }

    /// A strip that has heard nothing and is tuned to nothing.
    pub open spec fn is_idle(&self, delay_capacity: nat, rate: S) -> bool {
        &&& self.noise == NoiseTracker::<S>::fresh()
        &&& self.gate == GateDetector::<S>::closed_gate()
        &&& self.comp == CompDetector::<S>::silent()
        &&& self.eq.is_idle(STRIP_EQ_CHANNELS as nat, delay_capacity, rate)
        &&& self.pads.is_idle()
    }

    /// `after` is this strip at a sample rate, tuned to `chain`.
    pub open spec fn at_rate<M: Elementary<S>>(
        &self,
        m: M,
        chain: HardwareChain<S>,
        rate: S,
        delay_capacity: nat,
        after: &Self,
    ) -> bool {
        &&& after.noise == self.noise
        &&& after.noise_rates.suit(m, rate)
        &&& self.gate.at_rate(m, chain.gate, rate, after.gate)
        &&& after.gate_rates.suit(m, chain.gate.params, rate)
        &&& after.comp == self.comp
        &&& after.comp_rates.suit(m, chain.compressor.params, rate)
        &&& self.eq.at_rate(m, chain.eq, rate, delay_capacity, &after.eq)
        &&& self.pads.color.set_to(m, rate, chain.pad.color, after.pads.color)
        &&& after.pads.position == self.pads.position
        &&& after.pads.modulation == self.pads.modulation
    }

    /// A hardware strip at rest, tuned to `chain`.
    pub fn new<M: Elementary<S>>(
        m: &M,
        chain: &HardwareChain<S>,
        sample_rate: S,
        delay_capacity: usize,
    ) -> (r: Self)
        requires
            num::lawful::<S>(),
            delay_capacity > 0,
        ensures
            r.wf(),
            exists|start: Self| #[trigger]
                start.is_idle(delay_capacity as nat, sample_rate) && start.at_rate(
                    *m,
                    *chain,
                    sample_rate,
                    delay_capacity as nat,
                    &r,
                ),
    {
        let mut path = HardwarePath {
            noise: NoiseTracker::new(),
            noise_rates: DenoiserRates::new(m, sample_rate),
            gate: GateDetector::new(),
            gate_rates: GateRates::new(m, &chain.gate.params, sample_rate),
            comp: CompDetector::new(),
            comp_rates: CompRates::new(m, &chain.compressor.params, sample_rate),
            eq: EqBank::new(STRIP_EQ_CHANNELS, delay_capacity, sample_rate),
            pads: PadPath::new(),
        };
        assert(path.is_idle(delay_capacity as nat, sample_rate));
        path.set_sample_rate(m, chain, sample_rate, delay_capacity);
        path
    }

    /// Follows a change of the sample rate.
    pub fn set_sample_rate<M: Elementary<S>>(
        &mut self,
        m: &M,
        chain: &HardwareChain<S>,
        sample_rate: S,
        delay_capacity: usize,
    )
        requires
            num::lawful::<S>(),
            old(self).wf(),
            delay_capacity > 0,
        ensures
            final(self).wf(),
            old(self).at_rate(*m, *chain, sample_rate, delay_capacity as nat, final(self)),
    {
        self.noise_rates = DenoiserRates::new(m, sample_rate);
        self.gate_rates = GateRates::new(m, &chain.gate.params, sample_rate);
        self.comp_rates = CompRates::new(m, &chain.compressor.params, sample_rate);
        self.gate.retune(m, &chain.gate, sample_rate);
        self.eq.set_sample_rate(m, &chain.eq, sample_rate, delay_capacity);
        self.pads.color.recompute(m, sample_rate, &chain.pad.color);
    }

    pub fn process<M: Elementary<S>>(
        &mut self,
        m: &M,
        chain: &HardwareChain<S>,
        sample_rate: S,
        frame: &mut Frame<S>,
    )
        requires
            num::lawful::<S>(),
            old(self).wf(),
        ensures
            final(self).wf(),
            old(self).carries(*m, *chain, sample_rate, old(frame)@, final(self), final(frame)@),
    {
        let on: bool = chain.eq.on;
        let a = self.noise.process(m, &chain.denoiser, &self.noise_rates, (frame[0], frame[1]));
        let b = self.gate.process(m, &chain.gate, &self.gate_rates, a);
        let c = self.comp.process(m, &chain.compressor, &self.comp_rates, b);
        frame[0] = self.eq.process_channel(on, 0, c.0);
        frame[1] = self.eq.process_channel(on, 1, c.1);
        self.pads.process(m, &chain.pad, sample_rate, frame);
        let ghost h = frame@;
        chain.pan.process(frame);
        chain.limiter.process(m, frame);
        assert(old(self).stages(
            *m,
            *chain,
            sample_rate,
            old(frame)@,
            a,
            b,
            c,
            h,
            self,
            frame@,
        ));
    }
}

/// A virtual strip at work.
pub struct VirtualPath<S> {
    pub eq: ThreeBandFilter<S>,
    pub notch: VocalNotch<S>,
}

impl<S: Sample> VirtualPath<S> {
    pub open spec fn wf(&self) -> bool {
        self.eq.wf() && self.notch.wf()
    }

    /// The frame after the equaliser and the centre mute.
    pub open spec fn toned(&self, chain: VirtualChain<S>, f: Seq<S>) -> Seq<S> {
        let e = self.eq.output(f[0], f[1]);
        let t = f.update(0, e.0).update(1, e.1);
        if chain.mc {
            t.update(2, num::whole::<S>(0))
        } else {
            t
        }
    }

    /// The frame after karaoke, which only the AUX strip plays.
    pub open spec fn voiced(&self, chain: VirtualChain<S>, f: Seq<S>) -> Seq<S> {
        let t = self.toned(chain, f);
        if chain.is_aux {
            let k = self.notch.output(chain.karaoke.mode, t[0], t[1]);
            t.update(0, k.0).update(1, k.1)
        } else {
            t
        }
    }

    /// `after` and `g` are what comes of the frame `f`.
    pub open spec fn carries<M: Elementary<S>>(
        &self,
        m: M,
        chain: VirtualChain<S>,
        f: Seq<S>,
        after: &Self,
        g: Seq<S>,
    ) -> bool {
        let t = self.toned(chain, f);
        &&& chain.limiter.limits(m, chain.pan_pad.placed(self.voiced(chain, f)), g)
        &&& after.eq == self.eq.after(f[0], f[1])
        &&& after.notch == (if chain.is_aux {
            self.notch.after(chain.karaoke.mode, t[0], t[1])
        } else {
            self.notch
        })
    }

    /// Nothing in any filter, and none of them tuned.
    pub open spec fn is_idle(&self) -> bool {
        &&& self.eq.is_idle()
        &&& self.notch.is_idle()
    }

    /// `after` is this strip at a sample rate, tuned to `chain`.
    pub open spec fn at_rate<M: Elementary<S>>(
        &self,
        m: M,
        chain: VirtualChain<S>,
        rate: S,
        after: &Self,
    ) -> bool {
        &&& self.eq.set_to(m, rate, chain.eq, after.eq)
        &&& self.notch.at_rate(m, rate, after.notch)
    }

    pub fn new<M: Elementary<S>>(m: &M, chain: &VirtualChain<S>, sample_rate: S) -> (r: Self)
        requires
            num::lawful::<S>(),
        ensures
            r.wf(),
            exists|start: Self| #[trigger]
                start.is_idle() && start.at_rate(*m, *chain, sample_rate, &r),
    {
        let mut path = VirtualPath { eq: ThreeBandFilter::new(), notch: VocalNotch::new() };
        assert(path.is_idle());
        path.set_sample_rate(m, chain, sample_rate);
        path
    }

    pub fn set_sample_rate<M: Elementary<S>>(
        &mut self,
        m: &M,
        chain: &VirtualChain<S>,
        sample_rate: S,
    )
        requires
            num::lawful::<S>(),
            old(self).wf(),
        ensures
            final(self).wf(),
            old(self).at_rate(*m, *chain, sample_rate, final(self)),
    {
        self.eq.recompute(m, sample_rate, &chain.eq);
        self.notch.retune(m, sample_rate);
    }

    pub fn process<M: Elementary<S>>(
        &mut self,
        m: &M,
        chain: &VirtualChain<S>,
        frame: &mut Frame<S>,
    )
        requires
            num::lawful::<S>(),
            old(self).wf(),
        ensures
            final(self).wf(),
            old(self).carries(*m, *chain, old(frame)@, final(self), final(frame)@),
    {
        self.eq.process(frame);
        if chain.mc {
            frame[CH_FC] = get_whole(0);
        }
        assert(frame@ == old(self).toned(*chain, old(frame)@));
        if chain.is_aux {
            let mut l = frame[0];
            let mut r = frame[1];
            self.notch.process(&chain.karaoke, &mut l, &mut r);
            frame[0] = l;
            frame[1] = r;
        }
        assert(frame@ == old(self).voiced(*chain, old(frame)@));
        chain.pan_pad.process(frame);
        chain.limiter.process(m, frame);
    }
}

/// A strip at work.
pub enum StripPath<S> {
    Hardware(HardwarePath<S>),
    Virtual(VirtualPath<S>),
}

impl<S: Sample> StripPath<S> {
    pub open spec fn wf(&self) -> bool {
        match self {
            StripPath::Hardware(p) => p.wf(),
            StripPath::Virtual(p) => p.wf(),
        }
    }

    /// The path is of the chain's kind.
    pub open spec fn fits(&self, chain: StripChain<S>) -> bool {
        self is Hardware <==> chain is Hardware
    }

    /// `after` and `g` are what comes of the frame `f`.
    pub open spec fn carries<M: Elementary<S>>(
        &self,
        m: M,
        chain: StripChain<S>,
        rate: S,
        f: Seq<S>,
        after: &Self,
        g: Seq<S>,
    ) -> bool {
        match (self, chain, after) {
            (
                StripPath::Hardware(p),
                StripChain::Hardware(c),
                StripPath::Hardware(q),
            ) => p.carries(m, c, rate, f, q, g),
            (StripPath::Virtual(p), StripChain::Virtual(c), StripPath::Virtual(q)) => p.carries(
                m,
                c,
                f,
                q,
                g,
            ),
            _ => false,
        }
    }

    pub open spec fn is_idle(&self, delay_capacity: nat, rate: S) -> bool {
        match self {
            StripPath::Hardware(p) => p.is_idle(delay_capacity, rate),
            StripPath::Virtual(p) => p.is_idle(),
        }
    }

    /// `after` is this strip at a sample rate, tuned to `chain`.
    pub open spec fn at_rate<M: Elementary<S>>(
        &self,
        m: M,
        chain: StripChain<S>,
        rate: S,
        delay_capacity: nat,
        after: &Self,
    ) -> bool {
        match (self, chain, after) {
            (StripPath::Hardware(p), StripChain::Hardware(c), StripPath::Hardware(q)) => p.at_rate(
                m,
                c,
                rate,
                delay_capacity,
                q,
            ),
            (StripPath::Virtual(p), StripChain::Virtual(c), StripPath::Virtual(q)) => p.at_rate(
                m,
                c,
                rate,
                q,
            ),
            _ => false,
        }
    }

    /// `after` is a strip at rest, tuned to `chain`.
    pub open spec fn starts<M: Elementary<S>>(
        m: M,
        chain: StripChain<S>,
        rate: S,
        delay_capacity: nat,
        after: &Self,
    ) -> bool {
        exists|start: Self| #[trigger]
            start.is_idle(delay_capacity, rate) && start.at_rate(m, chain, rate, delay_capacity, after)
    }

    pub fn new<M: Elementary<S>>(
        m: &M,
        chain: &StripChain<S>,
        sample_rate: S,
        delay_capacity: usize,
    ) -> (r: Self)
        requires
            num::lawful::<S>(),
            delay_capacity > 0,
        ensures
            r.wf(),
            r.fits(*chain),
            Self::starts(*m, *chain, sample_rate, delay_capacity as nat, &r),
    {
        match chain {
            StripChain::Hardware(c) => {
                let path = HardwarePath::new(m, c, sample_rate, delay_capacity);
                let r = StripPath::Hardware(path);
                proof {
                    let start = choose|start: HardwarePath<S>| #[trigger]
                        start.is_idle(delay_capacity as nat, sample_rate) && start.at_rate(
                            *m,
                            *c,
                            sample_rate,
                            delay_capacity as nat,
                            &path,
                        );
                    assert(StripPath::Hardware(start).is_idle(delay_capacity as nat, sample_rate));
                }
                r
            },
            StripChain::Virtual(c) => {
                let path = VirtualPath::new(m, c, sample_rate);
                let r = StripPath::Virtual(path);
                proof {
                    let start = choose|start: VirtualPath<S>| #[trigger]
                        start.is_idle() && start.at_rate(*m, *c, sample_rate, &path);
                    assert(StripPath::Virtual(start).is_idle(delay_capacity as nat, sample_rate));
                }
                r
            },
        }
    }

    pub fn set_sample_rate<M: Elementary<S>>(
        &mut self,
        m: &M,
        chain: &StripChain<S>,
        sample_rate: S,
        delay_capacity: usize,
    )
        requires
            num::lawful::<S>(),
            old(self).wf(),
            old(self).fits(*chain),
            delay_capacity > 0,
        ensures
            final(self).wf(),
            final(self).fits(*chain),
            old(self).at_rate(*m, *chain, sample_rate, delay_capacity as nat, final(self)),
    {
        match self {
            StripPath::Hardware(p) => {
                if let StripChain::Hardware(c) = chain {
                    p.set_sample_rate(m, c, sample_rate, delay_capacity);
                }
            },
            StripPath::Virtual(p) => {
                if let StripChain::Virtual(c) = chain {
                    p.set_sample_rate(m, c, sample_rate);
                }
            },
        }
    }

    pub fn process<M: Elementary<S>>(
        &mut self,
        m: &M,
        chain: &StripChain<S>,
        sample_rate: S,
        frame: &mut Frame<S>,
    )
        requires
            num::lawful::<S>(),
            old(self).wf(),
            old(self).fits(*chain),
        ensures
            final(self).wf(),
            final(self).fits(*chain),
            old(self).carries(*m, *chain, sample_rate, old(frame)@, final(self), final(frame)@),
    {
        match self {
            StripPath::Hardware(p) => {
                if let StripChain::Hardware(c) = chain {
                    p.process(m, c, sample_rate, frame);
                }
            },
            StripPath::Virtual(p) => {
                if let StripChain::Virtual(c) = chain {
                    p.process(m, c, frame);
                }
            },
        }
    }
}

} // verus!
