use loomix::elementary::Elementary;
use loomix::eq3::{ThreeBandEq, ThreeBandFilter};
use loomix::eq_channel::capacity_for;
use loomix::karaoke::KaraokeMode;
use loomix::pan::PositionPad5_1;
use loomix::parametric_eq::{EqCellParams, EqCellType};
use loomix::strip_dsp::{HardwareChain, VirtualChain};
use loomix::strip_path::{HardwarePath, VirtualPath};
use loomix::{Frame, CHANNELS, CH_FC, CH_RL};

/// The machine's own functions.
struct Machine;

impl Elementary<f32> for Machine {
    fn root(&self, x: f32) -> f32 {
        x.sqrt()
    }

    fn exp(&self, x: f32) -> f32 {
        x.exp()
    }

    fn log10(&self, x: f32) -> f32 {
        x.log10()
    }

    fn power_of_ten(&self, x: f32) -> f32 {
        10f32.powf(x)
    }

    fn sinh(&self, x: f32) -> f32 {
        x.sinh()
    }

    fn angle(&self, turns: f32) -> f32 {
        2.0 * std::f32::consts::PI * turns
    }

    fn sine(&self, angle: f32) -> f32 {
        angle.sin()
    }

    fn cosine(&self, angle: f32) -> f32 {
        angle.cos()
    }

    fn count(&self, n: usize) -> f32 {
        n as f32
    }

    fn split(&self, x: f32) -> (usize, f32) {
        let whole = x.floor().max(0.0);
        (whole as usize, x - whole)
    }

    fn nearest(&self, x: f32) -> usize {
        x.round() as usize
    }

    fn floor(&self, x: f32) -> f32 {
        x.floor()
    }

    fn whole_up(&self, x: f32) -> usize {
        x.ceil() as usize
    }
}

/// A full-amplitude sine tone.
fn sine(samples: usize, sample_rate: f32, freq_hz: f32) -> Vec<f32> {
    (0..samples)
        .map(|n| (2.0 * std::f32::consts::PI * freq_hz * n as f32 / sample_rate).sin())
        .collect()
}

/// How much of one frequency is in a signal.
fn goertzel_magnitude(signal: &[f32], freq_hz: f32, sample_rate: f32) -> f32 {
    let n = signal.len() as f32;
    let k = (0.5 + (n * freq_hz) / sample_rate).floor();
    let omega = (2.0 * std::f32::consts::PI / n) * k;
    let coeff = 2.0 * omega.cos();
    let (mut q1, mut q2) = (0.0f32, 0.0f32);
    for &x in signal {
        let q0 = coeff * q1 - q2 + x;
        q2 = q1;
        q1 = q0;
    }
    (q1 * q1 + q2 * q2 - q1 * q2 * coeff).sqrt()
}

const SR: f32 = 48_000.0;

/// A hardware strip: its settings and its effects. Each block starts in line
/// with the settings.
struct HardwareRig {
    chain: HardwareChain<f32>,
    path: HardwarePath<f32>,
    heard: u32,
}

impl HardwareRig {
    fn new() -> Self {
        let chain = HardwareChain::new();
        let path = HardwarePath::new(&Machine, &chain, SR, capacity_for(&Machine, SR));
        HardwareRig {
            chain,
            path,
            heard: 0,
        }
    }

    fn tune(&mut self) {
        self.path
            .set_sample_rate(&Machine, &self.chain, SR, capacity_for(&Machine, SR));
    }

    fn process(&mut self, frame: &mut Frame<f32>) {
        if self.heard == 0 {
            self.tune();
        }
        self.heard += 1;
        self.path.process(&Machine, &self.chain, SR, frame);
    }
}

struct VirtualRig {
    chain: VirtualChain<f32>,
    path: VirtualPath<f32>,
    heard: u32,
}

impl VirtualRig {
    fn new(is_aux: bool) -> Self {
        let chain = VirtualChain::new(is_aux);
        let path = VirtualPath::new(&Machine, &chain, SR);
        VirtualRig {
            chain,
            path,
            heard: 0,
        }
    }

    fn tune(&mut self) {
        self.path.set_sample_rate(&Machine, &self.chain, SR);
    }

    fn process(&mut self, frame: &mut Frame<f32>) {
        if self.heard == 0 {
            self.tune();
        }
        self.heard += 1;
        self.path.process(&Machine, &self.chain, frame);
    }
}

struct ThreeBandRig {
    eq: ThreeBandEq<f32>,
    filter: ThreeBandFilter<f32>,
}

impl ThreeBandRig {
    fn new() -> Self {
        ThreeBandRig {
            eq: ThreeBandEq::new(),
            filter: ThreeBandFilter::new(),
        }
    }

    fn set_gains(&mut self, bass_db: f32, mid_db: f32, treble_db: f32) {
        self.eq.set_gains(bass_db, mid_db, treble_db);
        self.filter.recompute(&Machine, SR, &self.eq);
    }

    fn process(&mut self, frame: &mut Frame<f32>) {
        self.filter.process(frame);
    }
}

#[test]
fn hardware_chain_default_is_bit_exact_passthrough() {
    let mut chain = HardwareRig::new();
    for n in 0..1000 {
        let orig: Frame<f32> = std::array::from_fn(|c| ((n * (c as i32 + 1)) as f32 * 0.017).sin());
        let mut frame = orig;
        chain.process(&mut frame);
        assert_eq!(frame, orig);
    }
}

#[test]
fn virtual_chain_default_is_bit_exact_passthrough() {
    let mut chain = VirtualRig::new(true);
    for n in 0..1000 {
        let mut frame: Frame<f32> = [0.0; CHANNELS];
        frame[0] = (n as f32 * 0.013).sin();
        frame[1] = (n as f32 * 0.027).cos();
        let orig = frame;
        chain.process(&mut frame);
        assert_eq!(frame, orig);
    }
}

#[test]
fn hardware_chain_processes_gate_before_compressor_per_spec_order() {
    let mut chain = HardwareRig::new();
    chain.chain.gate.set_knob(10.0);
    chain.chain.compressor.set_knob(10.0);
    chain.chain.compressor.params.auto_makeup = false;

    let mut peak_gr_seen = 0.0f32;
    for n in 0..2000 {
        let s = (2.0 * std::f32::consts::PI * 1000.0 * n as f32 / SR).sin() * 0.05;
        let mut frame: Frame<f32> = [0.0; CHANNELS];
        frame[0] = s;
        frame[1] = s;
        chain.process(&mut frame);
        peak_gr_seen = peak_gr_seen.min(chain.path.comp.gain_reduction_db());
    }

    assert!(
        peak_gr_seen > -3.0,
        "compressor reacted as if it saw the pre-gate signal: {peak_gr_seen}dB"
    );
}

#[test]
fn hardware_chain_compressor_does_not_see_the_eq_boosted_signal() {
    let mut chain = HardwareRig::new();
    chain.chain.compressor.set_knob(10.0);
    chain.chain.compressor.params.auto_makeup = false;
    chain.chain.eq.on = true;
    chain.chain.eq.set_cell(
        0,
        0,
        EqCellParams {
            on: true,
            cell_type: EqCellType::Peak,
            freq_hz: 1000.0,
            gain_db: 18.0,
            q: 1.0,
        },
    );
    let same = chain.chain.eq.channel_params(0).cells[0];
    chain.chain.eq.set_cell(1, 0, same);

    let mut peak_gr_seen = 0.0f32;
    for n in 0..2000 {
        let s = (2.0 * std::f32::consts::PI * 1000.0 * n as f32 / SR).sin() * 0.005;
        let mut frame: Frame<f32> = [0.0; CHANNELS];
        frame[0] = s;
        frame[1] = s;
        chain.process(&mut frame);
        peak_gr_seen = peak_gr_seen.min(chain.path.comp.gain_reduction_db());
    }
    assert!(
        peak_gr_seen > -3.0,
        "compressor reacted as if it saw the post-EQ boosted signal: {peak_gr_seen}dB"
    );
}

#[test]
fn virtual_chain_eq_runs_before_the_pan_pad_provably() {
    let tone = sine(4096, SR, 5000.0);

    let make_frames = |mono: &[f32]| -> Vec<Frame<f32>> {
        mono.iter()
            .map(|&s| {
                let mut f = [0.0; CHANNELS];
                f[0] = s;
                f[1] = s;
                f
            })
            .collect()
    };

    let mut actual_chain = VirtualRig::new(false);
    actual_chain.chain.eq.set_gains(0.0, 0.0, 12.0);
    actual_chain.chain.pan_pad = PositionPad5_1 { x: 0.0, y: 1.0 };
    let mut actual = make_frames(&tone);
    for f in actual.iter_mut() {
        actual_chain.process(f);
    }
    let actual_rl: Vec<f32> = actual.iter().map(|f| f[CH_RL]).collect();
    let actual_gain =
        goertzel_magnitude(&actual_rl, 5000.0, SR) / goertzel_magnitude(&tone, 5000.0, SR);

    let mut eq_a = ThreeBandRig::new();
    eq_a.set_gains(0.0, 0.0, 12.0);
    let pad_a = PositionPad5_1 { x: 0.0, y: 1.0 };
    let mut a = make_frames(&tone);
    for f in a.iter_mut() {
        eq_a.process(f);
        pad_a.process(f);
    }
    let a_rl: Vec<f32> = a.iter().map(|f| f[CH_RL]).collect();
    let a_gain = goertzel_magnitude(&a_rl, 5000.0, SR) / goertzel_magnitude(&tone, 5000.0, SR);

    let mut eq_b = ThreeBandRig::new();
    eq_b.set_gains(0.0, 0.0, 12.0);
    let pad_b = PositionPad5_1 { x: 0.0, y: 1.0 };
    let mut b = make_frames(&tone);
    for f in b.iter_mut() {
        pad_b.process(f);
        eq_b.process(f);
    }
    let b_rl: Vec<f32> = b.iter().map(|f| f[CH_RL]).collect();
    let b_gain = goertzel_magnitude(&b_rl, 5000.0, SR) / goertzel_magnitude(&tone, 5000.0, SR);

    assert!(
        (a_gain - b_gain).abs() > 0.5,
        "hypotheses aren't distinguishable: a={a_gain} b={b_gain}"
    );
    assert!(
        (actual_gain - a_gain).abs() < 0.05,
        "actual ({actual_gain}) should match hypothesis A/EQ-first ({a_gain})"
    );
    assert!(
        (actual_gain - b_gain).abs() > 0.4,
        "actual ({actual_gain}) should NOT match hypothesis B/pad-first ({b_gain})"
    );
}

#[test]
fn virtual_chain_mc_only_touches_the_center_channel() {
    let mut chain = VirtualRig::new(false);
    chain.chain.mc = true;
    let mut frame: Frame<f32> = [1.0; CHANNELS];
    chain.process(&mut frame);
    assert_eq!(frame[CH_FC], 0.0);
}

#[test]
fn virtual_chain_karaoke_only_applies_to_the_aux_strip() {
    let tone = sine(2000, SR, 894.427);
    let run = |is_aux: bool| -> f32 {
        let mut chain = VirtualRig::new(is_aux);
        chain.chain.karaoke.mode = KaraokeMode::KV;
        let mut frames = tone
            .iter()
            .map(|&s| {
                let mut f = [0.0; CHANNELS];
                f[0] = s;
                f[1] = s;
                f
            })
            .collect::<Vec<_>>();
        for f in frames.iter_mut() {
            chain.process(f);
        }
        let out: Vec<f32> = frames.iter().map(|f| f[0]).collect();
        goertzel_magnitude(&out, 894.427, SR) / goertzel_magnitude(&tone, 894.427, SR)
    };
    assert!(
        run(false) > 0.9,
        "non-aux strip should ignore karaoke mode entirely"
    );
    assert!(
        run(true) < 0.5,
        "aux strip should apply karaoke's KV attenuation"
    );
}

#[test]
fn strip_dsp_stability_random_automation_never_produces_nan_or_infinity() {
    let mut hw = HardwareRig::new();
    let mut vs = VirtualRig::new(true);
    let mut seed = 55u32;
    let mut rand = move || {
        seed = seed.wrapping_mul(1_664_525).wrapping_add(1_013_904_223);
        (seed >> 8) as f32 / (1u32 << 24) as f32
    };
    for _ in 0..10_000 {
        hw.chain.denoiser.set_knob(rand() * 10.0);
        hw.chain.gate.set_knob(rand() * 10.0);
        hw.chain.compressor.set_knob(rand() * 10.0);
        hw.chain.pan.pan = rand() * 2.0 - 1.0;
        let mut frame: Frame<f32> = std::array::from_fn(|_| rand() * 2.0 - 1.0);
        hw.tune();
        hw.process(&mut frame);
        assert!(frame.iter().all(|s| s.is_finite()));

        vs.chain.eq.set_gains(
            rand() * 24.0 - 12.0,
            rand() * 24.0 - 12.0,
            rand() * 24.0 - 12.0,
        );
        vs.chain.pan_pad = PositionPad5_1 {
            x: rand() - 0.5,
            y: rand(),
        };
        let mut frame2: Frame<f32> = std::array::from_fn(|_| rand() * 2.0 - 1.0);
        vs.tune();
        vs.process(&mut frame2);
        assert!(frame2.iter().all(|s| s.is_finite()));
    }
}
