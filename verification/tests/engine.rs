use loomix::biquad::{Biquad, BiquadCoeffs};
use loomix::bus::BusMono;
use loomix::bus_mode::BusMode;
use loomix::command::EngineCommand;
use loomix::elementary::Elementary;
use loomix::engine::Engine;
use loomix::fader::gain_db_to_linear;
use loomix::parametric_eq::{EqCellParams, EqCellType};
use loomix::patch::CompositeSource;
use loomix::rt_assert::assert_realtime;
use loomix::signal_path::SignalPath;
use loomix::strip_dsp::StripChain;
use loomix::{CHANNELS, CH_FC, NUM_BUSES, NUM_STRIPS};

/// The machine's own functions.
struct Machine;

impl Elementary<f32> for Machine {
    fn root(&self, x: f32) -> f32 {
        x.sqrt()
    }

    fn exp(&self, x: f32) -> f32 {
        x.exp()
    }

    fn log10(&self, x: f32) -> f32 {
        x.log10()
    }

    fn power_of_ten(&self, x: f32) -> f32 {
        10f32.powf(x)
    }

    fn sinh(&self, x: f32) -> f32 {
        x.sinh()
    }

    fn angle(&self, turns: f32) -> f32 {
        2.0 * std::f32::consts::PI * turns
    }

    fn sine(&self, angle: f32) -> f32 {
        angle.sin()
    }

    fn cosine(&self, angle: f32) -> f32 {
        angle.cos()
    }

    fn count(&self, n: usize) -> f32 {
        n as f32
    }

    fn split(&self, x: f32) -> (usize, f32) {
        let whole = x.floor().max(0.0);
        (whole as usize, x - whole)
    }

    fn nearest(&self, x: f32) -> usize {
        x.round() as usize
    }

    fn floor(&self, x: f32) -> f32 {
        x.floor()
    }

    fn whole_up(&self, x: f32) -> usize {
        x.ceil() as usize
    }
}

/// A full-amplitude sine tone.
fn sine(samples: usize, sample_rate: f32, freq_hz: f32) -> Vec<f32> {
    (0..samples)
        .map(|n| (2.0 * std::f32::consts::PI * freq_hz * n as f32 / sample_rate).sin())
        .collect()
}

/// How much of one frequency is in a signal.
fn goertzel_magnitude(signal: &[f32], freq_hz: f32, sample_rate: f32) -> f32 {
    let n = signal.len() as f32;
    let k = (0.5 + (n * freq_hz) / sample_rate).floor();
    let omega = (2.0 * std::f32::consts::PI / n) * k;
    let coeff = 2.0 * omega.cos();
    let (mut q1, mut q2) = (0.0f32, 0.0f32);
    for &x in signal {
        let q0 = coeff * q1 - q2 + x;
        q2 = q1;
        q1 = q0;
    }
    (q1 * q1 + q2 * q2 - q1 * q2 * coeff).sqrt()
}

type Frame = loomix::Frame<f32>;

/// A mixer: its settings, and its effects once it has played something.
struct EngineRig {
    engine: Engine<f32>,
    path: Option<SignalPath<f32>>,
}

impl EngineRig {
    fn new() -> Self {
        EngineRig {
            engine: Engine::<f32>::new(&Machine),
            path: None,
        }
    }

    fn process_block(&mut self, inputs: &Vec<Vec<Frame>>, outputs: &mut Vec<Vec<Frame>>) {
        let mut path = match self.path.take() {
            Some(path) => path,
            None => SignalPath::new(&Machine, &self.engine),
        };
        let frames = outputs[0].len();
        self.engine
            .process_block(&mut path, &Machine, frames, inputs, outputs);
        self.path = Some(path);
    }
}

impl std::ops::Deref for EngineRig {
    type Target = Engine<f32>;

    fn deref(&self) -> &Engine<f32> {
        &self.engine
    }
}

impl std::ops::DerefMut for EngineRig {
    fn deref_mut(&mut self) -> &mut Engine<f32> {
        &mut self.engine
    }
}

fn silent_inputs(len: usize) -> Vec<Vec<Frame>> {
    vec![vec![[0.0; CHANNELS]; len]; NUM_STRIPS]
}

#[test]
fn default_engine_routes_every_strip_to_bus_zero_at_unity() {
    let mut engine = EngineRig::new();
    let mut inputs = silent_inputs(4);
    for block in inputs.iter_mut() {
        for frame in block.iter_mut() {
            frame[0] = 1.0;
        }
    }
    let input_refs: Vec<Vec<Frame>> = inputs.to_vec();

    let mut out_bufs: Vec<Vec<Frame>> = vec![vec![[0.0; CHANNELS]; 4]; NUM_BUSES];
    engine.process_block(&input_refs, &mut out_bufs);

    for frame in &out_bufs[0] {
        assert!((frame[0] - NUM_STRIPS as f32).abs() < 1e-6);
    }
    for out in &out_bufs[1..] {
        for frame in out {
            assert_eq!(frame[0], 0.0);
        }
    }
}

#[test]
fn neutral_settings_are_a_bit_exact_passthrough() {
    let mut engine = EngineRig::new();
    for strip in &mut engine.strips {
        strip.bus_assign = [false; NUM_BUSES];
    }
    engine.strips[0].bus_assign[0] = true;

    let probe: Vec<Frame> = (0..16)
        .map(|n| {
            let mut f = [0.0; CHANNELS];
            f[0] = (n as f32 * 0.37).sin();
            f[1] = (n as f32 * 0.61).cos();
            f
        })
        .collect();
    let silence = vec![[0.0; CHANNELS]; probe.len()];
    let input_refs: Vec<Vec<Frame>> = std::iter::once(probe.clone())
        .chain(std::iter::repeat_n(silence.clone(), NUM_STRIPS - 1))
        .collect();

    let mut out_bufs: Vec<Vec<Frame>> = vec![vec![[0.0; CHANNELS]; probe.len()]; NUM_BUSES];
    engine.process_block(&input_refs, &mut out_bufs);

    assert_eq!(&out_bufs[0], &probe);
}

#[test]
fn solo_globally_silences_non_soloed_strips() {
    let mut engine = EngineRig::new();
    engine.strips[0].bus_assign = [true; NUM_BUSES];
    engine.strips[1].bus_assign = [true; NUM_BUSES];
    engine.strips[1].solo = true;

    let mut a: Frame = [0.0; CHANNELS];
    a[0] = 1.0;
    let inputs: Vec<Vec<Frame>> = (0..NUM_STRIPS)
        .map(|s| vec![if s == 0 || s == 1 { a } else { [0.0; CHANNELS] }])
        .collect();
    let input_refs: Vec<Vec<Frame>> = inputs.to_vec();
    let mut out_bufs: Vec<Vec<Frame>> = vec![vec![[0.0; CHANNELS]; 1]; NUM_BUSES];
    engine.process_block(&input_refs, &mut out_bufs);

    for out in &out_bufs {
        assert!((out[0][0] - 1.0).abs() < 1e-6);
    }
}

#[test]
fn bus_eq_runs_before_stereo_reverse_provably() {
    let mut engine = EngineRig::new();
    for strip in &mut engine.strips {
        strip.bus_assign = [false; NUM_BUSES];
    }
    engine.strips[0].bus_assign[0] = true;
    engine.buses[0].mono = BusMono::StereoReverse;
    engine.buses[0].eq.on = true;
    engine.buses[0].eq.set_cell(
        0,
        0,
        EqCellParams {
            on: true,
            cell_type: EqCellType::Peak,
            freq_hz: 1000.0,
            gain_db: 18.0,
            q: 1.0,
        },
    );

    let tone = sine(4096, 48_000.0, 1000.0);
    let probe: Vec<Frame> = tone
        .iter()
        .map(|&s| {
            let mut f = [0.0; CHANNELS];
            f[0] = s;
            f
        })
        .collect();
    let silence = vec![[0.0; CHANNELS]; probe.len()];
    let input_refs: Vec<Vec<Frame>> = std::iter::once(probe.clone())
        .chain(std::iter::repeat_n(silence.clone(), NUM_STRIPS - 1))
        .collect();

    let mut out_bufs: Vec<Vec<Frame>> = vec![vec![[0.0; CHANNELS]; probe.len()]; NUM_BUSES];
    engine.process_block(&input_refs, &mut out_bufs);

    let actual_ch1: Vec<f32> = out_bufs[0].iter().map(|f| f[1]).collect();
    let actual_gain = goertzel_magnitude(&actual_ch1, 1000.0, 48_000.0)
        / goertzel_magnitude(&tone, 1000.0, 48_000.0);
    let actual_db = 20.0 * actual_gain.log10();

    let mut boost = Biquad::bypassed();
    boost.set_coeffs(BiquadCoeffs::peaking(&Machine, 48_000.0, 1000.0, 1.0, 18.0));
    let hyp_a: Vec<f32> = tone.iter().map(|&x| boost.process(x)).collect();
    let a_gain = goertzel_magnitude(&hyp_a, 1000.0, 48_000.0)
        / goertzel_magnitude(&tone, 1000.0, 48_000.0);
    let a_db = 20.0 * a_gain.log10();

    let b_db = 0.0;

    assert!(
        (a_db - b_db).abs() > 6.0,
        "hypotheses aren't distinguishable: a={a_db}dB b={b_db}dB"
    );
    assert!(
        (actual_db - a_db).abs() < 0.5,
        "actual ({actual_db}dB) should match hypothesis A/EQ-first ({a_db}dB)"
    );
    assert!(
        (actual_db - b_db).abs() > 6.0,
        "actual ({actual_db}dB) should NOT match hypothesis B/swap-first ({b_db}dB)"
    );
}

#[test]
fn realtime_process_block_does_not_allocate() {
    let mut engine = EngineRig::new();
    let inputs = silent_inputs(32);
    let input_refs: Vec<Vec<Frame>> = inputs.to_vec();
    let mut out_bufs: Vec<Vec<Frame>> = vec![vec![[0.0; CHANNELS]; 32]; NUM_BUSES];

    assert_realtime(|| engine.process_block(&input_refs, &mut out_bufs));
}

#[test]
fn realtime_composite_mode_does_not_allocate() {
    let mut engine = EngineRig::new();
    engine.buses[0].mode = BusMode::Composite;
    engine.patch.composite[0] = CompositeSource::Strip {
        strip: 1,
        channel: 0,
    };
    engine.patch.composite_post_fader = true;

    let inputs = silent_inputs(32);
    let input_refs: Vec<Vec<Frame>> = inputs.to_vec();
    let mut out_bufs: Vec<Vec<Frame>> = vec![vec![[0.0; CHANNELS]; 32]; NUM_BUSES];

    assert_realtime(|| engine.process_block(&input_refs, &mut out_bufs));
}

#[test]
fn bus_mode_runs_before_eq_provably() {
    let mut engine = EngineRig::new();
    for strip in &mut engine.strips {
        strip.bus_assign = [false; NUM_BUSES];
    }
    engine.strips[0].bus_assign[0] = true;
    engine.buses[0].mode = BusMode::StereoRepeat;
    engine.buses[0].eq.on = true;
    engine.buses[0].eq.set_cell(
        CH_FC,
        0,
        EqCellParams {
            on: true,
            cell_type: EqCellType::Peak,
            freq_hz: 1000.0,
            gain_db: 18.0,
            q: 1.0,
        },
    );

    let tone = sine(4096, 48_000.0, 1000.0);
    let probe: Vec<Frame> = tone
        .iter()
        .map(|&s| {
            let mut f = [0.0; CHANNELS];
            f[0] = s;
            f
        })
        .collect();
    let silence = vec![[0.0; CHANNELS]; probe.len()];
    let input_refs: Vec<Vec<Frame>> = std::iter::once(probe.clone())
        .chain(std::iter::repeat_n(silence.clone(), NUM_STRIPS - 1))
        .collect();

    let mut out_bufs: Vec<Vec<Frame>> = vec![vec![[0.0; CHANNELS]; probe.len()]; NUM_BUSES];
    engine.process_block(&input_refs, &mut out_bufs);
    let actual_fc: Vec<f32> = out_bufs[0].iter().map(|f| f[CH_FC]).collect();
    let actual_gain = goertzel_magnitude(&actual_fc, 1000.0, 48_000.0)
        / goertzel_magnitude(&tone, 1000.0, 48_000.0);
    let actual_db = 20.0 * actual_gain.log10();

    let mut boost = Biquad::bypassed();
    boost.set_coeffs(BiquadCoeffs::peaking(&Machine, 48_000.0, 1000.0, 1.0, 18.0));
    let hyp_a: Vec<f32> = tone.iter().map(|&x| boost.process(x)).collect();
    let a_gain = goertzel_magnitude(&hyp_a, 1000.0, 48_000.0)
        / goertzel_magnitude(&tone, 1000.0, 48_000.0);
    let a_db = 20.0 * a_gain.log10();

    let b_db = 0.0;

    assert!(
        (a_db - b_db).abs() > 6.0,
        "hypotheses aren't distinguishable: a={a_db}dB b={b_db}dB"
    );
    assert!(
        (actual_db - a_db).abs() < 0.5,
        "actual ({actual_db}dB) should match hypothesis A/mode-first ({a_db}dB)"
    );
    assert!(
        (actual_db - b_db).abs() > 6.0,
        "actual ({actual_db}dB) should NOT match hypothesis B/EQ-first ({b_db}dB)"
    );
}

fn run_single_block(engine: &mut EngineRig, inputs: &[Vec<Frame>], len: usize) -> Vec<Vec<Frame>> {
    let input_refs: Vec<Vec<Frame>> = inputs.to_vec();
    let mut out_bufs: Vec<Vec<Frame>> = vec![vec![[0.0; CHANNELS]; len]; NUM_BUSES];
    engine.process_block(&input_refs, &mut out_bufs);
    out_bufs
}

#[test]
fn composite_default_slot_falls_back_to_the_ordinary_sum() {
    let inputs: Vec<Vec<Frame>> = (0..NUM_STRIPS)
        .map(|s| {
            (0..8)
                .map(|n| {
                    let mut f = [0.0; CHANNELS];
                    f[0] = (s as f32 + 1.0) * 0.01 * (n as f32 + 1.0);
                    f
                })
                .collect()
        })
        .collect();

    let mut normal = EngineRig::new();
    normal.strips[0].bus_assign[0] = true;
    normal.strips[2].bus_assign[0] = true;
    let normal_out = run_single_block(&mut normal, &inputs, 8);

    let mut composite = EngineRig::new();
    composite.strips[0].bus_assign[0] = true;
    composite.strips[2].bus_assign[0] = true;
    composite.buses[0].mode = BusMode::Composite;
    let composite_out = run_single_block(&mut composite, &inputs, 8);

    assert_eq!(normal_out[0], composite_out[0]);
}

#[test]
fn composite_pre_fader_tap_bypasses_bus_assign_gain_layer_and_mute() {
    let mut engine = EngineRig::new();
    for strip in &mut engine.strips {
        strip.bus_assign = [false; NUM_BUSES];
    }
    engine.buses[0].mode = BusMode::Composite;
    engine.patch.composite[0] = CompositeSource::Strip {
        strip: 5,
        channel: 0,
    };

    engine.strips[5].mute = true;
    engine.strips[5].set_gain_layer_db(0, -60.0);

    let mut probe = [0.0; CHANNELS];
    probe[0] = 0.37;
    let inputs: Vec<Vec<Frame>> = (0..NUM_STRIPS)
        .map(|s| vec![if s == 5 { probe } else { [0.0; CHANNELS] }])
        .collect();
    let out = run_single_block(&mut engine, &inputs, 1);

    assert_eq!(out[0][0][0], 0.37);
}

#[test]
fn composite_post_fader_tap_reflects_the_processed_signal_and_gain_layer_and_ignores_mute() {
    let mut engine = EngineRig::new();
    for strip in &mut engine.strips {
        strip.bus_assign = [false; NUM_BUSES];
    }
    engine.buses[0].mode = BusMode::Composite;
    engine.patch.composite[0] = CompositeSource::Strip {
        strip: 0,
        channel: 0,
    };
    engine.patch.composite_post_fader = true;

    engine.strips[0].mute = true;
    engine.strips[0].set_gain_layer_db(0, -6.0);
    if let StripChain::Hardware(chain) = &mut engine.strips[0].chain {
        chain.pan.pan = 0.5;
    } else {
        panic!("strip 0 should be a hardware chain");
    }

    let mut probe = [0.0; CHANNELS];
    probe[0] = 0.8;
    let inputs: Vec<Vec<Frame>> = (0..NUM_STRIPS)
        .map(|s| vec![if s == 0 { probe } else { [0.0; CHANNELS] }])
        .collect();
    let out = run_single_block(&mut engine, &inputs, 1);

    let expected = 0.8 * 0.5 * gain_db_to_linear(&Machine, -6.0);
    assert!(
        (out[0][0][0] - expected).abs() < 1e-6,
        "expected {expected}, got {}",
        out[0][0][0]
    );
}

#[test]
fn composite_replaces_only_its_own_channel_not_the_whole_bus() {
    let mut engine = EngineRig::new();
    for strip in &mut engine.strips {
        strip.bus_assign = [false; NUM_BUSES];
    }
    engine.strips[1].bus_assign[0] = true;
    engine.buses[0].mode = BusMode::Composite;

    engine.patch.composite[0] = CompositeSource::Strip {
        strip: 3,
        channel: 0,
    };

    let mut strip1_frame = [0.0; CHANNELS];
    strip1_frame[1] = 0.55;
    let mut strip3_frame = [0.0; CHANNELS];
    strip3_frame[0] = 0.21;
    let inputs: Vec<Vec<Frame>> = (0..NUM_STRIPS)
        .map(|s| {
            vec![match s {
                1 => strip1_frame,
                3 => strip3_frame,
                _ => [0.0; CHANNELS],
            }]
        })
        .collect();
    let out = run_single_block(&mut engine, &inputs, 1);

    assert_eq!(
        out[0][0][0], 0.21,
        "channel 0 should be strip 3's patched value"
    );
    assert_eq!(
        out[0][0][1], 0.55,
        "channel 1 (Default) should still carry strip 1's ordinary contribution"
    );
}

#[test]
fn insert_patch_and_pre_post_switch_are_inert_this_milestone() {
    let inputs: Vec<Vec<Frame>> = (0..NUM_STRIPS)
        .map(|s| {
            vec![{
                let mut f = [0.0; CHANNELS];
                f[0] = 0.1 * (s as f32 + 1.0);
                f
            }]
        })
        .collect();

    let mut default_patch = EngineRig::new();
    let default_out = run_single_block(&mut default_patch, &inputs, 1);

    let mut all_inserted = EngineRig::new();
    all_inserted.patch.insert = [true; 22];
    all_inserted.patch.insert_post_fx = true;
    let inserted_out = run_single_block(&mut all_inserted, &inputs, 1);

    assert_eq!(default_out, inserted_out);
}

#[test]
fn a_new_sample_rate_is_followed_by_the_delays() {
    let mut engine = Engine::<f32>::new(&Machine);
    engine.buses[0].eq.on = true;
    engine.buses[0].eq.set_delay_ms(0, 1.0);
    let mut path = SignalPath::new(&Machine, &engine);
    engine.set_sample_rate(&mut path, &Machine, 96_000.0);
    assert_eq!(engine.sample_rate(), 96_000.0);

    let mut inputs = silent_inputs(128);
    inputs[0][0][0] = 1.0;
    let mut outputs: Vec<Vec<Frame>> = vec![vec![[0.0; CHANNELS]; 128]; NUM_BUSES];
    engine.process_block(&mut path, &Machine, 128, &inputs, &mut outputs);
    assert_eq!(outputs[0][48][0], 0.0);
    assert_eq!(outputs[0][96][0], 1.0);
    assert_eq!(engine.strip_meter(0).peak(0), 1.0);
}

#[test]
fn what_an_unheard_strip_is_given_does_not_reach_the_bus() {
    let block = |level: f32| -> Vec<Vec<Frame>> {
        let mut inputs = silent_inputs(64);
        for n in 0..64 {
            inputs[0][n][0] = (n as f32 * 0.2).sin();
            inputs[1][n][0] = level * (n as f32 * 0.7).cos();
        }
        inputs
    };
    for case in 0..3 {
        let mut played = Vec::new();
        for level in [0.0f32, 1.0] {
            let mut engine = Engine::<f32>::new(&Machine);
            match case {
                0 => engine.strips[1].mute = true,
                1 => engine.strips[0].solo = true,
                _ => engine.strips[1].bus_assign[0] = false,
            }
            engine.buses[0].eq.on = true;
            engine.buses[0].eq.set_trim_db(0, 3.0);
            let mut path = SignalPath::new(&Machine, &engine);
            let mut outputs = silent_inputs(64);
            engine.process_block(&mut path, &Machine, 64, &block(level), &mut outputs);
            played.push(outputs[0].clone());
        }
        assert_eq!(played[0], played[1], "case {case}");
        assert!(played[0].iter().any(|f| f[0] != 0.0));
    }
}

#[test]
fn a_performed_command_is_heard_at_once() {
    let cell = EqCellParams {
        on: true,
        cell_type: EqCellType::Peak,
        freq_hz: 1000.0,
        gain_db: 9.0,
        q: 1.0,
    };
    let mut inputs = silent_inputs(256);
    for n in 0..256 {
        inputs[0][n][0] = (n as f32 * 0.13).sin();
    }
    let mut engine = Engine::<f32>::new(&Machine);
    engine.buses[0].eq.on = true;
    let mut path = SignalPath::new(&Machine, &engine);
    EngineCommand::SetBusEqCell(0, 0, 0, cell).perform(&Machine, &mut engine, &mut path);
    let mut heard = silent_inputs(256);
    engine.process_block(&mut path, &Machine, 256, &inputs, &mut heard);

    let mut fresh_engine = Engine::<f32>::new(&Machine);
    fresh_engine.buses[0].eq.on = true;
    fresh_engine.buses[0].eq.set_cell(0, 0, cell);
    let mut fresh_path = SignalPath::new(&Machine, &fresh_engine);
    let mut expected = silent_inputs(256);
    fresh_engine.process_block(&mut fresh_path, &Machine, 256, &inputs, &mut expected);
    assert_eq!(heard[0], expected[0]);
    assert!(heard[0].iter().zip(&inputs[0]).any(|(a, b)| (a[0] - b[0]).abs() > 0.01));
}

#[test]
fn a_block_leaves_the_meters_ballistics_alone() {
    let mut engine = Engine::<f32>::new(&Machine);
    let mut path = SignalPath::new(&Machine, &engine);
    let hold = engine.bus_meters[0].hold_samples;
    let decay = engine.strip_meters[3].decay_per_sample;
    let mut outputs = silent_inputs(16);
    engine.process_block(&mut path, &Machine, 16, &silent_inputs(16), &mut outputs);
    assert_eq!(engine.bus_meters[0].hold_samples, hold);
    assert_eq!(engine.strip_meters[3].decay_per_sample, decay);
    assert!(hold > 0);
}

#[test]
fn a_slot_that_names_nothing_does_no_harm_while_no_bus_is_a_composite() {
    let mut engine = EngineRig::new();
    engine.patch.composite[0] = CompositeSource::Strip {
        strip: 99,
        channel: 99,
    };
    let mut plain = EngineRig::new();
    let mut inputs = silent_inputs(4);
    inputs[0][2][0] = 0.5;
    let mut outputs = silent_inputs(4);
    let mut expected = silent_inputs(4);
    engine.process_block(&inputs, &mut outputs);
    plain.process_block(&inputs, &mut expected);
    assert_eq!(outputs, expected);
}
