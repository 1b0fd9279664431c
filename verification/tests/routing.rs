use loomix::bus::BusMono;
use loomix::elementary::Elementary;
use loomix::engine::Engine;
use loomix::signal_path::SignalPath;
use loomix::{CHANNELS, NUM_BUSES, NUM_STRIPS};

/// The machine's own functions.
struct Machine;

impl Elementary<f32> for Machine {
    fn root(&self, x: f32) -> f32 {
        x.sqrt()
    }

    fn exp(&self, x: f32) -> f32 {
        x.exp()
    }

    fn log10(&self, x: f32) -> f32 {
        x.log10()
    }

    fn power_of_ten(&self, x: f32) -> f32 {
        10f32.powf(x)
    }

    fn sinh(&self, x: f32) -> f32 {
        x.sinh()
    }

    fn angle(&self, turns: f32) -> f32 {
        2.0 * std::f32::consts::PI * turns
    }

    fn sine(&self, angle: f32) -> f32 {
        angle.sin()
    }

    fn cosine(&self, angle: f32) -> f32 {
        angle.cos()
    }

    fn count(&self, n: usize) -> f32 {
        n as f32
    }

    fn split(&self, x: f32) -> (usize, f32) {
        let whole = x.floor().max(0.0);
        (whole as usize, x - whole)
    }

    fn nearest(&self, x: f32) -> usize {
        x.round() as usize
    }

    fn floor(&self, x: f32) -> f32 {
        x.floor()
    }

    fn whole_up(&self, x: f32) -> usize {
        x.ceil() as usize
    }
}

type Frame = loomix::Frame<f32>;

/// A mixer: its settings, and its effects once it has played something.
struct EngineRig {
    engine: Engine<f32>,
    path: Option<SignalPath<f32>>,
}

impl EngineRig {
    fn new() -> Self {
        EngineRig {
            engine: Engine::<f32>::new(&Machine),
            path: None,
        }
    }

    fn process_block(&mut self, inputs: &Vec<Vec<Frame>>, outputs: &mut Vec<Vec<Frame>>) {
        let mut path = match self.path.take() {
            Some(path) => path,
            None => SignalPath::new(&Machine, &self.engine),
        };
        let frames = outputs[0].len();
        self.engine
            .process_block(&mut path, &Machine, frames, inputs, outputs);
        self.path = Some(path);
    }
}

impl std::ops::Deref for EngineRig {
    type Target = Engine<f32>;

    fn deref(&self) -> &Engine<f32> {
        &self.engine
    }
}

impl std::ops::DerefMut for EngineRig {
    fn deref_mut(&mut self) -> &mut Engine<f32> {
        &mut self.engine
    }
}

fn render_block(engine: &mut EngineRig, inputs: &[Vec<Frame>; NUM_STRIPS]) -> Vec<Vec<Frame>> {
    let mut path = match engine.path.take() {
        Some(path) => path,
        None => SignalPath::new(&Machine, &engine.engine),
    };
    let outputs =
        loomix::render::render_block(&mut engine.engine, &mut path, &Machine, &inputs.to_vec());
    engine.path = Some(path);
    outputs
}

fn sine_tone(frames: usize, sample_rate: f32, freq_hz: f32, channel: usize) -> Vec<Frame> {
    loomix::render::sine_tone(&Machine, frames, sample_rate, freq_hz, channel)
}

fn goertzel_magnitude(block: &[Frame], channel: usize, freq_hz: f32, sample_rate: f32) -> f32 {
    loomix::render::goertzel_magnitude(&Machine, &block.to_vec(), channel, freq_hz, sample_rate)
}

fn gain_db_to_linear(db: f32) -> f32 {
    loomix::fader::gain_db_to_linear(&Machine, db)
}

const SAMPLE_RATE: f32 = 48_000.0;
const BLOCK_LEN: usize = 1024;
const BIN_HZ: f32 = SAMPLE_RATE / BLOCK_LEN as f32;

fn strip_freq(strip: usize) -> f32 {
    (50 + strip * 7) as f32 * BIN_HZ
}

fn silence() -> Vec<Frame> {
    vec![[0.0; CHANNELS]; BLOCK_LEN]
}

fn tone(strip: usize) -> Vec<Frame> {
    sine_tone(BLOCK_LEN, SAMPLE_RATE, strip_freq(strip), 0)
}

fn mag(block: &[Frame], strip: usize) -> f32 {
    goertzel_magnitude(block, 0, strip_freq(strip), SAMPLE_RATE)
}

fn unity_mag() -> f32 {
    goertzel_magnitude(&tone(0), 0, strip_freq(0), SAMPLE_RATE)
}

fn assert_present(block: &[Frame], strip: usize, unity: f32, expected_linear_gain: f32) {
    let m = mag(block, strip);
    let expected = unity * expected_linear_gain;

    let tolerance = expected * 0.02 + unity * 0.005;
    assert!(
        (m - expected).abs() < tolerance,
        "strip {strip}: expected magnitude ~{expected}, got {m}"
    );
}

fn assert_absent(block: &[Frame], strip: usize, unity: f32) {
    let m = mag(block, strip);
    assert!(
        m < unity * 0.01,
        "strip {strip}: expected silence, got magnitude {m}"
    );
}

#[test]
fn matrix_every_cell_routes_only_its_own_strip_to_only_its_own_bus() {
    let unity = unity_mag();
    for bus in 0..NUM_BUSES {
        for strip in 0..NUM_STRIPS {
            let mut engine = EngineRig::new();
            for s in &mut engine.strips {
                s.bus_assign = [false; NUM_BUSES];
            }
            engine.strips[strip].bus_assign[bus] = true;

            let inputs: [Vec<Frame>; NUM_STRIPS] =
                std::array::from_fn(|s| if s == strip { tone(s) } else { silence() });
            let outputs = render_block(&mut engine, &inputs);

            for (b, out) in outputs.iter().enumerate() {
                if b == bus {
                    assert_present(out, strip, unity, 1.0);
                } else {
                    assert_absent(out, strip, unity);
                }
            }
        }
    }
}

#[test]
fn mute_silences_a_strip_on_every_bus_it_is_assigned_to() {
    let unity = unity_mag();
    for mask in 0u32..256 {
        let mut engine = EngineRig::new();
        for (s, strip) in engine.strips.iter_mut().enumerate() {
            strip.bus_assign = [true; NUM_BUSES];
            strip.mute = mask & (1 << s) != 0;
        }

        let inputs: [Vec<Frame>; NUM_STRIPS] = std::array::from_fn(tone);
        let outputs = render_block(&mut engine, &inputs);

        for out in &outputs {
            for s in 0..NUM_STRIPS {
                if mask & (1 << s) != 0 {
                    assert_absent(out, s, unity);
                } else {
                    assert_present(out, s, unity, 1.0);
                }
            }
        }
    }
}

#[test]
fn solo_silences_every_non_soloed_strip_when_any_strip_is_soloed() {
    let unity = unity_mag();
    for mask in 0u32..256 {
        let mut engine = EngineRig::new();
        for (s, strip) in engine.strips.iter_mut().enumerate() {
            strip.bus_assign = [true; NUM_BUSES];
            strip.solo = mask & (1 << s) != 0;
        }
        let any_solo = mask != 0;

        let inputs: [Vec<Frame>; NUM_STRIPS] = std::array::from_fn(tone);
        let outputs = render_block(&mut engine, &inputs);

        for out in &outputs {
            for s in 0..NUM_STRIPS {
                let soloed = mask & (1 << s) != 0;
                if any_solo && !soloed {
                    assert_absent(out, s, unity);
                } else {
                    assert_present(out, s, unity, 1.0);
                }
            }
        }
    }
}

#[test]
fn each_bus_reads_its_own_independent_gain_layer_for_a_strip() {
    let unity = unity_mag();
    let mut engine = EngineRig::new();
    engine.strips[0].bus_assign = [true; NUM_BUSES];
    let gains_db: [f32; NUM_BUSES] = std::array::from_fn(|b| -6.0 * b as f32);
    for (b, db) in gains_db.iter().enumerate() {
        engine.strips[0].set_gain_layer_db(b, *db);
    }

    let inputs: [Vec<Frame>; NUM_STRIPS] =
        std::array::from_fn(|s| if s == 0 { tone(0) } else { silence() });
    let outputs = render_block(&mut engine, &inputs);

    for (b, out) in outputs.iter().enumerate() {
        assert_present(out, 0, unity, gain_db_to_linear(gains_db[b]));
    }
}

#[test]
fn bus_mono_sums_channel_zero_and_one_onto_both() {
    let unity = unity_mag();
    let mut engine = EngineRig::new();
    engine.strips[0].bus_assign = [false; NUM_BUSES];
    engine.strips[0].bus_assign[0] = true;
    engine.strips[1].bus_assign = [false; NUM_BUSES];
    engine.strips[1].bus_assign[0] = true;
    engine.buses[0].mono = BusMono::Mono;

    let strip0_on_ch0 = sine_tone(BLOCK_LEN, SAMPLE_RATE, strip_freq(0), 0);
    let strip1_on_ch1 = sine_tone(BLOCK_LEN, SAMPLE_RATE, strip_freq(1), 1);
    let inputs: [Vec<Frame>; NUM_STRIPS] = std::array::from_fn(|s| match s {
        0 => strip0_on_ch0.clone(),
        1 => strip1_on_ch1.clone(),
        _ => silence(),
    });
    let outputs = render_block(&mut engine, &inputs);

    let ch0_freq0 = goertzel_magnitude(&outputs[0], 0, strip_freq(0), SAMPLE_RATE);
    let ch1_freq0 = goertzel_magnitude(&outputs[0], 1, strip_freq(0), SAMPLE_RATE);
    let ch0_freq1 = goertzel_magnitude(&outputs[0], 0, strip_freq(1), SAMPLE_RATE);
    let ch1_freq1 = goertzel_magnitude(&outputs[0], 1, strip_freq(1), SAMPLE_RATE);
    for m in [ch0_freq0, ch1_freq0, ch0_freq1, ch1_freq1] {
        assert!(
            (m - unity * 0.5).abs() < unity * 0.02,
            "expected half-amplitude on both channels, got {m}"
        );
    }
}

#[test]
fn bus_stereo_reverse_swaps_channel_zero_and_one_exactly() {
    let mut engine = EngineRig::new();
    engine.strips[0].bus_assign = [false; NUM_BUSES];
    engine.strips[0].bus_assign[0] = true;
    engine.buses[0].mono = BusMono::StereoReverse;

    let mut input = silence();
    for (n, frame) in input.iter_mut().enumerate() {
        frame[0] = n as f32 * 0.001;
        frame[1] = -(n as f32) * 0.002;
    }
    let inputs: [Vec<Frame>; NUM_STRIPS] =
        std::array::from_fn(|s| if s == 0 { input.clone() } else { silence() });
    let outputs = render_block(&mut engine, &inputs);

    for (out_frame, in_frame) in outputs[0].iter().zip(input.iter()) {
        assert_eq!(out_frame[0], in_frame[1]);
        assert_eq!(out_frame[1], in_frame[0]);
    }
}

#[test]
fn strip_mono_sums_its_own_channel_zero_and_one_before_the_bus() {
    let unity = unity_mag();
    let mut engine = EngineRig::new();
    engine.strips[0].bus_assign = [false; NUM_BUSES];
    engine.strips[0].bus_assign[0] = true;
    engine.strips[0].mono = true;

    let mut input = silence();
    let strip0_ch0 = sine_tone(BLOCK_LEN, SAMPLE_RATE, strip_freq(0), 0);
    let strip0_ch1 = sine_tone(BLOCK_LEN, SAMPLE_RATE, strip_freq(1), 1);
    for n in 0..BLOCK_LEN {
        input[n][0] = strip0_ch0[n][0];
        input[n][1] = strip0_ch1[n][1];
    }
    let inputs: [Vec<Frame>; NUM_STRIPS] =
        std::array::from_fn(|s| if s == 0 { input.clone() } else { silence() });
    let outputs = render_block(&mut engine, &inputs);

    let ch0_freq0 = goertzel_magnitude(&outputs[0], 0, strip_freq(0), SAMPLE_RATE);
    let ch1_freq0 = goertzel_magnitude(&outputs[0], 1, strip_freq(0), SAMPLE_RATE);
    let ch0_freq1 = goertzel_magnitude(&outputs[0], 0, strip_freq(1), SAMPLE_RATE);
    let ch1_freq1 = goertzel_magnitude(&outputs[0], 1, strip_freq(1), SAMPLE_RATE);
    for m in [ch0_freq0, ch1_freq0, ch0_freq1, ch1_freq1] {
        assert!(
            (m - unity * 0.5).abs() < unity * 0.02,
            "expected half-amplitude on both channels, got {m}"
        );
    }
}

#[test]
fn goertzel_finds_the_tone_it_was_given_and_nothing_else() {
    let sample_rate = 48_000.0;
    let block = sine_tone(2048, sample_rate, 1000.0, 0);
    let at_tone = goertzel_magnitude(&block, 0, 1000.0, sample_rate);
    let off_tone = goertzel_magnitude(&block, 0, 3000.0, sample_rate);
    let wrong_channel = goertzel_magnitude(&block, 1, 1000.0, sample_rate);
    assert!(at_tone > 100.0);
    assert!(off_tone < at_tone * 0.01);
    assert_eq!(wrong_channel, 0.0);
}

#[test]
fn render_block_is_deterministic() {
    let mut engine = EngineRig::new();
    let inputs: [Vec<Frame>; NUM_STRIPS] =
        std::array::from_fn(|s| sine_tone(64, 48_000.0, 200.0 + s as f32 * 50.0, 0));
    let a = render_block(&mut engine, &inputs);
    let b = render_block(&mut engine, &inputs);
    assert_eq!(a, b);
}

/// A spread of numbers between nought and one.
struct Spread {
    state: u32,
}

impl Spread {
    fn next(&mut self) -> f32 {
        self.state = self.state.wrapping_mul(1_664_525).wrapping_add(1_013_904_223);
        (self.state >> 8) as f32 / 16_777_216.0
    }

    fn coin(&mut self) -> bool {
        self.next() < 0.5
    }

    fn db(&mut self) -> f32 {
        -60.0 + 72.0 * self.next()
    }
}

#[test]
fn any_parameter_sequence_keeps_the_engine_finite_and_bounded() {
    let mut spread = Spread { state: 7 };
    for _ in 0..40 {
        let mut engine = EngineRig::new();
        for strip in engine.strips.iter_mut() {
            strip.mute = spread.coin();
            strip.solo = spread.coin();
            strip.mono = spread.coin();
            for b in 0..NUM_BUSES {
                strip.bus_assign[b] = spread.coin();
                strip.set_gain_layer_db(b, spread.db());
            }
        }
        for bus in engine.buses.iter_mut() {
            bus.mute = spread.coin();
            bus.mono = match (spread.next() * 3.0) as u32 {
                0 => BusMono::Off,
                1 => BusMono::Mono,
                _ => BusMono::StereoReverse,
            };
            bus.set_gain_db(spread.db());
        }
        let mut block = vec![[0.0f32; CHANNELS]; 32];
        for frame in block.iter_mut() {
            for sample in frame.iter_mut() {
                *sample = 2.0 * spread.next() - 1.0;
            }
        }
        let inputs: [Vec<Frame>; NUM_STRIPS] = std::array::from_fn(|_| block.clone());

        let outputs = render_block(&mut engine, &inputs);

        let max_gain = gain_db_to_linear(12.0);
        let bound = NUM_STRIPS as f32 * max_gain * max_gain + 1e-3;
        for out in &outputs {
            for frame in out {
                for &s in frame {
                    assert!(s.is_finite(), "non-finite sample: {s}");
                    assert!(s.abs() <= bound, "unbounded sample: {s} > {bound}");
                }
            }
        }
        for b in 0..NUM_BUSES {
            for c in 0..CHANNELS {
                assert!(engine.bus_meter(b).peak(c).is_finite());
            }
        }
    }
}

#[test]
fn a_negative_frequency_is_found_where_its_positive_one_is() {
    let block = sine_tone(2048, 48_000.0, 1000.0, 0);
    let there = goertzel_magnitude(&block, 0, 1000.0, 48_000.0);
    let mirrored = goertzel_magnitude(&block, 0, -1000.0, 48_000.0);
    let at_nought = goertzel_magnitude(&block, 0, 0.0, 48_000.0);
    assert!((there - mirrored).abs() < 0.01 * there);
    assert!(at_nought < 0.1 * there);
}
