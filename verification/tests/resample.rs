use loomix::drift::{DriftCorrector, PiController};
use loomix::elementary::Elementary;
use loomix::precision::Precision;
use loomix::render::{goertzel_magnitude, sine_tone};
use loomix::resample::{Resampler, TAPS};
use loomix::rt_assert::assert_realtime;
use loomix::{Frame, CHANNELS};

/// The machine's own functions.
struct Machine;

impl Elementary<f32> for Machine {
    fn root(&self, x: f32) -> f32 {
        x.sqrt()
    }

    fn exp(&self, x: f32) -> f32 {
        x.exp()
    }

    fn log10(&self, x: f32) -> f32 {
        x.log10()
    }

    fn power_of_ten(&self, x: f32) -> f32 {
        10f32.powf(x)
    }

    fn sinh(&self, x: f32) -> f32 {
        x.sinh()
    }

    fn angle(&self, turns: f32) -> f32 {
        2.0 * std::f32::consts::PI * turns
    }

    fn sine(&self, angle: f32) -> f32 {
        angle.sin()
    }

    fn cosine(&self, angle: f32) -> f32 {
        angle.cos()
    }

    fn count(&self, n: usize) -> f32 {
        n as f32
    }

    fn split(&self, x: f32) -> (usize, f32) {
        let whole = x.floor().max(0.0);
        (whole as usize, x - whole)
    }

    fn nearest(&self, x: f32) -> usize {
        x.round() as usize
    }

    fn floor(&self, x: f32) -> f32 {
        x.floor()
    }

    fn whole_up(&self, x: f32) -> usize {
        x.ceil() as usize
    }
}

impl Precision<f32, f64> for Machine {
    fn widen(&self, x: f32) -> f64 {
        x as f64
    }

    fn narrow(&self, x: f64) -> f32 {
        x as f32
    }

    fn count(&self, frames: u64) -> f64 {
        frames as f64
    }

    fn nearest(&self, x: f64) -> usize {
        x.round() as usize
    }

    fn times_pi(&self, x: f64) -> f64 {
        std::f64::consts::PI * x
    }

    fn sine(&self, angle: f64) -> f64 {
        angle.sin()
    }

    fn cosine(&self, angle: f64) -> f64 {
        angle.cos()
    }

    fn to_bits(&self, x: f32) -> u32 {
        x.to_bits()
    }

    fn of_bits(&self, bits: u32) -> f32 {
        f32::from_bits(bits)
    }
}

const BLOCK_FRAMES: f32 = 128.0;

fn new_corrector() -> DriftCorrector<f32> {
    DriftCorrector::new(PiController::new(2e-5, 5e-7, 0.01), 500.0)
}

struct Xorshift32(u32);
impl Xorshift32 {
    fn next_unit(&mut self) -> f32 {
        let mut x = self.0;
        x ^= x << 13;
        x ^= x >> 17;
        x ^= x << 5;
        self.0 = x;

        (x as f32 / u32::MAX as f32) * 2.0 - 1.0
    }
}

fn simulate(
    blocks: usize,
    mut rate_factor: impl FnMut(usize) -> f32,
    mut correct: impl FnMut(f32) -> f32,
) -> Vec<(f32, f32)> {
    let mut device_cumulative = 0.0_f64;
    let mut applied_ratio = 1.0_f32;
    let mut history = Vec::with_capacity(blocks);
    for i in 0..blocks {
        let master_cumulative = (i + 1) as f64 * BLOCK_FRAMES as f64;
        device_cumulative += BLOCK_FRAMES as f64 * rate_factor(i) as f64 * applied_ratio as f64;
        let error = (device_cumulative - master_cumulative) as f32;
        let ratio = correct(error);
        history.push((error, ratio));
        applied_ratio = ratio;
    }
    history
}

#[test]
fn converges_to_a_steady_ppm_offset_and_stays_bounded() {
    let ppm = 500.0;
    let mut corrector = new_corrector();
    let history = simulate(50_000, |_| 1.0 + ppm / 1e6, |e| corrector.update(e));

    let settled = &history[history.len() / 2..];
    let max_abs_error = settled.iter().map(|(e, _)| e.abs()).fold(0.0, f32::max);
    assert!(
        max_abs_error < 200.0,
        "drift should stay bounded once settled, got max |error| = {max_abs_error}"
    );
}

#[test]
fn a_naive_fixed_ratio_fails_the_same_scenario() {
    let ppm = 500.0;
    let history = simulate(50_000, |_| 1.0 + ppm / 1e6, |_| 1.0);

    let final_error = history.last().unwrap().0.abs();
    assert!(
        final_error > 2000.0,
        "a fixed-ratio resampler is expected to drift unboundedly here \
         (that's the point of this test) but only reached |error| = {final_error}"
    );
}

#[test]
fn tracks_a_slow_drift_ramp() {
    let mut corrector = new_corrector();
    let history = simulate(
        80_000,
        |i| 1.0 + (i as f32 / 80_000.0) * 300.0 / 1e6,
        |e| corrector.update(e),
    );

    let settled = &history[history.len() / 2..];
    let max_abs_error = settled.iter().map(|(e, _)| e.abs()).fold(0.0, f32::max);
    assert!(
        max_abs_error < 400.0,
        "a slow ramp should still be tracked within a bound, got max |error| = {max_abs_error}"
    );
}

#[test]
fn rejects_single_block_jitter_instead_of_chasing_it() {
    let mut rng = Xorshift32(0x1234_5678);
    let mut corrector = new_corrector();
    let history = simulate(
        10_000,
        move |_| 1.0 + (rng.next_unit() * 20.0) / 1e6,
        |e| corrector.update(e),
    );

    let settled = &history[1000..];
    let max_ratio_deviation = settled
        .iter()
        .map(|(_, r)| (r - 1.0).abs())
        .fold(0.0, f32::max);
    assert!(
        max_ratio_deviation < 0.0005,
        "per-block jitter should barely move the ratio, got max deviation = {max_ratio_deviation}"
    );
}

#[test]
fn discontinuous_clock_jump_recovers_ratio_but_a_plain_pi_loop_stays_biased() {
    let jump_at = 100;
    let jump_samples = 3000.0;
    let rate_factor = move |i: usize| {
        if i == jump_at {
            1.0 + jump_samples / BLOCK_FRAMES
        } else {
            1.0
        }
    };

    let mut plain_pi = PiController::new(2e-5, 5e-7, 0.01);
    let plain_history = simulate(jump_at + 2000, rate_factor, |e| plain_pi.update(e));

    let mut corrector = new_corrector();
    let corrected_history = simulate(jump_at + 2000, rate_factor, |e| corrector.update(e));

    let plain_ratio_bias = (plain_history.last().unwrap().1 - 1.0).abs();
    assert!(
        plain_ratio_bias > 0.001,
        "a plain PI loop is expected to stay biased after the jump \
         (that's the point of this test), got bias = {plain_ratio_bias}"
    );

    let recovered = &corrected_history[jump_at + 10..];
    let max_ratio_deviation = recovered
        .iter()
        .map(|(_, r)| (r - 1.0).abs())
        .fold(0.0, f32::max);
    assert!(
        max_ratio_deviation < 0.001,
        "the discontinuity-aware corrector should recover its ratio to \
         near 1.0 shortly after the jump, got max deviation = {max_ratio_deviation}"
    );
}

fn as_frames(mono: &[f32]) -> Vec<Frame<f32>> {
    mono.iter()
        .map(|&s| {
            let mut f = [0.0; CHANNELS];
            f[0] = s;
            f
        })
        .collect()
}

fn magnitude_at(mono: &[f32], freq_hz: f32, sample_rate: f32) -> f32 {
    goertzel_magnitude(&Machine, &as_frames(mono), 0, freq_hz, sample_rate)
}

fn run_all_at_once(resampler: &mut Resampler<f32, f64>, ratio: f32, input: &[f32]) -> Vec<f32> {
    let mut output = vec![0.0; (input.len() as f32 * ratio).ceil() as usize + TAPS];
    let (written, _consumed) = resampler.process(&Machine, ratio, input, &mut output);
    output.truncate(written);
    output
}

#[test]
fn ratio_one_passes_a_sub_nyquist_tone_at_near_unity_gain() {
    let sample_rate = 48_000.0;
    let input_frames = sine_tone(&Machine, 4096, sample_rate, 1_000.0, 0);
    let input: Vec<f32> = input_frames.iter().map(|f| f[0]).collect();

    let mut resampler = Resampler::<f32, f64>::new(&Machine);
    let output = run_all_at_once(&mut resampler, 1.0, &input);

    let in_mag = magnitude_at(&input, 1_000.0, sample_rate);
    let out_mag = magnitude_at(&output, 1_000.0, sample_rate);
    let gain = out_mag / in_mag;
    assert!(
        (0.95..=1.05).contains(&gain),
        "a sub-Nyquist tone should pass near unity gain at ratio 1.0, got gain = {gain}"
    );
}

#[test]
fn resamples_a_tone_to_the_predicted_output_frequency() {
    let sample_rate = 48_000.0;
    let ratio = 1.02_f32;
    let f_in = 1_000.0_f32;
    let input_frames = sine_tone(&Machine, 8192, sample_rate, f_in, 0);
    let input: Vec<f32> = input_frames.iter().map(|f| f[0]).collect();

    let mut resampler = Resampler::<f32, f64>::new(&Machine);
    let output = run_all_at_once(&mut resampler, ratio, &input);

    let f_out_predicted = f_in / ratio;
    let at_predicted = magnitude_at(&output, f_out_predicted, sample_rate);
    let at_original = magnitude_at(&output, f_in, sample_rate);
    assert!(
        at_predicted > at_original * 5.0,
        "expected the resampled tone's energy at the predicted frequency \
         {f_out_predicted} Hz to dominate over the original {f_in} Hz, \
         got {at_predicted} vs {at_original}"
    );
}

#[test]
fn no_large_jump_between_consecutive_output_samples_under_a_drifting_ratio() {
    let sample_rate = 48_000.0;
    let input_frames = sine_tone(&Machine, 20_000, sample_rate, 440.0, 0);
    let input: Vec<f32> = input_frames.iter().map(|f| f[0]).collect();

    let mut resampler = Resampler::<f32, f64>::new(&Machine);
    let mut output = Vec::new();
    let mut in_pos = 0;
    let mut ratio = 1.0_f32;
    while in_pos < input.len() {
        let chunk_end = (in_pos + 64).min(input.len());
        let chunk = &input[in_pos..chunk_end];
        let mut out_chunk = vec![0.0_f32; 96];
        let (written, consumed) = resampler.process(&Machine, ratio, chunk, &mut out_chunk);
        output.extend_from_slice(&out_chunk[..written]);
        in_pos += consumed;

        ratio += 0.0002;
    }

    let max_step = output
        .windows(2)
        .map(|w| (w[1] - w[0]).abs())
        .fold(0.0_f32, f32::max);

    assert!(
        max_step < 0.2,
        "a click-free resampler should not produce large sample-to-sample \
         jumps under a slowly drifting ratio, got max step = {max_step}"
    );
}

#[test]
fn realtime_process_does_not_allocate() {
    let mut resampler = Resampler::<f32, f64>::new(&Machine);

    let warm = vec![0.0_f32; TAPS * 2];
    let mut scratch = vec![0.0_f32; TAPS * 2];
    resampler.process(&Machine, 1.0, &warm, &mut scratch);

    let input = [0.1_f32; 128];
    let mut output = vec![0.0_f32; 128];
    assert_realtime(|| {
        resampler.process(&Machine, 1.0, &input, &mut output);
    });
}

#[test]
fn output_stays_finite_and_bounded_under_random_ratio_automation() {
    let mut rng = Xorshift32(0x9e37_79b9);
    for _ in 0..8 {
        let samples: Vec<f32> = (0..200).map(|_| rng.next_unit()).collect();
        let mut resampler = Resampler::<f32, f64>::new(&Machine);
        let mut output = vec![0.0_f32; samples.len() * 2 + TAPS];
        for _ in 0..50 {
            let ratio = 1.0 + 0.02 * rng.next_unit();
            let (written, _) = resampler.process(&Machine, ratio, &samples, &mut output);
            for &sample in &output[..written] {
                assert!(sample.is_finite());
                assert!(sample.abs() <= 4.0);
            }
        }
    }
}

#[test]
fn a_resampler_handed_a_block_in_two_pieces_writes_what_it_writes_of_the_whole() {
    let tone: Vec<f32> = sine_tone(&Machine, 512, 48_000.0, 440.0, 0)
        .iter()
        .map(|f| f[0])
        .collect();
    let mut whole = vec![0.0_f32; 1024];
    let mut once = Resampler::<f32, f64>::new(&Machine);
    let (written, _) = once.process(&Machine, 1.01, &tone, &mut whole);

    let mut twice = Resampler::<f32, f64>::new(&Machine);
    let mut first = vec![0.0_f32; 1024];
    let mut second = vec![0.0_f32; 1024];
    let (a, consumed) = twice.process(&Machine, 1.01, &tone[..200], &mut first);
    assert_eq!(consumed, 200);
    let (b, _) = twice.process(&Machine, 1.01, &tone[200..], &mut second);
    assert_eq!(a + b, written);
    assert_eq!(&first[..a], &whole[..a]);
    assert_eq!(&second[..b], &whole[a..written]);
}

#[test]
fn input_in_two_pieces_gives_what_it_gives_in_one() {
    let input: Vec<f32> = (0..400).map(|n| (n as f32 * 0.21).sin()).collect();
    for cut in [0, 1, 7, 32, 199, 400] {
        let mut whole = Resampler::<f32, f64>::new(&Machine);
        let mut pieces = Resampler::<f32, f64>::new(&Machine);
        let mut at_once = vec![0.0f32; 1000];
        let (n, taken) = whole.process(&Machine, 1.03, &input, &mut at_once);
        let mut first = vec![0.0f32; 1000];
        let (a, taken_a) = pieces.process(&Machine, 1.03, &input[..cut], &mut first);
        assert_eq!(taken_a, cut);
        let mut second = vec![0.0f32; 1000 - a];
        let (b, taken_b) = pieces.process(&Machine, 1.03, &input[cut..], &mut second);
        assert_eq!(taken, taken_a + taken_b);
        assert_eq!(n, a + b);
        let joined: Vec<f32> = first[..a].iter().chain(&second[..b]).copied().collect();
        assert_eq!(at_once[..n], joined[..]);
    }
}

#[test]
fn a_ratio_that_is_no_number_still_ends() {
    let mut resampler = Resampler::<f32, f64>::new(&Machine);
    let input = vec![0.5f32; 64];
    let mut output = vec![0.0f32; 32];
    let (written, taken) = resampler.process(&Machine, f32::NAN, &input, &mut output);
    assert!(written <= 32 && taken <= 64);
    assert_eq!(written, 32);
}

#[test]
fn the_ratio_never_leaves_its_bound_around_one() {
    let mut corrector = new_corrector();
    let bound = corrector.pi.max_correction;
    for n in 0..2000 {
        let error = ((n * 7919) % 1001) as f32 - 500.0;
        let ratio = corrector.update(error);
        assert!(ratio == 1.0 || (1.0 - bound <= ratio && ratio <= 1.0 + bound), "{ratio}");
    }
    assert_eq!(corrector.update(1.0e9), 1.0);
}

#[test]
fn in_fixed_point_the_ratio_keeps_its_bound_and_forgets_a_jump() {
    let fixed = |raw: i64| loomix::fixed::Fixed { raw };
    let pi = PiController::new(fixed(655), fixed(33), fixed(655));
    let mut corrector = DriftCorrector::new(pi, fixed(500 * 65_536));
    let mut fresh = corrector;
    for e in [1i64 << 40, -3, 70_000, i64::MAX / 4, -(1 << 24), 65_536] {
        let ratio = corrector.update(fixed(e)).raw;
        assert!((65_536 - 655..=65_536 + 655).contains(&ratio), "{ratio}");
    }
    assert_eq!(corrector.update(fixed(501 * 65_536)).raw, 65_536);
    for e in [65_536i64, 7, -90_000] {
        assert_eq!(corrector.update(fixed(e)).raw, fresh.update(fixed(e)).raw);
    }
}
