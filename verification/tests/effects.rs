use loomix::elementary::Elementary;
use loomix::eq3::{ThreeBandEq, ThreeBandFilter};
use loomix::fixed::Fixed;
use loomix::intellipan::{ColorPad, IntellipanMode, IntellipanPads, PadPosition};
use loomix::karaoke::{Karaoke, KaraokeMode, VocalNotch};
use loomix::knob_curve::{fraction, lerp};
use loomix::limiter::Limiter;
use loomix::meter::{Ballistics, Meter};
use loomix::pan::{PositionPad5_1, StereoBalance};
use loomix::rt_assert::assert_realtime;
use loomix::strip_path::PadPath;
use loomix::{Frame, CHANNELS, CH_FL, CH_FR, CH_RL, CH_RR};

/// The machine's own functions.
struct Machine;

impl Elementary<f32> for Machine {
    fn root(&self, x: f32) -> f32 {
        x.sqrt()
    }

    fn exp(&self, x: f32) -> f32 {
        x.exp()
    }

    fn log10(&self, x: f32) -> f32 {
        x.log10()
    }

    fn power_of_ten(&self, x: f32) -> f32 {
        10f32.powf(x)
    }

    fn sinh(&self, x: f32) -> f32 {
        x.sinh()
    }

    fn angle(&self, turns: f32) -> f32 {
        2.0 * std::f32::consts::PI * turns
    }

    fn sine(&self, angle: f32) -> f32 {
        angle.sin()
    }

    fn cosine(&self, angle: f32) -> f32 {
        angle.cos()
    }

    fn count(&self, n: usize) -> f32 {
        n as f32
    }

    fn split(&self, x: f32) -> (usize, f32) {
        let whole = x.floor().max(0.0);
        (whole as usize, x - whole)
    }

    fn nearest(&self, x: f32) -> usize {
        x.round() as usize
    }

    fn floor(&self, x: f32) -> f32 {
        x.floor()
    }

    fn whole_up(&self, x: f32) -> usize {
        x.ceil() as usize
    }
}

/// A full-amplitude sine tone.
fn sine(samples: usize, sample_rate: f32, freq_hz: f32) -> Vec<f32> {
    (0..samples)
        .map(|n| (2.0 * std::f32::consts::PI * freq_hz * n as f32 / sample_rate).sin())
        .collect()
}

/// How much of one frequency is in a signal.
fn goertzel_magnitude(signal: &[f32], freq_hz: f32, sample_rate: f32) -> f32 {
    let n = signal.len() as f32;
    let k = (0.5 + (n * freq_hz) / sample_rate).floor();
    let omega = (2.0 * std::f32::consts::PI / n) * k;
    let coeff = 2.0 * omega.cos();
    let (mut q1, mut q2) = (0.0f32, 0.0f32);
    for &x in signal {
        let q0 = coeff * q1 - q2 + x;
        q2 = q1;
        q1 = q0;
    }
    (q1 * q1 + q2 * q2 - q1 * q2 * coeff).sqrt()
}

const SR: f32 = 48_000.0;

struct ThreeBandRig {
    eq: ThreeBandEq<f32>,
    filter: ThreeBandFilter<f32>,
}

impl ThreeBandRig {
    fn new() -> Self {
        ThreeBandRig {
            eq: ThreeBandEq::new(),
            filter: ThreeBandFilter::new(),
        }
    }

    fn set_gains(&mut self, bass_db: f32, mid_db: f32, treble_db: f32) {
        self.eq.set_gains(bass_db, mid_db, treble_db);
        self.filter.recompute(&Machine, SR, &self.eq);
    }

    fn process(&mut self, frame: &mut Frame<f32>) {
        self.filter.process(frame);
    }
}

struct KaraokeRig {
    mode: KaraokeMode,
    notch: VocalNotch<f32>,
}

impl KaraokeRig {
    fn new() -> Self {
        let mut notch = VocalNotch::new();
        notch.retune(&Machine, SR);
        KaraokeRig {
            mode: KaraokeMode::Off,
            notch,
        }
    }

    fn process(&mut self, l: &mut f32, r: &mut f32) {
        let karaoke = Karaoke { mode: self.mode };
        self.notch.process(&karaoke, l, r);
    }
}

struct PadRig {
    pads: IntellipanPads<f32>,
    path: PadPath<f32>,
}

impl PadRig {
    fn in_mode(mode: IntellipanMode) -> Self {
        let mut rig = PadRig {
            pads: IntellipanPads::new(),
            path: PadPath::new(),
        };
        rig.set_mode(mode);
        rig
    }

    fn set_mode(&mut self, mode: IntellipanMode) {
        self.pads.set_mode(mode);
        self.path.reset(mode);
    }

    fn set_position(&mut self, x: f32, y: f32) {
        self.pads.set_position(x, y);
        if self.pads.mode() == IntellipanMode::Color {
            self.path.color.recompute(&Machine, SR, &self.pads.color);
        }
    }

    fn process(&mut self, frame: &mut Frame<f32>) {
        self.path.process(&Machine, &self.pads, SR, frame);
    }
}

#[test]
fn null_test_all_flat_is_bit_exact_passthrough() {
    let mut eq = ThreeBandRig::new();
    eq.set_gains(0.0, 0.0, 0.0);
    for n in 0..1000 {
        let orig: Frame<f32> = std::array::from_fn(|c| ((n * (c as i32 + 1)) as f32 * 0.017).sin());
        let mut frame = orig;
        eq.process(&mut frame);
        assert_eq!(frame, orig);
    }
}

#[test]
fn frequency_response_mid_band_boosts_only_near_its_center() {
    let make_tone = |freq: f32| -> Vec<Frame<f32>> {
        sine(4096, SR, freq)
            .into_iter()
            .map(|s| {
                let mut f = [0.0; CHANNELS];
                f[0] = s;
                f[1] = s;
                f
            })
            .collect()
    };

    let center = make_tone(1000.0);
    let mut eq_center = ThreeBandRig::new();
    eq_center.set_gains(0.0, 12.0, 0.0);
    let mut out_center = center.clone();
    for f in out_center.iter_mut() {
        eq_center.process(f);
    }
    let center_in: Vec<f32> = center.iter().map(|f| f[0]).collect();
    let center_out: Vec<f32> = out_center.iter().map(|f| f[0]).collect();
    let boost_db = 20.0
        * (goertzel_magnitude(&center_out, 1000.0, SR)
            / goertzel_magnitude(&center_in, 1000.0, SR))
        .log10();
    assert!((boost_db - 12.0).abs() < 0.5, "boost={boost_db}");
}

#[test]
fn eq3_stability_random_automation_never_produces_nan_or_infinity() {
    let mut eq = ThreeBandRig::new();
    let mut seed = 21u32;
    let mut rand = move || {
        seed = seed.wrapping_mul(1_664_525).wrapping_add(1_013_904_223);
        (seed >> 8) as f32 / (1u32 << 24) as f32
    };
    for _ in 0..10_000 {
        eq.set_gains(
            rand() * 24.0 - 12.0,
            rand() * 24.0 - 12.0,
            rand() * 24.0 - 12.0,
        );
        let mut frame: Frame<f32> = std::array::from_fn(|_| rand() * 2.0 - 1.0);
        eq.process(&mut frame);
        assert!(frame.iter().all(|s| s.is_finite()));
    }
}

#[test]
fn null_test_off_is_bit_exact_passthrough() {
    let mut k = KaraokeRig::new();
    for n in 0..1000 {
        let orig_l = (n as f32 * 0.013).sin();
        let orig_r = (n as f32 * 0.027).cos();
        let mut l = orig_l;
        let mut r = orig_r;
        k.process(&mut l, &mut r);
        assert_eq!(l, orig_l);
        assert_eq!(r, orig_r);
    }
}

#[test]
fn known_answer_km_silences_identical_left_and_right() {
    let mut k = KaraokeRig::new();
    k.mode = KaraokeMode::KM;
    for n in 0..100 {
        let s = (n as f32 * 0.1).sin();
        let mut l = s;
        let mut r = s;
        k.process(&mut l, &mut r);
        assert!(l.abs() < 1e-6, "l={l}");
        assert!(r.abs() < 1e-6, "r={r}");
    }
}

#[test]
fn known_answer_km_is_exact_half_difference() {
    let mut k = KaraokeRig::new();
    k.mode = KaraokeMode::KM;
    let mut l = 0.6f32;
    let mut r = 0.2f32;
    k.process(&mut l, &mut r);
    assert!((l - 0.2).abs() < 1e-6);
    assert!((r - -0.2).abs() < 1e-6);
}

#[test]
fn frequency_response_kv_removes_vocal_band_and_leaves_bass_alone() {
    let mut k = KaraokeRig::new();
    k.mode = KaraokeMode::KV;
    let center = sine(4096, SR, 894.427);
    let mut out_center = Vec::with_capacity(center.len());
    for &s in &center {
        let mut l = s;
        let mut r = s;
        k.process(&mut l, &mut r);
        out_center.push(l);
    }
    let center_gain = goertzel_magnitude(&out_center, 894.427, SR)
        / goertzel_magnitude(&center, 894.427, SR);
    assert!(
        center_gain < 0.1,
        "vocal band center should be heavily attenuated: {center_gain}"
    );

    let mut k_bass = KaraokeRig::new();
    k_bass.mode = KaraokeMode::KV;
    let bass = sine(4096, SR, 60.0);
    let mut out_bass = Vec::with_capacity(bass.len());
    for &s in &bass {
        let mut l = s;
        let mut r = s;
        k_bass.process(&mut l, &mut r);
        out_bass.push(l);
    }
    let bass_gain =
        goertzel_magnitude(&out_bass, 60.0, SR) / goertzel_magnitude(&bass, 60.0, SR);
    assert!(
        (bass_gain - 1.0).abs() < 0.1,
        "bass should pass close to unity: {bass_gain}"
    );
}

#[test]
fn k2_removes_less_than_k1_which_removes_less_than_kv() {
    let measure = |mode: KaraokeMode| -> f32 {
        let mut k = KaraokeRig::new();
        k.mode = mode;
        let tone = sine(4096, SR, 894.427);
        let mut out = Vec::with_capacity(tone.len());
        for &s in &tone {
            let mut l = s;
            let mut r = s;
            k.process(&mut l, &mut r);
            out.push(l);
        }
        goertzel_magnitude(&out, 894.427, SR)
            / goertzel_magnitude(&tone, 894.427, SR)
    };
    let g_k2 = measure(KaraokeMode::K2);
    let g_k1 = measure(KaraokeMode::K1);
    let g_kv = measure(KaraokeMode::KV);
    assert!(
        g_k2 > g_k1,
        "K2 ({g_k2}) should remove less than K1 ({g_k1})"
    );
    assert!(
        g_k1 > g_kv,
        "K1 ({g_k1}) should remove less than KV ({g_kv})"
    );
}

#[test]
fn karaoke_stability_random_automation_never_produces_nan_or_infinity() {
    let mut k = KaraokeRig::new();
    let modes = [
        KaraokeMode::Off,
        KaraokeMode::KM,
        KaraokeMode::K1,
        KaraokeMode::K2,
        KaraokeMode::KV,
    ];
    let mut seed = 11u32;
    let mut rand = move || {
        seed = seed.wrapping_mul(1_664_525).wrapping_add(1_013_904_223);
        (seed >> 8) as f32 / (1u32 << 24) as f32
    };
    for i in 0..10_000 {
        k.mode = modes[i % modes.len()];
        let mut l = rand() * 2.0 - 1.0;
        let mut r = rand() * 2.0 - 1.0;
        k.process(&mut l, &mut r);
        assert!(l.is_finite() && r.is_finite());
    }
}

#[test]
fn null_test_color_at_center_x_is_bit_exact_passthrough() {
    let mut pad = PadRig::in_mode(IntellipanMode::Color);
    for n in 0..1000 {
        let orig: Frame<f32> = std::array::from_fn(|c| ((n * (c as i32 + 1)) as f32 * 0.017).sin());
        let mut frame = orig;
        pad.process(&mut frame);
        assert_eq!(frame, orig);
    }
}

#[test]
fn null_test_position_at_origin_is_bit_exact_passthrough() {
    let mut pad = PadRig::in_mode(IntellipanMode::Position);
    for n in 0..1000 {
        let mut frame: Frame<f32> = [0.0; CHANNELS];
        frame[0] = (n as f32 * 0.013).sin();
        frame[1] = (n as f32 * 0.027).cos();
        let orig = frame;
        pad.process(&mut frame);
        assert_eq!(frame, orig);
    }
}

#[test]
fn null_test_modulation_at_y_zero_is_bit_exact_passthrough() {
    let mut pad = PadRig::in_mode(IntellipanMode::Modulation);
    pad.set_position(-0.5, 0.0);
    for n in 0..1000 {
        let orig_l = (n as f32 * 0.013).sin();
        let orig_r = (n as f32 * 0.027).cos();
        let mut frame: Frame<f32> = [0.0; CHANNELS];
        frame[0] = orig_l;
        frame[1] = orig_r;
        pad.process(&mut frame);
        assert_eq!(frame[0], orig_l);
        assert_eq!(frame[1], orig_r);
    }
}

#[test]
fn known_answer_color_boosts_treble_and_cuts_bass_at_positive_x() {
    let mut pad = PadRig::in_mode(IntellipanMode::Color);
    pad.set_position(0.5, 0.0);
    let mut frame: Frame<f32> = [0.0; CHANNELS];
    frame[0] = 1.0;
    frame[1] = 1.0;
    pad.process(&mut frame);

    assert_ne!(frame[0], 1.0);
}

#[test]
fn known_answer_position_hard_left_silences_the_right_channel_gain() {
    let mut pad = PadRig::in_mode(IntellipanMode::Position);
    pad.set_position(-0.5, 0.0);
    for _ in 0..10 {
        let mut frame: Frame<f32> = [0.0; CHANNELS];
        frame[0] = 1.0;
        frame[1] = 1.0;
        pad.process(&mut frame);
        assert_eq!(frame[1], 0.0);
    }
}

#[test]
fn mode_switching_does_not_leak_state_between_modes() {
    let mut pad = PadRig::in_mode(IntellipanMode::Color);
    pad.set_mode(IntellipanMode::Modulation);
    pad.set_position(-0.5, 1.0);
    let mut driven: Frame<f32> = [0.0; CHANNELS];
    driven[0] = 1.0;
    driven[1] = 1.0;
    for _ in 0..500 {
        pad.process(&mut driven);
    }

    pad.set_mode(IntellipanMode::Color);
    let mut fresh = PadRig::in_mode(IntellipanMode::Color);
    let mut probe_a: Frame<f32> = [0.0; CHANNELS];
    probe_a[0] = 0.3;
    probe_a[1] = -0.4;
    let mut probe_b = probe_a;
    pad.process(&mut probe_a);
    fresh.process(&mut probe_b);
    assert_eq!(probe_a, probe_b);
}

#[test]
fn switching_back_into_a_previously_driven_mode_is_also_reset() {
    let mut pad = PadRig::in_mode(IntellipanMode::Color);
    pad.set_mode(IntellipanMode::Modulation);
    pad.set_position(-0.5, 1.0);
    let mut driven: Frame<f32> = [1.0; CHANNELS];
    for _ in 0..500 {
        pad.process(&mut driven);
    }
    pad.set_mode(IntellipanMode::Color);
    pad.set_mode(IntellipanMode::Modulation);

    let mut fresh = PadRig::in_mode(IntellipanMode::Color);
    fresh.set_mode(IntellipanMode::Modulation);
    pad.set_position(-0.5, 1.0);
    fresh.set_position(-0.5, 1.0);

    let mut probe_a: Frame<f32> = [0.0; CHANNELS];
    probe_a[0] = 0.3;
    probe_a[1] = -0.4;
    let mut probe_b = probe_a;
    pad.process(&mut probe_a);
    fresh.process(&mut probe_b);
    assert_eq!(
        probe_a, probe_b,
        "re-entering Modulation should read as fresh, not resume its old buffer/phase"
    );
}

#[test]
fn switching_mode_and_repositioning_does_not_allocate() {
    let mut pad = PadRig::in_mode(IntellipanMode::Color);
    assert_realtime(|| {
        pad.set_mode(IntellipanMode::Modulation);
        pad.set_position(-0.3, 0.7);
        pad.set_mode(IntellipanMode::Position);
        pad.set_position(0.2, 0.4);
        pad.set_mode(IntellipanMode::Color);
        pad.set_position(0.1, 0.0);
        let mut frame: Frame<f32> = [0.1; CHANNELS];
        pad.process(&mut frame);
    });
}

#[test]
fn intellipan_stability_random_automation_never_produces_nan_or_infinity() {
    let mut color = PadRig::in_mode(IntellipanMode::Color);
    let mut position = PadRig::in_mode(IntellipanMode::Position);
    let mut modulation = PadRig::in_mode(IntellipanMode::Modulation);
    let mut seed = 17u32;
    let mut rand = move || {
        seed = seed.wrapping_mul(1_664_525).wrapping_add(1_013_904_223);
        (seed >> 8) as f32 / (1u32 << 24) as f32
    };
    for _ in 0..10_000 {
        let x = rand() - 0.5;
        let y = rand();
        color.set_position(x, y);
        position.set_position(x, y);
        modulation.set_position(x, y);
        let mut frame: Frame<f32> = std::array::from_fn(|_| rand() * 2.0 - 1.0);
        color.process(&mut frame);
        position.process(&mut frame);
        modulation.process(&mut frame);
        assert!(frame.iter().all(|s| s.is_finite()));
    }
}

#[test]
fn null_test_default_threshold_is_bit_exact_passthrough_below_ceiling() {
    let limiter = Limiter::<f32>::default();
    let orig = [0.9, -0.5, 0.0, 1.0, -1.0, 0.3, -0.3, 0.999];
    let mut chans = orig;
    limiter.process(&Machine, &mut chans);
    assert_eq!(chans, orig);
}

#[test]
fn known_answer_output_never_exceeds_threshold() {
    let limiter = Limiter::<f32> { threshold_db: 0.0 };
    let mut chans = [2.0, -3.0, 0.5];
    limiter.process(&Machine, &mut chans);
    for &s in &chans {
        assert!(s.abs() <= 1.0 + 1e-6, "sample {s} exceeds threshold");
    }

    assert!((chans[0] / 2.0 - chans[1] / -3.0).abs() < 1e-6);
}

#[test]
fn known_answer_exact_gain_at_the_loudest_channel() {
    let limiter = Limiter::<f32> { threshold_db: 0.0 };
    let mut chans = [2.0, 1.0];
    limiter.process(&Machine, &mut chans);
    assert!((chans[0] - 1.0).abs() < 1e-6);
    assert!((chans[1] - 0.5).abs() < 1e-6);
}

#[test]
fn limiter_stability_random_automation_never_produces_nan_or_infinity() {
    let mut seed = 5u32;
    let mut rand = move || {
        seed = seed.wrapping_mul(1_664_525).wrapping_add(1_013_904_223);
        (seed >> 8) as f32 / (1u32 << 24) as f32
    };
    for _ in 0..48_000 {
        let limiter = Limiter {
            threshold_db: -40.0 + rand() * 52.0,
        };
        let mut chans = [rand() * 20.0 - 10.0, rand() * 20.0 - 10.0];
        limiter.process(&Machine, &mut chans);
        assert!(chans.iter().all(|s| s.is_finite()));
    }
}

fn silence(len: usize) -> Vec<Frame<f32>> {
    vec![[0.0; CHANNELS]; len]
}

fn loud_frame(level: f32) -> Frame<f32> {
    let mut f = [0.0; CHANNELS];
    f[0] = level;
    f
}

#[test]
fn tracks_the_highest_absolute_sample_seen_within_one_call() {
    let mut meter = Meter::new(&Machine, SR);
    meter.observe(&[loud_frame(0.3), loud_frame(-0.8)]);
    assert_eq!(meter.peak(0), 0.8);
    assert_eq!(meter.peak(1), 0.0);
}

#[test]
fn holds_the_peak_for_the_documented_hold_time_before_decaying() {
    let mut meter = Meter::new(&Machine, SR);
    meter.observe(&[loud_frame(0.9)]);

    let hold_samples_count = Ballistics::new(&Machine, SR).hold_samples as usize;
    meter.observe(&silence(hold_samples_count - 1));
    assert_eq!(
        meter.peak(0),
        0.9,
        "peak must not move at all before the hold time elapses"
    );
}

#[test]
fn decays_at_the_documented_rate_after_the_hold_time_elapses() {
    let mut meter = Meter::new(&Machine, SR);
    meter.observe(&[loud_frame(1.0)]);
    let hold_samples_count = Ballistics::new(&Machine, SR).hold_samples as usize;

    meter.observe(&silence(hold_samples_count));
    meter.observe(&silence(SR as usize));

    let expected = 1.0 * 10f32.powf(-20.0 / 20.0);
    let tolerance = expected * 0.01;
    assert!(
        (meter.peak(0) - expected).abs() < tolerance,
        "expected ~{expected} (a 20dB drop) after 1s of decay, got {}",
        meter.peak(0)
    );
}

#[test]
fn a_muted_or_silenced_channel_eventually_reads_exact_silence() {
    let mut meter = Meter::new(&Machine, SR);
    meter.observe(&[loud_frame(1.0)]);

    meter.observe(&silence(SR as usize * 10));
    assert_eq!(
        meter.peak(0),
        0.0,
        "a long-silent channel must read exact silence, not a stale peak"
    );
}

#[test]
fn a_fresh_higher_peak_during_decay_resets_the_hold_window() {
    let mut meter = Meter::new(&Machine, SR);
    meter.observe(&[loud_frame(0.5)]);
    let hold_samples_count = Ballistics::new(&Machine, SR).hold_samples as usize;

    meter.observe(&silence(hold_samples_count + SR as usize / 4));
    assert!(meter.peak(0) < 0.5, "should have started decaying by now");
    meter.observe(&[loud_frame(0.9)]);
    assert_eq!(meter.peak(0), 0.9);

    meter.observe(&silence(hold_samples_count - 1));
    assert_eq!(
        meter.peak(0),
        0.9,
        "a fresh higher peak must restart the hold window, not inherit an expired one"
    );
}

#[test]
fn reset_clears_immediately_bypassing_hold_and_decay() {
    let mut meter = Meter::new(&Machine, SR);
    meter.observe(&[loud_frame(0.9)]);
    meter.reset();
    assert_eq!(meter.peak(0), 0.0);

    meter.observe(&[loud_frame(0.2)]);
    assert_eq!(meter.peak(0), 0.2);
}

#[test]
fn decay_never_runs_before_the_hold_window_elapses_provably() {
    let mut meter = Meter::new(&Machine, SR);
    meter.observe(&[loud_frame(1.0)]);
    let hold_samples_count = Ballistics::new(&Machine, SR).hold_samples as usize;
    let halfway = hold_samples_count / 2;
    meter.observe(&silence(halfway));
    let actual = meter.peak(0);

    let hypothesis_hold = 1.0f32;

    let hypothesis_decay_from_zero = 1.0 * Ballistics::new(&Machine, SR).decay_per_sample.powi(halfway as i32);

    assert!(
        (hypothesis_hold - hypothesis_decay_from_zero).abs() > 0.01,
        "hypotheses aren't distinguishable"
    );
    assert_eq!(
        actual, hypothesis_hold,
        "actual should match the hold-respected hypothesis, not decay-from-zero"
    );
}

#[test]
fn null_test_center_pan_is_bit_exact_passthrough() {
    let balance = StereoBalance::<f32>::default();
    let orig: Frame<f32> = [0.7, -0.3, 0.1, 0.0, 0.2, -0.5, 0.0, 0.0];
    let mut frame = orig;
    balance.process(&mut frame);
    assert_eq!(frame, orig);
}

#[test]
fn center_gain_is_exactly_unity_on_both_channels_not_minus_3db() {
    let (gl, gr) = StereoBalance::<f32>::gains(0.0);
    assert_eq!(gl, 1.0);
    assert_eq!(gr, 1.0);
}

#[test]
fn known_answer_hard_pan_silences_the_opposite_channel() {
    assert_eq!(StereoBalance::<f32>::gains(-1.0), (1.0, 0.0));
    assert_eq!(StereoBalance::<f32>::gains(1.0), (0.0, 1.0));
}

#[test]
fn null_test_pad_at_origin_is_bit_exact_passthrough() {
    let pad = PositionPad5_1::<f32>::default();
    let orig: Frame<f32> = [0.7, -0.3, 0.1, 0.0, 0.0, 0.0, 0.4, -0.1];
    let mut frame = orig;
    pad.process(&mut frame);
    assert_eq!(frame, orig);
}

#[test]
fn pad_center_gain_is_exactly_unity_front_not_minus_3db() {
    let pad = PositionPad5_1::<f32>::default();
    let mut frame: Frame<f32> = [0.0; CHANNELS];
    frame[CH_FL] = 1.0;
    frame[CH_FR] = 1.0;
    pad.process(&mut frame);
    assert_eq!(frame[CH_FL], 1.0);
    assert_eq!(frame[CH_FR], 1.0);
    assert_eq!(frame[CH_RL], 0.0);
    assert_eq!(frame[CH_RR], 0.0);
}

#[test]
fn known_answer_full_rear_moves_all_energy_to_the_rear_pair() {
    let pad = PositionPad5_1 { x: 0.0, y: 1.0 };
    let mut frame: Frame<f32> = [0.0; CHANNELS];
    frame[CH_FL] = 1.0;
    frame[CH_FR] = 1.0;
    pad.process(&mut frame);
    assert_eq!(frame[CH_FL], 0.0);
    assert_eq!(frame[CH_FR], 0.0);
    assert_eq!(frame[CH_RL], 1.0);
    assert_eq!(frame[CH_RR], 1.0);
}

#[test]
fn balance_law_never_boosts_past_unity_and_is_monotonic() {
    for i in 0..=200 {
        let a = i as f32 / 100.0 - 1.0;
        let (gl_a, gr_a) = StereoBalance::<f32>::gains(a);
        assert!(gl_a <= 1.0 + 1e-6 && gr_a <= 1.0 + 1e-6);
        assert!(gl_a >= 0.0 && gr_a >= 0.0);
        for j in (i + 1)..=200 {
            let (gl_b, gr_b) = StereoBalance::<f32>::gains(j as f32 / 100.0 - 1.0);
            assert!(gl_b <= gl_a + 1e-6);
            assert!(gr_b >= gr_a - 1e-6);
        }
    }
}

#[test]
fn balance_law_is_continuous() {
    for i in 0..=200 {
        let pan = i as f32 / 100.0 - 1.0;
        for delta in [1e-4f32, 1e-3, 1e-2] {
            let (gl_a, gr_a) = StereoBalance::<f32>::gains(pan);
            let (gl_b, gr_b) = StereoBalance::<f32>::gains(pan + delta);
            assert!((gl_b - gl_a).abs() < delta * 2.0);
            assert!((gr_b - gr_a).abs() < delta * 2.0);
        }
    }
}

#[test]
fn pan_stability_random_automation_never_produces_nan_or_infinity() {
    let mut seed = 3u32;
    let mut rand = move || {
        seed = seed.wrapping_mul(1_664_525).wrapping_add(1_013_904_223);
        (seed >> 8) as f32 / (1u32 << 24) as f32
    };
    for _ in 0..10_000 {
        let pad = PositionPad5_1 {
            x: rand() * 1.0 - 0.5,
            y: rand(),
        };
        let mut frame: Frame<f32> = std::array::from_fn(|_| rand() * 2.0 - 1.0);
        pad.process(&mut frame);
        assert!(frame.iter().all(|s| s.is_finite()));
    }
}

#[test]
fn fraction_endpoints() {
    assert_eq!(fraction(0.0f32), 0.0);
    assert_eq!(fraction(10.0f32), 1.0);
    assert_eq!(fraction(5.0f32), 0.5);
}

#[test]
fn fraction_clamps_out_of_range_knob_values() {
    assert_eq!(fraction(-3.0f32), 0.0);
    assert_eq!(fraction(20.0f32), 1.0);
}

#[test]
fn fraction_is_monotonic() {
    let mut prev = fraction(0.0f32);
    let mut knob = 0.1f32;
    while knob <= 10.0 {
        let cur = fraction(knob);
        assert!(cur >= prev);
        prev = cur;
        knob += 0.1;
    }
}

#[test]
fn lerp_endpoints() {
    assert_eq!(lerp(-60.0f32, -10.0, 0.0), -60.0);
    assert_eq!(lerp(-60.0f32, -10.0, 1.0), -10.0);
}

#[test]
fn a_reset_color_pad_plays_like_a_fresh_one() {
    let tilted = PadPosition { x: 0.4, y: 0.0 };
    let mut used = ColorPad::<f32>::new();
    used.recompute(&Machine, SR, &tilted);
    for n in 0..100 {
        let mut frame = [0.0f32; CHANNELS];
        frame[0] = (n as f32 * 0.3).sin();
        frame[1] = (n as f32 * 0.2).cos();
        used.process(&mut frame);
    }
    used.reset();
    let mut fresh = ColorPad::<f32>::new();
    used.recompute(&Machine, SR, &tilted);
    fresh.recompute(&Machine, SR, &tilted);
    for n in 0..100 {
        let mut a = [0.0f32; CHANNELS];
        a[0] = (n as f32 * 0.1).sin();
        a[1] = 1.0;
        let mut b = a;
        used.process(&mut a);
        fresh.process(&mut b);
        assert_eq!(a, b);
    }
}

#[test]
fn a_peak_that_is_no_longer_held_only_falls_until_it_is_silent() {
    let mut meter = Meter::new(&Machine, 1000.0);
    let mut loud = [0.0f32; CHANNELS];
    loud[0] = 0.8;
    meter.observe(&[loud]);
    meter.observe(&vec![[0.0f32; CHANNELS]; 1000]);
    assert_eq!(meter.peak(0), 0.8);
    let mut last = meter.peak(0);
    for _ in 0..8000 {
        meter.observe(&[[0.0f32; CHANNELS]]);
        assert!(meter.peak(0) <= last && meter.peak(0) >= 0.0);
        last = meter.peak(0);
    }
    assert_eq!(last, 0.0);
}

#[test]
fn one_sample_is_held_for_a_second_then_falls_to_silence_however_blocks_are_cut() {
    let mut meter = Meter::new(&Machine, SR);
    meter.observe(&[loud_frame(0.9)]);
    let mut seen = 0;
    for cut in [1, 999, 40_000, 7_000] {
        meter.observe(&silence(cut));
        seen += cut;
        assert_eq!(meter.peak(0), 0.9);
    }
    assert_eq!(seen, 48_000);
    let mut last = meter.peak(0);
    for cut in [1, 2, 500, 20_000, 100_000] {
        meter.observe(&silence(cut));
        seen += cut;
        assert!(meter.peak(0) < last);
        last = meter.peak(0);
        assert_eq!(meter.peak(7), 0.0);
    }
    meter.observe(&silence(480_000 - seen));
    assert_eq!(meter.peak(0), 0.0);
}

#[test]
fn a_peak_dies_out_in_fixed_point() {
    let zero = Fixed { raw: 0 };
    let mut meter = Meter {
        peak_hold: [zero; CHANNELS],
        hold_remaining: [0; CHANNELS],
        hold_samples: 2,
        decay_per_sample: Fixed { raw: 65_535 },
    };
    let mut loud = [zero; CHANNELS];
    loud[0] = Fixed { raw: -5 };
    meter.observe(&[loud]);
    meter.observe(&[[zero; CHANNELS]; 2]);
    assert_eq!(meter.peak(0).raw, 5);
    meter.observe(&[[zero; CHANNELS]; 1]);
    assert_eq!(meter.peak(0).raw, 4);
    meter.observe(&[[zero; CHANNELS]; 5]);
    assert_eq!(meter.peak(0).raw, 0);
}

#[test]
fn a_quieter_peak_is_gone_no_later_than_a_louder_one() {
    let gone_after = |level: f32| {
        let mut meter = Meter::new(&Machine, 1000.0);
        meter.observe(&[loud_frame(level)]);
        let mut n = 0;
        while meter.peak(0) > 0.0 {
            meter.observe(&silence(1));
            n += 1;
        }
        n
    };
    let top = gone_after(1.0);
    assert!(top > 6000 && top < 7100, "{top}");
    for level in [0.9, 0.5, 0.01, 0.00001] {
        assert!(gone_after(level) <= top);
    }
}
