use loomix::compressor::{static_gain_reduction_db, CompDetector, CompParams, CompRates, Compressor};
use loomix::denoiser::{Denoiser, DenoiserRates, NoiseTracker};
use loomix::elementary::Elementary;
use loomix::fader::gain_linear_to_db;
use loomix::gate::{Gate, GateDetector, GateRates};

/// The machine's own functions.
struct Machine;

impl Elementary<f32> for Machine {
    fn root(&self, x: f32) -> f32 {
        x.sqrt()
    }

    fn exp(&self, x: f32) -> f32 {
        x.exp()
    }

    fn log10(&self, x: f32) -> f32 {
        x.log10()
    }

    fn power_of_ten(&self, x: f32) -> f32 {
        10f32.powf(x)
    }

    fn sinh(&self, x: f32) -> f32 {
        x.sinh()
    }

    fn angle(&self, turns: f32) -> f32 {
        2.0 * std::f32::consts::PI * turns
    }

    fn sine(&self, angle: f32) -> f32 {
        angle.sin()
    }

    fn cosine(&self, angle: f32) -> f32 {
        angle.cos()
    }

    fn count(&self, n: usize) -> f32 {
        n as f32
    }

    fn split(&self, x: f32) -> (usize, f32) {
        let whole = x.floor().max(0.0);
        (whole as usize, x - whole)
    }

    fn nearest(&self, x: f32) -> usize {
        x.round() as usize
    }

    fn floor(&self, x: f32) -> f32 {
        x.floor()
    }

    fn whole_up(&self, x: f32) -> usize {
        x.ceil() as usize
    }
}

const SR: f32 = 48_000.0;

struct GateRig {
    gate: Gate<f32>,
    rates: GateRates<f32>,
    detector: GateDetector<f32>,
}

impl GateRig {
    fn new() -> Self {
        let gate = Gate::new();
        let mut detector = GateDetector::new();
        detector.retune(&Machine, &gate, SR);
        GateRig {
            gate,
            rates: GateRates::new(&Machine, &gate.params, SR),
            detector,
        }
    }

    fn set_knob(&mut self, knob: f32) {
        self.gate.set_knob(knob);
        self.rates = GateRates::new(&Machine, &self.gate.params, SR);
    }

    fn set_bp_sidechain_hz(&mut self, hz: f32) {
        self.gate.set_bp_sidechain_hz(hz);
        self.detector.retune(&Machine, &self.gate, SR);
    }

    fn process(&mut self, l: &mut f32, r: &mut f32) {
        let out = self.detector.process(&Machine, &self.gate, &self.rates, (*l, *r));
        *l = out.0;
        *r = out.1;
    }
}

struct CompRig {
    comp: Compressor<f32>,
    rates: CompRates<f32>,
    detector: CompDetector<f32>,
}

impl CompRig {
    fn new() -> Self {
        let comp = Compressor::new();
        CompRig {
            comp,
            rates: CompRates::new(&Machine, &comp.params, SR),
            detector: CompDetector::new(),
        }
    }

    fn set_knob(&mut self, knob: f32) {
        self.comp.set_knob(knob);
        self.rates = CompRates::new(&Machine, &self.comp.params, SR);
    }

    fn process(&mut self, l: &mut f32, r: &mut f32) {
        let out = self.detector.process(&Machine, &self.comp, &self.rates, (*l, *r));
        *l = out.0;
        *r = out.1;
    }
}

struct DenoiserRig {
    denoiser: Denoiser<f32>,
    rates: DenoiserRates<f32>,
    tracker: NoiseTracker<f32>,
}

impl DenoiserRig {
    fn new() -> Self {
        DenoiserRig {
            denoiser: Denoiser::new(),
            rates: DenoiserRates::new(&Machine, SR),
            tracker: NoiseTracker::new(),
        }
    }

    fn set_knob(&mut self, knob: f32) {
        self.denoiser.set_knob(knob);
    }

    fn process(&mut self, l: &mut f32, r: &mut f32) {
        let out = self.tracker.process(&Machine, &self.denoiser, &self.rates, (*l, *r));
        *l = out.0;
        *r = out.1;
    }
}

fn reduction_db(level_db: f32, threshold_db: f32, ratio: f32, knee: f32) -> f32 {
    let mut params = CompParams::<f32>::new();
    params.threshold_db = threshold_db;
    params.ratio = ratio;
    params.knee = knee;
    static_gain_reduction_db(level_db, &params)
}

#[test]
fn gate_null_test_knob_zero_is_bit_exact_passthrough() {
    let mut gate = GateRig::new();
    gate.set_knob(0.0);
    for n in 0..1000 {
        let orig_l = (n as f32 * 0.013).sin();
        let orig_r = (n as f32 * 0.027).cos();
        let mut l = orig_l;
        let mut r = orig_r;
        gate.process(&mut l, &mut r);
        assert_eq!(l, orig_l);
        assert_eq!(r, orig_r);
    }
}

#[test]
fn known_answer_opens_on_loud_signal_and_closes_after_hold_and_release() {
    let mut gate = GateRig::new();
    gate.set_knob(10.0);
    gate.set_bp_sidechain_hz(1000.0);

    for _ in 0..2000 {
        let mut l = 0.0;
        let mut r = 0.0;
        gate.process(&mut l, &mut r);
    }
    assert!(
        gate.detector.gain < 0.01,
        "gate should be closed on silence, gain={}",
        gate.detector.gain
    );

    for n in 0..2000 {
        let s = (2.0 * std::f32::consts::PI * 1000.0 * n as f32 / SR).sin();
        let mut l = s;
        let mut r = s;
        gate.process(&mut l, &mut r);
    }
    assert!(
        gate.detector.gain > 0.9,
        "gate should be open after a loud tone, gain={}",
        gate.detector.gain
    );

    let hold_samples = ((gate.gate.params.hold_ms / 1000.0) * SR) as usize;
    for _ in 0..hold_samples / 2 {
        let mut l = 0.0;
        let mut r = 0.0;
        gate.process(&mut l, &mut r);
    }
    assert!(gate.detector.gain > 0.9, "gate should still be held open mid-hold");

    for _ in 0..hold_samples + (SR as usize) {
        let mut l = 0.0;
        let mut r = 0.0;
        gate.process(&mut l, &mut r);
    }
    assert!(
        gate.detector.gain < 0.05,
        "gate should have released to closed, gain={}",
        gate.detector.gain
    );
}

#[test]
fn sidechain_filter_ignores_energy_far_outside_the_band() {
    let mut in_band = GateRig::new();
    in_band.set_knob(10.0);
    in_band.set_bp_sidechain_hz(1000.0);
    let mut out_of_band = GateRig::new();
    out_of_band.set_knob(10.0);
    out_of_band.set_bp_sidechain_hz(1000.0);

    for n in 0..4000 {
        let in_tone = (2.0 * std::f32::consts::PI * 1000.0 * n as f32 / SR).sin();
        let mut l1 = in_tone;
        let mut r1 = in_tone;
        in_band.process(&mut l1, &mut r1);

        let out_tone = (2.0 * std::f32::consts::PI * 50.0 * n as f32 / SR).sin();
        let mut l2 = out_tone;
        let mut r2 = out_tone;
        out_of_band.process(&mut l2, &mut r2);
    }

    assert!(
        in_band.detector.gain > out_of_band.detector.gain + 0.3,
        "an in-band tone should open it more than an equal-amplitude out-of-band tone: {} vs {}",
        in_band.detector.gain,
        out_of_band.detector.gain
    );
}

#[test]
fn sustained_near_threshold_noise_does_not_chatter() {
    for offset_db in [
        -6.0, -3.0, -1.0, 0.0, 1.0, 3.0, 6.0, 9.0, 10.0, 10.5, 11.0, 12.0,
    ] {
        let mut gate = GateRig::new();
        gate.set_knob(5.0);
        gate.set_bp_sidechain_hz(1000.0);

        let target_peak_db = -35.0 + 6.0 + offset_db;
        let amplitude = 10f32.powf(target_peak_db / 20.0);
        let mut seed = 123u32;
        let mut rand = move || {
            seed = seed.wrapping_mul(1_664_525).wrapping_add(1_013_904_223);
            (seed >> 8) as f32 / (1u32 << 24) as f32 * 2.0 - 1.0
        };

        let mut transitions = 0u32;
        let mut was_open = false;
        for n in 0..(SR as usize * 2) {
            let s = rand() * amplitude;
            let mut l = s;
            let mut r = s;
            gate.process(&mut l, &mut r);
            if n > SR as usize {
                let is_open = gate.detector.gain > 0.5;
                if is_open != was_open {
                    transitions += 1;
                }
                was_open = is_open;
            }
        }

        assert!(
            transitions <= 1,
            "gate chattered at offset {offset_db}dB from threshold: {transitions} transitions in one settled second"
        );
    }
}

#[test]
fn gate_stability_random_automation_never_produces_nan_or_infinity() {
    let mut gate = GateRig::new();
    let mut seed = 42u32;
    let mut rand = move || {
        seed = seed.wrapping_mul(1_664_525).wrapping_add(1_013_904_223);
        (seed >> 8) as f32 / (1u32 << 24) as f32
    };
    for _ in 0..48_000 * 10 / 100 {
        gate.set_knob(rand() * 10.0);
        gate.set_bp_sidechain_hz(100.0 + rand() * 3900.0);
        let mut l = rand() * 2.0 - 1.0;
        let mut r = rand() * 2.0 - 1.0;
        gate.process(&mut l, &mut r);
        assert!(l.is_finite() && r.is_finite());
        assert!(gate.detector.gain.is_finite() && gate.detector.gain >= 0.0);
    }
}

#[test]
fn compressor_null_test_knob_zero_is_bit_exact_passthrough() {
    let mut comp = CompRig::new();
    comp.set_knob(0.0);
    for n in 0..1000 {
        let orig_l = (n as f32 * 0.013).sin();
        let orig_r = (n as f32 * 0.027).cos();
        let mut l = orig_l;
        let mut r = orig_r;
        comp.process(&mut l, &mut r);
        assert_eq!(l, orig_l);
        assert_eq!(r, orig_r);
    }
}

#[test]
fn known_answer_static_curve_matches_the_formula_above_threshold() {
    let gr = reduction_db(-10.0, -20.0, 4.0, 0.0);
    assert!((gr - -7.5).abs() < 1e-4, "gr={gr}");
}

#[test]
fn known_answer_below_threshold_has_no_reduction() {
    assert_eq!(reduction_db(-30.0, -20.0, 4.0, 0.0), 0.0);
}

#[test]
fn soft_knee_is_continuous_across_the_knee_boundaries() {
    let threshold = -20.0;
    let ratio = 4.0;
    let knee = 1.0;
    let mut prev = reduction_db(threshold - 20.0, threshold, ratio, knee);
    let mut level = threshold - 20.0 + 0.05;
    while level <= threshold + 20.0 {
        let cur = reduction_db(level, threshold, ratio, knee);
        assert!(
            (cur - prev).abs() < 0.5,
            "discontinuity near {level}dB: {prev} -> {cur}"
        );
        prev = cur;
        level += 0.05;
    }
}

#[test]
fn a_steady_tone_above_threshold_settles_to_the_static_curve() {
    let mut comp = CompRig::new();
    comp.set_knob(10.0);
    comp.comp.params.auto_makeup = false;
    comp.comp.params.knee = 0.0;

    for n in 0..(SR as usize) {
        let s = (2.0 * std::f32::consts::PI * 1000.0 * n as f32 / SR).sin();
        let mut l = s;
        let mut r = s;
        comp.process(&mut l, &mut r);
    }

    let expected = reduction_db(
        gain_linear_to_db(&Machine, 1.0 / std::f32::consts::SQRT_2),
        comp.comp.params.threshold_db,
        comp.comp.params.ratio,
        comp.comp.params.knee,
    );
    assert!(
        (comp.detector.gain_reduction_db - expected).abs() < 1.0,
        "measured {} expected ~{}",
        comp.detector.gain_reduction_db,
        expected
    );
}

#[test]
fn compressor_stability_random_automation_never_produces_nan_or_infinity() {
    let mut comp = CompRig::new();
    let mut seed = 7u32;
    let mut rand = move || {
        seed = seed.wrapping_mul(1_664_525).wrapping_add(1_013_904_223);
        (seed >> 8) as f32 / (1u32 << 24) as f32
    };
    for _ in 0..48_000 * 10 / 100 {
        comp.set_knob(rand() * 10.0);
        let mut l = rand() * 2.0 - 1.0;
        let mut r = rand() * 2.0 - 1.0;
        comp.process(&mut l, &mut r);
        assert!(l.is_finite() && r.is_finite());
    }
}

#[test]
fn denoiser_null_test_knob_zero_is_bit_exact_passthrough() {
    let mut d = DenoiserRig::new();
    d.set_knob(0.0);
    for n in 0..1000 {
        let orig_l = (n as f32 * 0.013).sin();
        let orig_r = (n as f32 * 0.027).cos();
        let mut l = orig_l;
        let mut r = orig_r;
        d.process(&mut l, &mut r);
        assert_eq!(l, orig_l);
        assert_eq!(r, orig_r);
    }
}

#[test]
fn null_test_explicit_bypass_is_bit_exact_passthrough_even_with_a_nonzero_knob() {
    let mut d = DenoiserRig::new();
    d.set_knob(8.0);
    d.denoiser.explicit_bypass = true;
    for n in 0..1000 {
        let orig_l = (n as f32 * 0.013).sin();
        let orig_r = (n as f32 * 0.027).cos();
        let mut l = orig_l;
        let mut r = orig_r;
        d.process(&mut l, &mut r);
        assert_eq!(l, orig_l);
        assert_eq!(r, orig_r);
    }
}

#[test]
fn known_answer_a_quiet_floor_gets_attenuated_and_a_loud_signal_does_not() {
    let mut d = DenoiserRig::new();
    d.set_knob(10.0);

    for n in 0..(SR as usize) {
        let noise = ((n as f32 * 0.061).sin()) * 0.001;
        let mut l = noise;
        let mut r = noise;
        d.process(&mut l, &mut r);
    }
    let quiet_gain_at_settle = d.tracker.gain;

    for n in 0..(SR as usize) {
        let s = (2.0 * std::f32::consts::PI * 1000.0 * n as f32 / SR).sin();
        let mut l = s;
        let mut r = s;
        d.process(&mut l, &mut r);
    }
    assert!(
        d.tracker.gain > 0.9,
        "loud signal should pass near-unity, gain={}",
        d.tracker.gain
    );
    assert!(
        quiet_gain_at_settle < 0.9,
        "settled quiet floor should be attenuated, gain={quiet_gain_at_settle}"
    );
}

#[test]
fn higher_amount_attenuates_a_quiet_floor_more() {
    let mut low = DenoiserRig::new();
    low.set_knob(2.0);
    let mut high = DenoiserRig::new();
    high.set_knob(10.0);

    for n in 0..(SR as usize) {
        let noise = ((n as f32 * 0.061).sin()) * 0.001;
        let mut l1 = noise;
        let mut r1 = noise;
        low.process(&mut l1, &mut r1);
        let mut l2 = noise;
        let mut r2 = noise;
        high.process(&mut l2, &mut r2);
    }

    assert!(
        high.tracker.gain < low.tracker.gain,
        "amount=10 should attenuate a settled quiet floor more than amount=2: {} vs {}",
        high.tracker.gain,
        low.tracker.gain
    );
}

#[test]
fn denoiser_stability_random_automation_never_produces_nan_or_infinity() {
    let mut d = DenoiserRig::new();
    let mut seed = 99u32;
    let mut rand = move || {
        seed = seed.wrapping_mul(1_664_525).wrapping_add(1_013_904_223);
        (seed >> 8) as f32 / (1u32 << 24) as f32
    };
    for _ in 0..48_000 * 10 / 100 {
        d.set_knob(rand() * 10.0);
        let mut l = rand() * 2.0 - 1.0;
        let mut r = rand() * 2.0 - 1.0;
        d.process(&mut l, &mut r);
        assert!(l.is_finite() && r.is_finite());
    }
}
