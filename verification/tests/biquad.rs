use loomix::biquad::{Biquad, BiquadCoeffs, Corner};
use loomix::elementary::Elementary;

/// The machine's own functions.
struct Machine;

impl Elementary<f32> for Machine {
    fn root(&self, x: f32) -> f32 {
        x.sqrt()
    }

    fn exp(&self, x: f32) -> f32 {
        x.exp()
    }

    fn log10(&self, x: f32) -> f32 {
        x.log10()
    }

    fn power_of_ten(&self, x: f32) -> f32 {
        10f32.powf(x)
    }

    fn sinh(&self, x: f32) -> f32 {
        x.sinh()
    }

    fn angle(&self, turns: f32) -> f32 {
        2.0 * std::f32::consts::PI * turns
    }

    fn sine(&self, angle: f32) -> f32 {
        angle.sin()
    }

    fn cosine(&self, angle: f32) -> f32 {
        angle.cos()
    }

    fn count(&self, n: usize) -> f32 {
        n as f32
    }

    fn split(&self, x: f32) -> (usize, f32) {
        let whole = x.floor().max(0.0);
        (whole as usize, x - whole)
    }

    fn nearest(&self, x: f32) -> usize {
        x.round() as usize
    }

    fn floor(&self, x: f32) -> f32 {
        x.floor()
    }

    fn whole_up(&self, x: f32) -> usize {
        x.ceil() as usize
    }
}

/// A full-amplitude sine tone.
fn sine(samples: usize, sample_rate: f32, freq_hz: f32) -> Vec<f32> {
    (0..samples)
        .map(|n| (2.0 * std::f32::consts::PI * freq_hz * n as f32 / sample_rate).sin())
        .collect()
}

/// How much of one frequency is in a signal.
fn goertzel_magnitude(signal: &[f32], freq_hz: f32, sample_rate: f32) -> f32 {
    let n = signal.len() as f32;
    let k = (0.5 + (n * freq_hz) / sample_rate).floor();
    let omega = (2.0 * std::f32::consts::PI / n) * k;
    let coeff = 2.0 * omega.cos();
    let (mut q1, mut q2) = (0.0f32, 0.0f32);
    for &x in signal {
        let q0 = coeff * q1 - q2 + x;
        q2 = q1;
        q1 = q0;
    }
    (q1 * q1 + q2 * q2 - q1 * q2 * coeff).sqrt()
}

const SR: f32 = 48_000.0;

#[test]
fn known_answer_matches_the_cookbook_formula() {
    let c = BiquadCoeffs::peaking(&Machine, SR, 1000.0, 1.0, 6.0);
    assert!((c.b0 - 1.043_953_1).abs() < 1e-6, "b0={}", c.b0);
    assert!((c.b1 - -1.895_320_7).abs() < 1e-6, "b1={}", c.b1);
    assert!((c.b2 - 0.867_722_3).abs() < 1e-6, "b2={}", c.b2);
    assert!((c.a1 - -1.895_320_7).abs() < 1e-6, "a1={}", c.a1);
    assert!((c.a2 - 0.911_675_4).abs() < 1e-6, "a2={}", c.a2);
}

#[test]
fn null_test_bypassed_biquad_is_bit_exact_passthrough() {
    let mut bq = Biquad::<f32>::bypassed();
    let signal = sine(64, SR, 1234.0);
    let out: Vec<f32> = signal.iter().map(|&x| bq.process(x)).collect();
    assert_eq!(out, signal);
}

#[test]
fn frequency_response_peaking_boosts_at_center_and_leaves_far_bins_alone() {
    let mut bq = Biquad::<f32>::bypassed();
    bq.set_coeffs(BiquadCoeffs::peaking(&Machine, SR, 1000.0, 2.0, 12.0));

    let at_center = sine(4096, SR, 1000.0);
    let out: Vec<f32> = at_center.iter().map(|&x| bq.process(x)).collect();
    let boosted = goertzel_magnitude(&out, 1000.0, SR);
    let reference = goertzel_magnitude(&at_center, 1000.0, SR);
    let measured_db = 20.0 * (boosted / reference).log10();
    assert!(
        (measured_db - 12.0).abs() < 0.1,
        "expected ~12dB boost at center, measured {measured_db}dB"
    );

    let mut bq_far = Biquad::<f32>::bypassed();
    bq_far.set_coeffs(BiquadCoeffs::peaking(&Machine, SR, 1000.0, 2.0, 12.0));
    let far = sine(4096, SR, 8000.0);
    let out_far: Vec<f32> = far.iter().map(|&x| bq_far.process(x)).collect();
    let far_gain =
        goertzel_magnitude(&out_far, 8000.0, SR) / goertzel_magnitude(&far, 8000.0, SR);
    assert!(
        20.0 * far_gain.log10() < 1.0,
        "far bin should be left near-untouched by a Q=2 peak"
    );
}

#[test]
fn frequency_response_band_pass_passes_center_and_attenuates_far() {
    let mut bq = Biquad::<f32>::bypassed();
    bq.set_coeffs(BiquadCoeffs::band_pass(&Machine, SR, 1000.0, 2.0));
    let center = sine(4096, SR, 1000.0);
    let out: Vec<f32> = center.iter().map(|&x| bq.process(x)).collect();
    let center_gain =
        goertzel_magnitude(&out, 1000.0, SR) / goertzel_magnitude(&center, 1000.0, SR);
    assert!(
        (center_gain - 1.0).abs() < 0.05,
        "0dB peak gain expected at center"
    );

    let mut bq_far = Biquad::<f32>::bypassed();
    bq_far.set_coeffs(BiquadCoeffs::band_pass(&Machine, SR, 1000.0, 2.0));
    let far = sine(4096, SR, 100.0);
    let out_far: Vec<f32> = far.iter().map(|&x| bq_far.process(x)).collect();
    let far_gain =
        goertzel_magnitude(&out_far, 100.0, SR) / goertzel_magnitude(&far, 100.0, SR);
    assert!(far_gain < 0.3, "far bin should be strongly attenuated");
}

#[test]
fn notch_nulls_the_center_and_passes_a_far_tone() {
    let mut bq = Biquad::<f32>::bypassed();
    bq.set_coeffs(BiquadCoeffs::notch_from_bandwidth(&Machine, SR, 1000.0, 1.0));
    let center = sine(4096, SR, 1000.0);
    let out: Vec<f32> = center.iter().map(|&x| bq.process(x)).collect();
    let center_gain =
        goertzel_magnitude(&out, 1000.0, SR) / goertzel_magnitude(&center, 1000.0, SR);
    assert!(center_gain < 0.05, "center frequency should be nulled");

    let mut bq_far = Biquad::<f32>::bypassed();
    bq_far.set_coeffs(BiquadCoeffs::notch_from_bandwidth(&Machine, SR, 1000.0, 1.0));
    let far = sine(4096, SR, 50.0);
    let out_far: Vec<f32> = far.iter().map(|&x| bq_far.process(x)).collect();
    let far_gain = goertzel_magnitude(&out_far, 50.0, SR) / goertzel_magnitude(&far, 50.0, SR);
    assert!(
        (far_gain - 1.0).abs() < 0.1,
        "far tone should pass close to unity"
    );
}

#[test]
fn biquad_stability_random_automation_never_produces_nan_or_infinity() {
    let mut bq = Biquad::<f32>::bypassed();
    let mut seed = 12345u32;
    let mut rand = move || {
        seed = seed.wrapping_mul(1_664_525).wrapping_add(1_013_904_223);
        (seed >> 8) as f32 / (1u32 << 24) as f32
    };
    for _ in 0..10_000 {
        let freq = 50.0 + rand() * 15_000.0;
        let q = 0.3 + rand() * 10.0;
        let gain = -24.0 + rand() * 48.0;
        bq.set_coeffs(BiquadCoeffs::peaking(&Machine, SR, freq, q, gain));
        let x = rand() * 2.0 - 1.0;
        let y = bq.process(x);
        assert!(y.is_finite(), "biquad produced a non-finite sample");
    }
}

#[test]
fn stability_random_automation_covers_every_cell_type() {
    let mut bq = Biquad::<f32>::bypassed();
    let mut seed = 777u32;
    let mut rand = move || {
        seed = seed.wrapping_mul(1_664_525).wrapping_add(1_013_904_223);
        (seed >> 8) as f32 / (1u32 << 24) as f32
    };
    for i in 0..10_000 {
        let freq = 50.0 + rand() * 15_000.0;
        let q = 0.5 + rand() * 99.5;
        let gain = -36.0 + rand() * 54.0;
        let coeffs = match i % 5 {
            0 => BiquadCoeffs::low_pass(&Machine, SR, freq, q),
            1 => BiquadCoeffs::high_pass(&Machine, SR, freq, q),
            2 => BiquadCoeffs::low_shelf(&Machine, SR, freq, q, gain),
            3 => BiquadCoeffs::high_shelf(&Machine, SR, freq, q, gain),
            _ => BiquadCoeffs::notch(&Machine, SR, freq, q),
        };
        bq.set_coeffs(coeffs);
        let x = rand() * 2.0 - 1.0;
        let y = bq.process(x);
        assert!(y.is_finite(), "biquad produced a non-finite sample");
    }
}

#[test]
fn known_answer_low_pass_matches_the_cookbook_formula() {
    let c = BiquadCoeffs::low_pass(&Machine, SR, 1000.0, 1.0);
    assert!((c.b0 - 0.004_015_505).abs() < 1e-6, "b0={}", c.b0);
    assert!((c.b1 - 0.008_031_01).abs() < 1e-6, "b1={}", c.b1);
    assert!((c.b2 - 0.004_015_505).abs() < 1e-6, "b2={}", c.b2);
    assert!((c.a1 - -1.861_408_4).abs() < 1e-6, "a1={}", c.a1);
    assert!((c.a2 - 0.877_470_5).abs() < 1e-6, "a2={}", c.a2);
}

#[test]
fn known_answer_high_pass_matches_the_cookbook_formula() {
    let c = BiquadCoeffs::high_pass(&Machine, SR, 1000.0, 1.0);
    assert!((c.b0 - 0.934_719_73).abs() < 1e-6, "b0={}", c.b0);
    assert!((c.b1 - -1.869_439_5).abs() < 1e-6, "b1={}", c.b1);
    assert!((c.b2 - 0.934_719_73).abs() < 1e-6, "b2={}", c.b2);
    assert!((c.a1 - -1.861_408_4).abs() < 1e-6, "a1={}", c.a1);
    assert!((c.a2 - 0.877_470_5).abs() < 1e-6, "a2={}", c.a2);
}

#[test]
fn known_answer_notch_matches_the_cookbook_formula() {
    let c = BiquadCoeffs::notch(&Machine, SR, 1000.0, 1.0);
    assert!((c.b0 - 0.938_735_2).abs() < 1e-6, "b0={}", c.b0);
    assert!((c.b1 - -1.861_408_4).abs() < 1e-6, "b1={}", c.b1);
    assert!((c.b2 - 0.938_735_2).abs() < 1e-6, "b2={}", c.b2);
    assert!((c.a1 - -1.861_408_4).abs() < 1e-6, "a1={}", c.a1);
    assert!((c.a2 - 0.877_470_5).abs() < 1e-6, "a2={}", c.a2);
}

#[test]
fn known_answer_low_shelf_matches_the_cookbook_formula() {
    let c = BiquadCoeffs::low_shelf(&Machine, SR, 1000.0, 1.0, 6.0);
    assert!((c.b0 - 1.024_36).abs() < 1e-6, "b0={}", c.b0);
    assert!((c.b1 - -1.878_552_1).abs() < 1e-6, "b1={}", c.b1);
    assert!((c.b2 - 0.877_130_1).abs() < 1e-6, "b2={}", c.b2);
    assert!((c.a1 - -1.884_273).abs() < 1e-6, "a1={}", c.a1);
    assert!((c.a2 - 0.895_769_2).abs() < 1e-6, "a2={}", c.a2);
}

#[test]
fn known_answer_high_shelf_matches_the_cookbook_formula() {
    let c = BiquadCoeffs::high_shelf(&Machine, SR, 1000.0, 1.0, 6.0);
    assert!((c.b0 - 1.947_813_6).abs() < 1e-6, "b0={}", c.b0);
    assert!((c.b1 - -3.670_212_5).abs() < 1e-6, "b1={}", c.b1);
    assert!((c.b2 - 1.744_791_4).abs() < 1e-6, "b2={}", c.b2);
    assert!((c.a1 - -1.833_878_8).abs() < 1e-6, "a1={}", c.a1);
    assert!((c.a2 - 0.856_271_3).abs() < 1e-6, "a2={}", c.a2);
}

#[test]
fn frequency_response_low_pass_passes_low_and_attenuates_high() {
    let mut bq = Biquad::<f32>::bypassed();
    bq.set_coeffs(BiquadCoeffs::low_pass(&Machine, SR, 1000.0, 0.707));
    let low = sine(4096, SR, 100.0);
    let out: Vec<f32> = low.iter().map(|&x| bq.process(x)).collect();
    let low_gain = goertzel_magnitude(&out, 100.0, SR) / goertzel_magnitude(&low, 100.0, SR);
    assert!(
        (low_gain - 1.0).abs() < 0.05,
        "passband should be near unity"
    );

    let mut bq_high = Biquad::<f32>::bypassed();
    bq_high.set_coeffs(BiquadCoeffs::low_pass(&Machine, SR, 1000.0, 0.707));
    let high = sine(4096, SR, 8000.0);
    let out_high: Vec<f32> = high.iter().map(|&x| bq_high.process(x)).collect();
    let high_gain =
        goertzel_magnitude(&out_high, 8000.0, SR) / goertzel_magnitude(&high, 8000.0, SR);
    assert!(
        high_gain < 0.3,
        "well above cutoff should be strongly attenuated"
    );
}

#[test]
fn frequency_response_high_pass_passes_high_and_attenuates_low() {
    let mut bq = Biquad::<f32>::bypassed();
    bq.set_coeffs(BiquadCoeffs::high_pass(&Machine, SR, 1000.0, 0.707));
    let high = sine(4096, SR, 8000.0);
    let out: Vec<f32> = high.iter().map(|&x| bq.process(x)).collect();
    let high_gain =
        goertzel_magnitude(&out, 8000.0, SR) / goertzel_magnitude(&high, 8000.0, SR);
    assert!(
        (high_gain - 1.0).abs() < 0.05,
        "passband should be near unity"
    );

    let mut bq_low = Biquad::<f32>::bypassed();
    bq_low.set_coeffs(BiquadCoeffs::high_pass(&Machine, SR, 1000.0, 0.707));
    let low = sine(4096, SR, 60.0);
    let out_low: Vec<f32> = low.iter().map(|&x| bq_low.process(x)).collect();
    let low_gain = goertzel_magnitude(&out_low, 60.0, SR) / goertzel_magnitude(&low, 60.0, SR);
    assert!(
        low_gain < 0.3,
        "well below cutoff should be strongly attenuated"
    );
}

#[test]
fn frequency_response_notch_by_q_nulls_the_center_and_passes_a_far_tone() {
    let mut bq = Biquad::<f32>::bypassed();
    bq.set_coeffs(BiquadCoeffs::notch(&Machine, SR, 1000.0, 4.0));
    let center = sine(4096, SR, 1000.0);
    let out: Vec<f32> = center.iter().map(|&x| bq.process(x)).collect();
    let center_gain =
        goertzel_magnitude(&out, 1000.0, SR) / goertzel_magnitude(&center, 1000.0, SR);
    assert!(center_gain < 0.05, "center frequency should be nulled");

    let mut bq_far = Biquad::<f32>::bypassed();
    bq_far.set_coeffs(BiquadCoeffs::notch(&Machine, SR, 1000.0, 4.0));
    let far = sine(4096, SR, 200.0);
    let out_far: Vec<f32> = far.iter().map(|&x| bq_far.process(x)).collect();
    let far_gain =
        goertzel_magnitude(&out_far, 200.0, SR) / goertzel_magnitude(&far, 200.0, SR);
    assert!(
        (far_gain - 1.0).abs() < 0.1,
        "far tone should pass close to unity"
    );
}

#[test]
fn frequency_response_low_shelf_boosts_below_and_leaves_far_above_alone() {
    let mut bq = Biquad::<f32>::bypassed();
    bq.set_coeffs(BiquadCoeffs::low_shelf(&Machine, SR, 1000.0, 0.707, 12.0));
    let low = sine(4096, SR, 100.0);
    let out: Vec<f32> = low.iter().map(|&x| bq.process(x)).collect();
    let boost_db = 20.0
        * (goertzel_magnitude(&out, 100.0, SR) / goertzel_magnitude(&low, 100.0, SR)).log10();
    assert!(
        (boost_db - 12.0).abs() < 0.5,
        "shelf plateau should read ~12dB: {boost_db}"
    );

    let mut bq_far = Biquad::<f32>::bypassed();
    bq_far.set_coeffs(BiquadCoeffs::low_shelf(&Machine, SR, 1000.0, 0.707, 12.0));
    let far = sine(4096, SR, 10_000.0);
    let out_far: Vec<f32> = far.iter().map(|&x| bq_far.process(x)).collect();
    let far_gain =
        goertzel_magnitude(&out_far, 10_000.0, SR) / goertzel_magnitude(&far, 10_000.0, SR);
    assert!(
        (far_gain - 1.0).abs() < 0.1,
        "well above the corner should be near unity"
    );
}

#[test]
fn frequency_response_high_shelf_boosts_above_and_leaves_far_below_alone() {
    let mut bq = Biquad::<f32>::bypassed();
    bq.set_coeffs(BiquadCoeffs::high_shelf(&Machine, SR, 1000.0, 0.707, 12.0));
    let high = sine(4096, SR, 10_000.0);
    let out: Vec<f32> = high.iter().map(|&x| bq.process(x)).collect();
    let boost_db = 20.0
        * (goertzel_magnitude(&out, 10_000.0, SR) / goertzel_magnitude(&high, 10_000.0, SR))
            .log10();
    assert!(
        (boost_db - 12.0).abs() < 0.5,
        "shelf plateau should read ~12dB: {boost_db}"
    );

    let mut bq_far = Biquad::<f32>::bypassed();
    bq_far.set_coeffs(BiquadCoeffs::high_shelf(&Machine, SR, 1000.0, 0.707, 12.0));
    let far = sine(4096, SR, 80.0);
    let out_far: Vec<f32> = far.iter().map(|&x| bq_far.process(x)).collect();
    let far_gain = goertzel_magnitude(&out_far, 80.0, SR) / goertzel_magnitude(&far, 80.0, SR);
    assert!(
        (far_gain - 1.0).abs() < 0.1,
        "well below the corner should be near unity"
    );
}

#[test]
fn engaging_from_bypass_is_instantaneous_not_ramped() {
    let c = BiquadCoeffs::peaking(&Machine, SR, 1000.0, 1.0, 12.0);
    let mut bq = Biquad::<f32>::bypassed();
    bq.set_coeffs(c);
    let x = 0.37;
    let y = bq.process(x);
    let expected = c.b0 * x;
    assert!((y - expected).abs() < 1e-6, "y={y} expected={expected}");
}

#[test]
fn coefficient_sweeps_do_not_click_smoothed_output_stays_far_below_the_instantaneous_jump() {
    let mut seed = 99u32;
    let mut rand = move || {
        seed = seed.wrapping_mul(1_664_525).wrapping_add(1_013_904_223);
        (seed >> 8) as f32 / (1u32 << 24) as f32
    };

    let start = BiquadCoeffs::peaking(&Machine, SR, 1000.0, 1.0, 0.0);
    let mut smoothed = Biquad::<f32>::bypassed();
    smoothed.set_coeffs(start);

    let (mut nx1, mut nx2, mut ny1, mut ny2) = (0.0f32, 0.0f32, 0.0f32, 0.0f32);
    let mut naive_coeffs;

    let mut smoothed_max_delta = 0.0f32;
    let mut naive_max_delta = 0.0f32;
    let (mut prev_smoothed, mut prev_naive) = (0.0f32, 0.0f32);

    for n in 0..20_000u32 {
        let freq = 50.0 + rand() * 15_000.0;
        let q = 0.5 + rand() * 99.5;
        let gain = -36.0 + rand() * 54.0;
        let new_coeffs = match n % 4000 {
            0..=999 => BiquadCoeffs::peaking(&Machine, SR, freq, q, gain),
            1000..=1999 => BiquadCoeffs::low_pass(&Machine, SR, freq, q),
            2000..=2999 => BiquadCoeffs::high_shelf(&Machine, SR, freq, q, gain),
            _ => BiquadCoeffs::notch(&Machine, SR, freq, q),
        };

        smoothed.set_coeffs(new_coeffs);
        naive_coeffs = new_coeffs;

        let x = (2.0 * std::f32::consts::PI * 300.0 * n as f32 / SR).sin();

        let y_smoothed = smoothed.process(x);
        assert!(y_smoothed.is_finite());
        smoothed_max_delta = smoothed_max_delta.max((y_smoothed - prev_smoothed).abs());
        prev_smoothed = y_smoothed;

        let y_naive = naive_coeffs.b0 * x + naive_coeffs.b1 * nx1 + naive_coeffs.b2 * nx2
            - naive_coeffs.a1 * ny1
            - naive_coeffs.a2 * ny2;
        nx2 = nx1;
        nx1 = x;
        ny2 = ny1;
        ny1 = y_naive;
        naive_max_delta = naive_max_delta.max((y_naive - prev_naive).abs());
        prev_naive = y_naive;
    }

    assert!(
        naive_max_delta > 0.3,
        "test setup doesn't actually produce a naive click to compare against: {naive_max_delta}"
    );
    assert!(
        smoothed_max_delta < naive_max_delta * 0.25,
        "smoothed sweep ({smoothed_max_delta}) isn't meaningfully below the naive \
         instantaneous-swap jump ({naive_max_delta}) it's supposed to fix"
    );
    assert!(
        smoothed_max_delta < 0.1,
        "smoothed sweep still has an audible-scale sample-to-sample jump: {smoothed_max_delta}"
    );
}

#[test]
fn a_request_taken_back_before_a_sample_leaves_no_trace() {
    let a = BiquadCoeffs::peaking(&Machine, SR, 1000.0, 2.0, 12.0);
    let b = BiquadCoeffs::peaking(&Machine, SR, 3000.0, 1.0, -6.0);
    let mut steady = Biquad::bypassed();
    steady.set_coeffs(a);
    let mut turned = Biquad::bypassed();
    turned.set_coeffs(a);
    turned.set_coeffs(b);
    turned.set_coeffs(a);
    for n in 0..200 {
        let x = (n as f32 * 0.37).sin();
        assert_eq!(steady.process(x), turned.process(x));
    }
}

#[test]
fn a_ramp_under_way_is_retargeted_and_ends_at_the_last_request() {
    let a = BiquadCoeffs::peaking(&Machine, SR, 1000.0, 2.0, 12.0);
    let b = BiquadCoeffs::peaking(&Machine, SR, 3000.0, 1.0, -6.0);
    let mut bq = Biquad::bypassed();
    bq.set_coeffs(a);
    bq.set_coeffs(b);
    for _ in 0..10 {
        bq.process(0.5);
    }
    bq.set_coeffs(a);
    assert_eq!(bq.ramp.unwrap().step, 0);
    bq.process(0.5);
    bq.set_coeffs(a);
    assert_eq!(bq.ramp.unwrap().step, 0, "every request starts a full ramp from where it is");
    for _ in 0..63 {
        bq.process(0.5);
    }
    assert!(bq.ramp.is_some());
    bq.process(0.5);
    assert!(bq.ramp.is_none());
    assert_eq!(bq.coeffs, Some(a));
}

#[test]
fn a_corner_is_the_angle_of_its_frequency_to_the_last_bit() {
    for (freq_hz, rate) in [(100.0f32, 48_000.0f32), (1000.0, 44_100.0), (7777.0, 96_000.0)] {
        let w0 = 2.0 * std::f32::consts::PI * freq_hz / rate;
        let corner = Corner::new(&Machine, freq_hz, rate);
        assert_eq!((corner.sin, corner.cos), (w0.sin(), w0.cos()));
    }
}
