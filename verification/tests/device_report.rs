use loomix::device_report::{
    base_ratio_for, bluetooth_reduced_profile_warning, input_device_warnings, mono_output_warning,
    output_device_warnings, RatioError, TRANSPORT_BLUETOOTH, TRANSPORT_BLUETOOTH_LE,
};
use loomix::precision::Precision;
use loomix::CHANNELS;

/// The machine's own conversions.
struct Machine;

impl Precision<f32, f64> for Machine {
    fn widen(&self, x: f32) -> f64 {
        x as f64
    }

    fn narrow(&self, x: f64) -> f32 {
        x as f32
    }

    fn count(&self, frames: u64) -> f64 {
        frames as f64
    }

    fn nearest(&self, x: f64) -> usize {
        x.round() as usize
    }

    fn times_pi(&self, x: f64) -> f64 {
        std::f64::consts::PI * x
    }

    fn sine(&self, angle: f64) -> f64 {
        angle.sin()
    }

    fn cosine(&self, angle: f64) -> f64 {
        angle.cos()
    }

    fn to_bits(&self, x: f32) -> u32 {
        x.to_bits()
    }

    fn of_bits(&self, bits: u32) -> f32 {
        f32::from_bits(bits)
    }
}

fn base_ratio(master: f64, device: f64) -> Result<f32, RatioError<f32>> {
    base_ratio_for(&Machine, master, device)
}

const BUILTIN_TRANSPORT: u32 = 0x626c_746e;

#[test]
fn bluetooth_reduced_profile_warning_fires_for_the_real_airpods_signature() {
    let warning =
        bluetooth_reduced_profile_warning("Eren (AirPods)", TRANSPORT_BLUETOOTH, 24_000.0, "24000", 1);
    let warning = warning.expect("the real AirPods signature should produce a warning");
    assert!(
        warning.contains("24000") && warning.contains("Eren (AirPods)"),
        "should name the device and the actual degraded rate, not just say something's wrong: {warning}"
    );
    assert!(
        warning.to_lowercase().contains("microphone")
            || warning.to_lowercase().contains("reconnect"),
        "should say what would fix it, not just diagnose it: {warning}"
    );
}

#[test]
fn bluetooth_reduced_profile_warning_also_fires_for_bluetooth_le() {
    assert!(bluetooth_reduced_profile_warning(
        "Some LE headset",
        TRANSPORT_BLUETOOTH_LE,
        16_000.0, "16000",
        1
    )
    .is_some());
}

#[test]
fn bluetooth_reduced_profile_warning_does_not_fire_for_a_normal_bluetooth_rate() {
    assert!(
        bluetooth_reduced_profile_warning("Eren (AirPods)", TRANSPORT_BLUETOOTH, 44_100.0, "44100", 2)
            .is_none(),
        "a normal A2DP-quality Bluetooth connection should never be flagged"
    );
}

#[test]
fn bluetooth_reduced_profile_warning_does_not_fire_for_a_non_bluetooth_low_rate_device() {
    assert!(
        bluetooth_reduced_profile_warning("Old USB Headset", BUILTIN_TRANSPORT, 8_000.0, "8000", 1)
            .is_none(),
        "a low rate on a non-Bluetooth device should never be flagged as a reduced profile"
    );
}

#[test]
fn mono_output_warning_fires_and_is_actionable() {
    let warning = mono_output_warning("Eren (AirPods)", 1);
    let warning = warning.expect("a mono output should warn");
    assert!(
        warning.to_lowercase().contains("stereo"),
        "should name what's actually missing (a stereo field), not just an unusual number: {warning}"
    );
    assert!(
        warning.to_lowercase().contains("choose")
            || warning.to_lowercase().contains("different"),
        "should say what would fix it, not just that it's mono: {warning}"
    );
}

#[test]
fn mono_output_warning_does_not_fire_for_an_ordinary_stereo_device() {
    assert!(mono_output_warning("MacBook Pro Hoparlörü", 2).is_none());
}

#[test]
fn mono_output_warning_does_not_fire_at_the_bus_s_own_full_channel_count() {
    assert!(mono_output_warning("Full Interface", CHANNELS).is_none());
}

#[test]
fn mono_output_warning_does_not_fire_at_zero_channels() {
    assert!(mono_output_warning("No Output", 0).is_none());
}

#[test]
fn output_device_warnings_prefers_the_bluetooth_explanation_over_the_generic_one() {
    let warnings = output_device_warnings("Eren (AirPods)", TRANSPORT_BLUETOOTH, 24_000.0, "24000", 1);
    assert_eq!(
        warnings.len(),
        1,
        "exactly one warning, not both: {warnings:?}"
    );
    assert!(
        warnings[0].to_lowercase().contains("bluetooth"),
        "the Bluetooth explanation should win, got: {warnings:?}"
    );
}

#[test]
fn output_device_warnings_falls_back_to_the_generic_one_for_a_non_bluetooth_shortfall() {
    let warnings =
        output_device_warnings("Cheap USB Interface", BUILTIN_TRANSPORT, 44_100.0, "44100", 1);
    assert_eq!(warnings.len(), 1);
    assert!(warnings[0].contains("output channel"));
}

#[test]
fn output_device_warnings_is_empty_for_a_healthy_device() {
    assert!(
        output_device_warnings("MacBook Pro Hoparlörü", BUILTIN_TRANSPORT, 44_100.0, "44100", 2)
            .is_empty()
    );
}

#[test]
fn input_device_warnings_only_ever_checks_the_bluetooth_case() {
    assert!(input_device_warnings("Normal Mic", BUILTIN_TRANSPORT, 44_100.0, "44100", 1).is_empty());
    assert_eq!(
        input_device_warnings("Eren (AirPods)", TRANSPORT_BLUETOOTH, 24_000.0, "24000", 1).len(),
        1
    );
}

#[test]
fn base_ratio_for_a_real_airpods_pairing_matches_the_hand_derived_value() {
    let ratio = base_ratio(44_100.0, 24_000.0).expect("a real pairing should be accepted");
    assert!((ratio - 44_100.0 / 24_000.0).abs() < 1e-6, "got {ratio}");
}

#[test]
fn base_ratio_for_the_same_nominal_rate_is_exactly_one() {
    let ratio =
        base_ratio(48_000.0, 48_000.0).expect("same-rate pairing should be accepted");
    assert_eq!(
        ratio, 1.0,
        "no genuine mismatch should give a ratio of exactly 1.0"
    );
}

#[test]
fn base_ratio_for_a_zero_device_rate_is_refused() {
    assert!(
        base_ratio(48_000.0, 0.0).is_err(),
        "a zero nominal rate can't give a usable ratio"
    );
}

#[test]
fn base_ratio_for_an_extreme_mismatch_is_refused() {
    assert!(
        base_ratio(192_000.0, 1_000.0).is_err(),
        "a 192x mismatch should be refused, not resampled"
    );
    assert!(
        base_ratio(1_000.0, 192_000.0).is_err(),
        "the same extreme mismatch in the other direction should also be refused"
    );
}

#[test]
fn base_ratio_for_stays_within_bounds_at_the_edges_of_a_realistic_range() {
    assert!(base_ratio(192_000.0, 8_000.0).is_ok());
    assert!(base_ratio(8_000.0, 192_000.0).is_ok());
}
