use loomix::bus::{Bus, BusMono};
use loomix::bus_mode::{transform, BusMode};
use loomix::{
    Frame, CHANNELS, CH_FC, CH_FL, CH_FR, CH_RL, CH_RR, CH_SL, CH_SR, CH_SW,
};

const EPS: f32 = 1e-6;

fn probe() -> Frame<f32> {
    let mut f = [0.0; CHANNELS];
    f[CH_FL] = 1.0;
    f[CH_FR] = 2.0;
    f[CH_FC] = 3.0;
    f[CH_SW] = 4.0;
    f[CH_RL] = 5.0;
    f[CH_RR] = 6.0;
    f[CH_SL] = 7.0;
    f[CH_SR] = 8.0;
    f
}

fn assert_close(actual: Frame<f32>, expected: Frame<f32>) {
    for c in 0..CHANNELS {
        assert!(
            (actual[c] - expected[c]).abs() < EPS,
            "channel {c}: actual {} expected {}",
            actual[c],
            expected[c]
        );
    }
}

#[test]
fn normal_is_a_bit_exact_identity() {
    assert_eq!(transform(BusMode::Normal, probe()), probe());
}

#[test]
fn composite_is_untouched_by_transform_engine_fills_it_directly() {
    assert_eq!(transform(BusMode::Composite, probe()), probe());
}

#[test]
fn mix_down_a_matches_the_corrected_formula() {
    let mut expected = [0.0; CHANNELS];
    expected[CH_FL] = 1.0 + 0.7 * 3.0 + 4.0 + 5.0 - 7.0;
    expected[CH_FR] = 2.0 + 0.7 * 3.0 + 4.0 - 6.0 + 8.0;
    assert_close(transform(BusMode::MixDownA, probe()), expected);
}

#[test]
fn mix_down_b_matches_the_corrected_formula() {
    let mut expected = [0.0; CHANNELS];
    expected[CH_FL] = 1.0 + 0.7 * 3.0 + 4.0 + 5.0 + 7.0;
    expected[CH_FR] = 2.0 + 0.7 * 3.0 + 4.0 + 6.0 + 8.0;
    assert_close(transform(BusMode::MixDownB, probe()), expected);
}

#[test]
fn mix_down_a_right_channel_uses_fr_not_the_published_rl_typo() {
    let mut frame = [0.0; CHANNELS];
    frame[CH_FR] = 100.0;
    frame[CH_RL] = -999.0;

    let actual: f32 = transform(BusMode::MixDownA, frame)[CH_FR];
    let corrected_fr_based = 100.0;
    let published_rl_based = -999.0;

    assert!((actual - corrected_fr_based).abs() < EPS);
    assert!((actual - published_rl_based).abs() > 100.0);
}

#[test]
fn stereo_repeat_alternates_fl_fr_across_all_four_pairs() {
    let mut expected = [0.0; CHANNELS];
    for pair in 0..4 {
        expected[pair * 2] = 1.0;
        expected[pair * 2 + 1] = 2.0;
    }
    assert_close(transform(BusMode::StereoRepeat, probe()), expected);
}

#[test]
fn up_mix_tv_derives_7_1_from_the_stereo_pair() {
    let mut expected = [0.0; CHANNELS];
    expected[CH_FL] = 1.0;
    expected[CH_FR] = 2.0;
    expected[CH_FC] = 0.2 * 3.0;
    expected[CH_SW] = 0.5 * 3.0;
    expected[CH_RL] = -0.7;
    expected[CH_SL] = -0.7;
    expected[CH_RR] = 0.7;
    expected[CH_SR] = 0.7;
    assert_close(transform(BusMode::UpMixTv, probe()), expected);
}

#[test]
fn up_mix_2_1_only_populates_fl_fr_sw() {
    let mut expected = [0.0; CHANNELS];
    expected[CH_FL] = 1.0;
    expected[CH_FR] = 2.0;
    expected[CH_SW] = 1.5;
    assert_close(transform(BusMode::UpMix21, probe()), expected);
}

#[test]
fn up_mix_4_1_adds_rear_to_2_1() {
    let mut expected = [0.0; CHANNELS];
    expected[CH_FL] = 1.0;
    expected[CH_FR] = 2.0;
    expected[CH_SW] = 1.5;
    expected[CH_RL] = 1.0;
    expected[CH_RR] = 2.0;
    assert_close(transform(BusMode::UpMix41, probe()), expected);
}

#[test]
fn up_mix_6_1_adds_side_to_4_1() {
    let mut expected = [0.0; CHANNELS];
    expected[CH_FL] = 1.0;
    expected[CH_FR] = 2.0;
    expected[CH_SW] = 1.5;
    expected[CH_RL] = 1.0;
    expected[CH_RR] = 2.0;
    expected[CH_SL] = 1.0;
    expected[CH_SR] = 2.0;
    assert_close(transform(BusMode::UpMix61, probe()), expected);
}

#[test]
fn center_only_puts_fc_on_both_channels_and_silences_the_rest() {
    let mut expected = [0.0; CHANNELS];
    expected[CH_FL] = 3.0;
    expected[CH_FR] = 3.0;
    assert_close(transform(BusMode::CenterOnly, probe()), expected);
}

#[test]
fn lfe_only_puts_sw_on_both_channels_and_silences_the_rest() {
    let mut expected = [0.0; CHANNELS];
    expected[CH_FL] = 4.0;
    expected[CH_FR] = 4.0;
    assert_close(transform(BusMode::LfeOnly, probe()), expected);
}

#[test]
fn rear_only_maps_rl_rr_onto_fl_fr_and_silences_the_rest() {
    let mut expected = [0.0; CHANNELS];
    expected[CH_FL] = 5.0;
    expected[CH_FR] = 6.0;
    assert_close(transform(BusMode::RearOnly, probe()), expected);
}

#[test]
fn default_bus_is_unity_unmuted_off_and_eq_off() {
    let bus = Bus::<f32>::new();
    assert!(!bus.mute);
    assert_eq!(bus.mono, BusMono::Off);
    assert_eq!(bus.mode, BusMode::Normal);
    assert_eq!(bus.gain_db(), 0.0);
    assert!(!bus.eq.on);
}
