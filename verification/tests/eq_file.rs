use loomix::eq_file::{EqFile, CURRENT_VERSION};
use loomix::parametric_eq::{EqCellParams, EqCellType, EqChannelParams, ParametricEq};

fn varied_channel_params() -> EqChannelParams<f32> {
    let cell_types = [
        EqCellType::Peak,
        EqCellType::LowPass,
        EqCellType::HighPass,
        EqCellType::LowShelf,
        EqCellType::HighShelf,
        EqCellType::BandPass,
    ];
    let mut params = EqChannelParams::<f32>::default();
    for (i, cell) in params.cells.iter_mut().enumerate() {
        *cell = EqCellParams {
            on: i % 2 == 0,
            cell_type: cell_types[i],
            freq_hz: 100.0 * (i as f32 + 1.0),
            gain_db: -6.0 + i as f32,
            q: 1.0 + i as f32,
        };
    }
    params.trim_db = 4.5;
    params.delay_ms = 123.0;
    params
}

#[test]
fn capture_then_apply_round_trips_through_a_live_eq() {
    let mut src = ParametricEq::<f32, 8>::new();
    for c in 0..8 {
        src.set_channel_params(c, varied_channel_params());
    }
    let file = EqFile::capture(&src);

    let mut dst = ParametricEq::<f32, 8>::new();
    file.apply(&mut dst);
    for c in 0..8 {
        assert_eq!(dst.channel_params(c), src.channel_params(c));
    }
}

#[test]
fn a_two_channel_file_applied_to_an_eight_channel_eq_loads_only_the_first_two() {
    let mut strip = ParametricEq::<f32, 2>::new();
    strip.set_channel_params(0, varied_channel_params());
    let mut ch1 = varied_channel_params();
    ch1.trim_db = -3.0;
    strip.set_channel_params(1, ch1);
    let file = EqFile::capture(&strip);
    assert_eq!(file.channels.len(), 2);

    let mut bus = ParametricEq::<f32, 8>::new();
    for c in 0..8 {
        bus.set_trim_db(c, 99.0);
    }
    file.apply(&mut bus);
    assert_eq!(bus.channel_params(0), strip.channel_params(0));
    assert_eq!(bus.channel_params(1), strip.channel_params(1));
    for c in 2..8 {
        assert_eq!(
            bus.channel_params(c).trim_db,
            99.0,
            "channel {c} should be untouched by a 2-channel file"
        );
    }
}

#[test]
fn an_eight_channel_file_applied_to_a_two_channel_eq_loads_only_the_first_two() {
    let mut bus = ParametricEq::<f32, 8>::new();
    for c in 0..8 {
        let mut p = varied_channel_params();
        p.trim_db = c as f32;
        bus.set_channel_params(c, p);
    }
    let file = EqFile::capture(&bus);

    let mut strip = ParametricEq::<f32, 2>::new();
    file.apply(&mut strip);
    assert_eq!(strip.channel_params(0).trim_db, 0.0);
    assert_eq!(strip.channel_params(1).trim_db, 1.0);
}

#[test]
fn a_captured_file_carries_the_current_version() {
    let file = EqFile::capture(&ParametricEq::<f32, 2>::new());
    assert_eq!(file.version, CURRENT_VERSION);
    assert_eq!(CURRENT_VERSION, 1);
}
