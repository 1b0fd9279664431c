use loomix::device::{channel_count, check, owner_of, DeviceBuffers};
use loomix::device_report::{
    device_info, is_bluetooth_transport, judge_ratio, resolve_uid, DeviceIdentity, RatioError,
    TRANSPORT_BLUETOOTH,
};
use loomix::device_wiring::{wire_capture, wire_render};
use loomix::drift::{DriftCorrector, PiController};
use loomix::master_clock::MasterClock;
use loomix::precision::Precision;
use loomix::CHANNELS;

/// The machine's own conversions.
struct Machine;

impl Precision<f32, f64> for Machine {
    fn widen(&self, x: f32) -> f64 {
        x as f64
    }

    fn narrow(&self, x: f64) -> f32 {
        x as f32
    }

    fn count(&self, frames: u64) -> f64 {
        frames as f64
    }

    fn nearest(&self, x: f64) -> usize {
        x.round() as usize
    }

    fn times_pi(&self, x: f64) -> f64 {
        std::f64::consts::PI * x
    }

    fn sine(&self, angle: f64) -> f64 {
        angle.sin()
    }

    fn cosine(&self, angle: f64) -> f64 {
        angle.cos()
    }

    fn to_bits(&self, x: f32) -> u32 {
        x.to_bits()
    }

    fn of_bits(&self, bits: u32) -> f32 {
        f32::from_bits(bits)
    }
}

fn corrector() -> DriftCorrector<f32> {
    DriftCorrector::new(PiController::new(2e-5, 5e-7, 0.01), 500.0)
}

#[test]
fn a_status_other_than_zero_is_an_error() {
    assert_eq!(check(0), Ok(()));
    assert_eq!(check(-50), Err(-50));
    assert_eq!(owner_of(-1), None);
    assert_eq!(owner_of(42), Some(42));
    assert_eq!(channel_count(&vec![2, 1, 5]), 8);
    assert_eq!(channel_count(&Vec::new()), 0);
}

#[test]
fn a_device_is_found_by_its_persistent_id() {
    let devices = vec![
        DeviceIdentity { id: 1, uid: None },
        DeviceIdentity {
            id: 2,
            uid: Some("two".to_string()),
        },
        DeviceIdentity {
            id: 3,
            uid: Some("two".to_string()),
        },
    ];
    assert_eq!(resolve_uid("two", &devices), Ok(2));
    assert_eq!(
        resolve_uid("four", &devices),
        Err("no device with UID 'four' found (it may have been unplugged since the picker was last refreshed)".to_string())
    );
}

#[test]
fn a_ratio_that_is_no_positive_number_is_told_from_one_out_of_range() {
    assert!(matches!(judge_ratio(1.5f32), Ok(r) if r == 1.5));
    assert!(matches!(judge_ratio(0.0f32), Err(RatioError::Unusable)));
    assert!(matches!(judge_ratio(-1.0f32), Err(RatioError::Unusable)));
    assert!(matches!(judge_ratio(f32::NAN), Err(RatioError::Unusable)));
    assert!(matches!(
        judge_ratio(f32::INFINITY),
        Err(RatioError::Unusable)
    ));
    assert!(matches!(judge_ratio(33.0f32), Err(RatioError::OutOfRange(r)) if r == 33.0));
    assert!(matches!(judge_ratio(32.0f32), Ok(_)));
    assert!(matches!(judge_ratio(0.03125f32), Ok(_)));
}

#[test]
fn a_device_is_reported_with_its_warnings() {
    assert!(is_bluetooth_transport(TRANSPORT_BLUETOOTH));
    assert!(!is_bluetooth_transport(0));
    let info = device_info(
        "uid".to_string(),
        "Buds".to_string(),
        1,
        1,
        TRANSPORT_BLUETOOTH,
        24_000.0f64,
        "24000",
    )
    .unwrap();
    assert_eq!(info.uid, "uid");
    assert_eq!(info.name, "Buds");
    assert_eq!((info.input_channels, info.output_channels), (1, 1));
    assert!(info.warnings.iter().all(|w| w.starts_with("Buds is running at 24000 Hz, 1ch")));
    assert!(!info.warnings.is_empty());
}

#[test]
fn a_wired_capture_reaches_the_strip() {
    let (mut context, mut source) = wire_capture(&Machine, 2, corrector(), 1024, 1.0f32);
    assert_eq!(context.channel_count(), 2);
    let mut master = MasterClock::default();
    master.advance(256);
    let list = DeviceBuffers {
        counts: vec![2],
        data: vec![(0..512).map(|i| if i % 2 == 0 { 0.25f32 } else { -0.25 }).collect()],
    };
    context.on_input(&Machine, &master.handle(), &list);
    let mut frames = vec![[9.0f32; CHANNELS]; 128];
    source.pull_into(&mut frames);
    assert_eq!(source.underrun_counter().get(), 0);
    assert!((frames[100][0] - 0.25).abs() < 0.01, "{}", frames[100][0]);
    assert!((frames[100][1] + 0.25).abs() < 0.01, "{}", frames[100][1]);
}

#[test]
fn a_wired_bus_reaches_the_device() {
    let (mut context, mut sink) = wire_render(&Machine, 2, corrector(), 4096, 1.0f32);
    assert_eq!(context.channel_count(), 2);
    let mut frame = [0.0f32; CHANNELS];
    frame[0] = 0.5;
    frame[1] = -0.5;
    sink.push_from(&vec![frame; 2048]);
    assert_eq!(sink.overrun_counter().get(), 0);
    let mut master = MasterClock::default();
    master.advance(256);
    let mut list = DeviceBuffers {
        counts: vec![1, 1],
        data: vec![vec![9.0f32; 256], vec![9.0f32; 256]],
    };
    context.on_output(&Machine, &master.handle(), &mut list);
    assert!((list.data[0][200] - 0.5).abs() < 0.01);
    assert!((list.data[1][200] + 0.5).abs() < 0.01);
}

#[test]
fn a_wired_device_shows_the_ratio_of_the_rates_before_its_first_callback() {
    let (capture, _source) = wire_capture::<f32, f64, Machine>(&Machine, 1, corrector(), 64, 0.75);
    let (render, _sink) = wire_render::<f32, f64, Machine>(&Machine, 1, corrector(), 64, 1.25);
    assert_eq!(capture.ratio_handle().get::<f32, f64, Machine>(&Machine), 0.75);
    assert_eq!(render.ratio_handle().get::<f32, f64, Machine>(&Machine), 1.25);
}
