use loomix::clock::ClockSource;
use loomix::connect::{get_refusal, Answer, ConnectError, Connection, Request};
use loomix::device::Direction;
use loomix::device_report::{DeviceIdentity, RatioError};
use loomix::precision::Precision;

/// The machine's own conversions.
struct Machine;

impl Precision<f32, f64> for Machine {
    fn widen(&self, x: f32) -> f64 {
        x as f64
    }

    fn narrow(&self, x: f64) -> f32 {
        x as f32
    }

    fn count(&self, frames: u64) -> f64 {
        frames as f64
    }

    fn nearest(&self, x: f64) -> usize {
        x.round() as usize
    }

    fn times_pi(&self, x: f64) -> f64 {
        std::f64::consts::PI * x
    }

    fn sine(&self, angle: f64) -> f64 {
        angle.sin()
    }

    fn cosine(&self, angle: f64) -> f64 {
        angle.cos()
    }

    fn to_bits(&self, x: f32) -> u32 {
        x.to_bits()
    }

    fn of_bits(&self, bits: u32) -> f32 {
        f32::from_bits(bits)
    }
}

fn devices() -> Vec<DeviceIdentity> {
    vec![
        DeviceIdentity { id: 7, uid: None },
        DeviceIdentity {
            id: 8,
            uid: Some("out".to_string()),
        },
        DeviceIdentity {
            id: 9,
            uid: Some("in".to_string()),
        },
    ]
}

fn connection(input: Option<&str>) -> Connection<f64> {
    Connection::new("out".to_string(), input.map(|uid| uid.to_string()))
}

fn ask(c: &mut Connection<f64>, a: Answer<f64>) -> Request<f32> {
    c.answer(&Machine, a)
}

fn reason(r: Request<f32>) -> ConnectError<f32> {
    match r {
        Request::Refuse(e) => e,
        _ => panic!("expected a refusal"),
    }
}

/// A connection whose output is the master, at the output's rate.
fn with_master(input: Option<&str>) -> Connection<f64> {
    let mut c = connection(input);
    let r = ask(&mut c, Answer::Devices(Ok(devices())));
    assert!(matches!(
        r,
        Request::CountChannels {
            device: 8,
            direction: Direction::Output
        }
    ));
    let r = ask(&mut c, Answer::Channels(Ok(2)));
    assert!(matches!(r, Request::FindMaster { configured: 8 }));
    let r = ask(&mut c, Answer::Master(Ok(ClockSource::Device(8))));
    assert!(matches!(r, Request::ReadRate { device: 8 }));
    c
}

#[test]
fn an_output_alone_is_connected() {
    let mut c = with_master(None);
    let r = ask(&mut c, Answer::Rate(Ok(48_000.0)));
    assert!(matches!(r, Request::StartMaster { device: 8 }));
    let r = ask(&mut c, Answer::Started(Ok(())));
    assert!(matches!(r, Request::Finish));
}

#[test]
fn an_input_is_started_before_the_output() {
    let mut c = with_master(Some("in"));
    let r = ask(&mut c, Answer::Rate(Ok(44_100.0)));
    assert!(matches!(r, Request::ListDevices));
    let r = ask(&mut c, Answer::Devices(Ok(devices())));
    assert!(matches!(
        r,
        Request::CountChannels {
            device: 9,
            direction: Direction::Input
        }
    ));
    let r = ask(&mut c, Answer::Channels(Ok(64)));
    assert!(matches!(r, Request::ReadRate { device: 9 }));
    match ask(&mut c, Answer::Rate(Ok(24_000.0))) {
        Request::StartCapture {
            device,
            channels,
            base_ratio,
        } => {
            assert_eq!((device, channels), (9, 8));
            assert!((base_ratio - 1.8375).abs() < 1e-6);
        }
        _ => panic!("expected the input to be started"),
    }
    let r = ask(&mut c, Answer::Started(Ok(())));
    assert!(matches!(r, Request::StartMaster { device: 8 }));
    let r = ask(&mut c, Answer::Started(Err(-1)));
    assert!(matches!(reason(r), ConnectError::OutputNotStarted(-1)));
}

#[test]
fn an_output_that_cannot_be_used_is_refused() {
    let mut c = connection(None);
    let r = ask(&mut c, Answer::Devices(Ok(Vec::new())));
    assert!(matches!(reason(r), ConnectError::NoSuchOutput));
    let mut c = connection(None);
    let r = ask(&mut c, Answer::Devices(Err(-4)));
    assert!(matches!(reason(r), ConnectError::Hardware(-4)));
    let mut c = connection(None);
    ask(&mut c, Answer::Devices(Ok(devices())));
    let r = ask(&mut c, Answer::Channels(Ok(0)));
    assert!(matches!(reason(r), ConnectError::NoOutputChannels));
    for source in [ClockSource::Internal, ClockSource::Device(9)] {
        let mut c = connection(None);
        ask(&mut c, Answer::Devices(Ok(devices())));
        ask(&mut c, Answer::Channels(Ok(2)));
        let r = ask(&mut c, Answer::Master(Ok(source)));
        assert!(matches!(reason(r), ConnectError::NotConnected));
    }
    let mut c = connection(None);
    let r = ask(&mut c, Answer::Rate(Ok(1.0)));
    assert!(matches!(reason(r), ConnectError::OutOfTurn));
}

#[test]
fn an_input_that_cannot_be_used_is_refused() {
    let mut c = with_master(Some("gone"));
    ask(&mut c, Answer::Rate(Ok(48_000.0)));
    let r = ask(&mut c, Answer::Devices(Ok(devices())));
    assert!(matches!(reason(r), ConnectError::NoSuchInput));

    let mut c = with_master(Some("in"));
    ask(&mut c, Answer::Rate(Ok(48_000.0)));
    ask(&mut c, Answer::Devices(Ok(devices())));
    let r = ask(&mut c, Answer::Channels(Ok(0)));
    assert!(matches!(reason(r), ConnectError::NoInputChannels));

    for (rate, unusable) in [(0.0, true), (1_000.0, false)] {
        let mut c = with_master(Some("in"));
        ask(&mut c, Answer::Rate(Ok(192_000.0)));
        ask(&mut c, Answer::Devices(Ok(devices())));
        ask(&mut c, Answer::Channels(Ok(1)));
        let r = ask(&mut c, Answer::Rate(Ok(rate)));
        match reason(r) {
            ConnectError::Ratio(RatioError::Unusable) => assert!(unusable),
            ConnectError::Ratio(RatioError::OutOfRange(ratio)) => {
                assert!(!unusable && ratio == 192.0)
            }
            _ => panic!("expected the ratio to be refused"),
        }
    }

    let mut c = with_master(Some("in"));
    ask(&mut c, Answer::Rate(Ok(48_000.0)));
    ask(&mut c, Answer::Devices(Ok(devices())));
    ask(&mut c, Answer::Channels(Ok(1)));
    ask(&mut c, Answer::Rate(Ok(48_000.0)));
    let r = ask(&mut c, Answer::Started(Err(-9)));
    assert!(matches!(reason(r), ConnectError::CaptureNotStarted(-9)));
}

#[test]
fn a_refusal_is_put_into_words() {
    let text = |e: ConnectError<f32>| get_refusal(&e, "out", "in");
    assert_eq!(
        text(ConnectError::NoSuchInput).unwrap(),
        "no device with UID 'in' found (it may have been unplugged since the picker was last refreshed)"
    );
    assert_eq!(
        text(ConnectError::NoOutputChannels).unwrap(),
        "out has no output channels"
    );
    assert_eq!(
        text(ConnectError::NoInputChannels).unwrap(),
        "in has no input channels"
    );
    assert_eq!(
        text(ConnectError::NotConnected).unwrap(),
        "out is not currently connected"
    );
    assert_eq!(
        text(ConnectError::CaptureNotStarted(-50)).unwrap(),
        "failed to start capture on in: CoreAudio error -50"
    );
    assert_eq!(
        text(ConnectError::OutputNotStarted(12)).unwrap(),
        "failed to start output on out: CoreAudio error 12"
    );
    assert_eq!(
        text(ConnectError::Hardware(560227702)).unwrap(),
        "CoreAudio error 560227702"
    );
    assert!(text(ConnectError::Ratio(RatioError::Unusable)).is_none());
}
