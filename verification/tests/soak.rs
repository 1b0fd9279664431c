use loomix::clock::ClockSource;
use loomix::soak::{
    devices_clash, first_other_output_device, judge_pair, parse_args, DriftWatch, OutputDevice,
    PairAnswers, PairRefusal, PollSchedule, SoakCommand, SoakOptions, UsageError, Verdict, DEFAULT_SECONDS,
};

fn parsed(words: &[&str]) -> Result<SoakCommand, UsageError> {
    parse_args(&words.iter().map(|w| w.to_string()).collect())
}

fn run(words: &[&str]) -> SoakOptions {
    match parsed(words) {
        Ok(SoakCommand::Run(options)) => options,
        Ok(SoakCommand::ListDevices) => panic!("expected a run"),
        Err(e) => panic!("{}", e.message),
    }
}

fn refused(words: &[&str]) -> UsageError {
    match parsed(words) {
        Ok(_) => panic!("expected a refusal"),
        Err(e) => e,
    }
}

#[test]
fn nothing_is_asked_for_by_default() {
    let options = run(&[]);
    assert!(options.duration.is_none());
    assert!(options.device_a.is_none());
    assert!(options.device_b.is_none());
    assert!(!options.allow_same_device);
    assert_eq!(DEFAULT_SECONDS, 1800);
}

#[test]
fn options_are_read_in_any_order_and_the_last_one_stands() {
    let options = run(&[
        "--allow-same-device",
        "--device-b",
        "B",
        "--duration",
        "2h",
        "--device-a",
        "A",
        "--device-b",
        "C",
    ]);
    assert_eq!(options.device_a.as_deref(), Some("A"));
    assert_eq!(options.device_b.as_deref(), Some("C"));
    assert!(options.allow_same_device);
    let duration = options.duration.unwrap();
    assert_eq!(duration.number, "2");
    assert_eq!(duration.seconds_per_unit, 3600);
}

#[test]
fn the_device_list_wins_over_everything_else() {
    assert!(matches!(
        parsed(&["--nonsense", "--list-devices"]),
        Ok(SoakCommand::ListDevices)
    ));
}

#[test]
fn what_is_wrong_with_a_command_line_is_said() {
    let e = refused(&["--duration"]);
    assert_eq!(e.message, "--duration needs a value, e.g. 30m, 1800s, 2h");
    assert!(!e.show_usage);
    let e = refused(&["--device-a"]);
    assert_eq!(e.message, "--device-a needs a device UID (see --list-devices)");
    let e = refused(&["--device-b"]);
    assert_eq!(e.message, "--device-b needs a device UID (see --list-devices)");
    let e = refused(&["--loud"]);
    assert_eq!(e.message, "unrecognised argument: --loud");
    assert!(e.show_usage);
    let e = refused(&["--duration", "5x"]);
    assert!(!e.show_usage);
}

#[test]
fn the_second_device_is_another_one_that_can_play() {
    let devices = vec![
        OutputDevice { id: 1, channels: 2 },
        OutputDevice { id: 2, channels: 0 },
        OutputDevice { id: 3, channels: 2 },
        OutputDevice { id: 4, channels: 2 },
    ];
    assert_eq!(first_other_output_device(&devices, 1), Some(3));
    assert_eq!(first_other_output_device(&devices, 3), Some(1));
    assert_eq!(
        first_other_output_device(&vec![OutputDevice { id: 1, channels: 2 }], 1),
        None
    );
    assert!(devices_clash("x", "x", false));
    assert!(!devices_clash("x", "x", true));
    assert!(!devices_clash("x", "y", false));
}

#[test]
fn a_run_starts_on_two_devices_that_can_play_under_the_first_ones_clock() {
    let answered = |source, first, second| PairAnswers {
        source: Some(source),
        first_channels: Some(first),
        second_channels: Some(second),
    };
    let master = ClockSource::Device(1);
    assert_eq!(judge_pair(1, "a", "b", false, answered(master, 2, 2)), Ok(()));
    assert_eq!(judge_pair(1, "a", "a", true, answered(master, 2, 2)), Ok(()));
    assert_eq!(
        judge_pair(1, "a", "a", false, answered(ClockSource::Internal, 0, 0)),
        Err(PairRefusal::SameDevice)
    );
    assert_eq!(
        judge_pair(1, "a", "b", false, answered(ClockSource::Device(2), 0, 0)),
        Err(PairRefusal::NotMaster)
    );
    assert_eq!(
        judge_pair(1, "a", "b", false, answered(master, 0, 0)),
        Err(PairRefusal::FirstHasNoChannels)
    );
    assert_eq!(
        judge_pair(1, "a", "b", false, answered(master, 2, 0)),
        Err(PairRefusal::SecondHasNoChannels)
    );
}

#[test]
fn two_devices_are_refused_before_they_have_answered_everything() {
    let mut answers = PairAnswers::default();
    assert_eq!(judge_pair(1, "a", "a", false, answers), Err(PairRefusal::SameDevice));
    assert_eq!(judge_pair(1, "a", "b", false, answers), Ok(()));
    answers.source = Some(ClockSource::Device(1));
    assert_eq!(judge_pair(1, "a", "b", false, answers), Ok(()));
    answers.first_channels = Some(0);
    assert_eq!(judge_pair(1, "a", "b", false, answers), Err(PairRefusal::FirstHasNoChannels));
}

#[test]
fn a_reading_is_due_every_ten_seconds() {
    let mut schedule = PollSchedule::new();
    assert!(!schedule.take_due(9_999));
    assert!(schedule.take_due(10_000));
    assert!(!schedule.take_due(10_000));
    assert!(schedule.take_due(35_000));
    assert!(schedule.take_due(35_000));
    assert!(!schedule.take_due(35_000));
}

#[test]
fn a_run_passes_without_dropouts_and_with_bounded_drift() {
    let mut watch = DriftWatch::<f32>::new();
    watch.observe(1.002);
    watch.observe(0.995);
    watch.observe(1.001);
    assert!((watch.max_deviation - 0.005).abs() < 1e-6);
    assert!(!watch.is_saturated());
    watch.observe(1.02);
    assert!(watch.is_saturated());

    let passed = Verdict {
        dropouts: 0,
        saturated: false,
    };
    assert!(passed.has_passed());
    assert_eq!(
        passed.get_text(),
        "PASS: no dropouts, drift stayed bounded (never saturated the corrector)"
    );
    let failed = Verdict {
        dropouts: 12,
        saturated: true,
    };
    assert!(!failed.has_passed());
    assert_eq!(
        failed.get_text(),
        "FAIL: 12 dropout(s) observed. drift correction saturated its clamp at least once."
    );
    let saturated = Verdict {
        dropouts: 0,
        saturated: true,
    };
    assert_eq!(
        saturated.get_text(),
        "FAIL: drift correction saturated its clamp at least once."
    );
}
