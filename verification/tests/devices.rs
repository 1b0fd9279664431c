use loomix::clock::{resolve_clock_source, ClockSource, DeviceId, InternalClock};
use loomix::hog::{self, HogDecision, Pid};
use loomix::hotplug::{self, Action, Event, HotplugConfig};
use loomix::master_clock::MasterClock;
use loomix::rt_assert::assert_realtime;

#[test]
fn configured_device_alive_wins() {
    let source = resolve_clock_source(Some(7), &[3, 7, 9]);
    assert_eq!(source, ClockSource::Device(7));
}

#[test]
fn configured_device_not_alive_falls_back_to_internal() {
    let source = resolve_clock_source(Some(7), &[3, 9]);
    assert_eq!(source, ClockSource::Internal);
}

#[test]
fn no_device_configured_is_internal() {
    let source = resolve_clock_source(None, &[3, 7, 9]);
    assert_eq!(source, ClockSource::Internal);
}

#[test]
fn does_not_confuse_the_configured_device_with_another_alive_one() {
    let source = resolve_clock_source(Some(7), &[3, 9]);
    assert_ne!(source, ClockSource::Device(3));
    assert_ne!(source, ClockSource::Device(9));
}

#[test]
fn internal_clock_advances_by_exact_frame_counts_no_wall_time() {
    let mut clock = InternalClock::new(48_000);
    for _ in 0..100 {
        clock.tick(128);
    }
    assert_eq!(clock.frames_produced(), 100 * 128);
    assert_eq!(clock.sample_rate_hz(), 48_000);
}

#[test]
fn hog_transition_table() {
    const US: Pid = 100;
    const THEM: Pid = 200;
    let cases: &[((bool, Option<Pid>), HogDecision)] = &[
        ((true, None), HogDecision::Acquire),
        ((true, Some(US)), HogDecision::AlreadyOurs),
        ((true, Some(THEM)), HogDecision::HeldByAnother(THEM)),
        ((false, None), HogDecision::NoActionNeeded),
        ((false, Some(US)), HogDecision::Release),
        ((false, Some(THEM)), HogDecision::NoActionNeeded),
    ];
    for ((requested, owner), expected) in cases {
        assert_eq!(
            hog::decide(*requested, *owner, US),
            *expected,
            "requested={requested}, owner={owner:?}"
        );
    }
}

const A1: DeviceId = 1;
const OTHER: DeviceId = 2;

#[test]
fn hotplug_transition_table() {
    // (restart on A1, restart on any, event, expected)
    let cases = [
        (false, false, Event::DeviceRemoved(A1), Action::NoOp),
        (false, false, Event::DeviceRemoved(OTHER), Action::NoOp),
        (false, false, Event::DeviceAdded(A1), Action::Restart),
        (false, false, Event::DeviceAdded(OTHER), Action::NoOp),
        (true, false, Event::DeviceRemoved(A1), Action::Restart),
        (true, false, Event::DeviceRemoved(OTHER), Action::NoOp),
        (true, false, Event::DeviceAdded(A1), Action::Restart),
        (true, false, Event::DeviceAdded(OTHER), Action::NoOp),
        (false, true, Event::DeviceRemoved(A1), Action::Restart),
        (false, true, Event::DeviceRemoved(OTHER), Action::Restart),
        (false, true, Event::DeviceAdded(A1), Action::Restart),
        (false, true, Event::DeviceAdded(OTHER), Action::NoOp),
        (true, true, Event::DeviceRemoved(A1), Action::Restart),
        (true, true, Event::DeviceRemoved(OTHER), Action::Restart),
        (true, true, Event::DeviceAdded(A1), Action::Restart),
        (true, true, Event::DeviceAdded(OTHER), Action::NoOp),
    ];
    for (i, (on_a1, on_any, event, expected)) in cases.iter().enumerate() {
        let config = HotplugConfig {
            restart_on_a1_disconnect: *on_a1,
            restart_on_any_disconnect: *on_any,
        };
        let action = hotplug::decide(&config, Some(A1), *event);
        assert_eq!(
            action, *expected,
            "case {i}: restart_on_a1={on_a1}, restart_on_any={on_any}, event={event:?}"
        );
    }
}

#[test]
fn no_a1_configured_means_nothing_can_match_it() {
    let config = HotplugConfig {
        restart_on_a1_disconnect: true,
        restart_on_any_disconnect: false,
    };
    assert_eq!(
        hotplug::decide(&config, None, Event::DeviceRemoved(A1)),
        Action::NoOp
    );
    assert_eq!(
        hotplug::decide(&config, None, Event::DeviceAdded(A1)),
        Action::NoOp
    );
}

#[test]
fn hotplug_switches_are_off_by_default() {
    let config = HotplugConfig::default();
    assert!(!config.restart_on_a1_disconnect && !config.restart_on_any_disconnect);
}

#[test]
fn advances_by_exact_frame_counts() {
    let mut clock = MasterClock::default();
    clock.advance(128);
    clock.advance(128);
    assert_eq!(clock.frames(), 256);
}

#[test]
fn every_handle_sees_the_clock_advance() {
    let mut clock = MasterClock::default();
    let handle = clock.handle();
    let other = handle.clone();
    clock.advance(u32::MAX);
    clock.advance(2);
    assert_eq!(clock.frames(), u32::MAX as u64 + 2);
    assert_eq!((handle.frames(), other.frames()), (clock.frames(), clock.frames()));
    assert_eq!(other.frames_beside(&clock), u32::MAX as u64 + 2);
}

#[test]
fn realtime_advance_and_read_do_not_allocate() {
    let mut clock = MasterClock::default();
    let frames = assert_realtime(|| {
        clock.advance(128);
        clock.frames()
    });
    assert_eq!(frames, 128);
}

#[test]
fn realtime_guard_permits_non_allocating_work() {
    assert_eq!(assert_realtime(|| 2_i32 + 2), 4);
}

#[test]
fn guard_releases_the_flag_on_drop() {
    assert_realtime(|| {});
    let v: Vec<u8> = Vec::with_capacity(1);
    assert!(v.is_empty());
}
