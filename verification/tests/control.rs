use loomix::bus::BusMono;
use loomix::bus_mode::BusMode;
use loomix::command::EngineCommand;
use loomix::control::{control_channel, CommandDrain, COMMAND_QUEUE_CAPACITY};
use loomix::elementary::Elementary;
use loomix::engine::Engine;
use loomix::intellipan::IntellipanMode;
use loomix::karaoke::KaraokeMode;
use loomix::parametric_eq::{EqCellParams, EqCellType, EqChannelParams, Memory, NUM_CELLS};
use loomix::rt_assert::assert_realtime;
use loomix::signal_path::SignalPath;
use loomix::snapshot::{snapshot_channel, ControlSnapshot, EqSnapshot};
use loomix::strip_dsp::{HardwareChain, StripChain, VirtualChain, STRIP_EQ_CHANNELS};
use loomix::{CHANNELS, NUM_BUSES, NUM_STRIPS};

/// The machine's own functions.
struct Machine;

impl Elementary<f32> for Machine {
    fn root(&self, x: f32) -> f32 {
        x.sqrt()
    }

    fn exp(&self, x: f32) -> f32 {
        x.exp()
    }

    fn log10(&self, x: f32) -> f32 {
        x.log10()
    }

    fn power_of_ten(&self, x: f32) -> f32 {
        10f32.powf(x)
    }

    fn sinh(&self, x: f32) -> f32 {
        x.sinh()
    }

    fn angle(&self, turns: f32) -> f32 {
        2.0 * std::f32::consts::PI * turns
    }

    fn sine(&self, angle: f32) -> f32 {
        angle.sin()
    }

    fn cosine(&self, angle: f32) -> f32 {
        angle.cos()
    }

    fn count(&self, n: usize) -> f32 {
        n as f32
    }

    fn split(&self, x: f32) -> (usize, f32) {
        let whole = x.floor().max(0.0);
        (whole as usize, x - whole)
    }

    fn nearest(&self, x: f32) -> usize {
        x.round() as usize
    }

    fn floor(&self, x: f32) -> f32 {
        x.floor()
    }

    fn whole_up(&self, x: f32) -> usize {
        x.ceil() as usize
    }
}

/// A mixer: its settings, and its effects once it has played something.
struct EngineRig {
    engine: Engine<f32>,
    path: Option<SignalPath<f32>>,
}

impl EngineRig {
    fn new() -> Self {
        EngineRig {
            engine: Engine::<f32>::new(&Machine),
            path: None,
        }
    }
}

impl std::ops::Deref for EngineRig {
    type Target = Engine<f32>;

    fn deref(&self) -> &Engine<f32> {
        &self.engine
    }
}

impl std::ops::DerefMut for EngineRig {
    fn deref_mut(&mut self) -> &mut Engine<f32> {
        &mut self.engine
    }
}

fn drain_into(drain: &mut CommandDrain<f32>, rig: &mut EngineRig, max: usize) -> usize {
    let mut path = match rig.path.take() {
        Some(path) => path,
        None => SignalPath::new(&Machine, &rig.engine),
    };
    let applied = drain.drain_into(&Machine, &mut rig.engine, &mut path, max);
    rig.path = Some(path);
    applied
}

fn neutral() -> ControlSnapshot<f32> {
    ControlSnapshot::capture(&EngineRig::new().engine)
}

#[test]
fn a_single_command_round_trips_to_the_engine() {
    let (mut sink, mut drain) = control_channel::<f32>();
    let mut engine = EngineRig::new();

    sink.enqueue(EngineCommand::SetStripMute(3, true));
    sink.flush();
    let applied = drain_into(&mut drain, &mut engine, 64);

    assert_eq!(applied, 1);
    assert!(engine.strips[3].mute);
    assert_eq!(sink.overflow_counter().get(), 0);
}

#[test]
fn enqueue_coalesces_same_parameter_to_one_pending_entry() {
    let (mut sink, _drain) = control_channel::<f32>();
    for i in 0..50 {
        sink.enqueue(EngineCommand::SetStripGainLayer(0, 0, i as f32 * 0.1));
    }
    assert_eq!(
        sink.pending_len(),
        1,
        "same (strip, bus) key should coalesce"
    );
}

#[test]
fn a_flood_past_capacity_still_converges_to_the_last_value_sent() {
    let (mut sink, mut drain) = control_channel::<f32>();
    let mut engine = EngineRig::new();

    let flood = COMMAND_QUEUE_CAPACITY * 8;
    let mut expected_gain = 0.0f32;
    let mut expected_mute = false;
    for i in 0..flood {
        expected_gain = -60.0 + (i % 121) as f32;
        expected_mute = i % 2 == 0;
        sink.enqueue(EngineCommand::SetStripGainLayer(2, 5, expected_gain));
        sink.enqueue(EngineCommand::SetBusMute(1, expected_mute));

        if i % 3 == 0 {
            sink.flush();
            drain_into(&mut drain, &mut engine, 64);
        }
    }
    sink.flush();
    while drain_into(&mut drain, &mut engine, 64) > 0 {}

    assert_eq!(engine.strips[2].gain_layer_db(5), expected_gain);
    assert_eq!(engine.buses[1].mute, expected_mute);
    assert!(
        sink.pending_len() == 0,
        "every pending command should have eventually been applied"
    );
}

#[test]
fn drain_into_never_applies_more_than_max_per_call() {
    let (mut sink, mut drain) = control_channel::<f32>();
    let mut engine = EngineRig::new();
    for s in 0..8 {
        for b in 0..8 {
            sink.enqueue(EngineCommand::SetStripGainLayer(s, b, 1.0));
        }
    }
    sink.flush();

    let first = drain_into(&mut drain, &mut engine, 10);
    assert_eq!(first, 10);
    let rest = drain_into(&mut drain, &mut engine, 64);
    assert_eq!(rest, 64 - 10);
}

#[test]
fn reconciliation_snapshot_matches_the_uis_optimistic_mirror_after_a_burst_of_changes() {
    let (mut sink, mut drain) = control_channel::<f32>();
    let (mut publisher, mut reader) = snapshot_channel(8, neutral());
    let mut engine = EngineRig::new();
    let mut mirror = neutral();

    let commands = [
        EngineCommand::SetStripMute(0, true),
        EngineCommand::SetStripSolo(1, true),
        EngineCommand::SetStripMono(2, true),
        EngineCommand::SetStripBusAssign(3, 4, true),
        EngineCommand::SetStripGainLayer(4, 5, -12.5),
        EngineCommand::SetStripPan(0, -0.5),
        EngineCommand::SetBusMute(0, true),
        EngineCommand::SetBusMono(1, BusMono::StereoReverse),
        EngineCommand::SetBusMode(2, BusMode::MixDownA),
        EngineCommand::SetBusGain(3, -6.0),
    ];
    for &command in &commands {
        sink.enqueue(command);

        apply_to_snapshot(&mut mirror, command);
    }
    sink.flush();
    while drain_into(&mut drain, &mut engine, 64) > 0 {}

    publisher.publish(ControlSnapshot::capture(&engine.engine));
    let observed = reader.read();

    assert_eq!(
        observed, mirror,
        "engine-published snapshot must match the UI's optimistic mirror"
    );
}

fn apply_to_snapshot(snapshot: &mut ControlSnapshot<f32>, command: EngineCommand<f32>) {
    match command {
        EngineCommand::SetStripMute(s, on) => snapshot.strips[s].mute = on,
        EngineCommand::SetStripSolo(s, on) => snapshot.strips[s].solo = on,
        EngineCommand::SetStripMono(s, on) => snapshot.strips[s].mono = on,
        EngineCommand::SetStripBusAssign(s, b, on) => snapshot.strips[s].bus_assign[b] = on,
        EngineCommand::SetStripGainLayer(s, b, db) => snapshot.strips[s].gain_layer_db[b] = db,
        EngineCommand::SetStripPan(s, pan) => snapshot.strips[s].pan = pan,
        EngineCommand::SetBusMute(b, on) => snapshot.buses[b].mute = on,
        EngineCommand::SetBusMono(b, mono) => snapshot.buses[b].mono = mono,
        EngineCommand::SetBusMode(b, mode) => snapshot.buses[b].mode = mode,
        EngineCommand::SetBusGain(b, db) => snapshot.buses[b].gain_db = db,
        EngineCommand::SetStripEqCell(..)
        | EngineCommand::SetBusEqCell(..)
        | EngineCommand::SetStripEqTrim(..)
        | EngineCommand::SetStripEqDelay(..)
        | EngineCommand::SetBusEqTrim(..)
        | EngineCommand::SetBusEqDelay(..)
        | EngineCommand::ResetStripEqChannel(..)
        | EngineCommand::ResetBusEqChannel(..)
        | EngineCommand::CopyStripEqChannel(..)
        | EngineCommand::CopyBusEqChannel(..) => {
        }
        EngineCommand::SetStripGateKnob(s, knob) => snapshot.strips[s].gate_knob = knob,
        EngineCommand::SetStripCompKnob(s, knob) => snapshot.strips[s].comp_knob = knob,
        EngineCommand::SetStripDenoiserKnob(s, knob) => snapshot.strips[s].denoiser_knob = knob,
        EngineCommand::SetStripLimiterThreshold(s, db) => {
            snapshot.strips[s].limiter_threshold_db = db
        }
        EngineCommand::SetStripIntellipanMode(s, mode) => {
            snapshot.strips[s].intellipan_mode = mode
        }
        EngineCommand::SetStripIntellipanXY(s, x, y) => {
            snapshot.strips[s].intellipan_xy = (x, y)
        }
        EngineCommand::SetStripEq3(s, bass, mid, treble) => {
            snapshot.strips[s].eq3_db = (bass, mid, treble)
        }
        EngineCommand::SetStripPositionPad(s, x, y) => snapshot.strips[s].position_pad = (x, y),
        EngineCommand::SetStripMc(s, on) => snapshot.strips[s].mc = on,
        EngineCommand::SetStripKaraoke(s, mode) => snapshot.strips[s].karaoke = mode,
        EngineCommand::SetStripEqOn(s, on) => snapshot.strips[s].strip_eq_on = on,
        EngineCommand::SetStripEqMemory(s, memory) => {
            snapshot.strips[s].strip_eq_memory = memory
        }
        EngineCommand::SetBusEqOn(b, on) => snapshot.buses[b].eq_on = on,
        EngineCommand::SetBusEqMemory(b, memory) => snapshot.buses[b].eq_memory = memory,
    }
}

const HW: usize = 0;
const VIRTUAL: usize = 5;
const BUS: usize = 0;

fn hw_chain(engine: &Engine<f32>, idx: usize) -> &HardwareChain<f32> {
    match &engine.strips[idx].chain {
        StripChain::Hardware(c) => c,
        StripChain::Virtual(_) => panic!("test index {idx} expected a hardware strip"),
    }
}

fn virt_chain(engine: &Engine<f32>, idx: usize) -> &VirtualChain<f32> {
    match &engine.strips[idx].chain {
        StripChain::Virtual(c) => c,
        StripChain::Hardware(_) => panic!("test index {idx} expected a virtual strip"),
    }
}

struct ControlCase {
    name: &'static str,
    round_trips: fn(&mut Engine<f32>) -> bool,
    noop_variants: fn() -> Vec<EngineCommand<f32>>,
}

const CONTROL_CASES: &[ControlCase] = &[
    ControlCase {
        name: "gate knob",
        round_trips: |e| {
            EngineCommand::SetStripGateKnob(HW, 6.5).apply(e);
            hw_chain(e, HW).gate.knob() == 6.5
        },
        noop_variants: || {
            vec![
                EngineCommand::SetStripGateKnob(NUM_STRIPS, 6.5),
                EngineCommand::SetStripGateKnob(VIRTUAL, 6.5),
            ]
        },
    },
    ControlCase {
        name: "compressor knob",
        round_trips: |e| {
            EngineCommand::SetStripCompKnob(HW, 4.5).apply(e);
            hw_chain(e, HW).compressor.knob() == 4.5
        },
        noop_variants: || {
            vec![
                EngineCommand::SetStripCompKnob(NUM_STRIPS, 4.5),
                EngineCommand::SetStripCompKnob(VIRTUAL, 4.5),
            ]
        },
    },
    ControlCase {
        name: "denoiser knob",
        round_trips: |e| {
            EngineCommand::SetStripDenoiserKnob(HW, 7.0).apply(e);
            hw_chain(e, HW).denoiser.knob() == 7.0
        },
        noop_variants: || {
            vec![
                EngineCommand::SetStripDenoiserKnob(NUM_STRIPS, 7.0),
                EngineCommand::SetStripDenoiserKnob(VIRTUAL, 7.0),
            ]
        },
    },
    ControlCase {
        name: "limiter threshold (hardware strip)",
        round_trips: |e| {
            EngineCommand::SetStripLimiterThreshold(HW, -6.0).apply(e);
            hw_chain(e, HW).limiter.threshold_db == -6.0
        },
        noop_variants: || vec![EngineCommand::SetStripLimiterThreshold(NUM_STRIPS, -6.0)],
    },
    ControlCase {
        name: "limiter threshold (virtual strip)",

        round_trips: |e| {
            EngineCommand::SetStripLimiterThreshold(VIRTUAL, -8.0).apply(e);
            virt_chain(e, VIRTUAL).limiter.threshold_db == -8.0
        },
        noop_variants: || vec![EngineCommand::SetStripLimiterThreshold(NUM_STRIPS, -8.0)],
    },
    ControlCase {
        name: "Intellipan mode",
        round_trips: |e| {
            EngineCommand::SetStripIntellipanMode(HW, IntellipanMode::Position).apply(e);
            hw_chain(e, HW).pad.mode() == IntellipanMode::Position
        },
        noop_variants: || {
            vec![
                EngineCommand::SetStripIntellipanMode(NUM_STRIPS, IntellipanMode::Position),
                EngineCommand::SetStripIntellipanMode(VIRTUAL, IntellipanMode::Position),
            ]
        },
    },
    ControlCase {
        name: "Intellipan x/y",
        round_trips: |e| {
            EngineCommand::SetStripIntellipanXY(HW, 0.3, 0.6).apply(e);
            hw_chain(e, HW).pad.position() == (0.3, 0.6)
        },
        noop_variants: || {
            vec![
                EngineCommand::SetStripIntellipanXY(NUM_STRIPS, 0.3, 0.6),
                EngineCommand::SetStripIntellipanXY(VIRTUAL, 0.3, 0.6),
            ]
        },
    },
    ControlCase {
        name: "virtual strip 3-band EQ",
        round_trips: |e| {
            EngineCommand::SetStripEq3(VIRTUAL, 3.0, -2.0, 5.0).apply(e);
            let c = virt_chain(e, VIRTUAL);
            (c.eq.bass_db, c.eq.mid_db, c.eq.treble_db) == (3.0, -2.0, 5.0)
        },
        noop_variants: || {
            vec![
                EngineCommand::SetStripEq3(NUM_STRIPS, 3.0, -2.0, 5.0),
                EngineCommand::SetStripEq3(HW, 3.0, -2.0, 5.0),
            ]
        },
    },
    ControlCase {
        name: "5.1 position pad",
        round_trips: |e| {
            EngineCommand::SetStripPositionPad(VIRTUAL, 0.2, 0.7).apply(e);
            let c = virt_chain(e, VIRTUAL);
            (c.pan_pad.x, c.pan_pad.y) == (0.2, 0.7)
        },
        noop_variants: || {
            vec![
                EngineCommand::SetStripPositionPad(NUM_STRIPS, 0.2, 0.7),
                EngineCommand::SetStripPositionPad(HW, 0.2, 0.7),
            ]
        },
    },
    ControlCase {
        name: "M.C.",
        round_trips: |e| {
            EngineCommand::SetStripMc(VIRTUAL, true).apply(e);
            virt_chain(e, VIRTUAL).mc
        },
        noop_variants: || {
            vec![
                EngineCommand::SetStripMc(NUM_STRIPS, true),
                EngineCommand::SetStripMc(HW, true),
            ]
        },
    },
    ControlCase {
        name: "Karaoke",
        round_trips: |e| {
            EngineCommand::SetStripKaraoke(VIRTUAL, KaraokeMode::K1).apply(e);
            virt_chain(e, VIRTUAL).karaoke.mode == KaraokeMode::K1
        },
        noop_variants: || {
            vec![
                EngineCommand::SetStripKaraoke(NUM_STRIPS, KaraokeMode::K1),
                EngineCommand::SetStripKaraoke(HW, KaraokeMode::K1),
            ]
        },
    },
    ControlCase {
        name: "strip EQ on/off",
        round_trips: |e| {
            EngineCommand::SetStripEqOn(HW, true).apply(e);
            hw_chain(e, HW).eq.on
        },
        noop_variants: || {
            vec![
                EngineCommand::SetStripEqOn(NUM_STRIPS, true),
                EngineCommand::SetStripEqOn(VIRTUAL, true),
            ]
        },
    },
    ControlCase {
        name: "strip EQ A/B memory",
        round_trips: |e| {
            EngineCommand::SetStripEqMemory(HW, Memory::B).apply(e);
            hw_chain(e, HW).eq.active_memory() == Memory::B
        },
        noop_variants: || {
            vec![
                EngineCommand::SetStripEqMemory(NUM_STRIPS, Memory::B),
                EngineCommand::SetStripEqMemory(VIRTUAL, Memory::B),
            ]
        },
    },
    ControlCase {
        name: "bus EQ on/off",
        round_trips: |e| {
            EngineCommand::SetBusEqOn(BUS, true).apply(e);
            e.buses[BUS].eq.on
        },
        noop_variants: || vec![EngineCommand::SetBusEqOn(NUM_BUSES, true)],
    },
    ControlCase {
        name: "bus EQ A/B memory",
        round_trips: |e| {
            EngineCommand::SetBusEqMemory(BUS, Memory::B).apply(e);
            e.buses[BUS].eq.active_memory() == Memory::B
        },
        noop_variants: || vec![EngineCommand::SetBusEqMemory(NUM_BUSES, Memory::B)],
    },

    ControlCase {
        name: "strip EQ trim",
        round_trips: |e| {
            EngineCommand::SetStripEqTrim(HW, 1, 6.0).apply(e);
            hw_chain(e, HW).eq.channel_params(1).trim_db == 6.0
        },
        noop_variants: || {
            vec![
                EngineCommand::SetStripEqTrim(NUM_STRIPS, 0, 6.0),
                EngineCommand::SetStripEqTrim(HW, STRIP_EQ_CHANNELS, 6.0),
                EngineCommand::SetStripEqTrim(VIRTUAL, 0, 6.0),
            ]
        },
    },
    ControlCase {
        name: "strip EQ delay",
        round_trips: |e| {
            EngineCommand::SetStripEqDelay(HW, 1, 120.0).apply(e);
            hw_chain(e, HW).eq.channel_params(1).delay_ms == 120.0
        },
        noop_variants: || {
            vec![
                EngineCommand::SetStripEqDelay(NUM_STRIPS, 0, 120.0),
                EngineCommand::SetStripEqDelay(HW, STRIP_EQ_CHANNELS, 120.0),
                EngineCommand::SetStripEqDelay(VIRTUAL, 0, 120.0),
            ]
        },
    },
    ControlCase {
        name: "bus EQ trim",
        round_trips: |e| {
            EngineCommand::SetBusEqTrim(BUS, 3, -4.0).apply(e);
            e.buses[BUS].eq.channel_params(3).trim_db == -4.0
        },
        noop_variants: || {
            vec![
                EngineCommand::SetBusEqTrim(NUM_BUSES, 0, -4.0),
                EngineCommand::SetBusEqTrim(BUS, CHANNELS, -4.0),
            ]
        },
    },
    ControlCase {
        name: "bus EQ delay",
        round_trips: |e| {
            EngineCommand::SetBusEqDelay(BUS, 3, 80.0).apply(e);
            e.buses[BUS].eq.channel_params(3).delay_ms == 80.0
        },
        noop_variants: || {
            vec![
                EngineCommand::SetBusEqDelay(NUM_BUSES, 0, 80.0),
                EngineCommand::SetBusEqDelay(BUS, CHANNELS, 80.0),
            ]
        },
    },
    ControlCase {
        name: "strip EQ FLAT (reset one channel)",
        round_trips: |e| {
            EngineCommand::SetStripEqTrim(HW, 0, 9.0).apply(e);
            EngineCommand::ResetStripEqChannel(HW, 0).apply(e);
            hw_chain(e, HW).eq.channel_params(0).trim_db == 0.0
        },
        noop_variants: || {
            vec![
                EngineCommand::ResetStripEqChannel(NUM_STRIPS, 0),
                EngineCommand::ResetStripEqChannel(HW, STRIP_EQ_CHANNELS),
                EngineCommand::ResetStripEqChannel(VIRTUAL, 0),
            ]
        },
    },
    ControlCase {
        name: "bus EQ FLAT (reset one channel)",
        round_trips: |e| {
            EngineCommand::SetBusEqTrim(BUS, 2, 9.0).apply(e);
            EngineCommand::ResetBusEqChannel(BUS, 2).apply(e);
            e.buses[BUS].eq.channel_params(2).trim_db == 0.0
        },
        noop_variants: || {
            vec![
                EngineCommand::ResetBusEqChannel(NUM_BUSES, 0),
                EngineCommand::ResetBusEqChannel(BUS, CHANNELS),
            ]
        },
    },
    ControlCase {
        name: "strip EQ CH COPY",
        round_trips: |e| {
            EngineCommand::SetStripEqTrim(HW, 0, 7.5).apply(e);
            EngineCommand::CopyStripEqChannel(HW, 0, 1).apply(e);
            hw_chain(e, HW).eq.channel_params(1).trim_db == 7.5
        },
        noop_variants: || {
            vec![
                EngineCommand::CopyStripEqChannel(NUM_STRIPS, 0, 1),
                EngineCommand::CopyStripEqChannel(HW, STRIP_EQ_CHANNELS, 1),
                EngineCommand::CopyStripEqChannel(HW, 0, STRIP_EQ_CHANNELS),
                EngineCommand::CopyStripEqChannel(VIRTUAL, 0, 1),
            ]
        },
    },
    ControlCase {
        name: "bus EQ CH COPY",
        round_trips: |e| {
            EngineCommand::SetBusEqTrim(BUS, 0, 7.5).apply(e);
            EngineCommand::CopyBusEqChannel(BUS, 0, 1).apply(e);
            e.buses[BUS].eq.channel_params(1).trim_db == 7.5
        },
        noop_variants: || {
            vec![
                EngineCommand::CopyBusEqChannel(NUM_BUSES, 0, 1),
                EngineCommand::CopyBusEqChannel(BUS, CHANNELS, 1),
                EngineCommand::CopyBusEqChannel(BUS, 0, CHANNELS),
            ]
        },
    },
];

const EXPECTED_M10_CONTROL_COUNT: usize = 23;

#[test]
fn control_case_table_covers_every_m10_control_exactly_once() {
    assert_eq!(
        CONTROL_CASES.len(),
        EXPECTED_M10_CONTROL_COUNT,
        "a control was added to or removed from CONTROL_CASES without updating the expected count"
    );
    let mut seen = std::collections::HashSet::new();
    for case in CONTROL_CASES {
        assert!(seen.insert(case.name), "duplicate case name: {}", case.name);
    }
}

#[test]
fn every_m10_control_round_trips_to_the_engine() {
    for case in CONTROL_CASES {
        let mut engine = EngineRig::new();
        assert!(
            (case.round_trips)(&mut engine),
            "{} did not round-trip to the engine",
            case.name
        );
    }
}

#[test]
fn every_m10_control_ignores_out_of_range_and_wrong_strip_kind_commands() {
    for case in CONTROL_CASES {
        let mut engine = EngineRig::new();
        let before = ControlSnapshot::capture(&engine.engine);
        for command in (case.noop_variants)() {
            command.apply(&mut engine);
        }
        assert_eq!(
            ControlSnapshot::capture(&engine.engine),
            before,
            "{}: an out-of-range or wrong-strip-kind command mutated engine state",
            case.name
        );
    }
}

#[test]
fn every_m10_control_noop_variant_drains_cleanly_through_the_real_channel() {
    for case in CONTROL_CASES {
        let (mut sink, mut drain) = control_channel::<f32>();
        let mut engine = EngineRig::new();
        let before = ControlSnapshot::capture(&engine.engine);
        for command in (case.noop_variants)() {
            sink.enqueue(command);
        }
        sink.flush();
        while drain_into(&mut drain, &mut engine, 64) > 0 {}
        assert_eq!(
            ControlSnapshot::capture(&engine.engine),
            before,
            "{}: noop variants mutated state after draining through the real channel",
            case.name
        );
    }
}

#[test]
fn a_flood_of_xy_pad_drag_updates_coalesces_and_converges_to_the_last_position() {
    let (mut sink, mut drain) = control_channel::<f32>();
    let mut engine = EngineRig::new();

    let flood = COMMAND_QUEUE_CAPACITY * 8;
    let mut expected_intellipan = (0.0f32, 0.0f32);
    let mut expected_position_pad = (0.0f32, 0.0f32);
    for i in 0..flood {
        let x = -0.5 + (i % 100) as f32 * 0.01;
        let y = (i % 100) as f32 * 0.01;
        expected_intellipan = (x, y);
        expected_position_pad = (x, y);
        sink.enqueue(EngineCommand::SetStripIntellipanXY(HW, x, y));
        sink.enqueue(EngineCommand::SetStripPositionPad(VIRTUAL, x, y));

        assert!(
            sink.pending_len() <= 2,
            "a drag across two pads should never grow pending past one entry each"
        );
        if i % 3 == 0 {
            sink.flush();
            drain_into(&mut drain, &mut engine, 64);
        }
    }
    sink.flush();
    while drain_into(&mut drain, &mut engine, 64) > 0 {}

    assert_eq!(hw_chain(&engine.engine, HW).pad.position(), expected_intellipan);
    let virtual_pad = virt_chain(&engine.engine, VIRTUAL).pan_pad;
    assert_eq!(
        (virtual_pad.x, virtual_pad.y),
        expected_position_pad,
        "the 5.1 pad should converge to the last position sent, not an intermediate one"
    );
}

#[test]
fn eq_snapshot_reflects_real_cell_edits_and_defaults_a_virtual_strip() {
    let mut engine = EngineRig::new();
    let cell = EqCellParams {
        on: true,
        cell_type: EqCellType::LowShelf,
        freq_hz: 250.0,
        gain_db: 4.0,
        q: 2.0,
    };
    EngineCommand::SetStripEqCell(HW, 1, 3, cell).apply(&mut engine);
    EngineCommand::SetBusEqCell(BUS, 5, 2, cell).apply(&mut engine);

    let snapshot = EqSnapshot::capture(&engine.engine);
    assert_eq!(snapshot.strips[HW][1].cells[3], cell);
    assert_eq!(snapshot.buses[BUS][5].cells[2], cell);
    assert_eq!(
        snapshot.strips[VIRTUAL],
        [EqChannelParams::default(); STRIP_EQ_CHANNELS],
        "a virtual strip has no parametric EQ; its slot should read as the documented default"
    );
}

#[test]
fn a_virtual_strip_eq_command_is_a_harmless_no_op() {
    let (mut sink, mut drain) = control_channel::<f32>();
    let mut engine = EngineRig::new();

    sink.enqueue(EngineCommand::SetStripEqCell(
        5,
        0,
        0,
        EqCellParams {
            on: true,
            cell_type: EqCellType::Peak,
            freq_hz: 1000.0,
            gain_db: 6.0,
            q: 1.0,
        },
    ));
    sink.flush();
    assert_eq!(drain_into(&mut drain, &mut engine, 64), 1);
}

#[test]
fn strip_pan_applies_to_a_hardware_strip_and_is_a_no_op_on_a_virtual_strip() {
    let mut engine = EngineRig::new();
    EngineCommand::SetStripPan(0, 0.6).apply(&mut engine);
    EngineCommand::SetStripPan(5, 0.6).apply(&mut engine);

    match &engine.strips[0].chain {
        StripChain::Hardware(chain) => assert_eq!(chain.pan.pan, 0.6),
        StripChain::Virtual(_) => panic!("strip 0 should be hardware"),
    }
    assert_eq!(
        ControlSnapshot::capture(&engine.engine).strips[5].pan,
        0.0,
        "a virtual strip has no pan pot; the command should be a harmless no-op"
    );
}

#[test]
fn out_of_range_indices_are_ignored_not_panicked() {
    let (mut sink, mut drain) = control_channel::<f32>();
    let mut engine = EngineRig::new();
    let eq_params = EqCellParams {
        on: true,
        cell_type: EqCellType::Peak,
        freq_hz: 1000.0,
        gain_db: 6.0,
        q: 1.0,
    };

    let out_of_range = [
        EngineCommand::SetStripMute(NUM_STRIPS, true),
        EngineCommand::SetBusMute(NUM_BUSES, true),
        EngineCommand::SetStripBusAssign(NUM_STRIPS, 0, true),
        EngineCommand::SetStripBusAssign(0, NUM_BUSES, true),
        EngineCommand::SetStripGainLayer(usize::MAX, 0, -6.0),
        EngineCommand::SetStripPan(NUM_STRIPS, 0.5),
        EngineCommand::SetStripEqCell(NUM_STRIPS, 0, 0, eq_params),
        EngineCommand::SetStripEqCell(0, STRIP_EQ_CHANNELS, 0, eq_params),
        EngineCommand::SetStripEqCell(0, 0, NUM_CELLS, eq_params),
        EngineCommand::SetBusEqCell(NUM_BUSES, 0, 0, eq_params),
        EngineCommand::SetBusEqCell(0, CHANNELS, 0, eq_params),
        EngineCommand::SetBusEqCell(0, 0, NUM_CELLS, eq_params),
    ];
    let before = ControlSnapshot::capture(&engine.engine);
    for command in out_of_range {
        command.apply(&mut engine);
    }
    assert_eq!(
        ControlSnapshot::capture(&engine.engine),
        before,
        "no out-of-range command should have changed any in-range state either"
    );

    for command in out_of_range {
        sink.enqueue(command);
    }

    sink.flush();
    let mut applied = 0;
    loop {
        let n = drain_into(&mut drain, &mut engine, 64);
        applied += n;
        if n == 0 {
            break;
        }
    }
    assert!(applied > 0, "the queue should still have drained something");
}

#[test]
fn realtime_command_apply_does_not_allocate() {
    let mut engine = EngineRig::new();
    let eq_params = EqCellParams {
        on: true,
        cell_type: EqCellType::Peak,
        freq_hz: 1000.0,
        gain_db: 6.0,
        q: 1.0,
    };
    let commands = [
        EngineCommand::SetStripMute(0, true),
        EngineCommand::SetStripSolo(0, true),
        EngineCommand::SetStripMono(0, true),
        EngineCommand::SetStripBusAssign(0, 1, true),
        EngineCommand::SetStripGainLayer(0, 1, -6.0),
        EngineCommand::SetStripPan(0, 0.3),
        EngineCommand::SetBusMute(0, true),
        EngineCommand::SetBusMono(0, BusMono::Mono),
        EngineCommand::SetBusMode(0, BusMode::MixDownA),
        EngineCommand::SetBusGain(0, -3.0),
        EngineCommand::SetStripEqCell(0, 0, 0, eq_params),
        EngineCommand::SetBusEqCell(0, 0, 0, eq_params),

        EngineCommand::SetStripGateKnob(0, 5.0),
        EngineCommand::SetStripCompKnob(0, 5.0),
        EngineCommand::SetStripDenoiserKnob(0, 5.0),
        EngineCommand::SetStripLimiterThreshold(0, -6.0),
        EngineCommand::SetStripLimiterThreshold(5, -6.0),
        EngineCommand::SetStripIntellipanMode(0, IntellipanMode::Modulation),
        EngineCommand::SetStripIntellipanXY(0, 0.2, 0.5),
        EngineCommand::SetStripEq3(5, 1.0, -1.0, 2.0),
        EngineCommand::SetStripPositionPad(5, 0.1, 0.4),
        EngineCommand::SetStripMc(5, true),
        EngineCommand::SetStripKaraoke(5, KaraokeMode::K2),
        EngineCommand::SetStripEqOn(0, true),
        EngineCommand::SetStripEqMemory(0, Memory::B),
        EngineCommand::SetBusEqOn(0, true),
        EngineCommand::SetBusEqMemory(0, Memory::B),
        EngineCommand::SetStripEqTrim(0, 0, 3.0),
        EngineCommand::SetStripEqDelay(0, 0, 50.0),
        EngineCommand::SetBusEqTrim(0, 0, 3.0),
        EngineCommand::SetBusEqDelay(0, 0, 50.0),
        EngineCommand::ResetStripEqChannel(0, 0),
        EngineCommand::ResetBusEqChannel(0, 0),
        EngineCommand::CopyStripEqChannel(0, 0, 1),
        EngineCommand::CopyBusEqChannel(0, 0, 1),
    ];

    assert_realtime(|| {
        for &command in &commands {
            command.apply(&mut engine);
        }
    });
}

#[test]
fn knobs_pad_modes_and_equaliser_settings_converge_to_the_last_value_sent() {
    let (mut sink, mut drain) = control_channel::<f32>();
    let mut engine = EngineRig::new();
    let cell = |gain_db: f32| EqCellParams {
        on: true,
        cell_type: EqCellType::Notch,
        freq_hz: 500.0,
        gain_db,
        q: 2.0,
    };
    for i in 0..COMMAND_QUEUE_CAPACITY {
        let v = (i % 97) as f32 * 0.1;
        sink.enqueue(EngineCommand::SetStripGateKnob(HW, v));
        sink.enqueue(EngineCommand::SetStripCompKnob(HW, v + 1.0));
        sink.enqueue(EngineCommand::SetStripIntellipanMode(
            HW,
            if i % 2 == 0 { IntellipanMode::Color } else { IntellipanMode::Modulation },
        ));
        sink.enqueue(EngineCommand::SetStripEqCell(HW, 1, 4, cell(v)));
        sink.enqueue(EngineCommand::SetBusEqCell(3, 7, 5, cell(-v)));
        sink.enqueue(EngineCommand::SetBusEqTrim(3, 6, v));
        sink.enqueue(EngineCommand::SetStripEqDelay(HW, 0, v));
        sink.flush();
        if i % 300 == 0 {
            drain_into(&mut drain, &mut engine, 64);
        }
    }
    assert!(sink.pending_len() > 0, "the queue must have been full meanwhile");
    while drain_into(&mut drain, &mut engine, 64) > 0 || sink.pending_len() > 0 {
        sink.flush();
    }
    let last = ((COMMAND_QUEUE_CAPACITY - 1) % 97) as f32 * 0.1;
    let chain = hw_chain(&engine.engine, HW);
    assert_eq!(chain.gate.knob, last);
    assert_eq!(chain.compressor.knob, last + 1.0);
    assert_eq!(chain.pad.mode(), IntellipanMode::Modulation);
    assert_eq!(chain.eq.channel_params(1).cells[4], cell(last));
    assert_eq!(chain.eq.channel_params(0).delay_ms, last);
    assert_eq!(engine.buses[3].eq.channel_params(7).cells[5], cell(-last));
    assert_eq!(engine.buses[3].eq.channel_params(6).trim_db, last);
}
