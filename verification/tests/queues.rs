use loomix::audio_loop::AudioLoop;
use loomix::channel_layout::{pack_channels, unpack_channels};
use loomix::command::EngineCommand;
use loomix::control::{control_channel, latest_value_channel};
use loomix::elementary::Elementary;
use loomix::engine::Engine;
use loomix::engine_io::{BusSink, StripSource};
use loomix::io_driver::EngineIoDriver;
use loomix::master_clock::MasterClock;
use loomix::ring::{channel, meet, ring_fits};
use loomix::signal_path::SignalPath;
use loomix::snapshot::{eq_snapshot_channel, snapshot_channel, ControlSnapshot, EqSnapshot, MeterSnapshot};
use loomix::CHANNELS;

/// The machine's own functions.
struct Machine;

impl Elementary<f32> for Machine {
    fn root(&self, x: f32) -> f32 {
        x.sqrt()
    }

    fn exp(&self, x: f32) -> f32 {
        x.exp()
    }

    fn log10(&self, x: f32) -> f32 {
        x.log10()
    }

    fn power_of_ten(&self, x: f32) -> f32 {
        10f32.powf(x)
    }

    fn sinh(&self, x: f32) -> f32 {
        x.sinh()
    }

    fn angle(&self, turns: f32) -> f32 {
        2.0 * std::f32::consts::PI * turns
    }

    fn sine(&self, angle: f32) -> f32 {
        angle.sin()
    }

    fn cosine(&self, angle: f32) -> f32 {
        angle.cos()
    }

    fn count(&self, n: usize) -> f32 {
        n as f32
    }

    fn split(&self, x: f32) -> (usize, f32) {
        let whole = x.floor().max(0.0);
        (whole as usize, x - whole)
    }

    fn nearest(&self, x: f32) -> usize {
        x.round() as usize
    }

    fn floor(&self, x: f32) -> f32 {
        x.floor()
    }

    fn whole_up(&self, x: f32) -> usize {
        x.ceil() as usize
    }
}

#[test]
fn a_queue_hands_out_what_it_took_in_in_order_and_hands_back_what_does_not_fit() {
    let (mut outbox, mut inbox) = channel::<u32>(3);
    assert_eq!(inbox.pop(), None);
    for i in 0..3 {
        assert_eq!(outbox.push(10 + i), Ok(()));
    }
    assert_eq!(outbox.push(99), Err(99));
    assert_eq!(inbox.pop(), Some(10));
    assert_eq!(outbox.push(13), Ok(()));
    for i in 1..4 {
        assert_eq!(inbox.pop(), Some(10 + i));
    }
    assert_eq!(inbox.pop(), None);
}

#[test]
fn what_was_taken_out_stays_taken_out_while_more_goes_through() {
    let (mut outbox, mut inbox) = channel::<u32>(2);
    let mut taken = Vec::new();
    for n in 0..5u32 {
        assert_eq!(outbox.push(10 + n), Ok(()));
        taken.push(inbox.pop());
        assert_eq!(taken[..1], [Some(10)]);
    }
    assert_eq!(taken, vec![Some(10), Some(11), Some(12), Some(13), Some(14)]);
    assert_eq!(inbox.pop(), None);
}

#[test]
fn the_halves_of_one_queue_know_each_other() {
    let (mut outbox, mut inbox) = channel::<u32>(3);
    let (mut other, _inbox) = channel::<u32>(3);
    assert!(meet(&mut outbox, &mut inbox));
    assert!(!meet(&mut other, &mut inbox));
    assert_eq!(outbox.free_slots(), 3);
    assert_eq!(inbox.waiting_items(), 0);
    outbox.push(5).unwrap();
    outbox.push(6).unwrap();
    assert_eq!(outbox.free_slots(), 1);
    assert_eq!(inbox.waiting_items(), 2);
    assert_eq!(inbox.pop(), Some(5));
    assert_eq!(outbox.free_slots(), 2);
    assert_eq!(inbox.waiting_items(), 1);
    assert!(meet(&mut outbox, &mut inbox));
}

#[test]
fn a_flush_uses_the_free_slots_and_keeps_the_rest() {
    let (mut sink, mut drain) = control_channel::<f32>();
    let filler = loomix::control::COMMAND_QUEUE_CAPACITY / 64;
    for round in 0..filler {
        for i in 0..64usize {
            sink.enqueue(EngineCommand::SetStripGainLayer(i / 8, i % 8, round as f32));
        }
        sink.flush();
        assert_eq!(sink.pending_len(), 0);
    }
    assert_eq!(sink.outbox.free_slots(), 0);
    let counter = sink.overflow_counter();
    let again = counter.clone();
    sink.enqueue(EngineCommand::SetBusMute(0, true));
    sink.enqueue(EngineCommand::SetBusMute(1, true));
    sink.flush();
    assert_eq!(sink.pending_len(), 2);
    assert_eq!((counter.get(), again.get()), (2, 2));
    assert!(drain.inbox.pop().is_some());
    sink.flush();
    assert_eq!(sink.pending_len(), 1);
    assert_eq!((counter.get(), again.get()), (3, 3));
    assert_eq!(sink.overflow.get(), 3);
    assert_eq!(counter.get_beside(&sink.overflow), 3);
    assert_eq!(drain.inbox.waiting_items(), loomix::control::COMMAND_QUEUE_CAPACITY);
}

#[test]
fn a_queue_that_cannot_be_addressed_is_not_made() {
    assert!(ring_fits::<f32>(0));
    assert!(ring_fits::<f32>(1 << 20));
    assert!(!ring_fits::<f32>(usize::MAX));
    assert!(!ring_fits::<[u64; 4]>(usize::MAX / 32));
}

#[test]
fn a_reader_sees_the_newest_value_that_fitted() {
    let (mut publisher, mut reader) = latest_value_channel::<u32>(2, 7);
    assert_eq!(reader.read(), 7);
    publisher.publish(1);
    publisher.publish(2);
    publisher.publish(3);
    assert_eq!(reader.read(), 2);
    assert_eq!(reader.read(), 2);
    publisher.publish(4);
    assert_eq!(reader.read(), 4);
}

#[test]
fn a_combined_buffer_is_taken_apart_and_put_together_again() {
    let combined = vec![vec![0.1f32, 0.5, 0.2, 0.6, 0.3, 0.7]];
    let mut frames = vec![[9.0f32; CHANNELS]; 3];
    pack_channels(&combined, &mut frames);
    assert_eq!(frames[0][..3], [0.1, 0.5, 0.0]);
    assert_eq!(frames[2][..2], [0.3, 0.7]);
    let mut back = vec![vec![0.0f32; 6]];
    unpack_channels(&frames, &mut back);
    assert_eq!(back, combined);
}

#[test]
fn a_combined_buffer_of_nine_channels_keeps_its_stride() {
    let raw: Vec<f32> = (0..18).map(|i| i as f32).collect();
    let mut frames = vec![[0.0f32; CHANNELS]; 2];
    pack_channels(&vec![raw], &mut frames);
    assert_eq!(frames[0], [0.0, 1.0, 2.0, 3.0, 4.0, 5.0, 6.0, 7.0]);
    assert_eq!(frames[1], [9.0, 10.0, 11.0, 12.0, 13.0, 14.0, 15.0, 16.0]);
    let mut back = vec![vec![-1.0f32; 18]];
    unpack_channels(&frames, &mut back);
    let expected: Vec<f32> = (0..18)
        .map(|i| if i % 9 == 8 { -1.0 } else { i as f32 })
        .collect();
    assert_eq!(back[0], expected);
}

#[test]
fn buffers_of_one_channel_each_are_carried_over_and_back() {
    let planar = vec![vec![0.1f32, 0.2], vec![0.3, 0.4], vec![0.5, 0.6]];
    let mut frames = vec![[9.0f32; CHANNELS]; 2];
    pack_channels(&planar, &mut frames);
    assert_eq!(frames[1][..4], [0.2, 0.4, 0.6, 0.0]);
    let mut back = vec![vec![0.0f32; 2]; 3];
    unpack_channels(&frames, &mut back);
    assert_eq!(back, planar);
}

#[test]
fn a_complete_block_leaves_the_dropout_count_alone() {
    let (mut feed, inbox) = channel::<f32>(16);
    let mut source = StripSource::new(vec![inbox]);
    for i in 0..4 {
        feed.push(i as f32).unwrap();
    }
    let mut frames = vec![[7.0f32; CHANNELS]; 4];
    source.pull_into(&mut frames);
    assert_eq!(source.underrun_counter().get(), 0);
    for (i, frame) in frames.iter().enumerate() {
        assert_eq!(frame[0], i as f32);
    }
    feed.push(0.5).unwrap();
    source.pull_into(&mut frames);
    assert_eq!(source.underrun_counter().get(), 3);
    assert_eq!(source.underrun_counter().get_beside(&source.underruns), 3);
    assert_eq!(frames[0][0], 0.5);
    assert_eq!(frames[1][0], 0.0);
}

#[test]
fn a_block_that_fits_is_sent_whole() {
    let (outbox, mut inbox) = channel::<f32>(8);
    let mut sink = BusSink::new(vec![outbox]);
    let frames: Vec<[f32; CHANNELS]> = (0..8).map(|i| [i as f32; CHANNELS]).collect();
    sink.push_from(&frames);
    assert_eq!(sink.overrun_counter().get(), 0);
    for i in 0..8 {
        assert_eq!(inbox.pop(), Some(i as f32));
    }
}

#[test]
fn one_tick_performs_the_commands_renders_and_shows_the_mixer() {
    let engine = Engine::<f32>::new(&Machine);
    let path = SignalPath::new(&Machine, &engine);
    let (mut sink, drain) = control_channel::<f32>();
    let (controls, mut watch) = snapshot_channel(4, ControlSnapshot::capture(&engine));
    let (meters, mut needles) = latest_value_channel(4, MeterSnapshot::capture(&engine));
    let (equalisers, mut curves) = eq_snapshot_channel(4, EqSnapshot::capture(&engine));
    let driver = EngineIoDriver::new(engine, path, MasterClock::default(), Some(0), 64);
    let clock = driver.clock_handle();
    assert_eq!(clock.frames(), 0);
    let mut audio = AudioLoop {
        driver,
        drain,
        controls,
        meters,
        equalisers,
    };

    let input = vec![vec![0.5f32; 8]];
    let mut output = vec![vec![0.0f32; 8]];
    audio.tick(&Machine, 8, &input, &mut output);
    assert_eq!(output[0], vec![0.5f32; 8]);
    assert!(!watch.read().buses[0].mute);
    assert_eq!(needles.read().buses[0].peak(0), 0.5);
    assert_eq!(clock.frames(), 8);
    assert_eq!(audio.driver.clock_frames(), 8);

    sink.enqueue(EngineCommand::SetBusMute(0, true));
    sink.enqueue(EngineCommand::SetBusEqTrim(1, 2, 3.0));
    sink.flush();
    audio.tick(&Machine, 8, &input, &mut output);
    assert_eq!(output[0], vec![0.0f32; 8]);
    assert!(watch.read().buses[0].mute);
    assert_eq!(curves.read().buses[1][2].trim_db, 3.0);
    assert_eq!(audio.driver.clock_frames(), 16);
}

#[test]
fn a_command_reaches_the_effects_as_well_as_the_settings() {
    let mut engine = Engine::<f32>::new(&Machine);
    let mut path = SignalPath::new(&Machine, &engine);
    let (mut sink, mut drain) = control_channel::<f32>();
    sink.enqueue(EngineCommand::SetStripEq3(5, 6.0, 0.0, 0.0));
    sink.enqueue(EngineCommand::SetBusEqOn(0, true));
    sink.enqueue(EngineCommand::SetBusEqDelay(0, 0, 1.0));
    sink.flush();
    assert_eq!(drain.drain_into(&Machine, &mut engine, &mut path, 64), 3);

    let mut inputs = vec![vec![[0.0f32; CHANNELS]; 64]; 8];
    inputs[0][0][0] = 1.0;
    let mut outputs = vec![vec![[0.0f32; CHANNELS]; 64]; 8];
    engine.process_block(&mut path, &Machine, 64, &inputs, &mut outputs);
    assert_eq!(outputs[0][0][0], 0.0);
    assert_eq!(outputs[0][48][0], 1.0);
}
