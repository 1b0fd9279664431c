use loomix::elementary::Elementary;
use loomix::engine::Engine;
use loomix::engine_io::{BusSink, StripSource};
use loomix::io_driver::EngineIoDriver;
use loomix::master_clock::MasterClock;
use loomix::render::{goertzel_magnitude, sine_tone};
use loomix::ring::channel;
use loomix::rt_assert::assert_realtime;
use loomix::signal_path::SignalPath;
use loomix::{Frame, CHANNELS, NUM_BUSES};

/// The machine's own functions.
struct Machine;

impl Elementary<f32> for Machine {
    fn root(&self, x: f32) -> f32 {
        x.sqrt()
    }

    fn exp(&self, x: f32) -> f32 {
        x.exp()
    }

    fn log10(&self, x: f32) -> f32 {
        x.log10()
    }

    fn power_of_ten(&self, x: f32) -> f32 {
        10f32.powf(x)
    }

    fn sinh(&self, x: f32) -> f32 {
        x.sinh()
    }

    fn angle(&self, turns: f32) -> f32 {
        2.0 * std::f32::consts::PI * turns
    }

    fn sine(&self, angle: f32) -> f32 {
        angle.sin()
    }

    fn cosine(&self, angle: f32) -> f32 {
        angle.cos()
    }

    fn count(&self, n: usize) -> f32 {
        n as f32
    }

    fn split(&self, x: f32) -> (usize, f32) {
        let whole = x.floor().max(0.0);
        (whole as usize, x - whole)
    }

    fn nearest(&self, x: f32) -> usize {
        x.round() as usize
    }

    fn floor(&self, x: f32) -> f32 {
        x.floor()
    }

    fn whole_up(&self, x: f32) -> usize {
        x.ceil() as usize
    }
}

fn new_driver(master_strip: Option<usize>) -> EngineIoDriver<f32> {
    let engine = Engine::<f32>::new(&Machine);
    let path = SignalPath::new(&Machine, &engine);
    EngineIoDriver::new(engine, path, MasterClock::default(), master_strip, 256)
}

#[test]
fn strip_source_underrun_fills_silence() {
    let (_producer, consumer) = channel::<f32>(16);
    let mut source = StripSource::new(vec![consumer]);
    let counter = source.underrun_counter();
    let mut out = vec![[1.0; CHANNELS]; 8];
    source.pull_into(&mut out);
    assert!(out.iter().all(|f| f[0] == 0.0));
    assert_eq!(
        counter.get(),
        8,
        "every frame of this callback underran, one increment each"
    );
}

#[test]
fn bus_sink_drops_silently_when_the_ring_is_full() {
    let (producer, _consumer) = channel::<f32>(4);
    let mut sink = BusSink::new(vec![producer]);
    let counter = sink.overrun_counter();
    let frames = vec![[1.0; CHANNELS]; 8];
    sink.push_from(&frames);
    assert_eq!(
        counter.get(),
        4,
        "the 4 frames past capacity should be counted"
    );
}

#[test]
fn strip_routed_through_a_ring_reaches_the_assigned_bus() {
    let sample_rate = 48_000.0;
    let block_frames = 128;
    let num_blocks = 40;
    let tone = sine_tone(&Machine, block_frames * num_blocks, sample_rate, 1_000.0, 0);

    let mut driver = new_driver(None);

    driver.engine_mut().0.strips[0].bus_assign = [false; NUM_BUSES];
    driver.engine_mut().0.strips[0].bus_assign[1] = true;

    let (mut strip_tx, strip_rx) = channel::<f32>(tone.len() * 2);
    driver.set_strip_source(0, StripSource::new(vec![strip_rx]));
    let (bus_tx, mut bus_rx) = channel::<f32>(tone.len() * 2);
    driver.set_bus_sink(1, BusSink::new(vec![bus_tx]));

    for frame in &tone {
        let _ = strip_tx.push(frame[0]);
    }

    let mut master_out = vec![vec![0.0_f32; block_frames]];
    for _ in 0..num_blocks {
        assert_realtime(|| {
            driver.on_master_tick(&Machine, block_frames, &Vec::new(), &mut master_out);
        });
        assert!(
            master_out[0].iter().all(|&s| s == 0.0),
            "bus 0 should stay silent: strip 0 was routed to bus 1, not bus 0"
        );
    }

    let mut received = Vec::new();
    while let Some(sample) = bus_rx.pop() {
        received.push(sample);
    }
    assert!(!received.is_empty());
    let in_mag = goertzel_magnitude(
        &Machine,
        &tone[..received.len().min(tone.len())].to_vec(),
        0,
        1_000.0,
        sample_rate,
    );
    let out_frames: Vec<Frame<f32>> = received
        .iter()
        .map(|&s| {
            let mut f = [0.0; CHANNELS];
            f[0] = s;
            f
        })
        .collect();
    let out_mag = goertzel_magnitude(&Machine, &out_frames, 0, 1_000.0, sample_rate);
    assert!(
        (out_mag / in_mag - 1.0).abs() < 0.05,
        "the tone should reach bus 1 essentially unchanged (no resampling in this path), \
         got in={in_mag} out={out_mag}"
    );
}

#[test]
fn the_master_devices_own_strip_bypasses_the_ring_entirely() {
    let block_frames = 8;
    let mut driver = new_driver(Some(0));

    let master_in_data = vec![0.5_f32; block_frames];
    let master_in = vec![master_in_data];
    let mut master_out = vec![vec![0.0_f32; block_frames]];
    driver.on_master_tick(&Machine, block_frames, &master_in, &mut master_out);
    assert!(
        master_out[0].iter().all(|&s| (s - 0.5).abs() < 1e-6),
        "strip 0's master-fed input at unity gain should reach bus 0 unchanged, got {:?}",
        master_out[0]
    );
}

#[test]
fn on_master_tick_interleaves_stereo_output_correctly_into_a_single_combined_buffer() {
    let block_frames = 4;
    let mut driver = new_driver(Some(0));

    let master_in_l = [0.1_f32, 0.2, 0.3, 0.4];
    let master_in_r = [0.5_f32, 0.6, 0.7, 0.8];
    let master_in = vec![master_in_l.to_vec(), master_in_r.to_vec()];

    let mut master_out = vec![vec![-999.0_f32; block_frames * 2]];
    driver.on_master_tick(&Machine, block_frames, &master_in, &mut master_out);

    let expected = [0.1, 0.5, 0.2, 0.6, 0.3, 0.7, 0.4, 0.8];
    assert_eq!(
        master_out[0], expected,
        "expected standard L,R,L,R,... interleaving"
    );
}

#[test]
fn on_master_tick_deinterleaves_stereo_input_correctly_from_a_single_combined_buffer() {
    let block_frames = 4;
    let mut driver = new_driver(Some(0));
    driver.engine_mut().0.strips[0].bus_assign = [false; NUM_BUSES];
    driver.engine_mut().0.strips[0].bus_assign[1] = true;

    let interleaved_in = [0.1_f32, 0.5, 0.2, 0.6, 0.3, 0.7, 0.4, 0.8];
    let master_in = vec![interleaved_in.to_vec()];
    let mut master_out = vec![vec![0.0_f32; 4]];

    let (bus_l_tx, mut bus_l_rx) = channel::<f32>(64);
    let (bus_r_tx, mut bus_r_rx) = channel::<f32>(64);
    driver.set_bus_sink(1, BusSink::new(vec![bus_l_tx, bus_r_tx]));

    driver.on_master_tick(&Machine, block_frames, &master_in, &mut master_out);

    let received_l: Vec<f32> = std::iter::from_fn(|| bus_l_rx.pop()).collect();
    let received_r: Vec<f32> = std::iter::from_fn(|| bus_r_rx.pop()).collect();
    assert_eq!(
        received_l,
        vec![0.1, 0.2, 0.3, 0.4],
        "left channel should be correctly deinterleaved, got {received_l:?}"
    );
    assert_eq!(
        received_r,
        vec![0.5, 0.6, 0.7, 0.8],
        "right channel should be correctly deinterleaved, got {received_r:?}"
    );
}

#[test]
fn capture_ring_drained_at_master_devices_reported_frame_count_produces_no_silent_blocks() {
    let true_frames_per_callback = 128;
    let num_callbacks = 10;

    let block_frames = true_frames_per_callback;

    let mut driver = new_driver(None);
    driver.engine_mut().0.strips[0].bus_assign = [false; NUM_BUSES];
    driver.engine_mut().0.strips[0].bus_assign[1] = true;

    let ring_len = true_frames_per_callback * num_callbacks + block_frames;
    let (mut cap_l_tx, cap_l_rx) = channel::<f32>(ring_len);
    let (mut cap_r_tx, cap_r_rx) = channel::<f32>(ring_len);
    let source = StripSource::new(vec![cap_l_rx, cap_r_rx]);
    let underruns = source.underrun_counter();
    driver.set_strip_source(0, source);

    let (bus_l_tx, mut bus_l_rx) = channel::<f32>(ring_len);
    let (bus_r_tx, mut bus_r_rx) = channel::<f32>(ring_len);
    driver.set_bus_sink(1, BusSink::new(vec![bus_l_tx, bus_r_tx]));

    for _ in 0..num_callbacks {
        for _ in 0..true_frames_per_callback {
            let _ = cap_l_tx.push(0.3);
            let _ = cap_r_tx.push(0.7);
        }
    }

    let mut master_out = vec![vec![0.0_f32; block_frames]];
    for _ in 0..num_callbacks {
        driver.on_master_tick(&Machine, block_frames, &Vec::new(), &mut master_out);
    }

    let received_l: Vec<f32> = std::iter::from_fn(|| bus_l_rx.pop()).collect();
    let received_r: Vec<f32> = std::iter::from_fn(|| bus_r_rx.pop()).collect();

    assert_eq!(
        underruns.get(),
        0,
        "every capture frame delivered was real (0.3/0.7, never 0.0); \
         any underrun here means the engine drained the ring faster \
         than a correctly-functioning capture device fills it, got \
         {} underruns",
        underruns.get()
    );
    assert!(
        received_l.iter().all(|&s| s == 0.3) && received_r.iter().all(|&s| s == 0.7),
        "expected every received sample to be the known non-zero \
         capture value with no silent blocks; got a zero-valued \
         stretch instead (L sample: {:?}, R sample: {:?})",
        received_l.iter().find(|&&s| s != 0.3),
        received_r.iter().find(|&&s| s != 0.7)
    );
}
