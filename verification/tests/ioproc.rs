use loomix::device::{master_block_frames, run_master, DeviceBuffers};
use loomix::device_callback::{CaptureIoProcContext, RenderIoProcContext};
use loomix::drift::{DriftCorrector, PiController};
use loomix::elementary::Elementary;
use loomix::ioproc::DriftCorrectedIoStage;
use loomix::master_clock::MasterClock;
use loomix::precision::Precision;
use loomix::render::{goertzel_magnitude, sine_tone};
use loomix::ring::{channel, Outbox};
use loomix::rt_assert::assert_realtime;
use loomix::{Frame, CHANNELS};

/// The machine's own functions.
struct Machine;

impl Elementary<f32> for Machine {
    fn root(&self, x: f32) -> f32 {
        x.sqrt()
    }

    fn exp(&self, x: f32) -> f32 {
        x.exp()
    }

    fn log10(&self, x: f32) -> f32 {
        x.log10()
    }

    fn power_of_ten(&self, x: f32) -> f32 {
        10f32.powf(x)
    }

    fn sinh(&self, x: f32) -> f32 {
        x.sinh()
    }

    fn angle(&self, turns: f32) -> f32 {
        2.0 * std::f32::consts::PI * turns
    }

    fn sine(&self, angle: f32) -> f32 {
        angle.sin()
    }

    fn cosine(&self, angle: f32) -> f32 {
        angle.cos()
    }

    fn count(&self, n: usize) -> f32 {
        n as f32
    }

    fn split(&self, x: f32) -> (usize, f32) {
        let whole = x.floor().max(0.0);
        (whole as usize, x - whole)
    }

    fn nearest(&self, x: f32) -> usize {
        x.round() as usize
    }

    fn floor(&self, x: f32) -> f32 {
        x.floor()
    }

    fn whole_up(&self, x: f32) -> usize {
        x.ceil() as usize
    }
}

impl Precision<f32, f64> for Machine {
    fn widen(&self, x: f32) -> f64 {
        x as f64
    }

    fn narrow(&self, x: f64) -> f32 {
        x as f32
    }

    fn count(&self, frames: u64) -> f64 {
        frames as f64
    }

    fn nearest(&self, x: f64) -> usize {
        x.round() as usize
    }

    fn times_pi(&self, x: f64) -> f64 {
        std::f64::consts::PI * x
    }

    fn sine(&self, angle: f64) -> f64 {
        angle.sin()
    }

    fn cosine(&self, angle: f64) -> f64 {
        angle.cos()
    }

    fn to_bits(&self, x: f32) -> u32 {
        x.to_bits()
    }

    fn of_bits(&self, bits: u32) -> f32 {
        f32::from_bits(bits)
    }
}

fn magnitude_at(mono: &[f32], freq_hz: f32, sample_rate: f32) -> f32 {
    let frames: Vec<Frame<f32>> = mono
        .iter()
        .map(|&s| {
            let mut f = [0.0; CHANNELS];
            f[0] = s;
            f
        })
        .collect();
    goertzel_magnitude(&Machine, &frames, 0, freq_hz, sample_rate)
}

struct FakeDevice {
    block_frames: usize,
    ppm_offset: f64,
}

impl FakeDevice {
    fn run_capture(
        &self,
        stage: &mut DriftCorrectedIoStage<f32, f64>,
        master: &mut MasterClock,
        input: &[f32],
        outputs: &mut Vec<Outbox<f32>>,
        num_callbacks: usize,
    ) {
        let mut scratch = vec![0.0_f32; self.block_frames * 2];
        let mut pos = 0usize;
        let mut carried_frames = 0.0_f64;
        let clock = master.handle();
        for _ in 0..num_callbacks {
            carried_frames += self.block_frames as f64 * (1.0 + self.ppm_offset / 1e6);
            let this_callback = (carried_frames as usize).max(1);
            carried_frames -= this_callback as f64;
            let end = pos + this_callback;
            let channel = vec![input[pos..end].to_vec()];
            master.advance(self.block_frames as u32);
            assert_realtime(|| {
                stage.on_capture(&Machine, &channel, &clock, outputs, &mut scratch);
            });
            pos = end;
        }
    }
}

#[test]
fn a_drifting_fake_device_reconstructs_the_tone_within_bounded_drift() {
    let sample_rate = 48_000.0;
    let block_frames = 128;
    let num_callbacks = 2000;

    let input_frames = sine_tone(&Machine, block_frames * num_callbacks * 2, sample_rate, 1_000.0, 0);
    let input: Vec<f32> = input_frames.iter().map(|f| f[0]).collect();

    let (producer, mut consumer) = channel::<f32>(input.len());
    let mut master = MasterClock::default();
    let corrector = DriftCorrector::new(PiController::new(2e-5, 5e-7, 0.01), 500.0);
    let mut stage = DriftCorrectedIoStage::<f32, f64>::new(&Machine, 1, corrector, 1.0);

    let device = FakeDevice {
        block_frames,
        ppm_offset: 500.0,
    };
    device.run_capture(
        &mut stage,
        &mut master,
        &input,
        &mut vec![producer],
        num_callbacks,
    );

    let mut received = Vec::new();
    while let Some(sample) = consumer.pop() {
        received.push(sample);
    }
    assert!(
        !received.is_empty(),
        "the drifting device should still deliver frames, just resampled"
    );

    let master_frames = master.frames() as usize;
    let frame_drift = received.len().abs_diff(master_frames);
    assert!(
        frame_drift < 300,
        "corrected capture should track the master's frame count \
         closely, got {frame_drift} frames of drift (master = \
         {master_frames}, received = {})",
        received.len()
    );

    let at_tone = magnitude_at(&received, 1_000.0, sample_rate);
    let at_distant = magnitude_at(&received, 4_000.0, sample_rate);
    assert!(
        at_tone > at_distant * 5.0,
        "the 1 kHz tone should still dominate a clearly different \
         frequency after drift-corrected capture, got {at_tone} vs {at_distant}"
    );
}

#[test]
fn a_naive_uncorrected_capture_drifts_the_ring_out_of_sync() {
    let block_frames = 128usize;
    let num_callbacks = 2000usize;
    let ppm_offset = 500.0_f64;
    let input = vec![0.0_f32; block_frames * num_callbacks * 2];

    let (mut producer, mut consumer) = channel::<f32>(input.len());
    let mut master = MasterClock::default();
    let mut carried = 0.0_f64;
    let mut pos = 0usize;
    for _ in 0..num_callbacks {
        carried += block_frames as f64 * (1.0 + ppm_offset / 1e6);
        let this_callback = (carried as usize).max(1);
        carried -= this_callback as f64;
        let end = pos + this_callback;
        master.advance(block_frames as u32);
        for &s in &input[pos..end] {
            let _ = producer.push(s);
        }
        pos = end;
    }

    let mut received_count = 0usize;
    while consumer.pop().is_some() {
        received_count += 1;
    }
    let master_frames = master.frames() as usize;
    let drift = received_count.abs_diff(master_frames);
    assert!(
        drift > 20,
        "an uncorrected capture is expected to drift away from the \
         master's frame count over this run (that's the point of this \
         test), got drift = {drift} frames"
    );
}

#[test]
fn a_genuine_nominal_rate_mismatch_is_not_corrected_within_production_bounds() {
    let sample_rate = 48_000.0;
    let block_frames = 128;
    let num_callbacks = 2000;
    let input_frames = sine_tone(&Machine, block_frames * num_callbacks * 2, sample_rate, 1_000.0, 0);
    let input: Vec<f32> = input_frames.iter().map(|f| f[0]).collect();

    let (producer, mut consumer) = channel::<f32>(input.len());
    let mut master = MasterClock::default();

    let corrector = DriftCorrector::new(PiController::new(2e-5, 5e-7, 0.01), 500.0);
    let mut stage = DriftCorrectedIoStage::<f32, f64>::new(&Machine, 1, corrector, 1.0);

    let device = FakeDevice {
        block_frames,
        ppm_offset: (44_100.0 / 48_000.0 - 1.0) * 1e6,
    };
    device.run_capture(
        &mut stage,
        &mut master,
        &input,
        &mut vec![producer],
        num_callbacks,
    );

    let mut received = Vec::new();
    while let Some(sample) = consumer.pop() {
        received.push(sample);
    }

    let master_frames = master.frames() as usize;
    let frame_drift = received.len().abs_diff(master_frames);
    assert!(
        frame_drift > 5_000,
        "expected a genuine nominal-rate mismatch to drift far past \
         the 500 ppm test's <300 frame bound (nothing here seeds or \
         widens the correction for it), got only {frame_drift} \
         frames of drift (master = {master_frames}, received = {})",
        received.len()
    );

    let final_ratio: f32 = stage.ratio_handle().get(&Machine);
    assert!(
        (final_ratio - 1.0).abs() < 0.02,
        "expected the discontinuity guard to keep snapping the ratio \
         back to ~1.0 rather than settling near the ~0.919 this \
         pairing actually needs, got {final_ratio}"
    );
}

#[test]
fn airpods_class_mismatch_settles_to_a_bounded_underrun_count_once_base_ratio_seeds_it() {
    let master_sample_rate = 44_100.0_f32;
    let device_sample_rate = 24_000.0_f32;
    let block_frames = 128;

    let num_callbacks = 3445;
    let input_frames = sine_tone(
        &Machine,
        block_frames * num_callbacks * 2,
        device_sample_rate,
        1_000.0,
        0,
    );
    let input: Vec<f32> = input_frames.iter().map(|f| f[0]).collect();

    let (producer, mut consumer) = channel::<f32>(input.len());
    let mut master = MasterClock::default();
    let corrector = DriftCorrector::new(PiController::new(2e-5, 5e-7, 0.01), 500.0);

    let base_ratio = master_sample_rate / device_sample_rate;
    let mut stage = DriftCorrectedIoStage::<f32, f64>::new(&Machine, 1, corrector, base_ratio);

    let device = FakeDevice {
        block_frames,
        ppm_offset: (device_sample_rate / master_sample_rate - 1.0) as f64 * 1e6,
    };
    device.run_capture(
        &mut stage,
        &mut master,
        &input,
        &mut vec![producer],
        num_callbacks,
    );

    let master_frames = master.frames() as usize;
    let mut underruns = 0u64;
    for _ in 0..master_frames {
        if consumer.pop().is_none() {
            underruns += 1;
        }
    }

    let naive_shortfall_if_unfixed =
        master_frames as f32 * (1.0 - device_sample_rate / master_sample_rate);
    assert!(
        naive_shortfall_if_unfixed > 150_000.0,
        "sanity check on the scenario itself: an 84% mismatch over \
         ~10 simulated seconds should imply well over 150,000 frames \
         of shortfall if uncorrected, got {naive_shortfall_if_unfixed}"
    );

    assert!(
        underruns < 300,
        "a genuine AirPods-class rate mismatch (24000 Hz capture \
         against a 44100 Hz master) should settle to a small, bounded \
         underrun count once base_ratio seeds the resampler correctly \
         -- got {underruns} underruns over {master_frames} master \
         frames (naive unfixed shortfall would have been ~{naive_shortfall_if_unfixed})"
    );
}

#[test]
fn render_underrun_fills_silence_instead_of_blocking_or_stale_data() {
    let corrector = DriftCorrector::new(PiController::new(2e-5, 5e-7, 0.01), 500.0);
    let mut stage = DriftCorrectedIoStage::<f32, f64>::new(&Machine, 1, corrector, 1.0);
    let master = MasterClock::default();
    let (_producer, consumer) = channel::<f32>(16);

    let mut inputs = vec![consumer];
    let mut scratch = vec![0.0_f32; 256];
    let mut output = vec![vec![1.0_f32; 128]];
    let clock = master.handle();

    assert_realtime(|| {
        stage.on_render(&Machine, &clock, &mut inputs, &mut output, &mut scratch);
    });

    assert!(
        output[0].iter().all(|&s| s == 0.0),
        "an underrun should produce silence, not the poisoned sentinel \
         or leftover ring contents"
    );
}

#[test]
fn ratio_handle_reflects_the_stage_that_produced_it() {
    let corrector = DriftCorrector::new(PiController::new(2e-5, 5e-7, 0.01), 500.0);
    let mut stage = DriftCorrectedIoStage::<f32, f64>::new(&Machine, 1, corrector, 1.0);
    let handle = stage.ratio_handle();
    assert_eq!(handle.get(&Machine), 1.0f32, "no callback has run yet");

    let mut master = MasterClock::default();
    master.advance(128);
    let mut scratch = vec![0.0_f32; 256];
    let input = vec![0.0_f32; 128];
    let (producer, _consumer) = channel::<f32>(256);
    stage.on_capture(
        &Machine,
        &vec![input],
        &master.handle(),
        &mut vec![producer],
        &mut scratch,
    );

    assert!(
        (handle.get::<f32, f64, Machine>(&Machine) - 1.0).abs() < 0.01,
        "one callback shouldn't move the ratio far from 1.0, got {}",
        handle.get::<f32, f64, Machine>(&Machine)
    );
    assert_eq!(handle.get_beside(&Machine, &stage), stage.get_ratio());
}

/// One buffer for each channel.
fn planar(channels: Vec<Vec<f32>>) -> DeviceBuffers<f32> {
    DeviceBuffers {
        counts: vec![1; channels.len()],
        data: channels,
    }
}

/// One buffer for all the channels.
fn interleaved_list(samples: Vec<f32>, channel_count: usize) -> DeviceBuffers<f32> {
    DeviceBuffers {
        counts: vec![channel_count as u32],
        data: vec![samples],
    }
}

#[test]
fn capture_trampoline_parses_a_two_channel_buffer_list_without_crossing_channels() {
    let ch0: Vec<f32> = (0..64).map(|i| i as f32 * 0.01).collect();
    let ch1: Vec<f32> = (0..64).map(|i| 100.0 + i as f32 * 0.01).collect();
    let input_len = ch0.len();
    let input_list = planar(vec![ch0, ch1]);

    let corrector = DriftCorrector::new(PiController::new(2e-5, 5e-7, 0.01), 500.0);
    let stage = DriftCorrectedIoStage::<f32, f64>::new(&Machine, 2, corrector, 1.0);
    let master = MasterClock::default();
    let (tx0, mut rx0) = channel::<f32>(256);
    let (tx1, mut rx1) = channel::<f32>(256);
    let mut ctx = CaptureIoProcContext::new(stage, vec![tx0, tx1], input_len * 2);

    ctx.on_input(&Machine, &master.handle(), &input_list);

    let mut received0 = Vec::new();
    while let Some(s) = rx0.pop() {
        received0.push(s);
    }
    let mut received1 = Vec::new();
    while let Some(s) = rx1.pop() {
        received1.push(s);
    }
    assert!(!received0.is_empty() && !received1.is_empty());

    assert!(received0.iter().all(|&s| s < 1.0));
    assert!(received1.iter().all(|&s| s > 100.0));
}

#[test]
fn render_trampoline_fills_every_channel_and_pads_underrun_with_silence() {
    let corrector = DriftCorrector::new(PiController::new(2e-5, 5e-7, 0.01), 500.0);
    let stage = DriftCorrectedIoStage::<f32, f64>::new(&Machine, 2, corrector, 1.0);
    let master = MasterClock::default();
    let (mut tx0, rx0) = channel::<f32>(64);

    for i in 0..8 {
        tx0.push(i as f32).unwrap();
    }
    let (_tx1, rx1) = channel::<f32>(64);
    let mut ctx = RenderIoProcContext::new(stage, vec![rx0, rx1], 256);

    let out0 = vec![1.0f32; 8];
    let out1 = vec![1.0f32; 8];
    let mut output_list = planar(vec![out0, out1]);

    ctx.on_output(&Machine, &master.handle(), &mut output_list);

    {
        let buf0 = &output_list.data[0];
        let buf1 = &output_list.data[1];
        assert!(
            buf1.iter().all(|&s| s == 0.0),
            "underrun channel should be silence"
        );
        assert!(
            buf0.iter().any(|&s| s != 1.0),
            "the channel with data queued should not be all sentinel"
        );
    }
}

#[test]
fn capture_trampoline_deinterleaves_a_single_interleaved_buffer() {
    let frames = 64;
    let interleaved: Vec<f32> = (0..frames)
        .flat_map(|f| [f as f32 * 0.01, 100.0 + f as f32 * 0.01])
        .collect();
    let input_list = interleaved_list(interleaved, 2);

    let corrector = DriftCorrector::new(PiController::new(2e-5, 5e-7, 0.01), 500.0);
    let stage = DriftCorrectedIoStage::<f32, f64>::new(&Machine, 2, corrector, 1.0);
    let master = MasterClock::default();
    let (tx0, mut rx0) = channel::<f32>(256);
    let (tx1, mut rx1) = channel::<f32>(256);
    let mut ctx = CaptureIoProcContext::new(stage, vec![tx0, tx1], frames * 2);

    ctx.on_input(&Machine, &master.handle(), &input_list);

    let mut received0 = Vec::new();
    while let Some(s) = rx0.pop() {
        received0.push(s);
    }
    let mut received1 = Vec::new();
    while let Some(s) = rx1.pop() {
        received1.push(s);
    }
    assert!(
        !received0.is_empty() && !received1.is_empty(),
        "both channels of an interleaved buffer should be drained, not just the first"
    );
    assert!(received0.iter().all(|&s| s < 1.0));
    assert!(received1.iter().all(|&s| s > 100.0));
}

#[test]
fn render_trampoline_interleaves_output_into_a_single_buffer() {
    let frames = 64;
    let corrector = DriftCorrector::new(PiController::new(2e-5, 5e-7, 0.01), 500.0);
    let stage = DriftCorrectedIoStage::<f32, f64>::new(&Machine, 2, corrector, 1.0);
    let master = MasterClock::default();

    let queued = frames * 3;
    let (mut tx0, rx0) = channel::<f32>(queued + 16);
    let (mut tx1, rx1) = channel::<f32>(queued + 16);
    for i in 0..queued {
        tx0.push(i as f32 * 0.001).unwrap();
        tx1.push(100.0 + i as f32 * 0.001).unwrap();
    }
    let mut ctx = RenderIoProcContext::new(stage, vec![rx0, rx1], frames * 2);

    let interleaved = vec![-1.0f32; frames * 2];
    let mut output_list = interleaved_list(interleaved, 2);

    ctx.on_output(&Machine, &master.handle(), &mut output_list);

    {
        let raw = &output_list.data[0];

        assert!(
            raw.iter().step_by(2).all(|&s| s < 1.0),
            "channel 0 should occupy every even interleaved position"
        );
        assert!(
            raw.iter().skip(1).step_by(2).all(|&s| s > 100.0),
            "channel 1 should occupy every odd interleaved position"
        );
    }
}

#[test]
fn master_trampoline_hands_the_callback_both_directions_in_one_call() {
    let input_list = planar(vec![vec![1.0f32, 2.0, 3.0, 4.0]]);
    let mut output_list = planar(vec![vec![9.0f32; 4]]);

    let mut seen_frames = 0;
    let mut seen_input_first_sample = 0.0;
    run_master(
        &input_list,
        &mut output_list,
        |frames: usize, input: &Vec<Vec<f32>>, output: &mut Vec<Vec<f32>>| {
            seen_frames = frames;
            seen_input_first_sample = input[0][0];
            output[0].fill(42.0);
        },
    );
    assert_eq!(seen_frames, 4);
    assert_eq!(seen_input_first_sample, 1.0);
    assert!(output_list.data[0].iter().all(|&s| s == 42.0));
}

#[test]
fn an_interleaved_block_counts_its_frames_once() {
    let input_list = interleaved_list(vec![0.0; 8], 2);
    let nothing = planar(Vec::new());
    assert_eq!(master_block_frames(&input_list, &nothing), 4);
    assert_eq!(master_block_frames(&nothing, &input_list), 4);
    assert_eq!(master_block_frames::<f32>(&nothing, &nothing), 0);
}

fn steady_stage(channels: usize) -> DriftCorrectedIoStage<f32, f64> {
    let corrector = DriftCorrector::new(PiController::new(2e-5, 5e-7, 0.01), 500.0);
    DriftCorrectedIoStage::new(&Machine, channels, corrector, 1.0)
}

#[test]
fn a_capture_with_too_few_buffers_works_on_those_it_has() {
    let (tx0, mut rx0) = channel::<f32>(256);
    let (tx1, mut rx1) = channel::<f32>(256);
    let (tx2, mut rx2) = channel::<f32>(256);
    let mut ctx = CaptureIoProcContext::new(steady_stage(3), vec![tx0, tx1, tx2], 128);
    let list = planar(vec![vec![0.25f32; 64], vec![0.5f32; 64]]);
    ctx.on_input(&Machine, &MasterClock::default().handle(), &list);
    assert!(rx0.waiting_items() > 0);
    assert_eq!(rx0.waiting_items(), rx1.waiting_items());
    assert_eq!(rx2.waiting_items(), 0);
    assert_eq!(ctx.get_progress(), rx1.waiting_items() as u64);
}

#[test]
fn a_capture_with_too_many_buffers_leaves_the_rest_alone() {
    let (tx0, mut rx0) = channel::<f32>(256);
    let mut ctx = CaptureIoProcContext::new(steady_stage(1), vec![tx0], 128);
    let list = planar(vec![vec![0.25f32; 64]; 11]);
    ctx.on_input(&Machine, &MasterClock::default().handle(), &list);
    assert!(rx0.waiting_items() > 0);
}

#[test]
fn a_render_fills_the_buffers_it_has_channels_for() {
    let (mut tx0, rx0) = channel::<f32>(256);
    for _ in 0..128 {
        tx0.push(0.25).unwrap();
    }
    let mut ctx = RenderIoProcContext::new(steady_stage(1), vec![rx0], 256);
    let mut list = planar(vec![vec![9.0f32; 8]; 2]);
    ctx.on_output(&Machine, &MasterClock::default().handle(), &mut list);
    assert!(list.data[0].iter().all(|&s| s < 1.0));
    assert_eq!(list.data[1], vec![9.0f32; 8]);
}

#[test]
fn a_render_of_more_channels_than_a_callback_takes_fills_the_first_eight() {
    let mut inboxes = Vec::new();
    for _ in 0..10 {
        inboxes.push(channel::<f32>(16).1);
    }
    let mut ctx = RenderIoProcContext::new(steady_stage(10), inboxes, 64);
    let mut list = interleaved_list(vec![9.0; 20], 10);
    ctx.on_output(&Machine, &MasterClock::default().handle(), &mut list);
    for (i, &s) in list.data[0].iter().enumerate() {
        assert_eq!(s, if i % 10 < 8 { 0.0 } else { 9.0 });
    }
}
