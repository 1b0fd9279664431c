use loomix::biquad::{Biquad, BiquadCoeffs};
use loomix::elementary::Elementary;
use loomix::eq_channel::{capacity_for, EqBank};
use loomix::parametric_eq::{
    EqCellParams, EqCellType, EqChannelParams, Memory, ParametricEq, NUM_CELLS,
};
use loomix::rt_assert::assert_realtime;

/// The machine's own functions.
struct Machine;

impl Elementary<f32> for Machine {
    fn root(&self, x: f32) -> f32 {
        x.sqrt()
    }

    fn exp(&self, x: f32) -> f32 {
        x.exp()
    }

    fn log10(&self, x: f32) -> f32 {
        x.log10()
    }

    fn power_of_ten(&self, x: f32) -> f32 {
        10f32.powf(x)
    }

    fn sinh(&self, x: f32) -> f32 {
        x.sinh()
    }

    fn angle(&self, turns: f32) -> f32 {
        2.0 * std::f32::consts::PI * turns
    }

    fn sine(&self, angle: f32) -> f32 {
        angle.sin()
    }

    fn cosine(&self, angle: f32) -> f32 {
        angle.cos()
    }

    fn count(&self, n: usize) -> f32 {
        n as f32
    }

    fn split(&self, x: f32) -> (usize, f32) {
        let whole = x.floor().max(0.0);
        (whole as usize, x - whole)
    }

    fn nearest(&self, x: f32) -> usize {
        x.round() as usize
    }

    fn floor(&self, x: f32) -> f32 {
        x.floor()
    }

    fn whole_up(&self, x: f32) -> usize {
        x.ceil() as usize
    }
}

/// A full-amplitude sine tone.
fn sine(samples: usize, sample_rate: f32, freq_hz: f32) -> Vec<f32> {
    (0..samples)
        .map(|n| (2.0 * std::f32::consts::PI * freq_hz * n as f32 / sample_rate).sin())
        .collect()
}

/// How much of one frequency is in a signal.
fn goertzel_magnitude(signal: &[f32], freq_hz: f32, sample_rate: f32) -> f32 {
    let n = signal.len() as f32;
    let k = (0.5 + (n * freq_hz) / sample_rate).floor();
    let omega = (2.0 * std::f32::consts::PI / n) * k;
    let coeff = 2.0 * omega.cos();
    let (mut q1, mut q2) = (0.0f32, 0.0f32);
    for &x in signal {
        let q0 = coeff * q1 - q2 + x;
        q2 = q1;
        q1 = q0;
    }
    (q1 * q1 + q2 * q2 - q1 * q2 * coeff).sqrt()
}

const SR: f32 = 48_000.0;

/// An equaliser: its settings and its filters.
struct EqRig<const N: usize> {
    settings: ParametricEq<f32, N>,
    bank: EqBank<f32>,
}

impl<const N: usize> EqRig<N> {
    fn new() -> Self {
        EqRig {
            settings: ParametricEq::new(),
            bank: EqBank::new(N, capacity_for(&Machine, SR), SR),
        }
    }

    fn sync(&mut self, channel: usize) {
        self.bank.sync_channel(&Machine, &self.settings, channel, SR);
    }

    fn set_channel_params(&mut self, channel: usize, params: EqChannelParams<f32>) {
        self.settings.set_channel_params(channel, params);
        self.sync(channel);
    }

    fn set_cell(&mut self, channel: usize, cell: usize, params: EqCellParams<f32>) {
        self.settings.set_cell(channel, cell, params);
        self.sync(channel);
    }

    fn set_trim_db(&mut self, channel: usize, trim_db: f32) {
        self.settings.set_trim_db(channel, trim_db);
        self.sync(channel);
    }

    fn set_delay_ms(&mut self, channel: usize, delay_ms: f32) {
        self.settings.set_delay_ms(channel, delay_ms);
        self.sync(channel);
    }

    fn set_active_memory(&mut self, memory: Memory) {
        self.settings.set_active_memory(memory);
        self.bank.resync(&Machine, &self.settings, SR);
    }

    fn reset_channel(&mut self, channel: usize) {
        self.settings.reset_channel(channel);
        self.sync(channel);
    }

    fn reset_all(&mut self) {
        self.settings.reset_all();
        self.bank.resync(&Machine, &self.settings, SR);
    }

    fn copy_channel(&mut self, from: usize, to: usize) {
        self.settings.copy_channel(from, to);
        self.sync(to);
    }

    fn process_channel(&mut self, channel: usize, x: f32) -> f32 {
        self.bank.process_channel(self.settings.on, channel, x)
    }
}

/// A delay line alone: one channel with nothing but a delay.
struct DelayRig {
    eq: EqRig<1>,
    rate: f32,
}

impl DelayRig {
    fn new() -> Self {
        let mut eq = EqRig::new();
        eq.settings.on = true;
        DelayRig { eq, rate: SR }
    }

    fn set_delay_ms(&mut self, delay_ms: f32) {
        self.eq.settings.set_delay_ms(0, delay_ms);
        self.eq
            .bank
            .sync_channel(&Machine, &self.eq.settings, 0, self.rate);
    }

    fn set_sample_rate(&mut self, rate: f32) {
        self.rate = rate;
        let capacity = capacity_for(&Machine, rate);
        self.eq
            .bank
            .set_sample_rate(&Machine, &self.eq.settings, rate, capacity);
    }

    fn process(&mut self, x: f32) -> f32 {
        self.eq.process_channel(0, x)
    }
}

#[test]
fn null_test_zero_delay_is_bit_exact_passthrough() {
    let mut line = DelayRig::new();
    for n in 0..1000 {
        let x = (n as f32 * 0.037).sin();
        assert_eq!(line.process(x), x);
    }
}

#[test]
fn known_answer_delay_reproduces_the_impulse_exactly_n_samples_later() {
    let mut line = DelayRig::new();
    line.set_delay_ms(250.0);
    let delay_samples = 12_000usize;

    let mut out = Vec::with_capacity(delay_samples + 5);
    for n in 0..delay_samples + 5 {
        let x = if n == 0 { 1.0 } else { 0.0 };
        out.push(line.process(x));
    }
    for (n, &y) in out.iter().enumerate() {
        if n == delay_samples {
            assert_eq!(y, 1.0, "impulse should reappear at sample {delay_samples}");
        } else {
            assert_eq!(y, 0.0, "sample {n} should be silent");
        }
    }
}

#[test]
fn boundary_full_500ms_delay_survives_a_sample_rate_increase() {
    let mut line = DelayRig::new();
    line.set_delay_ms(500.0);
    for n in 0..100 {
        line.process(n as f32);
    }
    line.set_sample_rate(192_000.0);
    line.set_delay_ms(500.0);
    for n in 0..100 {
        let y = line.process(n as f32);
        assert!(y.is_finite());
    }
}

#[test]
fn set_sample_rate_does_not_panic_when_not_in_flight() {
    let mut line = DelayRig::new();
    line.set_delay_ms(10.0);
    line.process(0.5);
    line.set_sample_rate(96_000.0);
}

#[test]
fn realtime_delay_line_process_does_not_allocate() {
    let mut line = DelayRig::new();
    line.set_delay_ms(10.0);
    assert_realtime(|| {
        for n in 0..256 {
            line.process(n as f32 * 0.01);
        }
    });
}

#[test]
fn null_test_all_neutral_channel_is_bit_exact_passthrough() {
    let mut eq = EqRig::<1>::new();
    eq.settings.on = true;
    for n in 0..1000 {
        let x = (n as f32 * 0.023).sin();
        assert_eq!(eq.process_channel(0, x), x);
    }
}

#[test]
fn eq_channel_cascades_cells_in_series_matching_independently_chained_biquads() {
    let mut eq = EqRig::<1>::new();
    eq.settings.on = true;
    let mut params = EqChannelParams::<f32>::default();
    params.cells[0] = EqCellParams {
        on: true,
        cell_type: EqCellType::Peak,
        freq_hz: 300.0,
        gain_db: 9.0,
        q: 1.5,
    };
    params.cells[1] = EqCellParams {
        on: true,
        cell_type: EqCellType::HighShelf,
        freq_hz: 4000.0,
        gain_db: -6.0,
        q: 0.9,
    };
    eq.set_channel_params(0, params);

    let mut ref_a = Biquad::bypassed();
    ref_a.set_coeffs(BiquadCoeffs::peaking(&Machine, SR, 300.0, 1.5, 9.0));
    let mut ref_b = Biquad::bypassed();
    ref_b.set_coeffs(BiquadCoeffs::high_shelf(&Machine, SR, 4000.0, 0.9, -6.0));

    for n in 0..2000 {
        let x = (n as f32 * 0.019).sin() * 0.5;
        let actual = eq.process_channel(0, x);
        let expected = ref_b.process(ref_a.process(x));
        assert!(
            (actual - expected).abs() < 1e-5,
            "n={n} actual={actual} expected={expected}"
        );
    }
}

#[test]
fn default_is_off() {
    let eq = EqRig::<8>::new();
    assert!(!eq.settings.on);
    assert_eq!(eq.settings.active_memory(), Memory::A);
}

#[test]
fn global_off_is_bit_exact_passthrough_even_with_wild_cell_settings() {
    let mut eq = EqRig::<2>::new();
    assert!(!eq.settings.on);
    eq.set_cell(
        0,
        0,
        EqCellParams {
            on: true,
            cell_type: EqCellType::Peak,
            freq_hz: 1000.0,
            gain_db: 18.0,
            q: 50.0,
        },
    );
    eq.set_trim_db(0, 24.0);
    eq.set_delay_ms(0, 500.0);
    for n in 0..1000 {
        let x = (n as f32 * 0.031).sin();
        assert_eq!(eq.process_channel(0, x), x);
    }
}

#[test]
fn a_b_memory_edits_land_only_in_the_active_memory() {
    let mut eq = EqRig::<1>::new();
    eq.set_trim_db(0, 6.0);
    eq.set_active_memory(Memory::B);
    eq.set_trim_db(0, -6.0);

    eq.set_active_memory(Memory::A);
    assert_eq!(
        eq.settings.channel_params(0).trim_db,
        6.0,
        "A must be untouched by the B edit"
    );
    eq.set_active_memory(Memory::B);
    assert_eq!(eq.settings.channel_params(0).trim_db, -6.0);
}

#[test]
fn a_b_memory_switch_changes_the_live_output() {
    let mut eq = EqRig::<1>::new();
    eq.settings.on = true;
    eq.set_cell(
        0,
        0,
        EqCellParams {
            on: true,
            cell_type: EqCellType::Peak,
            freq_hz: 1000.0,
            gain_db: 12.0,
            q: 2.0,
        },
    );

    let tone = sine(4096, SR, 1000.0);
    let mut eq_a = EqRig::<1>::new();
    eq_a.settings.on = true;
    eq_a.set_cell(
        0,
        0,
        EqCellParams {
            on: true,
            cell_type: EqCellType::Peak,
            freq_hz: 1000.0,
            gain_db: 12.0,
            q: 2.0,
        },
    );
    let out_a: Vec<f32> = tone.iter().map(|&x| eq_a.process_channel(0, x)).collect();

    let mut eq_b = EqRig::<1>::new();
    eq_b.settings.on = true;
    eq_b.set_active_memory(Memory::B);
    let out_b: Vec<f32> = tone.iter().map(|&x| eq_b.process_channel(0, x)).collect();

    let gain_a = goertzel_magnitude(&out_a, 1000.0, SR) / goertzel_magnitude(&tone, 1000.0, SR);
    let gain_b = goertzel_magnitude(&out_b, 1000.0, SR) / goertzel_magnitude(&tone, 1000.0, SR);
    assert!(
        20.0 * (gain_a / gain_b).log10() > 6.0,
        "switching memory should measurably change the output: a={gain_a} b={gain_b}"
    );
}

#[test]
fn reset_channel_returns_to_neutral() {
    let mut eq = EqRig::<2>::new();
    eq.settings.on = true;
    eq.set_trim_db(0, 12.0);
    eq.set_delay_ms(0, 100.0);
    eq.reset_channel(0);
    assert_eq!(*eq.settings.channel_params(0), EqChannelParams::<f32>::default());
    for n in 0..500 {
        let x = (n as f32 * 0.041).sin();
        assert_eq!(eq.process_channel(0, x), x);
    }
}

#[test]
fn reset_all_returns_every_channel_to_neutral() {
    let mut eq = EqRig::<8>::new();
    for c in 0..8 {
        eq.set_trim_db(c, 3.0);
    }
    eq.reset_all();
    for c in 0..8 {
        assert_eq!(*eq.settings.channel_params(c), EqChannelParams::<f32>::default());
    }
}

#[test]
fn copy_channel_matches_the_source() {
    let mut eq = EqRig::<8>::new();
    eq.set_trim_db(0, 7.5);
    eq.set_delay_ms(0, 42.0);
    eq.set_cell(
        0,
        2,
        EqCellParams {
            on: true,
            cell_type: EqCellType::Notch,
            freq_hz: 500.0,
            gain_db: 0.0,
            q: 10.0,
        },
    );
    eq.copy_channel(0, 3);
    assert_eq!(eq.settings.channel_params(3), eq.settings.channel_params(0));
}

#[test]
fn copy_all_into_bus_to_bus_is_a_full_copy() {
    let mut src = EqRig::<8>::new();
    for c in 0..8 {
        src.set_trim_db(c, c as f32);
    }
    let mut dst = EqRig::<8>::new();
    src.settings.copy_all_into(&mut dst.settings);
    for c in 0..8 {
        assert_eq!(dst.settings.channel_params(c).trim_db, c as f32);
    }
}

#[test]
fn copy_all_into_bus_to_strip_copies_only_the_first_two_channels() {
    let mut bus = EqRig::<8>::new();
    for c in 0..8 {
        bus.set_trim_db(c, 10.0 + c as f32);
    }
    let mut strip = EqRig::<2>::new();
    bus.settings.copy_all_into(&mut strip.settings);
    assert_eq!(strip.settings.channel_params(0).trim_db, 10.0);
    assert_eq!(strip.settings.channel_params(1).trim_db, 11.0);
}

#[test]
fn copy_all_into_strip_to_bus_leaves_channels_2_through_7_untouched() {
    let mut strip = EqRig::<2>::new();
    strip.set_trim_db(0, 5.0);
    strip.set_trim_db(1, -5.0);
    let mut bus = EqRig::<8>::new();
    for c in 0..8 {
        bus.set_trim_db(c, 99.0);
    }
    strip.settings.copy_all_into(&mut bus.settings);
    assert_eq!(bus.settings.channel_params(0).trim_db, 5.0);
    assert_eq!(bus.settings.channel_params(1).trim_db, -5.0);
    for c in 2..8 {
        assert_eq!(
            bus.settings.channel_params(c).trim_db,
            99.0,
            "channel {c} should be untouched by a 2-channel source copy"
        );
    }
}

#[test]
fn parametric_eq_stability_random_automation_never_produces_nan_or_infinity() {
    let mut eq = EqRig::<8>::new();
    eq.settings.on = true;
    let mut seed = 42u32;
    let mut rand = move || {
        seed = seed.wrapping_mul(1_664_525).wrapping_add(1_013_904_223);
        (seed >> 8) as f32 / (1u32 << 24) as f32
    };
    let cell_types = [
        EqCellType::Peak,
        EqCellType::LowPass,
        EqCellType::HighPass,
        EqCellType::LowShelf,
        EqCellType::HighShelf,
        EqCellType::BandPass,
        EqCellType::Notch,
    ];
    for i in 0..5_000 {
        let channel = i % 8;
        let cell = i % NUM_CELLS;
        eq.set_cell(
            channel,
            cell,
            EqCellParams {
                on: rand() > 0.2,
                cell_type: cell_types[i % cell_types.len()],
                freq_hz: 20.0 + rand() * 19_980.0,
                gain_db: -36.0 + rand() * 54.0,
                q: 1.0 + rand() * 99.0,
            },
        );
        eq.set_trim_db(channel, -24.0 + rand() * 48.0);
        eq.set_delay_ms(channel, rand() * 500.0);
        let x = rand() * 2.0 - 1.0;
        let y = eq.process_channel(channel, x);
        assert!(
            y.is_finite(),
            "channel {channel} produced a non-finite sample"
        );
    }
}

#[test]
fn realtime_process_channel_does_not_allocate() {
    let mut eq = EqRig::<8>::new();
    eq.settings.on = true;
    eq.set_cell(
        0,
        0,
        EqCellParams {
            on: true,
            cell_type: EqCellType::Peak,
            freq_hz: 1000.0,
            gain_db: 6.0,
            q: 1.0,
        },
    );
    eq.set_delay_ms(0, 10.0);
    assert_realtime(|| {
        for n in 0..256 {
            for channel in 0..8 {
                eq.process_channel(channel, n as f32 * 0.001);
            }
        }
    });
}

#[test]
fn a_new_sample_rate_empties_the_delay_line_and_the_same_rate_keeps_it() {
    let mut line = DelayRig::new();
    line.set_delay_ms(10.0);
    for _ in 0..480 {
        line.process(1.0);
    }
    line.set_sample_rate(SR);
    assert_eq!(line.process(0.0), 1.0);
    line.set_sample_rate(47_999.0);
    assert_eq!(line.process(0.0), 0.0);
}
