use loomix::biquad::{Biquad, BiquadCoeffs, Corner};
use loomix::drift::{DriftCorrector, PiController};
use loomix::elementary::Elementary;
use loomix::eq_channel::{capacity_for, EqChannel};
use loomix::fixed::{Fixed, ONE};
use loomix::mix::sum_to_mono;
use loomix::pan::StereoBalance;
use loomix::strip_dsp::{HardwareChain, VirtualChain};
use loomix::strip_path::{HardwarePath, VirtualPath};
use loomix::CHANNELS;

/// The machine's own functions.
struct Machine;

impl Elementary<f32> for Machine {
    fn root(&self, x: f32) -> f32 {
        x.sqrt()
    }

    fn exp(&self, x: f32) -> f32 {
        x.exp()
    }

    fn log10(&self, x: f32) -> f32 {
        x.log10()
    }

    fn power_of_ten(&self, x: f32) -> f32 {
        10f32.powf(x)
    }

    fn sinh(&self, x: f32) -> f32 {
        x.sinh()
    }

    fn angle(&self, turns: f32) -> f32 {
        2.0 * std::f32::consts::PI * turns
    }

    fn sine(&self, angle: f32) -> f32 {
        angle.sin()
    }

    fn cosine(&self, angle: f32) -> f32 {
        angle.cos()
    }

    fn count(&self, n: usize) -> f32 {
        n as f32
    }

    fn split(&self, x: f32) -> (usize, f32) {
        let whole = x.floor().max(0.0);
        (whole as usize, x - whole)
    }

    fn nearest(&self, x: f32) -> usize {
        x.round() as usize
    }

    fn floor(&self, x: f32) -> f32 {
        x.floor()
    }

    fn whole_up(&self, x: f32) -> usize {
        x.ceil() as usize
    }
}

const SR: f32 = 48_000.0;

fn fixed(n: i16) -> Fixed {
    Fixed::from(n)
}

#[test]
fn fixed_point_rounds_toward_zero_and_stops_at_the_ends() {
    assert_eq!(fixed(3).raw, 3 * ONE);
    assert_eq!((fixed(3) + fixed(-5)).raw, -2 * ONE);
    assert_eq!((fixed(3) * fixed(-5)).raw, -15 * ONE);
    assert_eq!((fixed(1) / fixed(-2)).raw, -ONE / 2);
    assert_eq!((fixed(1) / fixed(3)).raw, ONE / 3);
    assert_eq!((fixed(7) / fixed(0)).raw, 0);
    assert_eq!((-fixed(4)).raw, -4 * ONE);
    let end = Fixed { raw: i64::MAX };
    assert_eq!((end + fixed(1)).raw, i64::MAX);
    assert_eq!((end * fixed(-2)).raw, i64::MIN);
    assert!(fixed(-1) < fixed(0) && fixed(0) == fixed(0));
}

#[test]
fn one_and_nought_are_neutral_in_fixed_point() {
    for raw in [0, 1, -1, 12_345, -98_765_432, i64::MAX, i64::MIN] {
        let x = Fixed { raw };
        assert!(x * fixed(1) == x);
        assert!(fixed(0) + x == x);
    }
}

#[test]
fn the_signal_path_runs_on_fixed_point() {
    let mut filter = Biquad::<Fixed>::bypassed();
    assert!(filter.process(fixed(5)) == fixed(5));
    let corner = Corner {
        sin: fixed(1),
        cos: fixed(0),
    };
    filter.set_coeffs(BiquadCoeffs::low_pass_of(corner, fixed(1)));
    let y = filter.process(fixed(6));
    assert_eq!(y.raw, 2 * ONE - 2);
    let mut frame = [fixed(0); CHANNELS];
    frame[0] = fixed(4);
    sum_to_mono(&mut frame);
    assert!(frame[0] == fixed(2) && frame[1] == fixed(2));
    StereoBalance { pan: fixed(-1) }.process(&mut frame);
    assert!(frame[0] == fixed(2) && frame[1] == fixed(0));
}

#[test]
fn a_neutral_hardware_strip_hands_on_what_it_is_given() {
    let chain = HardwareChain::<f32>::new();
    let mut path = HardwarePath::new(&Machine, &chain, SR, capacity_for(&Machine, SR));
    for n in 0..200 {
        let frame: [f32; CHANNELS] =
            std::array::from_fn(|c| ((n * 7 + c * 3) as f32 * 0.37).sin());
        let mut out = frame;
        path.process(&Machine, &chain, SR, &mut out);
        assert_eq!(out, frame);
    }
}

#[test]
fn a_neutral_virtual_strip_empties_the_rear_pair_and_nothing_else() {
    let chain = VirtualChain::<f32>::new(true);
    let mut path = VirtualPath::new(&Machine, &chain, SR);
    let frame: [f32; CHANNELS] = std::array::from_fn(|c| 0.1 * (c as f32 + 1.0));
    let mut out = frame;
    path.process(&Machine, &chain, &mut out);
    for c in 0..CHANNELS {
        if c == 4 || c == 5 {
            assert_eq!(out[c], 0.0);
        } else {
            assert_eq!(out[c], frame[c]);
        }
    }
}

#[test]
fn a_neutral_equaliser_channel_is_transparent() {
    let mut channel = EqChannel::new(16, SR);
    for n in 0..100 {
        let x = (n as f32 * 0.11).cos();
        assert_eq!(channel.process(x), x);
    }
}

#[test]
fn a_jump_of_the_clock_is_forgotten_and_the_loop_stays_in_its_bounds() {
    let mut corrector = DriftCorrector::new(PiController::new(2e-5f32, 5e-7, 0.01), 500.0);
    for _ in 0..1000 {
        let ratio = corrector.update(400.0);
        assert!((0.99..=1.01).contains(&ratio));
    }
    assert!(corrector.pi.integral != 0.0);
    corrector.update(5_000.0);
    assert_eq!(corrector.pi.integral, 0.0);
    assert_eq!(corrector.pi.max_correction, 0.01);
    assert_eq!(corrector.update(0.0), 1.0);
}
