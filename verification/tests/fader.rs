use loomix::elementary::Elementary;
use loomix::fader::{gain_db_to_linear, gain_linear_to_db};

/// The machine's own functions.
struct Machine;

impl Elementary<f32> for Machine {
    fn root(&self, x: f32) -> f32 {
        x.sqrt()
    }

    fn exp(&self, x: f32) -> f32 {
        x.exp()
    }

    fn log10(&self, x: f32) -> f32 {
        x.log10()
    }

    fn power_of_ten(&self, x: f32) -> f32 {
        10f32.powf(x)
    }

    fn sinh(&self, x: f32) -> f32 {
        x.sinh()
    }

    fn angle(&self, turns: f32) -> f32 {
        2.0 * std::f32::consts::PI * turns
    }

    fn sine(&self, angle: f32) -> f32 {
        angle.sin()
    }

    fn cosine(&self, angle: f32) -> f32 {
        angle.cos()
    }

    fn count(&self, n: usize) -> f32 {
        n as f32
    }

    fn split(&self, x: f32) -> (usize, f32) {
        let whole = x.floor().max(0.0);
        (whole as usize, x - whole)
    }

    fn nearest(&self, x: f32) -> usize {
        x.round() as usize
    }

    fn floor(&self, x: f32) -> f32 {
        x.floor()
    }

    fn whole_up(&self, x: f32) -> usize {
        x.ceil() as usize
    }
}

#[test]
fn unity_gain_is_zero_db() {
    assert!((gain_db_to_linear(&Machine, 0.0) - 1.0).abs() < 1e-6);
}

#[test]
fn known_answers_match_the_cookbook_formula() {
    assert!((gain_db_to_linear(&Machine, -6.0206) - 0.5).abs() < 1e-4);
    assert!((gain_db_to_linear(&Machine, 20.0) - 10.0).abs() < 1e-4);
}

#[test]
fn negative_infinity_is_exact_digital_silence() {
    assert_eq!(gain_db_to_linear(&Machine, f32::NEG_INFINITY), 0.0);
}

#[test]
fn zero_linear_round_trips_to_negative_infinity() {
    let db = gain_linear_to_db(&Machine, 0.0);
    assert!(db.is_infinite() && db.is_sign_negative());
}

#[test]
fn monotonic_across_the_fader_range() {
    for i in 0..720 {
        let a = -60.0 + i as f32 * 0.1;
        for b in [a + 0.01, a + 0.1, 12.0] {
            if a < b {
                assert!(gain_db_to_linear(&Machine, a) < gain_db_to_linear(&Machine, b));
            }
        }
    }
}

#[test]
fn continuous_across_the_fader_range() {
    for i in 0..720 {
        let db = -60.0 + i as f32 * 0.1;
        for delta in [1e-4f32, 1e-3, 1e-2] {
            let a = gain_db_to_linear(&Machine, db);
            let b = gain_db_to_linear(&Machine, db + delta);
            assert!((b - a).abs() < delta * 2.0);
        }
    }
}

#[test]
fn round_trips_within_tolerance() {
    for i in 0..=720 {
        let db = -60.0 + i as f32 * 0.1;
        let back = gain_linear_to_db(&Machine, gain_db_to_linear(&Machine, db));
        assert!((back - db).abs() < 1e-3);
    }
}
