//! The functions of a number type that the four operations do not give.
//!
//! The signal path takes them from its caller. Nothing is known of their
//! results here; contracts name them by the call they come from.

use crate::biquad::{Boost, Corner};
use crate::num::{self, Sample};
use vstd::prelude::*;
use vstd::std_specs::ops::{AddSpec, DivSpec, MulSpec};

verus! {

pub trait Elementary<S> {
    /// The square root.
    fn root(&self, x: S) -> S;

    /// The exponential.
    fn exp(&self, x: S) -> S;

    /// The logarithm to the base ten.
    fn log10(&self, x: S) -> S;

    /// Ten to the power of a number.
    fn power_of_ten(&self, x: S) -> S;

    /// The hyperbolic sine.
    fn sinh(&self, x: S) -> S;

    /// The angle of so many full turns.
    fn angle(&self, turns: S) -> S;

    /// The sine of an angle.
    fn sine(&self, angle: S) -> S;

    /// The cosine of an angle.
    fn cosine(&self, angle: S) -> S;

    /// A count as a number.
    fn count(&self, n: usize) -> S;

    /// A number taken apart into its whole part and the rest; negative numbers
    /// have the whole part zero.
    fn split(&self, x: S) -> (usize, S);

    /// The nearest whole number; zero for negative numbers.
    fn nearest(&self, x: S) -> usize;

    /// The nearest whole number that is not above a number, as a number.
    fn floor(&self, x: S) -> S;

    /// The next whole number up; zero for negative numbers.
    fn whole_up(&self, x: S) -> usize;
}

/// `y` is a square root of `x` by `m`.
pub open spec fn roots<S, M: Elementary<S>>(m: M, x: S, y: S) -> bool {
    call_ensures(M::root, (&m, x), y)
}

pub open spec fn exponential<S, M: Elementary<S>>(m: M, x: S, y: S) -> bool {
    call_ensures(M::exp, (&m, x), y)
}

pub open spec fn logarithms<S, M: Elementary<S>>(m: M, x: S, y: S) -> bool {
    call_ensures(M::log10, (&m, x), y)
}

pub open spec fn powers<S, M: Elementary<S>>(m: M, x: S, y: S) -> bool {
    call_ensures(M::power_of_ten, (&m, x), y)
}

pub open spec fn hyperbolic<S, M: Elementary<S>>(m: M, x: S, y: S) -> bool {
    call_ensures(M::sinh, (&m, x), y)
}

pub open spec fn angles<S, M: Elementary<S>>(m: M, turns: S, y: S) -> bool {
    call_ensures(M::angle, (&m, turns), y)
}

pub open spec fn sines<S, M: Elementary<S>>(m: M, angle: S, y: S) -> bool {
    call_ensures(M::sine, (&m, angle), y)
}

pub open spec fn cosines<S, M: Elementary<S>>(m: M, angle: S, y: S) -> bool {
    call_ensures(M::cosine, (&m, angle), y)
}

/// `y` is the sine of a phase given in turns.
pub open spec fn swings<S, M: Elementary<S>>(m: M, turns: S, y: S) -> bool {
    exists|angle: S| #[trigger] angles(m, turns, angle) && sines(m, angle, y)
}

pub open spec fn counts<S, M: Elementary<S>>(m: M, n: usize, y: S) -> bool {
    call_ensures(M::count, (&m, n), y)
}

pub open spec fn splits<S, M: Elementary<S>>(m: M, x: S, y: (usize, S)) -> bool {
    call_ensures(M::split, (&m, x), y)
}

pub open spec fn rounds<S, M: Elementary<S>>(m: M, x: S, y: usize) -> bool {
    call_ensures(M::nearest, (&m, x), y)
}

pub open spec fn floors<S, M: Elementary<S>>(m: M, x: S, y: S) -> bool {
    call_ensures(M::floor, (&m, x), y)
}

pub open spec fn rounds_up<S, M: Elementary<S>>(m: M, x: S, y: usize) -> bool {
    call_ensures(M::whole_up, (&m, x), y)
}

/// The functions that the signal path runs on always give one result for one
/// argument.
pub open spec fn is_settled<S, M: Elementary<S>>(m: M) -> bool {
    &&& forall|x: S, y: S, z: S| #[trigger] roots(m, x, y) && #[trigger] roots(m, x, z) ==> y == z
    &&& forall|x: S, y: S, z: S| #[trigger]
        logarithms(m, x, y) && #[trigger] logarithms(m, x, z) ==> y == z
    &&& forall|x: S, y: S, z: S| #[trigger] powers(m, x, y) && #[trigger] powers(m, x, z) ==> y == z
    &&& forall|x: S, y: S, z: S| #[trigger] angles(m, x, y) && #[trigger] angles(m, x, z) ==> y == z
    &&& forall|x: S, y: S, z: S| #[trigger] sines(m, x, y) && #[trigger] sines(m, x, z) ==> y == z
    &&& forall|x: S, y: (usize, S), z: (usize, S)| #[trigger]
        splits(m, x, y) && #[trigger] splits(m, x, z) ==> y == z
}

/// `amplitude` is `db` decibels: ten to the power of a twentieth of it.
pub open spec fn in_linear<S: Sample, M: Elementary<S>>(m: M, db: S, amplitude: S) -> bool {
    powers(m, db.div_spec(num::whole::<S>(20)), amplitude)
}

/// `db` is the amplitude in decibels: twenty times its logarithm.
pub open spec fn in_db<S: Sample, M: Elementary<S>>(m: M, amplitude: S, db: S) -> bool {
    exists|l: S| #[trigger]
        logarithms(m, amplitude, l) && db == num::whole::<S>(20).mul_spec(l)
}

/// `y` is the angle a frequency goes through in one sample, by its sine and
/// cosine.
pub open spec fn corners<S: Sample, M: Elementary<S>>(
    m: M,
    freq_hz: S,
    rate: S,
    y: Corner<S>,
) -> bool {
    exists|angle: S| #[trigger]
        angles(m, freq_hz, angle) && sines(m, angle.div_spec(rate), y.sin) && cosines(
            m,
            angle.div_spec(rate),
            y.cos,
        )
}

/// `y` is the gain of a peak or a shelf: the amplitude of half the decibels,
/// and its root.
pub open spec fn boosts<S: Sample, M: Elementary<S>>(m: M, gain_db: S, y: Boost<S>) -> bool {
    &&& powers(m, gain_db.div_spec(num::whole::<S>(40)), y.amplitude)
    &&& roots(m, y.amplitude, y.root)
}

/// Half the natural logarithm of two.
pub open spec fn half_octave<S: Sample>() -> S {
    num::ratio::<S>(3525, 10171)
}

/// `y` is how far apart the edges of a band of that many octaves are.
pub open spec fn spreads<S: Sample, M: Elementary<S>>(m: M, octaves: S, y: S) -> bool {
    hyperbolic(m, half_octave::<S>().mul_spec(octaves), y)
}

/// `q` is the quality of a band of that many octaves.
pub open spec fn qualities<S: Sample, M: Elementary<S>>(m: M, octaves: S, q: S) -> bool {
    exists|spread: S| #[trigger]
        spreads(m, octaves, spread) && q == num::whole::<S>(1).div_spec(
            num::whole::<S>(2).mul_spec(spread),
        )
}

/// `y` is sample `n` of a sine tone.
pub open spec fn tones<S: Sample, M: Elementary<S>>(
    m: M,
    n: usize,
    freq_hz: S,
    rate: S,
    y: S,
) -> bool {
    exists|k: S, angle: S| #[trigger]
        counts(m, n, k) && #[trigger] angles(m, freq_hz, angle) && sines(
            m,
            angle.mul_spec(k.div_spec(rate)),
            y,
        )
}

/// The bin nearest to a frequency, in a block of `len` samples (`n` as a
/// number), is bin `k`, which is negative for a negative frequency, and `c` is
/// the cosine of its angle: `k` times the `n`th part of a full turn, `turn`.
pub open spec fn bin_at<S: Sample, M: Elementary<S>>(
    m: M,
    len: usize,
    freq_hz: S,
    rate: S,
    n: S,
    k: S,
    turn: S,
    c: S,
) -> bool {
    &&& counts(m, len, n)
    &&& floors(
        m,
        num::ratio::<S>(1, 2).add_spec(n.mul_spec(freq_hz).div_spec(rate)),
        k,
    )
    &&& angles(m, num::whole::<S>(1), turn)
    &&& cosines(m, turn.div_spec(n).mul_spec(k), c)
}

/// `y` is twice the cosine of the angle of the bin nearest to a frequency.
pub open spec fn bins<S: Sample, M: Elementary<S>>(
    m: M,
    len: usize,
    freq_hz: S,
    rate: S,
    y: S,
) -> bool {
    exists|n: S, k: S, turn: S, c: S| #[trigger]
        bin_at(m, len, freq_hz, rate, n, k, turn, c) && y == num::whole::<S>(2).mul_spec(c)
}

} // verus!
