//! One second-order filter section in direct form I, and the cookbook
//! formulas for its coefficients.
//!
//! The formulas take the sine and cosine of the corner's angular frequency,
//! and the gain as an amplitude. Changing the coefficients of an engaged filter ramps to them;
//! entering and leaving bypass is instantaneous.

use crate::elementary::{self, Elementary};
use crate::num::{self, get_ratio, get_whole, is_same, Sample};
use core::ops::Neg;
use vstd::prelude::*;
use vstd::std_specs::ops::{AddSpec, DivSpec, MulSpec, NegSpec, SubSpec};

verus! {

/// Samples a coefficient change is spread over.
pub const COEFF_RAMP_SAMPLES: u32 = 64;

#[derive(Debug, Clone, Copy, PartialEq)]
pub struct BiquadCoeffs<S> {
    pub b0: S,
    pub b1: S,
    pub b2: S,
    pub a1: S,
    pub a2: S,
}

/// The sine and cosine of a corner's angular frequency.
#[derive(Debug, Clone, Copy, PartialEq)]
pub struct Corner<S> {
    pub sin: S,
    pub cos: S,
}

/// The gain of a peak or a shelf: the amplitude `10^(dB/40)` and its square
/// root.
#[derive(Debug, Clone, Copy, PartialEq)]
pub struct Boost<S> {
    pub amplitude: S,
    pub root: S,
}

impl<S: Sample> Corner<S> {
    /// `sin / (2 q)`.
    pub open spec fn alpha(self, q: S) -> S {
        self.sin.div_spec(num::whole::<S>(2).mul_spec(q))
    }

    /// `-2 cos`.
    pub open spec fn mirrored(self) -> S {
        num::whole::<S>(-2).mul_spec(self.cos)
    }
}

/// Every coefficient divided by `a0`.
pub open spec fn normalised<S: Sample>(b0: S, b1: S, b2: S, a0: S, a1: S, a2: S) -> BiquadCoeffs<
    S,
> {
    BiquadCoeffs {
        b0: b0.div_spec(a0),
        b1: b1.div_spec(a0),
        b2: b2.div_spec(a0),
        a1: a1.div_spec(a0),
        a2: a2.div_spec(a0),
    }
}

impl<S: Sample> BiquadCoeffs<S> {
    /// The bell: `1 ± alpha A` over `1 ± alpha / A`.
    pub open spec fn peak_form(corner: Corner<S>, q: S, a: S) -> Self {
        let one = num::whole::<S>(1);
        let alpha = corner.alpha(q);
        normalised(
            one.add_spec(alpha.mul_spec(a)),
            corner.mirrored(),
            one.sub_spec(alpha.mul_spec(a)),
            one.add_spec(alpha.div_spec(a)),
            corner.mirrored(),
            one.sub_spec(alpha.div_spec(a)),
        )
    }

    /// The band pass with unity gain at its centre.
    pub open spec fn band_pass_form(corner: Corner<S>, q: S) -> Self {
        let one = num::whole::<S>(1);
        let alpha = corner.alpha(q);
        let a0 = one.add_spec(alpha);
        BiquadCoeffs {
            b0: alpha.div_spec(a0),
            b1: num::whole::<S>(0),
            b2: alpha.neg_spec().div_spec(a0),
            a1: corner.mirrored().div_spec(a0),
            a2: one.sub_spec(alpha).div_spec(a0),
        }
    }

    /// The notch of width `alpha`.
    pub open spec fn notch_form(cos: S, alpha: S) -> Self {
        let one = num::whole::<S>(1);
        let mirrored = num::whole::<S>(-2).mul_spec(cos);
        normalised(
            one,
            mirrored,
            one,
            one.add_spec(alpha),
            mirrored,
            one.sub_spec(alpha),
        )
    }

    pub open spec fn low_pass_form(corner: Corner<S>, q: S) -> Self {
        let one = num::whole::<S>(1);
        let alpha = corner.alpha(q);
        let side = one.sub_spec(corner.cos);
        let half = side.div_spec(num::whole::<S>(2));
        normalised(
            half,
            side,
            half,
            one.add_spec(alpha),
            corner.mirrored(),
            one.sub_spec(alpha),
        )
    }

    pub open spec fn high_pass_form(corner: Corner<S>, q: S) -> Self {
        let one = num::whole::<S>(1);
        let alpha = corner.alpha(q);
        let side = one.add_spec(corner.cos);
        let half = side.div_spec(num::whole::<S>(2));
        normalised(
            half,
            side.neg_spec(),
            half,
            one.add_spec(alpha),
            corner.mirrored(),
            one.sub_spec(alpha),
        )
    }

    /// With `p = A + 1`, `m = A - 1` and `w = 2 sqrt(A) alpha`: the gain below
    /// the corner.
    pub open spec fn low_shelf_form(corner: Corner<S>, q: S, boost: Boost<S>) -> Self {
        let two = num::whole::<S>(2);
        let a = boost.amplitude;
        let p = a.add_spec(num::whole::<S>(1));
        let m = a.sub_spec(num::whole::<S>(1));
        let (pc, mc) = (p.mul_spec(corner.cos), m.mul_spec(corner.cos));
        let w = two.mul_spec(boost.root).mul_spec(corner.alpha(q));
        normalised(
            a.mul_spec(p.sub_spec(mc).add_spec(w)),
            two.mul_spec(a).mul_spec(m.sub_spec(pc)),
            a.mul_spec(p.sub_spec(mc).sub_spec(w)),
            p.add_spec(mc).add_spec(w),
            num::whole::<S>(-2).mul_spec(m.add_spec(pc)),
            p.add_spec(mc).sub_spec(w),
        )
    }

    /// The gain above the corner.
    pub open spec fn high_shelf_form(corner: Corner<S>, q: S, boost: Boost<S>) -> Self {
        let two = num::whole::<S>(2);
        let a = boost.amplitude;
        let p = a.add_spec(num::whole::<S>(1));
        let m = a.sub_spec(num::whole::<S>(1));
        let (pc, mc) = (p.mul_spec(corner.cos), m.mul_spec(corner.cos));
        let w = two.mul_spec(boost.root).mul_spec(corner.alpha(q));
        normalised(
            a.mul_spec(p.add_spec(mc).add_spec(w)),
            num::whole::<S>(-2).mul_spec(a).mul_spec(m.add_spec(pc)),
            a.mul_spec(p.add_spec(mc).sub_spec(w)),
            p.sub_spec(mc).add_spec(w),
            two.mul_spec(m.sub_spec(pc)),
            p.sub_spec(mc).sub_spec(w),
        )
    }

    /// `t` of the way from this set to `to`, coefficient by coefficient.
    pub open spec fn toward(self, to: Self, t: S) -> Self {
        BiquadCoeffs {
            b0: self.b0.add_spec(to.b0.sub_spec(self.b0).mul_spec(t)),
            b1: self.b1.add_spec(to.b1.sub_spec(self.b1).mul_spec(t)),
            b2: self.b2.add_spec(to.b2.sub_spec(self.b2).mul_spec(t)),
            a1: self.a1.add_spec(to.a1.sub_spec(self.a1).mul_spec(t)),
            a2: self.a2.add_spec(to.a2.sub_spec(self.a2).mul_spec(t)),
        }
    }

    /// The two sets compare equal in every coefficient.
    pub open spec fn matches(self, other: Self) -> bool {
        &&& num::same(self.b0, other.b0)
        &&& num::same(self.b1, other.b1)
        &&& num::same(self.b2, other.b2)
        &&& num::same(self.a1, other.a1)
        &&& num::same(self.a2, other.a2)
    }

    fn over(b0: S, b1: S, b2: S, a0: S, a1: S, a2: S) -> (r: Self)
        requires
            num::lawful::<S>(),
        ensures
            r == normalised(b0, b1, b2, a0, a1, a2),
    {
        BiquadCoeffs { b0: b0 / a0, b1: b1 / a0, b2: b2 / a0, a1: a1 / a0, a2: a2 / a0 }
    }

    fn get_alpha(corner: Corner<S>, q: S) -> (r: S)
        requires
            num::lawful::<S>(),
        ensures
            r == corner.alpha(q),
    {
        corner.sin / (get_whole::<S>(2) * q)
    }

    fn get_mirrored(cos: S) -> (r: S)
        requires
            num::lawful::<S>(),
        ensures
            r == num::whole::<S>(-2).mul_spec(cos),
    {
        get_whole::<S>(-2) * cos
    }

    /// A bell around the corner. `amplitude` is `10^(dB/40)`.
    pub fn peaking_of(corner: Corner<S>, q: S, amplitude: S) -> (r: Self)
        requires
            num::lawful::<S>(),
        ensures
            r == Self::peak_form(corner, q, amplitude),
    {
        let one: S = get_whole(1);
        let alpha = Self::get_alpha(corner, q);
        let mirrored = Self::get_mirrored(corner.cos);
        Self::over(
            one + alpha * amplitude,
            mirrored,
            one - alpha * amplitude,
            one + alpha / amplitude,
            mirrored,
            one - alpha / amplitude,
        )
    }

    pub fn band_pass_of(corner: Corner<S>, q: S) -> (r: Self)
        requires
            num::lawful::<S>(),
        ensures
            r == Self::band_pass_form(corner, q),
    {
        let one: S = get_whole(1);
        let alpha = Self::get_alpha(corner, q);
        let a0 = one + alpha;
        BiquadCoeffs {
            b0: alpha / a0,
            b1: get_whole(0),
            b2: alpha.neg() / a0,
            a1: Self::get_mirrored(corner.cos) / a0,
            a2: (one - alpha) / a0,
        }
    }

    /// A notch spanning a bandwidth: `spread` is `sinh(ln 2 / 2 * octaves)`.
    pub fn notch_of_spread(corner: Corner<S>, spread: S) -> (r: Self)
        requires
            num::lawful::<S>(),
        ensures
            r == Self::notch_form(corner.cos, corner.sin.mul_spec(spread)),
    {
        let one: S = get_whole(1);
        let alpha = corner.sin * spread;
        let mirrored = Self::get_mirrored(corner.cos);
        Self::over(one, mirrored, one, one + alpha, mirrored, one - alpha)
    }

    pub fn notch_of(corner: Corner<S>, q: S) -> (r: Self)
        requires
            num::lawful::<S>(),
        ensures
            r == Self::notch_form(corner.cos, corner.alpha(q)),
    {
        let one: S = get_whole(1);
        let alpha = Self::get_alpha(corner, q);
        let mirrored = Self::get_mirrored(corner.cos);
        Self::over(one, mirrored, one, one + alpha, mirrored, one - alpha)
    }

    pub fn low_pass_of(corner: Corner<S>, q: S) -> (r: Self)
        requires
            num::lawful::<S>(),
        ensures
            r == Self::low_pass_form(corner, q),
    {
        let one: S = get_whole(1);
        let alpha = Self::get_alpha(corner, q);
        let side = one - corner.cos;
        let half = side / get_whole(2);
        Self::over(
            half,
            side,
            half,
            one + alpha,
            Self::get_mirrored(corner.cos),
            one - alpha,
        )
    }

    pub fn high_pass_of(corner: Corner<S>, q: S) -> (r: Self)
        requires
            num::lawful::<S>(),
        ensures
            r == Self::high_pass_form(corner, q),
    {
        let one: S = get_whole(1);
        let alpha = Self::get_alpha(corner, q);
        let side = one + corner.cos;
        let half = side / get_whole(2);
        Self::over(
            half,
            side.neg(),
            half,
            one + alpha,
            Self::get_mirrored(corner.cos),
            one - alpha,
        )
    }

    pub fn low_shelf_of(corner: Corner<S>, q: S, boost: Boost<S>) -> (r: Self)
        requires
            num::lawful::<S>(),
        ensures
            r == Self::low_shelf_form(corner, q, boost),
    {
        let two: S = get_whole(2);
        let a = boost.amplitude;
        let p = a + get_whole(1);
        let m = a - get_whole(1);
        let pc = p * corner.cos;
        let mc = m * corner.cos;
        let w = two * boost.root * Self::get_alpha(corner, q);
        Self::over(
            a * (p - mc + w),
            two * a * (m - pc),
            a * (p - mc - w),
            p + mc + w,
            get_whole::<S>(-2) * (m + pc),
            p + mc - w,
        )
    }

    pub fn high_shelf_of(corner: Corner<S>, q: S, boost: Boost<S>) -> (r: Self)
        requires
            num::lawful::<S>(),
        ensures
            r == Self::high_shelf_form(corner, q, boost),
    {
        let two: S = get_whole(2);
        let a = boost.amplitude;
        let p = a + get_whole(1);
        let m = a - get_whole(1);
        let pc = p * corner.cos;
        let mc = m * corner.cos;
        let w = two * boost.root * Self::get_alpha(corner, q);
        Self::over(
            a * (p + mc + w),
            get_whole::<S>(-2) * a * (m + pc),
            a * (p + mc - w),
            p - mc + w,
            two * (m - pc),
            p - mc - w,
        )
    }

    fn lerp(self, to: Self, t: S) -> (r: Self)
        requires
            num::lawful::<S>(),
        ensures
            r == self.toward(to, t),
    {
        BiquadCoeffs {
            b0: self.b0 + (to.b0 - self.b0) * t,
            b1: self.b1 + (to.b1 - self.b1) * t,
            b2: self.b2 + (to.b2 - self.b2) * t,
            a1: self.a1 + (to.a1 - self.a1) * t,
            a2: self.a2 + (to.a2 - self.a2) * t,
        }
    }

    fn is_match(self, other: Self) -> (r: bool)
        requires
            num::lawful::<S>(),
        ensures
            r == self.matches(other),
    {
        is_same(self.b0, other.b0) && is_same(self.b1, other.b1) && is_same(self.b2, other.b2)
            && is_same(self.a1, other.a1) && is_same(self.a2, other.a2)
    }
}

/// `coeffs` is a bell of `gain_db` around `freq_hz` at a sample rate.
pub open spec fn bells<S: Sample, M: Elementary<S>>(
    m: M,
    rate: S,
    freq_hz: S,
    q: S,
    gain_db: S,
    coeffs: BiquadCoeffs<S>,
) -> bool {
    exists|corner: Corner<S>, boost: Boost<S>|
        #[trigger] elementary::corners(m, freq_hz, rate, corner) && #[trigger] elementary::boosts(
            m,
            gain_db,
            boost,
        ) && coeffs == BiquadCoeffs::peak_form(corner, q, boost.amplitude)
}

impl<S: Sample> Corner<S> {
    /// The corner at a frequency.
    pub fn new<M: Elementary<S>>(m: &M, freq_hz: S, sample_rate: S) -> (r: Self)
        requires
            num::lawful::<S>(),
        ensures
            elementary::corners(*m, freq_hz, sample_rate, r),
    {
        let full: S = m.angle(freq_hz);
        assert(elementary::angles(*m, freq_hz, full));
        let angle: S = full / sample_rate;
        Corner { sin: m.sine(angle), cos: m.cosine(angle) }
    }
}

impl<S: Sample> Boost<S> {
    /// The gain of so many decibels.
    pub fn new<M: Elementary<S>>(m: &M, gain_db: S) -> (r: Self)
        requires
            num::lawful::<S>(),
        ensures
            elementary::boosts(*m, gain_db, r),
    {
        let amplitude: S = m.power_of_ten(gain_db / get_whole(40));
        Boost { amplitude, root: m.root(amplitude) }
    }
}

/// How far apart the edges of a band of so many octaves are.
pub fn get_spread<S: Sample, M: Elementary<S>>(m: &M, octaves: S) -> (r: S)
    requires
        num::lawful::<S>(),
    ensures
        elementary::spreads(*m, octaves, r),
{
    m.sinh(get_ratio::<S>(3525, 10171) * octaves)
}

/// The quality of a band of so many octaves.
pub fn q_from_bandwidth_octaves<S: Sample, M: Elementary<S>>(m: &M, octaves: S) -> (r: S)
    requires
        num::lawful::<S>(),
    ensures
        elementary::qualities(*m, octaves, r),
{
    let spread: S = get_spread(m, octaves);
    assert(elementary::spreads(*m, octaves, spread));
    get_whole::<S>(1) / (get_whole::<S>(2) * spread)
}

/// The filters by frequency, quality and gain.
impl<S: Sample> BiquadCoeffs<S> {
    /// A bell of `gain_db` around `freq_hz`.
    pub fn peaking<M: Elementary<S>>(
        m: &M,
        sample_rate: S,
        freq_hz: S,
        q: S,
        gain_db: S,
    ) -> (r: Self)
        requires
            num::lawful::<S>(),
        ensures
            bells(*m, sample_rate, freq_hz, q, gain_db, r),
    {
        let corner = Corner::new(m, freq_hz, sample_rate);
        assert(elementary::corners(*m, freq_hz, sample_rate, corner));
        let boost = Boost::new(m, gain_db);
        assert(elementary::boosts(*m, gain_db, boost));
        Self::peaking_of(corner, q, boost.amplitude)
    }

    /// What lies around `freq_hz`, at unity in its middle.
    pub fn band_pass<M: Elementary<S>>(
        m: &M,
        sample_rate: S,
        freq_hz: S,
        q: S,
    ) -> (r: Self)
        requires
            num::lawful::<S>(),
        ensures
            exists|corner: Corner<S>| #[trigger]
                elementary::corners(*m, freq_hz, sample_rate, corner) && r == Self::band_pass_form(
                    corner,
                    q,
                ),
    {
        let corner = Corner::new(m, freq_hz, sample_rate);
        assert(elementary::corners(*m, freq_hz, sample_rate, corner));
        Self::band_pass_of(corner, q)
    }

    /// All but a band of so many octaves.
    pub fn notch_from_bandwidth<M: Elementary<S>>(
        m: &M,
        sample_rate: S,
        freq_hz: S,
        bandwidth_octaves: S,
    ) -> (r: Self)
        requires
            num::lawful::<S>(),
        ensures
            exists|corner: Corner<S>, spread: S|
                #[trigger] elementary::corners(*m, freq_hz, sample_rate, corner)
                    && #[trigger] elementary::spreads(*m, bandwidth_octaves, spread) && r
                    == Self::notch_form(corner.cos, corner.sin.mul_spec(spread)),
    {
        let corner = Corner::new(m, freq_hz, sample_rate);
        assert(elementary::corners(*m, freq_hz, sample_rate, corner));
        let spread: S = get_spread(m, bandwidth_octaves);
        assert(elementary::spreads(*m, bandwidth_octaves, spread));
        Self::notch_of_spread(corner, spread)
    }

    /// All but what lies at `freq_hz`.
    pub fn notch<M: Elementary<S>>(
        m: &M,
        sample_rate: S,
        freq_hz: S,
        q: S,
    ) -> (r: Self)
        requires
            num::lawful::<S>(),
        ensures
            exists|corner: Corner<S>| #[trigger]
                elementary::corners(*m, freq_hz, sample_rate, corner) && r == Self::notch_form(
                    corner.cos,
                    corner.alpha(q),
                ),
    {
        let corner = Corner::new(m, freq_hz, sample_rate);
        assert(elementary::corners(*m, freq_hz, sample_rate, corner));
        Self::notch_of(corner, q)
    }

    /// What lies below `freq_hz`.
    pub fn low_pass<M: Elementary<S>>(
        m: &M,
        sample_rate: S,
        freq_hz: S,
        q: S,
    ) -> (r: Self)
        requires
            num::lawful::<S>(),
        ensures
            exists|corner: Corner<S>| #[trigger]
                elementary::corners(*m, freq_hz, sample_rate, corner) && r == Self::low_pass_form(
                    corner,
                    q,
                ),
    {
        let corner = Corner::new(m, freq_hz, sample_rate);
        assert(elementary::corners(*m, freq_hz, sample_rate, corner));
        Self::low_pass_of(corner, q)
    }

    /// What lies above `freq_hz`.
    pub fn high_pass<M: Elementary<S>>(
        m: &M,
        sample_rate: S,
        freq_hz: S,
        q: S,
    ) -> (r: Self)
        requires
            num::lawful::<S>(),
        ensures
            exists|corner: Corner<S>| #[trigger]
                elementary::corners(*m, freq_hz, sample_rate, corner) && r == Self::high_pass_form(
                    corner,
                    q,
                ),
    {
        let corner = Corner::new(m, freq_hz, sample_rate);
        assert(elementary::corners(*m, freq_hz, sample_rate, corner));
        Self::high_pass_of(corner, q)
    }

    /// Everything, with `gain_db` below `freq_hz`.
    pub fn low_shelf<M: Elementary<S>>(
        m: &M,
        sample_rate: S,
        freq_hz: S,
        q: S,
        gain_db: S,
    ) -> (r: Self)
        requires
            num::lawful::<S>(),
        ensures
            exists|corner: Corner<S>, boost: Boost<S>|
                #[trigger] elementary::corners(*m, freq_hz, sample_rate, corner)
                    && #[trigger] elementary::boosts(*m, gain_db, boost) && r == Self::low_shelf_form(
                    corner,
                    q,
                    boost,
                ),
    {
        let corner = Corner::new(m, freq_hz, sample_rate);
        assert(elementary::corners(*m, freq_hz, sample_rate, corner));
        let boost = Boost::new(m, gain_db);
        assert(elementary::boosts(*m, gain_db, boost));
        Self::low_shelf_of(corner, q, boost)
    }

    /// Everything, with `gain_db` above `freq_hz`.
    pub fn high_shelf<M: Elementary<S>>(
        m: &M,
        sample_rate: S,
        freq_hz: S,
        q: S,
        gain_db: S,
    ) -> (r: Self)
        requires
            num::lawful::<S>(),
        ensures
            exists|corner: Corner<S>, boost: Boost<S>|
                #[trigger] elementary::corners(*m, freq_hz, sample_rate, corner)
                    && #[trigger] elementary::boosts(*m, gain_db, boost) && r == Self::high_shelf_form(
                    corner,
                    q,
                    boost,
                ),
    {
        let corner = Corner::new(m, freq_hz, sample_rate);
        assert(elementary::corners(*m, freq_hz, sample_rate, corner));
        let boost = Boost::new(m, gain_db);
        assert(elementary::boosts(*m, gain_db, boost));
        Self::high_shelf_of(corner, q, boost)
    }
}

/// A change of coefficients in progress.
#[derive(Debug, Clone, Copy)]
pub struct Ramp<S> {
    pub from: BiquadCoeffs<S>,
    pub to: BiquadCoeffs<S>,
    pub step: u32,
}

/// One filter section with its history. Without coefficients it is bypassed.
#[derive(Debug, Clone, Copy)]
pub struct Biquad<S> {
    pub coeffs: Option<BiquadCoeffs<S>>,
    pub ramp: Option<Ramp<S>>,
    pub x1: S,
    pub x2: S,
    pub y1: S,
    pub y2: S,
}

impl<S: Sample> Biquad<S> {
    /// A ramp in progress is not yet at its end, and belongs to an engaged
    /// filter.
    pub open spec fn wf(self) -> bool {
        self.ramp matches Some(ramp) ==> ramp.step < COEFF_RAMP_SAMPLES && self.coeffs is Some
    }

    /// Bypassed, with a silent history.
    pub open spec fn idle() -> Self {
        let o = num::whole::<S>(0);
        Biquad { coeffs: None, ramp: None, x1: o, x2: o, y1: o, y2: o }
    }

    /// The filter after a request for new coefficients.
    pub open spec fn retuned(self, coeffs: BiquadCoeffs<S>) -> Self {
        match self.coeffs {
            None => Biquad { coeffs: Some(coeffs), ..self },
            Some(current) => if current.matches(coeffs) {
                Biquad { ramp: None, ..self }
            } else {
                Biquad { ramp: Some(Ramp { from: current, to: coeffs, step: 0 }), ..self }
            },
        }
    }

    /// The filter has these coefficients, or is on its way to them.
    pub open spec fn aims_at(self, coeffs: BiquadCoeffs<S>) -> bool {
        match self.ramp {
            Some(ramp) => ramp.to == coeffs || ramp.to.matches(coeffs),
            None => self.coeffs matches Some(c) && (c == coeffs || c.matches(coeffs)),
        }
    }

    pub open spec fn released(self) -> Self {
        Biquad { coeffs: None, ramp: None, ..self }
    }

    /// The filter with its ramp moved on by one sample.
    pub open spec fn ramped(self) -> Self {
        match self.ramp {
            None => self,
            Some(ramp) => if ramp.step + 1 >= COEFF_RAMP_SAMPLES {
                Biquad { coeffs: Some(ramp.to), ramp: None, ..self }
            } else {
                Biquad {
                    coeffs: Some(
                        ramp.from.toward(ramp.to, num::ratio::<S>(ramp.step + 1, 64)),
                    ),
                    ramp: Some(Ramp { step: (ramp.step + 1) as u32, ..ramp }),
                    ..self
                }
            },
        }
    }

    /// `b0 x + b1 x1 + b2 x2 - a1 y1 - a2 y2`.
    pub open spec fn response(self, c: BiquadCoeffs<S>, x: S) -> S {
        c.b0.mul_spec(x).add_spec(c.b1.mul_spec(self.x1)).add_spec(
            c.b2.mul_spec(self.x2),
        ).sub_spec(c.a1.mul_spec(self.y1)).sub_spec(c.a2.mul_spec(self.y2))
    }

    /// What comes out for `x`.
    pub open spec fn output(self, x: S) -> S {
        match self.ramped().coeffs {
            None => x,
            Some(c) => self.response(c, x),
        }
    }

    /// The filter after `x` has gone through.
    pub open spec fn after(self, x: S) -> Self {
        let r = self.ramped();
        if r.coeffs is Some {
            Biquad { x1: x, x2: self.x1, y1: self.output(x), y2: self.y1, ..r }
        } else {
            r
        }
    }

    /// The filter after all of `xs` has gone through.
    pub open spec fn after_all(self, xs: Seq<S>) -> Self
        decreases xs.len(),
    {
        if xs.len() == 0 {
            self
        } else {
            self.after(xs[0]).after_all(xs.skip(1))
        }
    }

    pub fn bypassed() -> (r: Self)
        requires
            num::lawful::<S>(),
        ensures
            r == Self::idle(),
            r.wf(),
    {
        let o: S = get_whole(0);
        Biquad { coeffs: None, ramp: None, x1: o, x2: o, y1: o, y2: o }
    }

    /// Engages a bypassed filter at once; an engaged one starts to ramp to the
    /// new coefficients from where it is. A ramp already in progress is given up
    /// for it.
    pub fn set_coeffs(&mut self, coeffs: BiquadCoeffs<S>)
        requires
            num::lawful::<S>(),
            old(self).wf(),
        ensures
            *final(self) == old(self).retuned(coeffs),
            final(self).wf(),
    {
        match self.coeffs {
            Some(current) => {
                self.ramp = if current.is_match(coeffs) {
                    None
                } else {
                    Some(Ramp { from: current, to: coeffs, step: 0 })
                };
            },
            None => {
                self.coeffs = Some(coeffs);
            },
        }
    }

    pub fn bypass(&mut self)
        ensures
            *final(self) == old(self).released(),
            final(self).wf(),
    {
        self.coeffs = None;
        self.ramp = None;
    }

    pub fn process(&mut self, x: S) -> (y: S)
        requires
            num::lawful::<S>(),
            old(self).wf(),
        ensures
            y == old(self).output(x),
            *final(self) == old(self).after(x),
            final(self).wf(),
    {
        if let Some(ramp) = self.ramp {
            let step: u32 = ramp.step + 1;
            if step >= COEFF_RAMP_SAMPLES {
                self.coeffs = Some(ramp.to);
                self.ramp = None;
            } else {
                let t: S = get_ratio(step as i16, 64);
                self.coeffs = Some(ramp.from.lerp(ramp.to, t));
                self.ramp = Some(Ramp { from: ramp.from, to: ramp.to, step });
            }
        }
        match self.coeffs {
            None => x,
            Some(c) => {
                let y = c.b0 * x + c.b1 * self.x1 + c.b2 * self.x2 - c.a1 * self.y1 - c.a2
                    * self.y2;
                self.x2 = self.x1;
                self.x1 = x;
                self.y2 = self.y1;
                self.y1 = y;
                y
            },
        }
    }
}

/// A bypassed filter hands its input through and is not moved by it.
pub proof fn law_bypass_is_transparent<S: Sample>(filter: Biquad<S>, x: S)
    requires
        filter.wf(),
        filter.coeffs is None,
    ensures
        filter.output(x) == x,
        filter.after(x) == filter,
{
}

/// The last request counts: the filter ends at it, or ramps to it, whatever was
/// asked for before.
pub proof fn law_the_last_request_counts<S: Sample>(filter: Biquad<S>, coeffs: BiquadCoeffs<S>)
    requires
        filter.wf(),
    ensures
        filter.retuned(coeffs).wf(),
        filter.retuned(coeffs).aims_at(coeffs),
{
}

/// A request for other coefficients than the current ones starts a ramp of full
/// length from where the filter is, also where a ramp was already on its way to
/// them.
pub proof fn law_a_request_starts_the_ramp_anew<S: Sample>(
    filter: Biquad<S>,
    current: BiquadCoeffs<S>,
    coeffs: BiquadCoeffs<S>,
)
    requires
        filter.coeffs == Some(current),
        !current.matches(coeffs),
    ensures
        filter.retuned(coeffs).ramp == Some(Ramp { from: current, to: coeffs, step: 0u32 }),
        filter.retuned(coeffs).coeffs == filter.coeffs,
{
}

/// Asking for other coefficients and then for the first again, with no sample
/// in between, leaves no trace.
pub proof fn law_a_request_can_be_taken_back<S: Sample>(
    filter: Biquad<S>,
    first: BiquadCoeffs<S>,
    other: BiquadCoeffs<S>,
)
    requires
        filter.coeffs == Some(first),
        filter.ramp is None,
        first.matches(first),
        !other.matches(first),
    ensures
        filter.retuned(other).retuned(first) == filter,
{
}

/// A ramp ends exactly after its length, at the requested coefficients, and
/// not before.
pub proof fn law_ramp_ends_on_time<S: Sample>(
    filter: Biquad<S>,
    from: BiquadCoeffs<S>,
    to: BiquadCoeffs<S>,
    xs: Seq<S>,
)
    requires
        filter.coeffs is Some,
        filter.ramp == Some(Ramp { from, to, step: 0u32 }),
    ensures
        xs.len() == COEFF_RAMP_SAMPLES ==> filter.after_all(xs).ramp is None && filter.after_all(
            xs,
        ).coeffs == Some(to),
        xs.len() < COEFF_RAMP_SAMPLES ==> filter.after_all(xs).ramp == Some(
            Ramp { from, to, step: xs.len() as u32 },
        ),
{
    if xs.len() <= COEFF_RAMP_SAMPLES {
        lemma_ramp_from(filter, from, to, 0, xs);
    }
}

proof fn lemma_ramp_from<S: Sample>(
    filter: Biquad<S>,
    from: BiquadCoeffs<S>,
    to: BiquadCoeffs<S>,
    step: u32,
    xs: Seq<S>,
)
    requires
        filter.coeffs is Some,
        step < COEFF_RAMP_SAMPLES,
        filter.ramp == Some(Ramp { from, to, step }),
        step + xs.len() <= COEFF_RAMP_SAMPLES,
    ensures
        step + xs.len() == COEFF_RAMP_SAMPLES ==> filter.after_all(xs).ramp is None
            && filter.after_all(xs).coeffs == Some(to),
        step + xs.len() < COEFF_RAMP_SAMPLES ==> filter.after_all(xs).ramp == Some(
            Ramp { from, to, step: (step + xs.len()) as u32 },
        ),
    decreases xs.len(),
{
    if xs.len() > 0 {
        let next = filter.after(xs[0]);
        if step + 1 < COEFF_RAMP_SAMPLES {
            lemma_ramp_from(next, from, to, (step + 1) as u32, xs.skip(1));
        } else {
            assert(next.after_all(xs.skip(1)) == next);
        }
    }
}

} // verus!
