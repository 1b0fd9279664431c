//! What the filters do to the tones that go through them.

use crate::biquad::{Biquad, BiquadCoeffs, Boost, Corner};
use crate::elementary::{self, Elementary};
use crate::eq_channel::CellTone;
use crate::exact::{self, Functions};
use crate::num::{self, Sample};
use crate::parametric_eq::{EqCellParams, EqCellType};
use vstd::prelude::*;
use vstd::std_specs::ops::{AddSpec, DivSpec, MulSpec, SubSpec};

verus! {

/// The squared magnitude of `b0 + b1 z + b2 z^2` at the point `z` of the unit
/// circle whose angle has this sine and cosine.
pub open spec fn power_of(b0: real, b1: real, b2: real, sin: real, cos: real) -> real {
    let re = (b0 + b2) * cos + b1;
    let im = (b0 - b2) * sin;
    re * re + im * im
}

/// A tone whose angle per sample has this sine and cosine comes out of the filter
/// with `gain` times the power it had.
pub open spec fn lets_through<S: Sample>(
    v: spec_fn(S) -> real,
    c: BiquadCoeffs<S>,
    sin: real,
    cos: real,
    gain: real,
) -> bool {
    let out = power_of(1real, v(c.a1), v(c.a2), sin, cos);
    out != 0real && power_of(v(c.b0), v(c.b1), v(c.b2), sin, cos) == gain * out
}

/// The lowest tone of all, a constant, comes out at `low` times its power, the
/// highest one, which alternates, at `high` times, and the one at the corner at
/// `middle` times.
pub open spec fn has_gains<S: Sample>(
    v: spec_fn(S) -> real,
    c: BiquadCoeffs<S>,
    corner: Corner<S>,
    low: real,
    middle: real,
    high: real,
) -> bool {
    &&& lets_through(v, c, 0real, 1real, low)
    &&& lets_through(v, c, v(corner.sin), v(corner.cos), middle)
    &&& lets_through(v, c, 0real, -1real, high)
}

/// The corner lies between nought and half the sample rate.
pub open spec fn is_corner<S: Sample>(v: spec_fn(S) -> real, corner: Corner<S>) -> bool {
    let (s, c) = (v(corner.sin), v(corner.cos));
    s > 0real && s * s + c * c == 1real
}

/// The boost is an amplitude with its root.
pub open spec fn is_boost<S: Sample>(v: spec_fn(S) -> real, boost: Boost<S>) -> bool {
    let r = v(boost.root);
    r > 0real && v(boost.amplitude) == r * r
}

proof fn lemma_scaled_power(b0: real, b1: real, b2: real, sin: real, cos: real, k: real)
    ensures
        power_of(k * b0, k * b1, k * b2, sin, cos) == k * k * power_of(b0, b1, b2, sin, cos),
{
    let re = (b0 + b2) * cos + b1;
    let im = (b0 - b2) * sin;
    assert((k * b0 + k * b2) * cos + k * b1 == k * re) by (nonlinear_arith)
        requires
            re == (b0 + b2) * cos + b1,
    ;
    assert((k * b0 - k * b2) * sin == k * im) by (nonlinear_arith)
        requires
            im == (b0 - b2) * sin,
    ;
    assert((k * re) * (k * re) + (k * im) * (k * im) == k * k * (re * re + im * im))
        by (nonlinear_arith);
}

/// The coefficients before they are divided by the leading one.
struct Sides {
    b0: real,
    b1: real,
    b2: real,
    a0: real,
    a1: real,
    a2: real,
}

impl Sides {
    spec fn over<S: Sample>(self, v: spec_fn(S) -> real, c: BiquadCoeffs<S>) -> bool {
        &&& self.a0 != 0real
        &&& v(c.b0) == self.b0 / self.a0
        &&& v(c.b1) == self.b1 / self.a0
        &&& v(c.b2) == self.b2 / self.a0
        &&& v(c.a1) == self.a1 / self.a0
        &&& v(c.a2) == self.a2 / self.a0
    }

    spec fn top(self, sin: real, cos: real) -> real {
        power_of(self.b0, self.b1, self.b2, sin, cos)
    }

    spec fn bottom(self, sin: real, cos: real) -> real {
        power_of(self.a0, self.a1, self.a2, sin, cos)
    }
}

/// Dividing every coefficient by the leading one changes no gain.
proof fn lemma_divided<S: Sample>(
    v: spec_fn(S) -> real,
    c: BiquadCoeffs<S>,
    sides: Sides,
    sin: real,
    cos: real,
    gain: real,
)
    requires
        sides.over(v, c),
        sides.bottom(sin, cos) != 0real,
        sides.top(sin, cos) == gain * sides.bottom(sin, cos),
    ensures
        lets_through(v, c, sin, cos, gain),
{
    let (x0, x1, x2) = (sides.b0, sides.b1, sides.b2);
    let (y0, y1, y2) = (sides.a0, sides.a1, sides.a2);
    let k = 1real / y0;
    assert(x0 / y0 == k * x0 && x1 / y0 == k * x1 && x2 / y0 == k * x2 && y1 / y0 == k * y1 && y2
        / y0 == k * y2 && k * y0 == 1real && k != 0real) by (nonlinear_arith)
        requires
            y0 != 0real,
            k == 1real / y0,
    ;
    lemma_scaled_power(x0, x1, x2, sin, cos, k);
    lemma_scaled_power(y0, y1, y2, sin, cos, k);
    let (p, q) = (sides.top(sin, cos), sides.bottom(sin, cos));
    assert(k * k * q != 0real && k * k * p == gain * (k * k * q)) by (nonlinear_arith)
        requires
            p == gain * q,
            q != 0real,
            k != 0real,
    ;
}

proof fn lemma_gains<S: Sample>(
    v: spec_fn(S) -> real,
    c: BiquadCoeffs<S>,
    corner: Corner<S>,
    sides: Sides,
    low: real,
    middle: real,
    high: real,
)
    requires
        sides.over(v, c),
        sides.bottom(0real, 1real) != 0real,
        sides.bottom(0real, -1real) != 0real,
        sides.bottom(v(corner.sin), v(corner.cos)) != 0real,
        sides.top(0real, 1real) == low * sides.bottom(0real, 1real),
        sides.top(0real, -1real) == high * sides.bottom(0real, -1real),
        sides.top(v(corner.sin), v(corner.cos)) == middle * sides.bottom(
            v(corner.sin),
            v(corner.cos),
        ),
    ensures
        has_gains(v, c, corner, low, middle, high),
{
    lemma_divided(v, c, sides, 0real, 1real, low);
    lemma_divided(v, c, sides, 0real, -1real, high);
    lemma_divided(v, c, sides, v(corner.sin), v(corner.cos), middle);
}

proof fn lemma_alpha<S: Sample>(v: spec_fn(S) -> real, corner: Corner<S>, q: S)
    requires
        exact::is_exact(v),
        is_corner(v, corner),
        v(q) > 0real,
    ensures
        2real * v(q) * v(corner.alpha(q)) == v(corner.sin),
        v(corner.alpha(q)) > 0real,
        v(corner.mirrored()) == -2real * v(corner.cos),
{
    let (s, w) = (v(corner.sin), v(q));
    let two = num::whole::<S>(2);
    assert(v(two.mul_spec(q)) == 2real * w);
    assert(2real * w > 0real);
    let alpha = v(corner.alpha(q));
    assert(alpha == s / (2real * w));
    assert(2real * w * alpha == s && alpha > 0real) by (nonlinear_arith)
        requires
            alpha == s / (2real * w),
            w > 0real,
            s > 0real,
    ;
}

/// The two ends of the spectrum, where only the sums of the outer coefficients
/// count.
proof fn lemma_ends(b0: real, b1: real, b2: real)
    ensures
        power_of(b0, b1, b2, 0real, 1real) == (b0 + b1 + b2) * (b0 + b1 + b2),
        power_of(b0, b1, b2, 0real, -1real) == (b0 - b1 + b2) * (b0 - b1 + b2),
{
    assert((b0 + b2) * 1real + b1 == b0 + b1 + b2);
    assert((b0 - b2) * 0real == 0real) by (nonlinear_arith);
    let n = b0 - b1 + b2;
    assert((b0 + b2) * (-1real) + b1 == -n);
    assert((-n) * (-n) == n * n) by (nonlinear_arith);
}

/// The bottom of a filter with the poles `1 + alpha`, `-2 cos`, `1 - alpha`.
proof fn lemma_poles(s: real, c: real, alpha: real)
    requires
        s > 0real,
        s * s + c * c == 1real,
        alpha > 0real,
    ensures
        -1real < c < 1real,
        power_of(1real + alpha, -2real * c, 1real - alpha, 0real, 1real) == (2real - 2real * c) * (
        2real - 2real * c),
        power_of(1real + alpha, -2real * c, 1real - alpha, 0real, -1real) == (2real + 2real * c) * (
        2real + 2real * c),
        power_of(1real + alpha, -2real * c, 1real - alpha, s, c) == (2real * alpha * s) * (2real
            * alpha * s),
        (2real - 2real * c) * (2real - 2real * c) != 0real,
        (2real + 2real * c) * (2real + 2real * c) != 0real,
        (2real * alpha * s) * (2real * alpha * s) != 0real,
{
    let (a0, a1, a2) = (1real + alpha, -2real * c, 1real - alpha);
    lemma_ends(a0, a1, a2);
    lemma_corner(s, c);
    assert((2real - 2real * c) * (2real - 2real * c) != 0real) by (nonlinear_arith)
        requires
            c < 1real,
    ;
    assert((2real + 2real * c) * (2real + 2real * c) != 0real) by (nonlinear_arith)
        requires
            c > -1real,
    ;
    let t = 2real * alpha * s;
    assert(t > 0real && t * t != 0real) by (nonlinear_arith)
        requires
            alpha > 0real,
            s > 0real,
            t == 2real * alpha * s,
    ;
    assert((a0 + a2) * c + a1 == 0real) by (nonlinear_arith)
        requires
            a0 + a2 == 2real,
            a1 == -2real * c,
    ;
    assert((a0 - a2) * s == t) by (nonlinear_arith)
        requires
            a0 - a2 == 2real * alpha,
            t == 2real * alpha * s,
    ;
}

proof fn lemma_corner(s: real, c: real)
    requires
        s > 0real,
        s * s + c * c == 1real,
    ensures
        -1real < c < 1real,
{
    assert(s * s > 0real) by (nonlinear_arith)
        requires
            s > 0real,
    ;
    assert(c < 1real && c > -1real) by (nonlinear_arith)
        requires
            s * s + c * c == 1real,
            s * s > 0real,
    ;
}

/// A low pass lets what is far below its corner through, and nothing of what is
/// far above it.
pub proof fn law_low_pass<S: Sample>(v: spec_fn(S) -> real, corner: Corner<S>, q: S)
    requires
        exact::is_exact(v),
        is_corner(v, corner),
        v(q) > 0real,
    ensures
        has_gains(
            v,
            BiquadCoeffs::low_pass_form(corner, q),
            corner,
            1real,
            v(q) * v(q),
            0real,
        ),
{
    let (s, c, w) = (v(corner.sin), v(corner.cos), v(q));
    let alpha = v(corner.alpha(q));
    lemma_alpha(v, corner, q);
    lemma_poles(s, c, alpha);
    let h = v(num::whole::<S>(1).sub_spec(corner.cos).div_spec(num::whole::<S>(2)));
    let sides = Sides {
        b0: h,
        b1: 1real - c,
        b2: h,
        a0: 1real + alpha,
        a1: -2real * c,
        a2: 1real - alpha,
    };
    lemma_ends(sides.b0, sides.b1, sides.b2);
    assert(2real * h == 1real - c);
    let t = 2real * alpha * s;
    assert((h + h) * c + (1real - c) == s * s) by (nonlinear_arith)
        requires
            2real * h == 1real - c,
            s * s + c * c == 1real,
    ;
    assert(s * s == w * t) by (nonlinear_arith)
        requires
            2real * w * alpha == s,
            t == 2real * alpha * s,
    ;
    assert((h - h) * s == 0real) by (nonlinear_arith);
    assert((w * t) * (w * t) == (w * w) * (t * t)) by (nonlinear_arith);
    lemma_gains(
        v,
        BiquadCoeffs::low_pass_form(corner, q),
        corner,
        sides,
        1real,
        w * w,
        0real,
    );
}

/// A high pass lets what is far above its corner through, and nothing of what is
/// far below it.
pub proof fn law_high_pass<S: Sample>(v: spec_fn(S) -> real, corner: Corner<S>, q: S)
    requires
        exact::is_exact(v),
        is_corner(v, corner),
        v(q) > 0real,
    ensures
        has_gains(
            v,
            BiquadCoeffs::high_pass_form(corner, q),
            corner,
            0real,
            v(q) * v(q),
            1real,
        ),
{
    let (s, c, w) = (v(corner.sin), v(corner.cos), v(q));
    let alpha = v(corner.alpha(q));
    lemma_alpha(v, corner, q);
    lemma_poles(s, c, alpha);
    let h = v(num::whole::<S>(1).add_spec(corner.cos).div_spec(num::whole::<S>(2)));
    let sides = Sides {
        b0: h,
        b1: -(1real + c),
        b2: h,
        a0: 1real + alpha,
        a1: -2real * c,
        a2: 1real - alpha,
    };
    lemma_ends(sides.b0, sides.b1, sides.b2);
    assert(2real * h == 1real + c);
    let t = 2real * alpha * s;
    assert((h + h) * c - (1real + c) == -(s * s)) by (nonlinear_arith)
        requires
            2real * h == 1real + c,
            s * s + c * c == 1real,
    ;
    assert(s * s == w * t) by (nonlinear_arith)
        requires
            2real * w * alpha == s,
            t == 2real * alpha * s,
    ;
    assert((h - h) * s == 0real) by (nonlinear_arith);
    assert((-(w * t)) * (-(w * t)) == (w * w) * (t * t)) by (nonlinear_arith);
    lemma_gains(
        v,
        BiquadCoeffs::high_pass_form(corner, q),
        corner,
        sides,
        0real,
        w * w,
        1real,
    );
}

/// A band pass lets its corner through as it is, and nothing of the two ends.
pub proof fn law_band_pass<S: Sample>(v: spec_fn(S) -> real, corner: Corner<S>, q: S)
    requires
        exact::is_exact(v),
        is_corner(v, corner),
        v(q) > 0real,
    ensures
        has_gains(v, BiquadCoeffs::band_pass_form(corner, q), corner, 0real, 1real, 0real),
{
    let (s, c) = (v(corner.sin), v(corner.cos));
    let alpha = v(corner.alpha(q));
    lemma_alpha(v, corner, q);
    lemma_poles(s, c, alpha);
    let sides = Sides {
        b0: alpha,
        b1: 0real,
        b2: -alpha,
        a0: 1real + alpha,
        a1: -2real * c,
        a2: 1real - alpha,
    };
    lemma_ends(sides.b0, sides.b1, sides.b2);
    assert(0real / (1real + alpha) == 0real) by (nonlinear_arith)
        requires
            alpha > 0real,
    ;
    assert((alpha + -alpha) * c + 0real == 0real) by (nonlinear_arith);
    assert((alpha - -alpha) * s == 2real * alpha * s) by (nonlinear_arith);
    lemma_gains(
        v,
        BiquadCoeffs::band_pass_form(corner, q),
        corner,
        sides,
        0real,
        1real,
        0real,
    );
}

/// A notch takes its corner out, and lets the two ends through as they are.
pub proof fn law_notch<S: Sample>(v: spec_fn(S) -> real, corner: Corner<S>, alpha: S)
    requires
        exact::is_exact(v),
        is_corner(v, corner),
        v(alpha) > 0real,
    ensures
        has_gains(v, BiquadCoeffs::notch_form(corner.cos, alpha), corner, 1real, 0real, 1real),
{
    let (s, c, a) = (v(corner.sin), v(corner.cos), v(alpha));
    lemma_poles(s, c, a);
    let sides = Sides {
        b0: 1real,
        b1: -2real * c,
        b2: 1real,
        a0: 1real + a,
        a1: -2real * c,
        a2: 1real - a,
    };
    lemma_ends(sides.b0, sides.b1, sides.b2);
    assert((1real + 1real) * c + (-2real * c) == 0real) by (nonlinear_arith);
    assert((1real - 1real) * s == 0real) by (nonlinear_arith);
    lemma_gains(
        v,
        BiquadCoeffs::notch_form(corner.cos, alpha),
        corner,
        sides,
        1real,
        0real,
        1real,
    );
}

/// A bell raises its corner by the square of its amplitude, and lets the two ends
/// through as they are.
pub proof fn law_bell<S: Sample>(v: spec_fn(S) -> real, corner: Corner<S>, q: S, amplitude: S)
    requires
        exact::is_exact(v),
        is_corner(v, corner),
        v(q) > 0real,
        v(amplitude) > 0real,
    ensures
        ({
            let a2 = v(amplitude) * v(amplitude);
            has_gains(
                v,
                BiquadCoeffs::peak_form(corner, q, amplitude),
                corner,
                1real,
                a2 * a2,
                1real,
            )
        }),
{
    let (s, c, a) = (v(corner.sin), v(corner.cos), v(amplitude));
    let alpha = v(corner.alpha(q));
    lemma_alpha(v, corner, q);
    let low = alpha / a;
    let high = alpha * a;
    assert(low > 0real && low * (a * a) == high) by (nonlinear_arith)
        requires
            alpha > 0real,
            a > 0real,
            low == alpha / a,
            high == alpha * a,
    ;
    lemma_poles(s, c, low);
    let sides = Sides {
        b0: 1real + high,
        b1: -2real * c,
        b2: 1real - high,
        a0: 1real + low,
        a1: -2real * c,
        a2: 1real - low,
    };
    lemma_ends(sides.b0, sides.b1, sides.b2);
    let t = 2real * low * s;
    assert((sides.b0 + sides.b2) * c + sides.b1 == 0real) by (nonlinear_arith)
        requires
            sides.b0 + sides.b2 == 2real,
            sides.b1 == -2real * c,
    ;
    assert((sides.b0 - sides.b2) * s == (a * a) * t) by (nonlinear_arith)
        requires
            sides.b0 - sides.b2 == 2real * high,
            low * (a * a) == high,
            t == 2real * low * s,
    ;
    let a2 = a * a;
    assert((a2 * t) * (a2 * t) == (a2 * a2) * (t * t)) by (nonlinear_arith);
    lemma_gains(
        v,
        BiquadCoeffs::peak_form(corner, q, amplitude),
        corner,
        sides,
        1real,
        a2 * a2,
        1real,
    );
}

/// What the shelves are made of, and that it is not nought.
proof fn lemma_shelf(s: real, c: real, a: real, w: real)
    requires
        s > 0real,
        s * s + c * c == 1real,
        a > 0real,
        w > 0real,
    ensures
        -1real < c < 1real,
        (a + 1real) + (a - 1real) * c + w > 0real,
        (a + 1real) - (a - 1real) * c + w > 0real,
        (4real * (1real - c)) * (4real * (1real - c)) != 0real,
        (4real * (1real + c)) * (4real * (1real + c)) != 0real,
        (4real * a * (1real - c)) * (4real * a * (1real - c)) != 0real,
        (4real * a * (1real + c)) * (4real * a * (1real + c)) != 0real,
        (2real * (a - 1real) * (s * s)) * (2real * (a - 1real) * (s * s)) + (2real * w * s) * (2real
            * w * s) != 0real,
{
    lemma_corner(s, c);
    assert((a + 1real) + (a - 1real) * c > 0real && (a + 1real) - (a - 1real) * c > 0real)
        by (nonlinear_arith)
        requires
            a > 0real,
            -1real < c,
            c < 1real,
    ;
    assert(4real * a * (1real - c) > 0real && 4real * a * (1real + c) > 0real) by (nonlinear_arith)
        requires
            a > 0real,
            -1real < c,
            c < 1real,
    ;
    lemma_square(4real * (1real - c));
    lemma_square(4real * (1real + c));
    lemma_square(4real * a * (1real - c));
    lemma_square(4real * a * (1real + c));
    assert(2real * w * s > 0real) by (nonlinear_arith)
        requires
            w > 0real,
            s > 0real,
    ;
    lemma_square(2real * w * s);
    let u = 2real * (a - 1real) * (s * s);
    assert(u * u >= 0real) by (nonlinear_arith);
}

proof fn lemma_square(x: real)
    requires
        x > 0real,
    ensures
        x * x > 0real,
{
    assert(x * x > 0real) by (nonlinear_arith)
        requires
            x > 0real,
    ;
}

/// The sums that the shelves come to at the two ends and at the corner: `d` is the
/// side of the raised end, one less the cosine or one more.
proof fn lemma_raised_end(a: real, c: real, w: real)
    ensures
        a * ((a + 1real) - (a - 1real) * c + w) + 2real * a * ((a - 1real) - (a + 1real) * c) + a * ((a
            + 1real) - (a - 1real) * c - w) == (a * a) * (4real * (1real - c)),
        ((a + 1real) + (a - 1real) * c + w) + -2real * ((a - 1real) + (a + 1real) * c) + ((a + 1real) + (
        a - 1real) * c - w) == 4real * (1real - c),
        a * ((a + 1real) - (a - 1real) * c + w) - 2real * a * ((a - 1real) - (a + 1real) * c) + a * ((a
            + 1real) - (a - 1real) * c - w) == 4real * a * (1real + c),
        ((a + 1real) + (a - 1real) * c + w) - -2real * ((a - 1real) + (a + 1real) * c) + ((a + 1real) + (
        a - 1real) * c - w) == 4real * a * (1real + c),
{
    assert(a * ((a + 1real) - (a - 1real) * c + w) + 2real * a * ((a - 1real) - (a + 1real) * c) + a
        * ((a + 1real) - (a - 1real) * c - w) == (a * a) * (4real * (1real - c)))
        by (nonlinear_arith);
    assert(((a + 1real) + (a - 1real) * c + w) + -2real * ((a - 1real) + (a + 1real) * c) + ((a
        + 1real) + (a - 1real) * c - w) == 4real * (1real - c)) by (nonlinear_arith);
    assert(a * ((a + 1real) - (a - 1real) * c + w) - 2real * a * ((a - 1real) - (a + 1real) * c) + a
        * ((a + 1real) - (a - 1real) * c - w) == 4real * a * (1real + c)) by (nonlinear_arith);
    assert(((a + 1real) + (a - 1real) * c + w) - -2real * ((a - 1real) + (a + 1real) * c) + ((a
        + 1real) + (a - 1real) * c - w) == 4real * a * (1real + c)) by (nonlinear_arith);
}

proof fn lemma_shelf_corner(a: real, c: real, w: real, s: real)
    requires
        s * s + c * c == 1real,
    ensures
        ({
            let u = 2real * (a - 1real) * (s * s);
            let y = 2real * w * s;
            let (b0, b2) = (
                a * ((a + 1real) - (a - 1real) * c + w),
                a * ((a + 1real) - (a - 1real) * c - w),
            );
            let (a0, a2) = (
                (a + 1real) + (a - 1real) * c + w,
                (a + 1real) + (a - 1real) * c - w,
            );
            &&& (b0 + b2) * c + 2real * a * ((a - 1real) - (a + 1real) * c) == a * u
            &&& (b0 - b2) * s == a * y
            &&& (a0 + a2) * c + -2real * ((a - 1real) + (a + 1real) * c) == -u
            &&& (a0 - a2) * s == y
        }),
{
    let k = 1real - c * c;
    assert(k == s * s);
    assert((a * ((a + 1real) - (a - 1real) * c + w) + a * ((a + 1real) - (a - 1real) * c - w)) * c
        + 2real * a * ((a - 1real) - (a + 1real) * c) == a * (2real * (a - 1real) * (1real - c * c)))
        by (nonlinear_arith);
    assert((a * ((a + 1real) - (a - 1real) * c + w) - a * ((a + 1real) - (a - 1real) * c - w)) * s
        == a * (2real * w * s)) by (nonlinear_arith);
    assert((((a + 1real) + (a - 1real) * c + w) + ((a + 1real) + (a - 1real) * c - w)) * c + -2real
        * ((a - 1real) + (a + 1real) * c) == -(2real * (a - 1real) * (1real - c * c)))
        by (nonlinear_arith);
    assert((((a + 1real) + (a - 1real) * c + w) - ((a + 1real) + (a - 1real) * c - w)) * s == 2real
        * w * s) by (nonlinear_arith);
}

proof fn lemma_squares(a: real, u: real, y: real)
    ensures
        (a * u) * (a * u) + (a * y) * (a * y) == (a * a) * (u * u + y * y),
        (-u) * (-u) == u * u,
        (a * u) * (a * u) == (a * a) * (u * u),
{
    assert((a * u) * (a * u) + (a * y) * (a * y) == (a * a) * (u * u + y * y)) by (nonlinear_arith);
    assert((-u) * (-u) == u * u) by (nonlinear_arith);
    assert((a * u) * (a * u) == (a * a) * (u * u)) by (nonlinear_arith);
}

/// A low shelf raises what is far below its corner by the square of its
/// amplitude, its corner by half as many decibels, and leaves the top alone.
pub proof fn law_low_shelf<S: Sample>(
    v: spec_fn(S) -> real,
    corner: Corner<S>,
    q: S,
    boost: Boost<S>,
)
    requires
        exact::is_exact(v),
        is_corner(v, corner),
        is_boost(v, boost),
        v(q) > 0real,
    ensures
        ({
            let a2 = v(boost.amplitude) * v(boost.amplitude);
            has_gains(
                v,
                BiquadCoeffs::low_shelf_form(corner, q, boost),
                corner,
                a2 * a2,
                a2,
                1real,
            )
        }),
{
    let (s, c, a, r) = (v(corner.sin), v(corner.cos), v(boost.amplitude), v(boost.root));
    let alpha = v(corner.alpha(q));
    lemma_alpha(v, corner, q);
    lemma_square(r);
    let w = 2real * r * alpha;
    lemma_product(r, alpha);
    lemma_shelf(s, c, a, w);
    let sides = Sides {
        b0: a * ((a + 1real) - (a - 1real) * c + w),
        b1: 2real * a * ((a - 1real) - (a + 1real) * c),
        b2: a * ((a + 1real) - (a - 1real) * c - w),
        a0: (a + 1real) + (a - 1real) * c + w,
        a1: -2real * ((a - 1real) + (a + 1real) * c),
        a2: (a + 1real) + (a - 1real) * c - w,
    };
    lemma_raised_end(a, c, w);
    lemma_shelf_corner(a, c, w, s);
    lemma_ends(sides.b0, sides.b1, sides.b2);
    lemma_ends(sides.a0, sides.a1, sides.a2);
    lemma_squares(a * a, 4real * (1real - c), 0real);
    lemma_squares(a, 2real * (a - 1real) * (s * s), 2real * w * s);
    let a2 = a * a;
    lemma_gains(
        v,
        BiquadCoeffs::low_shelf_form(corner, q, boost),
        corner,
        sides,
        a2 * a2,
        a2,
        1real,
    );
}

proof fn lemma_product(r: real, alpha: real)
    requires
        r > 0real,
        alpha > 0real,
    ensures
        2real * r * alpha > 0real,
{
    assert(2real * r * alpha > 0real) by (nonlinear_arith)
        requires
            r > 0real,
            alpha > 0real,
    ;
}

/// A high shelf raises what is far above its corner by the square of its
/// amplitude, its corner by half as many decibels, and leaves the bottom alone.
pub proof fn law_high_shelf<S: Sample>(
    v: spec_fn(S) -> real,
    corner: Corner<S>,
    q: S,
    boost: Boost<S>,
)
    requires
        exact::is_exact(v),
        is_corner(v, corner),
        is_boost(v, boost),
        v(q) > 0real,
    ensures
        ({
            let a2 = v(boost.amplitude) * v(boost.amplitude);
            has_gains(
                v,
                BiquadCoeffs::high_shelf_form(corner, q, boost),
                corner,
                1real,
                a2,
                a2 * a2,
            )
        }),
{
    let (s, c, a, r) = (v(corner.sin), v(corner.cos), v(boost.amplitude), v(boost.root));
    let alpha = v(corner.alpha(q));
    lemma_alpha(v, corner, q);
    lemma_square(r);
    let w = 2real * r * alpha;
    lemma_product(r, alpha);
    lemma_shelf(s, c, a, w);
    // It is the low shelf with the spectrum turned round.
    let d = -c;
    assert(d * d == c * c) by (nonlinear_arith)
        requires
            d == -c,
    ;
    let sides = Sides {
        b0: a * ((a + 1real) - (a - 1real) * d + w),
        b1: -(2real * a * ((a - 1real) - (a + 1real) * d)),
        b2: a * ((a + 1real) - (a - 1real) * d - w),
        a0: (a + 1real) + (a - 1real) * d + w,
        a1: -(-2real * ((a - 1real) + (a + 1real) * d)),
        a2: (a + 1real) + (a - 1real) * d - w,
    };
    lemma_turned(a, c);
    lemma_raised_end(a, d, w);
    lemma_shelf_corner(a, d, w, s);
    lemma_ends(sides.b0, sides.b1, sides.b2);
    lemma_ends(sides.a0, sides.a1, sides.a2);
    lemma_squares(a * a, 4real * (1real - d), 0real);
    let u = 2real * (a - 1real) * (s * s);
    let y = 2real * w * s;
    lemma_squares(a, u, y);
    lemma_squares(1real, a * u, 0real);
    lemma_negated(sides.b0 + sides.b2, c);
    lemma_negated(sides.a0 + sides.a2, c);
    let a2 = a * a;
    lemma_gains(
        v,
        BiquadCoeffs::high_shelf_form(corner, q, boost),
        corner,
        sides,
        1real,
        a2,
        a2 * a2,
    );
}

proof fn lemma_negated(x: real, c: real)
    ensures
        x * (-c) == -(x * c),
{
    assert(x * (-c) == -(x * c)) by (nonlinear_arith);
}

proof fn lemma_turned(a: real, c: real)
    ensures
        (a - 1real) * (-c) == -((a - 1real) * c),
        (a + 1real) * (-c) == -((a + 1real) * c),
        -(2real * a * ((a - 1real) + (a + 1real) * c)) == -2real * a * ((a - 1real) + (a + 1real) * c),
{
    lemma_negated(a - 1real, c);
    lemma_negated(a + 1real, c);
    let x = (a - 1real) + (a + 1real) * c;
    assert(-(2real * a * x) == -2real * a * x) by (nonlinear_arith);
}

/// An angle with this sine and cosine is an edge of a band of quality `q`: the
/// higher the quality, the nearer the edges are to the corner.
pub open spec fn is_edge<S: Sample>(
    v: spec_fn(S) -> real,
    corner: Corner<S>,
    q: S,
    sin: real,
    cos: real,
) -> bool {
    sin > 0real && 2real * v(q) * exact::size(cos - v(corner.cos)) == v(corner.sin) * sin
}

proof fn lemma_edge<S: Sample>(
    v: spec_fn(S) -> real,
    corner: Corner<S>,
    q: S,
    sin: real,
    cos: real,
)
    requires
        exact::is_exact(v),
        is_corner(v, corner),
        v(q) > 0real,
        is_edge(v, corner, q, sin, cos),
    ensures
        ({
            let (d, t) = (cos - v(corner.cos), v(corner.alpha(q)) * sin);
            t > 0real && d * d == t * t
        }),
{
    lemma_alpha(v, corner, q);
    let alpha = v(corner.alpha(q));
    let (s, w) = (v(corner.sin), v(q));
    let (d, t) = (cos - v(corner.cos), alpha * sin);
    assert(t > 0real) by (nonlinear_arith)
        requires
            t == alpha * sin,
            alpha > 0real,
            sin > 0real,
    ;
    let n = exact::size(d);
    let g = 2real * w;
    assert(s * sin == g * t) by (nonlinear_arith)
        requires
            g * alpha == s,
            t == alpha * sin,
    ;
    assert(n == t) by (nonlinear_arith)
        requires
            g * n == g * t,
            g > 0real,
    ;
    assert((-t) * (-t) == t * t) by (nonlinear_arith);
}

/// The poles `1 + alpha`, `-2 c`, `1 - alpha` at any angle.
proof fn lemma_poles_at(c: real, alpha: real, sin: real, cos: real)
    ensures
        ({
            let (d, t) = (cos - c, alpha * sin);
            power_of(1real + alpha, -2real * c, 1real - alpha, sin, cos) == 4real * (d * d) + 4real
                * (t * t)
        }),
{
    let (d, t) = (cos - c, alpha * sin);
    let (a0, a1, a2) = (1real + alpha, -2real * c, 1real - alpha);
    assert(a0 + a2 == 2real);
    assert(2real * cos + a1 == 2real * d);
    assert((a0 - a2) * sin == 2real * t) by (nonlinear_arith)
        requires
            a0 - a2 == 2real * alpha,
            t == alpha * sin,
    ;
    assert((2real * d) * (2real * d) == 4real * (d * d) && (2real * t) * (2real * t) == 4real * (t
        * t)) by (nonlinear_arith);
}

/// At its edges a band pass and a notch let half of the power through, and a bell
/// gives half of its decibels: that is what their quality says.
pub proof fn law_how_wide_a_band_is<S: Sample>(
    v: spec_fn(S) -> real,
    corner: Corner<S>,
    q: S,
    amplitude: S,
    sin: real,
    cos: real,
)
    requires
        exact::is_exact(v),
        is_corner(v, corner),
        v(q) > 0real,
        v(amplitude) > 0real,
        is_edge(v, corner, q, sin, cos),
    ensures
        lets_through(v, BiquadCoeffs::band_pass_form(corner, q), sin, cos, 1real / 2real),
        lets_through(
            v,
            BiquadCoeffs::notch_form(corner.cos, corner.alpha(q)),
            sin,
            cos,
            1real / 2real,
        ),
        lets_through(
            v,
            BiquadCoeffs::peak_form(corner, q, amplitude),
            sin,
            cos,
            v(amplitude) * v(amplitude),
        ),
{
    let c = v(corner.cos);
    let alpha = v(corner.alpha(q));
    lemma_alpha(v, corner, q);
    lemma_edge(v, corner, q, sin, cos);
    lemma_poles_at(c, alpha, sin, cos);
    let (d, t) = (cos - c, alpha * sin);
    let tt = t * t;
    assert(tt > 0real) by (nonlinear_arith)
        requires
            tt == t * t,
            t > 0real,
    ;
    let band = Sides {
        b0: alpha,
        b1: 0real,
        b2: -alpha,
        a0: 1real + alpha,
        a1: -2real * c,
        a2: 1real - alpha,
    };
    assert(0real / (1real + alpha) == 0real) by (nonlinear_arith)
        requires
            alpha > 0real,
    ;
    assert((alpha + -alpha) * cos + 0real == 0real) by (nonlinear_arith);
    assert((alpha - -alpha) * sin == 2real * t) by (nonlinear_arith)
        requires
            t == alpha * sin,
    ;
    assert((2real * t) * (2real * t) == 4real * (t * t)) by (nonlinear_arith);
    assert(0real * 0real == 0real);
    lemma_divided(v, BiquadCoeffs::band_pass_form(corner, q), band, sin, cos, 1real / 2real);
    let notch = Sides {
        b0: 1real,
        b1: -2real * c,
        b2: 1real,
        a0: 1real + alpha,
        a1: -2real * c,
        a2: 1real - alpha,
    };
    assert((1real + 1real) * cos + -2real * c == 2real * d);
    assert((1real - 1real) * sin == 0real) by (nonlinear_arith);
    assert((2real * d) * (2real * d) == 4real * (d * d)) by (nonlinear_arith);
    assert(v(num::whole::<S>(-2).mul_spec(corner.cos)) == -2real * c);
    lemma_divided(
        v,
        BiquadCoeffs::notch_form(corner.cos, corner.alpha(q)),
        notch,
        sin,
        cos,
        1real / 2real,
    );
    lemma_bell_edge(v, corner, q, amplitude, sin, cos);
}

/// A notch of width `alpha` lets half of the power through at its edges.
pub proof fn law_how_wide_a_notch_is<S: Sample>(
    v: spec_fn(S) -> real,
    corner: Corner<S>,
    alpha: S,
    sin: real,
    cos: real,
)
    requires
        exact::is_exact(v),
        v(alpha) > 0real,
        sin > 0real,
        exact::size(cos - v(corner.cos)) == v(alpha) * sin,
    ensures
        lets_through(v, BiquadCoeffs::notch_form(corner.cos, alpha), sin, cos, 1real / 2real),
{
    let (c, a) = (v(corner.cos), v(alpha));
    lemma_poles_at(c, a, sin, cos);
    let (d, t) = (cos - c, a * sin);
    assert((-t) * (-t) == t * t) by (nonlinear_arith);
    assert(d * d == t * t);
    let tt = t * t;
    assert(tt > 0real) by (nonlinear_arith)
        requires
            tt == t * t,
            t == a * sin,
            a > 0real,
            sin > 0real,
    ;
    let notch = Sides {
        b0: 1real,
        b1: -2real * c,
        b2: 1real,
        a0: 1real + a,
        a1: -2real * c,
        a2: 1real - a,
    };
    assert((1real + 1real) * cos + -2real * c == 2real * d);
    assert((1real - 1real) * sin == 0real) by (nonlinear_arith);
    assert((2real * d) * (2real * d) == 4real * (d * d)) by (nonlinear_arith);
    assert(0real * 0real == 0real);
    assert(v(num::whole::<S>(-2).mul_spec(corner.cos)) == -2real * c);
    lemma_divided(
        v,
        BiquadCoeffs::notch_form(corner.cos, alpha),
        notch,
        sin,
        cos,
        1real / 2real,
    );
}

proof fn lemma_bell_edge<S: Sample>(
    v: spec_fn(S) -> real,
    corner: Corner<S>,
    q: S,
    amplitude: S,
    sin: real,
    cos: real,
)
    requires
        exact::is_exact(v),
        is_corner(v, corner),
        v(q) > 0real,
        v(amplitude) > 0real,
        is_edge(v, corner, q, sin, cos),
    ensures
        lets_through(
            v,
            BiquadCoeffs::peak_form(corner, q, amplitude),
            sin,
            cos,
            v(amplitude) * v(amplitude),
        ),
{
    let c = v(corner.cos);
    let (alpha, a) = (v(corner.alpha(q)), v(amplitude));
    lemma_alpha(v, corner, q);
    lemma_edge(v, corner, q, sin, cos);
    let (d, t) = (cos - c, alpha * sin);
    let (up, down) = (alpha * a, alpha / a);
    lemma_poles_at(c, up, sin, cos);
    lemma_poles_at(c, down, sin, cos);
    assert(down > 0real && down * a == alpha) by (nonlinear_arith)
        requires
            down == alpha / a,
            alpha > 0real,
            a > 0real,
    ;
    let (x, y) = (up * sin, down * sin);
    assert(x == a * t) by (nonlinear_arith)
        requires
            x == up * sin,
            up == alpha * a,
            t == alpha * sin,
    ;
    assert(y * a == t) by (nonlinear_arith)
        requires
            y == down * sin,
            down * a == alpha,
            t == alpha * sin,
    ;
    let (tt, yy, aa) = (t * t, y * y, a * a);
    assert(tt > 0real && yy >= 0real) by (nonlinear_arith)
        requires
            tt == t * t,
            yy == y * y,
            t > 0real,
    ;
    assert(x * x == aa * tt) by (nonlinear_arith)
        requires
            x == a * t,
            aa == a * a,
            tt == t * t,
    ;
    assert(aa * yy == tt) by (nonlinear_arith)
        requires
            y * a == t,
            aa == a * a,
            tt == t * t,
            yy == y * y,
    ;
    assert(aa * (4real * tt + 4real * yy) == 4real * (aa * tt) + 4real * (aa * yy))
        by (nonlinear_arith);
    let bell = Sides {
        b0: 1real + up,
        b1: -2real * c,
        b2: 1real - up,
        a0: 1real + down,
        a1: -2real * c,
        a2: 1real - down,
    };
    lemma_divided(v, BiquadCoeffs::peak_form(corner, q, amplitude), bell, sin, cos, aa);
}

/// One side of a shelf at an angle whose cosine is `d` above the corner's: `tilt` is
/// what the raised end adds to it, and `width` how softly the one end goes over
/// into the other, the softer the lower the quality.
pub open spec fn shelf_power(amplitude: real, d: real, tilt: real, width: real) -> real {
    let x = (amplitude + 1real) * d + (amplitude - 1real) * tilt;
    x * x + width * width
}

/// What a low shelf does at any angle. The width is the quality's doing.
pub proof fn law_how_a_low_shelf_goes_over<S: Sample>(
    v: spec_fn(S) -> real,
    corner: Corner<S>,
    q: S,
    boost: Boost<S>,
    sin: real,
    cos: real,
    gain: real,
)
    requires
        exact::is_exact(v),
        is_corner(v, corner),
        is_boost(v, boost),
        v(q) > 0real,
        sin > 0real,
        ({
            let (a, c) = (v(boost.amplitude), v(corner.cos));
            let (d, tilt) = (cos - c, 1real - cos * c);
            let w = v(boost.root) * (v(corner.sin) / v(q)) * sin;
            gain * shelf_power(a, d, -tilt, w) == (a * a) * shelf_power(a, d, tilt, w)
        }),
    ensures
        lets_through(v, BiquadCoeffs::low_shelf_form(corner, q, boost), sin, cos, gain),
{
    let (a, r, c) = (v(boost.amplitude), v(boost.root), v(corner.cos));
    lemma_alpha(v, corner, q);
    let alpha = v(corner.alpha(q));
    let (p, m) = (a + 1real, a - 1real);
    let (pc, mc) = (p * c, m * c);
    let w = (2real * r) * alpha;
    let x = (p - mc) * cos + (m - pc);
    let y = (p + mc) * cos - (m + pc);
    let (d, tilt) = (cos - c, 1real - cos * c);
    let z = r * (v(corner.sin) / v(q)) * sin;
    lemma_shelf_width(v, corner, q, r, sin);
    assert(w * sin == z);
    lemma_shelf_middle(p, m, c, cos);
    assert(x == p * d + m * tilt);
    assert(y == p * d + m * (-tilt));
    lemma_shelf_sides(a, p - mc, m - pc, w, sin, cos);
    lemma_shelf_sides(1real, p + mc, -(m + pc), w, sin, cos);
    let sides = Sides {
        b0: a * (p - mc + w),
        b1: (2real * a) * (m - pc),
        b2: a * (p - mc - w),
        a0: p + mc + w,
        a1: -2real * (m + pc),
        a2: p + mc - w,
    };
    lemma_shelf_lead(v, corner, q, boost);
    let two = num::whole::<S>(2);
    assert(v(two.mul_spec(boost.root)) == 2real * r);
    assert(v(two.mul_spec(boost.amplitude)) == 2real * a);
    assert(v(two.mul_spec(boost.root).mul_spec(corner.alpha(q))) == w);
    let (top, bottom) = (shelf_power(a, d, tilt, z), shelf_power(a, d, -tilt, z));
    assert(sides.top(sin, cos) == 4real * ((a * a) * top));
    assert(sides.bottom(sin, cos) == 4real * bottom);
    assert(gain * (4real * bottom) == 4real * (gain * bottom)) by (nonlinear_arith);
    lemma_shelf_bottom(y, z);
    lemma_divided(v, BiquadCoeffs::low_shelf_form(corner, q, boost), sides, sin, cos, gain);
}

/// What a high shelf does at any angle.
pub proof fn law_how_a_high_shelf_goes_over<S: Sample>(
    v: spec_fn(S) -> real,
    corner: Corner<S>,
    q: S,
    boost: Boost<S>,
    sin: real,
    cos: real,
    gain: real,
)
    requires
        exact::is_exact(v),
        is_corner(v, corner),
        is_boost(v, boost),
        v(q) > 0real,
        sin > 0real,
        ({
            let (a, c) = (v(boost.amplitude), v(corner.cos));
            let (d, tilt) = (cos - c, 1real - cos * c);
            let w = v(boost.root) * (v(corner.sin) / v(q)) * sin;
            gain * shelf_power(a, d, tilt, w) == (a * a) * shelf_power(a, d, -tilt, w)
        }),
    ensures
        lets_through(v, BiquadCoeffs::high_shelf_form(corner, q, boost), sin, cos, gain),
{
    let (a, r, c) = (v(boost.amplitude), v(boost.root), v(corner.cos));
    lemma_alpha(v, corner, q);
    let alpha = v(corner.alpha(q));
    let (p, m) = (a + 1real, a - 1real);
    let (pc, mc) = (p * c, m * c);
    let w = (2real * r) * alpha;
    let x = (p - mc) * cos + (m - pc);
    let y = (p + mc) * cos - (m + pc);
    let (d, tilt) = (cos - c, 1real - cos * c);
    let z = r * (v(corner.sin) / v(q)) * sin;
    lemma_shelf_width(v, corner, q, r, sin);
    assert(w * sin == z);
    lemma_shelf_middle(p, m, c, cos);
    assert(x == p * d + m * tilt);
    assert(y == p * d + m * (-tilt));
    lemma_shelf_sides(a, p + mc, -(m + pc), w, sin, cos);
    lemma_shelf_sides(1real, p - mc, m - pc, w, sin, cos);
    let sides = Sides {
        b0: a * (p + mc + w),
        b1: (-2real * a) * (m + pc),
        b2: a * (p + mc - w),
        a0: p - mc + w,
        a1: 2real * (m - pc),
        a2: p - mc - w,
    };
    assert((-2real * a) * (m + pc) == (2real * a) * (-(m + pc))) by (nonlinear_arith);
    lemma_shelf_lead(v, corner, q, boost);
    let two = num::whole::<S>(2);
    assert(v(two.mul_spec(boost.root)) == 2real * r);
    assert(v(num::whole::<S>(-2).mul_spec(boost.amplitude)) == -2real * a);
    assert(v(two.mul_spec(boost.root).mul_spec(corner.alpha(q))) == w);
    let (top, bottom) = (shelf_power(a, d, -tilt, z), shelf_power(a, d, tilt, z));
    assert(sides.top(sin, cos) == 4real * ((a * a) * top));
    assert(sides.bottom(sin, cos) == 4real * bottom);
    assert(gain * (4real * bottom) == 4real * (gain * bottom)) by (nonlinear_arith);
    lemma_shelf_bottom(x, z);
    lemma_divided(v, BiquadCoeffs::high_shelf_form(corner, q, boost), sides, sin, cos, gain);
}

proof fn lemma_shelf_middle(p: real, m: real, c: real, cos: real)
    ensures
        (p - m * c) * cos + (m - p * c) == p * (cos - c) + m * (1real - cos * c),
        (p + m * c) * cos - (m + p * c) == p * (cos - c) + m * (-(1real - cos * c)),
{
    assert((p - m * c) * cos + (m - p * c) == p * (cos - c) + m * (1real - cos * c))
        by (nonlinear_arith);
    assert((p + m * c) * cos - (m + p * c) == p * (cos - c) + m * (-(1real - cos * c)))
        by (nonlinear_arith);
}

proof fn lemma_shelf_width<S: Sample>(
    v: spec_fn(S) -> real,
    corner: Corner<S>,
    q: S,
    r: real,
    sin: real,
)
    requires
        exact::is_exact(v),
        is_corner(v, corner),
        v(q) > 0real,
        r > 0real,
        sin > 0real,
    ensures
        ((2real * r) * v(corner.alpha(q))) * sin == r * (v(corner.sin) / v(q)) * sin,
        r * (v(corner.sin) / v(q)) * sin > 0real,
{
    lemma_alpha(v, corner, q);
    let (alpha, s, w) = (v(corner.alpha(q)), v(corner.sin), v(q));
    let g = s / w;
    assert(g == 2real * alpha) by (nonlinear_arith)
        requires
            g == s / w,
            2real * w * alpha == s,
            w > 0real,
    ;
    let h = (2real * r) * alpha;
    assert(h == r * g) by (nonlinear_arith)
        requires
            h == (2real * r) * alpha,
            g == 2real * alpha,
    ;
    assert(h > 0real) by (nonlinear_arith)
        requires
            h == r * g,
            r > 0real,
            g == 2real * alpha,
            alpha > 0real,
    ;
    assert(h * sin > 0real) by (nonlinear_arith)
        requires
            h > 0real,
            sin > 0real,
    ;
}

/// One side of a shelf, where the outer coefficients are `k (e + w)` and
/// `k (e - w)` and the middle one is `2 k n`.
proof fn lemma_shelf_sides(k: real, e: real, n: real, w: real, sin: real, cos: real)
    ensures
        ({
            let (x, z) = (e * cos + n, w * sin);
            power_of(k * (e + w), (2real * k) * n, k * (e - w), sin, cos) == 4real * ((k * k) * (x * x
                + z * z))
        }),
        k == 1real ==> ({
            let (x, z) = (e * cos + n, w * sin);
            power_of(e + w, 2real * n, e - w, sin, cos) == 4real * (x * x + z * z)
        }),
{
    let (b0, b1, b2) = (k * (e + w), (2real * k) * n, k * (e - w));
    let (x, z) = (e * cos + n, w * sin);
    let g = 2real * k;
    assert(b0 + b2 == g * e && b0 - b2 == g * w) by (nonlinear_arith)
        requires
            b0 == k * (e + w),
            b2 == k * (e - w),
            g == 2real * k,
    ;
    let (ge, gw) = (g * e, g * w);
    assert(ge * cos + g * n == g * x) by (nonlinear_arith)
        requires
            ge == g * e,
            x == e * cos + n,
    ;
    assert(gw * sin == g * z) by (nonlinear_arith)
        requires
            gw == g * w,
            z == w * sin,
    ;
    assert((g * x) * (g * x) + (g * z) * (g * z) == (g * g) * (x * x + z * z)) by (nonlinear_arith);
    let (kk, s) = (k * k, x * x + z * z);
    assert((g * g) * s == 4real * (kk * s)) by (nonlinear_arith)
        requires
            g == 2real * k,
            kk == k * k,
    ;
    if k == 1real {
        assert(b0 == e + w && b1 == 2real * n && b2 == e - w) by {
            assert(1real * (e + w) == e + w && 1real * (e - w) == e - w && 2real * 1real == 2real);
        }
        assert(1real * 1real == 1real && 1real * s == s);
    }
}

proof fn lemma_shelf_bottom(y: real, z: real)
    requires
        z > 0real,
    ensures
        y * y + z * z > 0real,
{
    assert(y * y >= 0real && z * z > 0real) by (nonlinear_arith)
        requires
            z > 0real,
    ;
}

/// The leading coefficient of a shelf is not nought.
proof fn lemma_shelf_lead<S: Sample>(
    v: spec_fn(S) -> real,
    corner: Corner<S>,
    q: S,
    boost: Boost<S>,
)
    requires
        exact::is_exact(v),
        is_corner(v, corner),
        is_boost(v, boost),
        v(q) > 0real,
    ensures
        ({
            let (a, r, c) = (v(boost.amplitude), v(boost.root), v(corner.cos));
            let (p, m) = (a + 1real, a - 1real);
            let w = (2real * r) * v(corner.alpha(q));
            p + m * c + w > 0real && p - m * c + w > 0real
        }),
{
    lemma_alpha(v, corner, q);
    let (a, r, c) = (v(boost.amplitude), v(boost.root), v(corner.cos));
    let alpha = v(corner.alpha(q));
    lemma_corner(v(corner.sin), c);
    assert(a > 0real) by (nonlinear_arith)
        requires
            a == r * r,
            r > 0real,
    ;
    let w = (2real * r) * alpha;
    assert(w > 0real) by (nonlinear_arith)
        requires
            w == (2real * r) * alpha,
            r > 0real,
            alpha > 0real,
    ;
    let (lo, hi) = (1real + c, 1real - c);
    assert(a * lo > 0real && a * hi > 0real) by (nonlinear_arith)
        requires
            a > 0real,
            lo > 0real,
            hi > 0real,
    ;
    assert((a + 1real) + (a - 1real) * c == a * (1real + c) + (1real - c)) by (nonlinear_arith);
    assert((a + 1real) - (a - 1real) * c == a * (1real - c) + (1real + c)) by (nonlinear_arith);
}

/// What the filter of an equaliser's cell does to a constant, to the tone at its
/// corner and to an alternating signal, by the cell's type: in powers, where
/// `boost` is the power of as many decibels as the cell's gain.
pub open spec fn does_its_job<S: Sample>(
    v: spec_fn(S) -> real,
    cell: EqCellParams<S>,
    tone: CellTone<S>,
    coeffs: BiquadCoeffs<S>,
) -> bool {
    let q2 = v(cell.q) * v(cell.q);
    let half = v(tone.boost.amplitude) * v(tone.boost.amplitude);
    let boost = half * half;
    match cell.cell_type {
        EqCellType::Peak => has_gains(v, coeffs, tone.corner, 1real, boost, 1real),
        EqCellType::LowPass => has_gains(v, coeffs, tone.corner, 1real, q2, 0real),
        EqCellType::HighPass => has_gains(v, coeffs, tone.corner, 0real, q2, 1real),
        EqCellType::LowShelf => has_gains(v, coeffs, tone.corner, boost, half, 1real),
        EqCellType::HighShelf => has_gains(v, coeffs, tone.corner, 1real, half, boost),
        EqCellType::BandPass => has_gains(v, coeffs, tone.corner, 0real, 1real, 0real),
        EqCellType::Notch => has_gains(v, coeffs, tone.corner, 1real, 0real, 1real),
    }
}

/// Every cell does what its type is for.
pub proof fn law_a_cell_does_its_job<S: Sample>(
    v: spec_fn(S) -> real,
    cell: EqCellParams<S>,
    tone: CellTone<S>,
)
    requires
        exact::is_exact(v),
        is_corner(v, tone.corner),
        is_boost(v, tone.boost),
        v(cell.q) > 0real,
    ensures
        does_its_job(v, cell, tone, cell.form(tone)),
{
    let (corner, q) = (tone.corner, cell.q);
    lemma_alpha(v, corner, q);
    lemma_square(v(tone.boost.root));
    match cell.cell_type {
        EqCellType::Peak => law_bell(v, corner, q, tone.boost.amplitude),
        EqCellType::LowPass => law_low_pass(v, corner, q),
        EqCellType::HighPass => law_high_pass(v, corner, q),
        EqCellType::LowShelf => law_low_shelf(v, corner, q, tone.boost),
        EqCellType::HighShelf => law_high_shelf(v, corner, q, tone.boost),
        EqCellType::BandPass => law_band_pass(v, corner, q),
        EqCellType::Notch => law_notch(v, corner, corner.alpha(q)),
    }
}

/// The corner of a frequency is the sine and the cosine of the angle it goes
/// through in one sample.
pub proof fn law_a_corner_is_its_frequency<S: Sample, M: Elementary<S>>(
    v: spec_fn(S) -> real,
    m: M,
    f: Functions,
    freq_hz: S,
    rate: S,
    corner: Corner<S>,
)
    requires
        exact::is_exact(v),
        exact::computes(v, m, f),
        v(rate) > 0real,
        elementary::corners(m, freq_hz, rate, corner),
    ensures
        v(corner.sin) == (f.sin)(f.turn * (v(freq_hz) / v(rate))),
        v(corner.cos) == (f.cos)(f.turn * (v(freq_hz) / v(rate))),
{
    let angle = choose|angle: S| #[trigger]
        elementary::angles(m, freq_hz, angle) && elementary::sines(
            m,
            angle.div_spec(rate),
            corner.sin,
        ) && elementary::cosines(m, angle.div_spec(rate), corner.cos);
    let (t, h, r) = (f.turn, v(freq_hz), v(rate));
    assert((t * h) / r == t * (h / r)) by (nonlinear_arith)
        requires
            r > 0real,
    ;
}

/// The boost of a gain is half of its decibels as an amplitude, and its root.
pub proof fn law_a_boost_is_half_the_decibels<S: Sample, M: Elementary<S>>(
    v: spec_fn(S) -> real,
    m: M,
    f: Functions,
    gain_db: S,
    boost: Boost<S>,
)
    requires
        exact::is_exact(v),
        exact::computes(v, m, f),
        elementary::boosts(m, gain_db, boost),
    ensures
        v(boost.amplitude) == (f.ten)(v(gain_db) / 40real),
        v(boost.root) == (f.root)(v(boost.amplitude)),
{
}

/// What comes out of an engaged filter obeys its difference equation, and the
/// filter remembers the last two samples of either side.
pub proof fn law_difference_equation<S: Sample>(
    v: spec_fn(S) -> real,
    filter: Biquad<S>,
    c: BiquadCoeffs<S>,
    x: S,
)
    requires
        exact::is_exact(v),
        filter.coeffs == Some(c),
        filter.ramp is None,
    ensures
        v(filter.output(x)) + v(c.a1) * v(filter.y1) + v(c.a2) * v(filter.y2) == v(c.b0) * v(x) + v(
            c.b1,
        ) * v(filter.x1) + v(c.b2) * v(filter.x2),
        filter.after(x).x1 == x,
        filter.after(x).x2 == filter.x1,
        filter.after(x).y1 == filter.output(x),
        filter.after(x).y2 == filter.y1,
        filter.after(x).coeffs == filter.coeffs,
        filter.after(x).ramp is None,
{
}

/// A filter that has had a constant at its input, and its answer to a constant at
/// its output, keeps giving that answer: the constant times the gain at the
/// bottom of the spectrum.
pub proof fn law_a_constant_settles<S: Sample>(
    v: spec_fn(S) -> real,
    filter: Biquad<S>,
    c: BiquadCoeffs<S>,
    x: S,
    gain: real,
)
    requires
        exact::is_exact(v),
        filter.coeffs == Some(c),
        filter.ramp is None,
        v(c.b0) + v(c.b1) + v(c.b2) == gain * (1real + v(c.a1) + v(c.a2)),
        v(filter.x1) == v(x),
        v(filter.x2) == v(x),
        v(filter.y1) == gain * v(x),
        v(filter.y2) == gain * v(x),
    ensures
        v(filter.output(x)) == gain * v(x),
{
    law_difference_equation(v, filter, c, x);
    let (b0, b1, b2, a1, a2) = (v(c.b0), v(c.b1), v(c.b2), v(c.a1), v(c.a2));
    let (u, y) = (v(x), v(filter.output(x)));
    assert(y == gain * u) by (nonlinear_arith)
        requires
            b0 + b1 + b2 == gain * (1real + a1 + a2),
            y + a1 * (gain * u) + a2 * (gain * u) == b0 * u + b1 * u + b2 * u,
    ;
}

/// A ramp goes evenly from where it starts to where it ends: every coefficient is
/// `step` sixty-fourths of the way after `step` samples.
pub proof fn law_a_ramp_is_even<S: Sample>(
    v: spec_fn(S) -> real,
    from: BiquadCoeffs<S>,
    to: BiquadCoeffs<S>,
    step: int,
)
    requires
        exact::is_exact(v),
        0 <= step <= 64,
    ensures
        ({
            let mid = from.toward(to, num::ratio::<S>(step, 64));
            let t = (step as real) / 64real;
            &&& v(mid.b0) == v(from.b0) + t * (v(to.b0) - v(from.b0))
            &&& v(mid.b1) == v(from.b1) + t * (v(to.b1) - v(from.b1))
            &&& v(mid.b2) == v(from.b2) + t * (v(to.b2) - v(from.b2))
            &&& v(mid.a1) == v(from.a1) + t * (v(to.a1) - v(from.a1))
            &&& v(mid.a2) == v(from.a2) + t * (v(to.a2) - v(from.a2))
        }),
{
    let t = (step as real) / 64real;
    assert(v(num::ratio::<S>(step, 64)) == t);
    lemma_commutes(v(to.b0) - v(from.b0), t);
    lemma_commutes(v(to.b1) - v(from.b1), t);
    lemma_commutes(v(to.b2) - v(from.b2), t);
    lemma_commutes(v(to.a1) - v(from.a1), t);
    lemma_commutes(v(to.a2) - v(from.a2), t);
}

proof fn lemma_commutes(a: real, b: real)
    ensures
        a * b == b * a,
{
    assert(a * b == b * a) by (nonlinear_arith);
}

/// A filter that ramps is, sample by sample, that far between its two ends, and
/// plays with the coefficients it has come to.
pub proof fn law_a_ramping_filter_plays_where_it_is<S: Sample>(
    filter: Biquad<S>,
    ramp: crate::biquad::Ramp<S>,
    x: S,
)
    requires
        filter.ramp == Some(ramp),
        filter.coeffs is Some,
        ramp.step < 63,
    ensures
        ({
            let mid = ramp.from.toward(ramp.to, num::ratio::<S>(ramp.step + 1, 64));
            &&& filter.after(x).coeffs == Some(mid)
            &&& filter.output(x) == (Biquad { coeffs: Some(mid), ramp: None, ..filter }).output(x)
        }),
{
}

} // verus!
