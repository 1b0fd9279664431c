//! What the resampler plays: the input as it would be between its samples.

use crate::exact;
use crate::num::{self, Sample};
use crate::precision::{self, Precision};
use crate::resample::{self, Reading, Resampler, NUM_PHASES, TAPS};
use vstd::prelude::*;
use vstd::std_specs::ops::{AddSpec, DivSpec, MulSpec};

verus! {

/// Half a turn, and the functions of an angle that a filter is made of.
pub struct Waves {
    pub pi: real,
    pub sin: spec_fn(real) -> real,
    pub cos: spec_fn(real) -> real,
}

/// So many half turns.
pub open spec fn half_turns(f: Waves, n: int) -> real {
    f.pi * (n as real)
}

/// What these functions have to do with each other: a sine is odd and nought at
/// every half turn, a cosine is even and one at nought.
pub open spec fn are_waves(f: Waves) -> bool {
    &&& f.pi > 0real
    &&& forall|x: real| (f.sin)(-x) == -#[trigger] (f.sin)(x)
    &&& forall|x: real| (f.cos)(-x) == #[trigger] (f.cos)(x)
    &&& forall|n: int| (f.sin)(#[trigger] half_turns(f, n)) == 0real
    &&& (f.cos)(0real) == 1real
}

/// `w` goes between samples and wide numbers without loss, rounds to the nearest
/// whole number and computes these functions.
pub open spec fn is_faithful<S: Sample, P: Sample, W: Precision<S, P>>(
    u: spec_fn(S) -> real,
    v: spec_fn(P) -> real,
    w: W,
    f: Waves,
) -> bool {
    &&& forall|x: P, y: S| #[trigger] precision::narrows(w, x, y) ==> u(y) == v(x)
    &&& forall|x: S, y: P| #[trigger] precision::widens(w, x, y) ==> v(y) == u(x)
    &&& forall|x: P, n: usize| #[trigger]
        precision::rounds::<S, P, W>(w, x, n) && v(x) >= 0real ==> 2real * exact::size(
            (n as int as real) - v(x),
        ) <= 1real
    &&& forall|x: P, y: P| #[trigger] precision::angles::<S, P, W>(w, x, y) ==> v(y) == f.pi * v(x)
    &&& forall|x: P, y: P| #[trigger] precision::sines::<S, P, W>(w, x, y) ==> v(y) == (f.sin)(v(x))
    &&& forall|x: P, y: P| #[trigger]
        precision::cosines::<S, P, W>(w, x, y) ==> v(y) == (f.cos)(v(x))
}

/// `sin(pi x) / (pi x)`, one at nought.
pub open spec fn sinc(f: Waves, x: real) -> real {
    if exact::size(x) < 1real / 1000000000real {
        1real
    } else {
        (f.sin)(f.pi * x) / (f.pi * x)
    }
}

/// A raised cosine that reaches nought sixteen samples away.
pub open spec fn window(f: Waves, x: real) -> real {
    if exact::size(x) >= 16real {
        0real
    } else {
        1real / 2real + 1real / 2real * (f.cos)((f.pi * x) / 16real)
    }
}

/// How far tap `k` lies from a position `d` samples behind tap 15.
pub open spec fn away(d: real, k: int) -> real {
    ((k - 15) as real) - d
}

/// The windowed sinc at tap `k`, for a position `d` samples behind tap 15.
pub open spec fn curve(f: Waves, d: real, k: int) -> real {
    sinc(f, away(d, k)) * window(f, away(d, k))
}

/// The sum of the first `n` values of `g`.
pub open spec fn summed(g: spec_fn(int) -> real, n: int) -> real
    decreases n,
{
    if n <= 0 {
        0real
    } else {
        summed(g, n - 1) + g(n - 1)
    }
}

/// All that the windowed sinc weighs for a position.
pub open spec fn weight_of_all(f: Waves, d: real) -> real {
    summed(|k: int| curve(f, d, k), 32)
}

/// How much tap `k` counts for a position: the windowed sinc, scaled so that all
/// taps together count one.
pub open spec fn weight(f: Waves, d: real, k: int) -> real {
    curve(f, d, k) / weight_of_all(f, d)
}

/// The position of phase `p`.
pub open spec fn position(p: int) -> real {
    (p as real) / 256real
}

/// What the windowed sinc for a position makes of a history.
pub open spec fn heard<S: Sample>(
    u: spec_fn(S) -> real,
    f: Waves,
    d: real,
    history: Seq<S>,
) -> real {
    summed(|k: int| u(history[k]) * weight(f, d, k), 32)
}

/// Phase `p` is as near to `d` as any.
pub open spec fn is_nearest(p: int, d: real) -> bool {
    forall|q: int|
        0 <= q < NUM_PHASES ==> exact::size(position(p) - d) <= exact::size(
            #[trigger] position(q) - d,
        )
}

proof fn lemma_same_sum(g: spec_fn(int) -> real, h: spec_fn(int) -> real, n: int)
    requires
        forall|k: int| 0 <= k < n ==> #[trigger] g(k) == h(k),
    ensures
        summed(g, n) == summed(h, n),
    decreases n,
{
    if n > 0 {
        lemma_same_sum(g, h, n - 1);
    }
}

proof fn lemma_scaled_sum(g: spec_fn(int) -> real, h: spec_fn(int) -> real, c: real, n: int)
    requires
        forall|k: int| 0 <= k < n ==> #[trigger] h(k) == c * g(k),
    ensures
        summed(h, n) == c * summed(g, n),
    decreases n,
{
    if n > 0 {
        lemma_scaled_sum(g, h, c, n - 1);
        let (a, b) = (summed(g, n - 1), g(n - 1));
        assert(h(n - 1) == c * b);
        assert(c * (a + b) == c * a + c * b) by (nonlinear_arith);
    } else {
        assert(c * 0real == 0real);
    }
}

proof fn lemma_sum_of_sums(
    g: spec_fn(int) -> real,
    h: spec_fn(int) -> real,
    both: spec_fn(int) -> real,
    n: int,
)
    requires
        forall|k: int| 0 <= k < n ==> #[trigger] both(k) == g(k) + h(k),
    ensures
        summed(both, n) == summed(g, n) + summed(h, n),
    decreases n,
{
    if n > 0 {
        lemma_sum_of_sums(g, h, both, n - 1);
        assert(both(n - 1) == g(n - 1) + h(n - 1));
    }
}

proof fn lemma_single_term(g: spec_fn(int) -> real, j: int, n: int)
    requires
        forall|k: int| 0 <= k < n && k != j ==> #[trigger] g(k) == 0real,
    ensures
        summed(g, n) == (if 0 <= j < n {
            g(j)
        } else {
            0real
        }),
    decreases n,
{
    if n > 0 {
        lemma_single_term(g, j, n - 1);
    }
}

proof fn lemma_first_term(g: spec_fn(int) -> real, h: spec_fn(int) -> real, n: int)
    requires
        n > 0,
        forall|k: int| 0 <= k < n - 1 ==> #[trigger] h(k) == g(k + 1),
    ensures
        summed(g, n) == g(0) + summed(h, n - 1),
    decreases n,
{
    if n > 1 {
        lemma_first_term(g, h, n - 1);
        assert(h(n - 2) == g(n - 1));
    } else {
        assert(summed(g, 0) == 0real);
    }
}

proof fn lemma_backward_sum(g: spec_fn(int) -> real, back: spec_fn(int) -> real, n: int)
    requires
        forall|k: int| 0 <= k < n ==> #[trigger] back(k) == g(n - 1 - k),
    ensures
        summed(back, n) == summed(g, n),
    decreases n,
{
    if n > 0 {
        let rest = |k: int| g(k + 1);
        lemma_first_term(g, rest, n);
        assert forall|k: int| 0 <= k < n - 1 implies #[trigger] back(k) == rest(n - 1 - 1 - k) by {}
        lemma_backward_sum(rest, back, n - 1);
        assert(back(n - 1) == g(0));
    }
}

proof fn lemma_balanced_sum(g: spec_fn(int) -> real, n: int)
    requires
        forall|k: int| 0 <= k < n ==> #[trigger] g(k) == -g(n - 1 - k),
    ensures
        summed(g, n) == 0real,
{
    let back = |k: int| g(n - 1 - k);
    lemma_backward_sum(g, back, n);
    assert forall|k: int| 0 <= k < n implies #[trigger] back(k) == -1real * g(k) by {
        assert(g(k) == -g(n - 1 - k));
    }
    lemma_scaled_sum(g, back, -1real, n);
}

proof fn lemma_total<P: Sample>(v: spec_fn(P) -> real, values: Seq<P>, g: spec_fn(int) -> real)
    requires
        exact::is_exact(v),
        forall|k: int| 0 <= k < values.len() ==> v(#[trigger] values[k]) == g(k),
    ensures
        v(resample::total(values)) == summed(g, values.len() as int),
    decreases values.len(),
{
    if values.len() > 0 {
        let rest = values.drop_last();
        assert forall|k: int| 0 <= k < rest.len() implies v(#[trigger] rest[k]) == g(k) by {
            assert(rest[k] == values[k]);
        }
        lemma_total(v, rest, g);
        assert(values.last() == values[values.len() - 1]);
    }
}

proof fn lemma_dot<S: Sample>(
    u: spec_fn(S) -> real,
    a: Seq<S>,
    b: Seq<S>,
    g: spec_fn(int) -> real,
)
    requires
        exact::is_exact(u),
        a.len() == b.len(),
        forall|k: int| 0 <= k < a.len() ==> u(#[trigger] a[k]) * u(b[k]) == g(k),
    ensures
        u(resample::dot(a, b)) == summed(g, a.len() as int),
    decreases a.len(),
{
    if a.len() > 0 {
        let (x, y) = (a.drop_last(), b.drop_last());
        assert forall|k: int| 0 <= k < x.len() implies u(#[trigger] x[k]) * u(y[k]) == g(k) by {
            assert(x[k] == a[k] && y[k] == b[k]);
        }
        lemma_dot(u, x, y, g);
        assert(a.last() == a[a.len() - 1] && b.last() == b[b.len() - 1]);
    }
}

/// The value of the filter at a distance.
proof fn lemma_tap<S: Sample, P: Sample, W: Precision<S, P>>(
    u: spec_fn(S) -> real,
    v: spec_fn(P) -> real,
    w: W,
    f: Waves,
    x: P,
    y: P,
)
    requires
        exact::is_exact(v),
        is_faithful(u, v, w, f),
        f.pi > 0real,
        resample::is_tap::<S, P, W>(w, x, y),
    ensures
        v(y) == sinc(f, v(x)) * window(f, v(x)),
{
    let (a, b) = choose|a: P, b: P|
        resample::is_sinc::<S, P, W>(w, x, a) && resample::is_window::<S, P, W>(w, x, b) && y
            == #[trigger] a.mul_spec(b);
    exact::law_clamping(v, x, x, x);
    let thousand = num::whole::<P>(1000);
    assert(v(thousand) == 1000real);
    assert(v(thousand.mul_spec(thousand)) == 1000000real);
    assert(v(thousand.mul_spec(thousand).mul_spec(thousand)) == 1000000000real);
    assert(v(resample::tiny::<P>()) == 1real / 1000000000real);
    assert(v(a) == sinc(f, v(x))) by {
        if !num::below(num::magnitude(x), resample::tiny::<P>()) {
            let (angle, s) = choose|angle: P, s: P|
                precision::angles::<S, P, W>(w, x, angle) && precision::sines::<S, P, W>(
                    w,
                    angle,
                    s,
                ) && a == #[trigger] s.div_spec(angle);
            let (p, d) = (f.pi, v(x));
            assert(p * d != 0real) by (nonlinear_arith)
                requires
                    p > 0real,
                    d != 0real,
            ;
        }
    }
    exact::law_fractions(v, TAPS as int, 2);
    exact::law_fractions(v, 1, 2);
    let half = num::ratio::<P>(TAPS as int, 2);
    assert(v(half) == 16real);
    assert(v(b) == window(f, v(x))) by {
        if !num::at_most(half, num::magnitude(x)) {
            let (angle, c) = choose|angle: P, c: P| #[trigger]
                resample::windowed_by::<S, P, W>(w, x, half, angle, c) && b == num::ratio::<P>(
                    1,
                    2,
                ).add_spec(num::ratio::<P>(1, 2).mul_spec(c));
            assert(v(angle.div_spec(half)) == (f.pi * v(x)) / 16real);
        }
    }
}

/// The filter made for phase `p` weighs every tap by the windowed sinc at the tap's
/// distance from the position of that phase.
pub proof fn law_a_phase_is_the_windowed_sinc<S: Sample, P: Sample, W: Precision<S, P>>(
    u: spec_fn(S) -> real,
    v: spec_fn(P) -> real,
    w: W,
    f: Waves,
    p: int,
    row: Seq<S>,
    k: int,
)
    requires
        exact::is_exact(v),
        is_faithful(u, v, w, f),
        f.pi > 0real,
        0 <= p < NUM_PHASES,
        0 <= k < TAPS,
        weight_of_all(f, position(p)) != 0real,
        resample::is_phase::<S, P, W>(w, p, row),
    ensures
        u(row[k]) == weight(f, position(p), k),
{
    let values = choose|values: Seq<P>| #[trigger]
        resample::designed::<S, P, W>(w, p, values) && forall|k: int|
            0 <= k < TAPS ==> resample::is_scaled(
                w,
                values[k],
                resample::total(values),
                #[trigger] row[k],
            );
    let d = position(p);
    let g = |j: int| curve(f, d, j);
    assert forall|j: int| 0 <= j < TAPS implies v(#[trigger] values[j]) == g(j) by {
        let x = resample::tap_distance::<P>(p, j);
        exact::law_fractions(v, p, NUM_PHASES as int);
        assert(v(x) == away(d, j));
        assert(resample::is_tap::<S, P, W>(w, x, values[j]));
        lemma_tap(u, v, w, f, x, values[j]);
    }
    lemma_total(v, values, g);
    let sum = resample::total(values);
    assert(resample::is_scaled(w, values[k], sum, row[k]));
    let (first, wide) = choose|first: S, wide: P| #[trigger]
        resample::scaled_by(w, values[k], first, wide) && precision::narrows(
            w,
            wide.div_spec(sum),
            row[k],
        );
    assert(v(values[k]) == g(k));
}

/// An output is what the windowed sinc makes of the history, for the position
/// nearest to the output's own of those that a filter is made for.
pub proof fn law_an_output_is_of_the_nearest_phase<S: Sample, P: Sample, W: Precision<S, P>>(
    u: spec_fn(S) -> real,
    v: spec_fn(P) -> real,
    w: W,
    f: Waves,
    resampler: Resampler<S, P>,
    reading: Reading<S, P>,
    y: S,
)
    requires
        exact::is_exact(u),
        exact::is_exact(v),
        is_faithful(u, v, w, f),
        f.pi > 0real,
        forall|p: int|
            0 <= p < NUM_PHASES ==> weight_of_all(f, #[trigger] position(p)) != 0real,
        resampler.designed(w),
        reading.history.len() == TAPS,
        0real <= v(reading.offset) < 1real,
        resample::interpolates(w, resampler.kernel(), reading, y),
    ensures
        exists|p: int|
            0 <= p < NUM_PHASES && is_nearest(p, v(reading.offset)) && u(y) == heard(
                u,
                f,
                #[trigger] position(p),
                reading.history,
            ),
{
    let scaled = reading.offset.mul_spec(num::whole::<P>(NUM_PHASES as int));
    let n = choose|n: usize| #[trigger]
        precision::rounds::<S, P, W>(w, scaled, n) && y == resample::dot(
            reading.history,
            resampler.kernel()[if n < NUM_PHASES {
                n as int
            } else {
                NUM_PHASES - 1
            }]@,
        );
    let p = if n < NUM_PHASES {
        n as int
    } else {
        NUM_PHASES - 1
    };
    let d = v(reading.offset);
    let many = v(num::whole::<P>(NUM_PHASES as int));
    assert(v(scaled) == d * many);
    assert(d * many == 256real * d) by (nonlinear_arith)
        requires
            many == 256real,
    ;
    let row = resampler.kernel()[p]@;
    assert(resample::is_phase::<S, P, W>(w, p, row));
    assert(weight_of_all(f, position(p)) != 0real);
    let g = |k: int| u(reading.history[k]) * weight(f, position(p), k);
    assert forall|k: int| 0 <= k < reading.history.len() implies u(#[trigger] reading.history[k])
        * u(row[k]) == g(k) by {
        law_a_phase_is_the_windowed_sinc(u, v, w, f, p, row, k);
    }
    lemma_dot(u, reading.history, row, g);
    assert(summed(g, 32) == heard(u, f, position(p), reading.history)) by {
        lemma_same_sum(
            g,
            |k: int| u(reading.history[k]) * weight(f, position(p), k),
            32,
        );
    }
    assert(is_nearest(p, d)) by {
        assert forall|q: int| 0 <= q < NUM_PHASES implies exact::size(position(p) - d)
            <= exact::size(#[trigger] position(q) - d) by {
            lemma_nearest(n as int, p, q, d);
        }
    }
}

proof fn lemma_nearest(n: int, p: int, q: int, d: real)
    requires
        0 <= n,
        p == (if n < 256 {
            n
        } else {
            255
        }),
        0 <= q < 256,
        0real <= d < 1real,
        2real * exact::size((n as real) - 256real * d) <= 1real,
    ensures
        exact::size(position(p) - d) <= exact::size(position(q) - d),
{
    let (a, b, c) = (n as real, q as real, p as real);
    assert(n <= 256);
    assert(q < p ==> b <= c - 1real);
    assert(q > p ==> b >= c + 1real);
}

/// At the position of a phase, that phase's filter is the one.
pub proof fn law_an_output_at_a_phase<S: Sample, P: Sample, W: Precision<S, P>>(
    u: spec_fn(S) -> real,
    v: spec_fn(P) -> real,
    w: W,
    f: Waves,
    resampler: Resampler<S, P>,
    reading: Reading<S, P>,
    p: int,
    y: S,
)
    requires
        exact::is_exact(u),
        exact::is_exact(v),
        is_faithful(u, v, w, f),
        f.pi > 0real,
        forall|q: int|
            0 <= q < NUM_PHASES ==> weight_of_all(f, #[trigger] position(q)) != 0real,
        resampler.designed(w),
        reading.history.len() == TAPS,
        0 <= p < NUM_PHASES,
        v(reading.offset) == position(p),
        resample::interpolates(w, resampler.kernel(), reading, y),
    ensures
        u(y) == heard(u, f, position(p), reading.history),
{
    law_an_output_is_of_the_nearest_phase(u, v, w, f, resampler, reading, y);
    let q = choose|q: int|
        0 <= q < NUM_PHASES && is_nearest(q, v(reading.offset)) && u(y) == heard(
            u,
            f,
            #[trigger] position(q),
            reading.history,
        );
    assert(exact::size(position(q) - position(p)) <= exact::size(position(p) - position(p)));
    assert(q as real == p as real);
    assert(q == p);
}

/// An impulse in the history comes out as the windowed sinc at its distance from
/// the position of the output, scaled as all taps are.
pub proof fn law_an_impulse_comes_out_as_the_windowed_sinc<
    S: Sample,
    P: Sample,
    W: Precision<S, P>,
>(
    u: spec_fn(S) -> real,
    v: spec_fn(P) -> real,
    w: W,
    f: Waves,
    resampler: Resampler<S, P>,
    reading: Reading<S, P>,
    p: int,
    k: int,
    y: S,
)
    requires
        exact::is_exact(u),
        exact::is_exact(v),
        is_faithful(u, v, w, f),
        f.pi > 0real,
        forall|q: int|
            0 <= q < NUM_PHASES ==> weight_of_all(f, #[trigger] position(q)) != 0real,
        resampler.designed(w),
        reading.history.len() == TAPS,
        0 <= p < NUM_PHASES,
        v(reading.offset) == position(p),
        0 <= k < TAPS,
        forall|j: int| 0 <= j < TAPS && j != k ==> u(#[trigger] reading.history[j]) == 0real,
        resample::interpolates(w, resampler.kernel(), reading, y),
    ensures
        u(y) * weight_of_all(f, position(p)) == u(reading.history[k]) * curve(f, position(p), k),
{
    law_an_output_at_a_phase(u, v, w, f, resampler, reading, p, y);
    let d = position(p);
    let g = |j: int| u(reading.history[j]) * weight(f, d, j);
    assert forall|j: int| 0 <= j < 32 && j != k implies #[trigger] g(j) == 0real by {
        let t = weight(f, d, j);
        assert(u(reading.history[j]) == 0real);
        assert(0real * t == 0real);
    }
    lemma_single_term(g, k, 32);
    let (x, c, t) = (u(reading.history[k]), curve(f, d, k), weight_of_all(f, d));
    assert((x * (c / t)) * t == x * c) by (nonlinear_arith)
        requires
            t != 0real,
    ;
}

/// A steady input comes out as it is, wherever the output lies.
pub proof fn law_a_steady_input_comes_out_as_it_is<S: Sample, P: Sample, W: Precision<S, P>>(
    u: spec_fn(S) -> real,
    v: spec_fn(P) -> real,
    w: W,
    f: Waves,
    resampler: Resampler<S, P>,
    reading: Reading<S, P>,
    x: real,
    y: S,
)
    requires
        exact::is_exact(u),
        exact::is_exact(v),
        is_faithful(u, v, w, f),
        f.pi > 0real,
        forall|q: int|
            0 <= q < NUM_PHASES ==> weight_of_all(f, #[trigger] position(q)) != 0real,
        resampler.designed(w),
        reading.history.len() == TAPS,
        0real <= v(reading.offset) < 1real,
        forall|j: int| 0 <= j < TAPS ==> u(#[trigger] reading.history[j]) == x,
        resample::interpolates(w, resampler.kernel(), reading, y),
    ensures
        u(y) == x,
{
    law_an_output_is_of_the_nearest_phase(u, v, w, f, resampler, reading, y);
    let p = choose|p: int|
        0 <= p < NUM_PHASES && is_nearest(p, v(reading.offset)) && u(y) == heard(
            u,
            f,
            #[trigger] position(p),
            reading.history,
        );
    lemma_weights(f, position(p));
    let d = position(p);
    let g = |k: int| weight(f, d, k);
    let h = |k: int| u(reading.history[k]) * weight(f, d, k);
    assert forall|k: int| 0 <= k < 32 implies #[trigger] h(k) == x * g(k) by {
        assert(u(reading.history[k]) == x);
    }
    lemma_scaled_sum(g, h, x, 32);
    assert(x * 1real == x);
}

/// All taps together count one.
proof fn lemma_weights(f: Waves, d: real)
    requires
        weight_of_all(f, d) != 0real,
    ensures
        summed(|k: int| weight(f, d, k), 32) == 1real,
{
    let t = weight_of_all(f, d);
    let c = |k: int| curve(f, d, k);
    let g = |k: int| weight(f, d, k);
    let r = 1real / t;
    assert forall|k: int| 0 <= k < 32 implies #[trigger] g(k) == r * c(k) by {
        let x = c(k);
        assert(x / t == r * x) by (nonlinear_arith)
            requires
                r == 1real / t,
                t != 0real,
        ;
    }
    lemma_scaled_sum(c, g, r, 32);
    assert(r * t == 1real) by (nonlinear_arith)
        requires
            r == 1real / t,
            t != 0real,
    ;
}

/// At a sample's own position the filter is that sample.
proof fn lemma_at_a_sample(f: Waves, k: int)
    requires
        are_waves(f),
        0 <= k < 32,
    ensures
        weight_of_all(f, position(0)) == 1real,
        weight(f, position(0), k) == (if k == 15 {
            1real
        } else {
            0real
        }),
{
    let c = |j: int| curve(f, position(0), j);
    assert(position(0) == 0real);
    assert forall|j: int| 0 <= j < 32 && j != 15 implies #[trigger] c(j) == 0real by {
        let x = away(0real, j);
        assert(x == (j - 15) as real);
        assert((f.sin)(half_turns(f, j - 15)) == 0real);
        assert(exact::size(x) >= 1real);
        let (p, m) = (f.pi * x, window(f, x));
        let pi = f.pi;
        assert(pi * x != 0real) by (nonlinear_arith)
            requires
                pi > 0real,
                x != 0real,
        ;
        assert(0real / p == 0real) by (nonlinear_arith)
            requires
                p != 0real,
        ;
        assert(0real * m == 0real);
    }
    assert(c(15) == 1real) by {
        let x = away(0real, 15);
        assert(x == 0real);
        let pi = f.pi;
        assert(pi * x == 0real) by (nonlinear_arith)
            requires
                x == 0real,
        ;
        assert((f.pi * x) / 16real == 0real);
        assert(window(f, x) == 1real);
        assert(1real * 1real == 1real);
    }
    lemma_single_term(c, 15, 32);
    assert(weight_of_all(f, position(0)) == 1real);
    let x = c(k);
    assert(x / 1real == x);
    assert(curve(f, position(0), k) == x);
}

/// Half way between two samples the filter is the same to both sides.
proof fn lemma_half_way(f: Waves, k: int)
    requires
        are_waves(f),
        0 <= k < 32,
    ensures
        weight(f, position(128), k) == weight(f, position(128), 31 - k),
{
    let d = position(128);
    assert(d == 1real / 2real);
    let (x, y) = (away(d, k), away(d, 31 - k));
    assert(y == -x);
    let pi = f.pi;
    let (a, b) = (pi * x, pi * y);
    assert(b == -a) by (nonlinear_arith)
        requires
            y == -x,
            a == pi * x,
            b == pi * y,
    ;
    let s = (f.sin)(a);
    assert((f.sin)(-a) == -s);
    assert(a != 0real) by (nonlinear_arith)
        requires
            pi > 0real,
            x != 0real,
            a == pi * x,
    ;
    assert((-s) / b == s / a) by (nonlinear_arith)
        requires
            b == -a,
            a != 0real,
    ;
    assert(b / 16real == -(a / 16real));
    assert((f.cos)(-(a / 16real)) == (f.cos)(a / 16real));
    assert(sinc(f, y) == sinc(f, x));
    assert(window(f, y) == window(f, x));
}

/// At a sample's own position that sample comes out, whatever lies around it.
pub proof fn law_a_sample_comes_out_at_its_own_position<S: Sample, P: Sample, W: Precision<S, P>>(
    u: spec_fn(S) -> real,
    v: spec_fn(P) -> real,
    w: W,
    f: Waves,
    resampler: Resampler<S, P>,
    reading: Reading<S, P>,
    y: S,
)
    requires
        exact::is_exact(u),
        exact::is_exact(v),
        is_faithful(u, v, w, f),
        are_waves(f),
        forall|q: int|
            0 <= q < NUM_PHASES ==> weight_of_all(f, #[trigger] position(q)) != 0real,
        resampler.designed(w),
        reading.history.len() == TAPS,
        v(reading.offset) == 0real,
        resample::interpolates(w, resampler.kernel(), reading, y),
    ensures
        u(y) == u(reading.history[15]),
{
    assert(position(0) == 0real);
    law_an_output_at_a_phase(u, v, w, f, resampler, reading, 0, y);
    let g = |k: int| u(reading.history[k]) * weight(f, position(0), k);
    assert forall|k: int| 0 <= k < 32 && k != 15 implies #[trigger] g(k) == 0real by {
        lemma_at_a_sample(f, k);
        let x = u(reading.history[k]);
        assert(x * 0real == 0real);
    }
    lemma_at_a_sample(f, 15);
    lemma_single_term(g, 15, 32);
    let x = u(reading.history[15]);
    assert(x * 1real == x);
}

/// Half way between two samples, an impulse `k` samples to the one side comes out
/// as one of the same size as far to the other side does. At a sample's own
/// position it is otherwise: there only that sample counts.
pub proof fn law_half_way_both_sides_count_alike<S: Sample, P: Sample, W: Precision<S, P>>(
    u: spec_fn(S) -> real,
    v: spec_fn(P) -> real,
    w: W,
    f: Waves,
    resampler: Resampler<S, P>,
    reading: Reading<S, P>,
    other: Reading<S, P>,
    k: int,
    y: S,
    z: S,
)
    requires
        exact::is_exact(u),
        exact::is_exact(v),
        is_faithful(u, v, w, f),
        are_waves(f),
        forall|q: int|
            0 <= q < NUM_PHASES ==> weight_of_all(f, #[trigger] position(q)) != 0real,
        resampler.designed(w),
        reading.history.len() == TAPS,
        other.history.len() == TAPS,
        2real * v(reading.offset) == 1real,
        2real * v(other.offset) == 1real,
        0 <= k < TAPS,
        forall|j: int| 0 <= j < TAPS && j != k ==> u(#[trigger] reading.history[j]) == 0real,
        forall|j: int| 0 <= j < TAPS && j != 31 - k ==> u(#[trigger] other.history[j]) == 0real,
        u(reading.history[k]) == u(other.history[31 - k]),
        resample::interpolates(w, resampler.kernel(), reading, y),
        resample::interpolates(w, resampler.kernel(), other, z),
    ensures
        u(y) == u(z),
{
    let d = position(128);
    assert(d == 1real / 2real);
    law_an_impulse_comes_out_as_the_windowed_sinc(u, v, w, f, resampler, reading, 128, k, y);
    law_an_impulse_comes_out_as_the_windowed_sinc(u, v, w, f, resampler, other, 128, 31 - k, z);
    lemma_half_way(f, k);
    let t = weight_of_all(f, d);
    let (a, b) = (curve(f, d, k), curve(f, d, 31 - k));
    assert(a == b) by (nonlinear_arith)
        requires
            a / t == b / t,
            t != 0real,
    ;
    let (p, q) = (u(y), u(z));
    assert(p == q) by (nonlinear_arith)
        requires
            p * t == q * t,
            t != 0real,
    ;
}

/// Half way between two samples of a straight line lies their midpoint.
pub proof fn law_a_line_gives_its_midpoints<S: Sample, P: Sample, W: Precision<S, P>>(
    u: spec_fn(S) -> real,
    v: spec_fn(P) -> real,
    w: W,
    f: Waves,
    resampler: Resampler<S, P>,
    reading: Reading<S, P>,
    a: real,
    b: real,
    y: S,
)
    requires
        exact::is_exact(u),
        exact::is_exact(v),
        is_faithful(u, v, w, f),
        are_waves(f),
        forall|q: int|
            0 <= q < NUM_PHASES ==> weight_of_all(f, #[trigger] position(q)) != 0real,
        resampler.designed(w),
        reading.history.len() == TAPS,
        2real * v(reading.offset) == 1real,
        forall|k: int|
            0 <= k < TAPS ==> u(#[trigger] reading.history[k]) == a + b * (k as real),
        resample::interpolates(w, resampler.kernel(), reading, y),
    ensures
        2real * u(y) == u(reading.history[15]) + u(reading.history[16]),
{
    let d = position(128);
    assert(d == 1real / 2real);
    law_an_output_at_a_phase(u, v, w, f, resampler, reading, 128, y);
    let mid = a + b * (31real / 2real);
    let g = |k: int| weight(f, d, k);
    let level = |k: int| mid * weight(f, d, k);
    let slope = |k: int| (b * ((k as real) - 31real / 2real)) * weight(f, d, k);
    let both = |k: int| u(reading.history[k]) * weight(f, d, k);
    assert forall|k: int| 0 <= k < 32 implies #[trigger] both(k) == level(k) + slope(k) by {
        let (r, t) = (k as real, weight(f, d, k));
        assert(u(reading.history[k]) == a + b * r);
        assert((a + b * r) * t == (a + b * (31real / 2real)) * t + (b * (r - 31real / 2real)) * t)
            by (nonlinear_arith);
    }
    lemma_sum_of_sums(level, slope, both, 32);
    assert forall|k: int| 0 <= k < 32 implies #[trigger] slope(k) == -slope(32 - 1 - k) by {
        lemma_half_way(f, k);
        let (r, t) = (k as real, weight(f, d, k));
        let q = (31 - k) as real;
        assert(q == 31real - r);
        assert((b * (r - 31real / 2real)) * t == -((b * (q - 31real / 2real)) * t))
            by (nonlinear_arith)
            requires
                q == 31real - r,
        ;
    }
    lemma_balanced_sum(slope, 32);
    assert forall|k: int| 0 <= k < 32 implies #[trigger] level(k) == mid * g(k) by {}
    lemma_scaled_sum(g, level, mid, 32);
    lemma_weights(f, d);
    assert(mid * 1real == mid);
    assert(u(reading.history[15]) == a + b * (15int as real));
    assert(u(reading.history[16]) == a + b * (16int as real));
    assert(2real * (a + b * (31real / 2real)) == (a + b * 15real) + (a + b * 16real))
        by (nonlinear_arith);
}

/// A reading in the middle of `all`, the history it started with and the input
/// behind that: the newest of its samples is the one ahead of place `place`.
spec fn stands_at<S: Sample, P: Sample>(
    v: spec_fn(P) -> real,
    all: Seq<S>,
    reading: Reading<S, P>,
    place: int,
) -> bool {
    &&& reading.history.len() == TAPS
    &&& 0 <= reading.filled <= TAPS
    &&& v(reading.offset) >= 0real
    &&& 0 <= place
    &&& place + TAPS <= all.len()
    &&& forall|k: int| 0 <= k < TAPS ==> #[trigger] reading.history[k] == all[place + k]
}

/// How far a reading has come, in samples of input: what it has taken, less what it
/// takes before its first output, and what the next output lies behind that.
spec fn progress<S: Sample, P: Sample>(
    v: spec_fn(P) -> real,
    reading: Reading<S, P>,
    place: int,
) -> real {
    ((place - reading.filled) as real) + v(reading.offset)
}

/// Taking input in moves no output.
proof fn lemma_settling<S: Sample, P: Sample>(
    v: spec_fn(P) -> real,
    all: Seq<S>,
    reading: Reading<S, P>,
    input: Seq<S>,
    place: int,
)
    requires
        exact::is_exact(v),
        all.len() == TAPS + input.len(),
        all.skip(TAPS as int) == input,
        stands_at(v, all, reading, place),
    ensures
        ({
            let (at, to, enough) = reading.settled(input, place);
            &&& stands_at(v, all, at, to)
            &&& progress(v, at, to) == progress(v, reading, place)
            &&& place <= to <= input.len()
            &&& enough ==> at.filled == TAPS && v(at.offset) < 1real
        }),
    decreases input.len() - place,
{
    let one = num::whole::<P>(1);
    assert(v(one) == 1real);
    if reading.hungry() && place < input.len() {
        let x = input[place];
        let next = reading.taking(x);
        assert(all[place + TAPS] == x) by {
            assert(all.skip(TAPS as int)[place] == all[place + TAPS]);
        }
        assert forall|k: int| 0 <= k < TAPS implies #[trigger] next.history[k] == all[place + 1
            + k] by {
            if k < TAPS - 1 {
                assert(next.history[k] == reading.history[k + 1]);
                assert(reading.history[k + 1] == all[place + (k + 1)]);
            }
        }
        lemma_settling(v, all, next, input, place + 1);
    }
}

/// Before output `n` a run stands `n` steps further than where it started.
proof fn lemma_run<S: Sample, P: Sample, W: Precision<S, P>>(
    v: spec_fn(P) -> real,
    w: W,
    kernel: Seq<[S; TAPS]>,
    step: P,
    input: Seq<S>,
    output: Seq<S>,
    states: Seq<Reading<S, P>>,
    places: Seq<int>,
    all: Seq<S>,
    n: int,
)
    requires
        exact::is_exact(v),
        v(step) >= 0real,
        resample::runs(w, kernel, step, input, output, states, places),
        all.len() == TAPS + input.len(),
        all.skip(TAPS as int) == input,
        places[0] == 0,
        stands_at(v, all, states[0], 0),
        0 <= n <= output.len(),
    ensures
        stands_at(v, all, states[n], places[n]),
        progress(v, states[n], places[n]) == progress(v, states[0], 0) + (n as real) * v(step),
    decreases n,
{
    let d = v(step);
    if n > 0 {
        lemma_run(v, w, kernel, step, input, output, states, places, all, n - 1);
        assert(resample::one_output(w, kernel, step, input, output, states, places, n - 1));
        lemma_settling(v, all, states[n - 1], input, places[n - 1]);
        let (r, q) = (n as real, (n - 1) as real);
        assert(r * d == q * d + d) by (nonlinear_arith)
            requires
                r == q + 1real,
        ;
    } else {
        assert(0real * d == 0real);
    }
}

/// `at` is where output `n` was made, at a distance of `d` behind input sample `i`:
/// its history is the input around that sample.
pub open spec fn lies_at<S: Sample, P: Sample, W: Precision<S, P>>(
    v: spec_fn(P) -> real,
    w: W,
    kernel: Seq<[S; TAPS]>,
    input: Seq<S>,
    at: Reading<S, P>,
    i: int,
    y: S,
) -> bool {
    &&& resample::interpolates(w, kernel, at, y)
    &&& at.history.len() == TAPS
    &&& 0real <= v(at.offset) < 1real
    &&& 15 <= i
    &&& i + 16 < input.len()
    &&& forall|k: int| 0 <= k < TAPS ==> #[trigger] at.history[k] == input[i - 15 + k]
}

/// The outputs of a new resampler lie evenly along its input: the first at input
/// sample 15, and each one a ratio's part of a sample behind the one before it.
pub proof fn law_outputs_lie_evenly<S: Sample, P: Sample, W: Precision<S, P>>(
    u: spec_fn(S) -> real,
    v: spec_fn(P) -> real,
    w: W,
    f: Waves,
    resampler: Resampler<S, P>,
    ratio: S,
    input: Seq<S>,
    room: int,
    output: Seq<S>,
    after: Resampler<S, P>,
    consumed: int,
    n: int,
)
    requires
        exact::is_exact(u),
        exact::is_exact(v),
        is_faithful(u, v, w, f),
        resampler.is_new(w),
        u(ratio) > 0real,
        resampler.resampled(w, ratio, input, room, output, &after, consumed),
        0 <= n < output.len(),
    ensures
        exists|at: Reading<S, P>, i: int| #[trigger]
            lies_at(v, w, resampler.kernel(), input, at, i, output[n]) && (i as real) + v(at.offset)
                == 15real + (n as real) * (1real / u(ratio)),
{
    let kernel = resampler.kernel();
    let wide = choose|wide: P|
        precision::widens(w, ratio, wide) && resample::resamples(
            w,
            kernel,
            #[trigger] num::whole::<P>(1).div_spec(wide),
            resampler.reading(),
            input,
            room,
            output,
            after.reading(),
            consumed,
        );
    let step = num::whole::<P>(1).div_spec(wide);
    let before = resampler.reading();
    let (states, places) = choose|states: Seq<Reading<S, P>>, places: Seq<int>| #[trigger]
        resample::runs(w, kernel, step, input, output, states, places) && states[0] == before
            && places[0] == 0 && resample::ends(
            states.last(),
            places.last(),
            input,
            room,
            output,
            after.reading(),
            consumed,
        );
    let r = u(ratio);
    assert(v(step) == 1real / r);
    assert(1real / r > 0real) by (nonlinear_arith)
        requires
            r > 0real,
    ;
    let all = before.history + input;
    assert(all.skip(TAPS as int) =~= input);
    assert(v(before.offset) == 0real);
    assert(stands_at(v, all, before, 0));
    lemma_run(v, w, kernel, step, input, output, states, places, all, n);
    assert(resample::one_output(w, kernel, step, input, output, states, places, n));
    lemma_settling(v, all, states[n], input, places[n]);
    let (at, to, enough) = states[n].settled(input, places[n]);
    let (m, d) = (n as real, v(step));
    assert(m * d >= 0real) by (nonlinear_arith)
        requires
            m >= 0real,
            d > 0real,
    ;
    assert(((to - 32) as real) + v(at.offset) == m * d);
    assert((to - 32) as real > -1real);
    let i = to - 17;
    assert forall|k: int| 0 <= k < TAPS implies #[trigger] at.history[k] == input[i - 15 + k] by {
        assert(at.history[k] == all[to + k]);
        assert(all.skip(TAPS as int)[to + k - TAPS] == all[to + k]);
    }
    assert(lies_at(v, w, kernel, input, at, i, output[n]));
}

/// At twice the rate a straight line goes on as that line: every other output is a
/// sample of it, and between them lie the midpoints.
pub proof fn law_a_line_at_twice_the_rate<S: Sample, P: Sample, W: Precision<S, P>>(
    u: spec_fn(S) -> real,
    v: spec_fn(P) -> real,
    w: W,
    f: Waves,
    resampler: Resampler<S, P>,
    ratio: S,
    input: Seq<S>,
    room: int,
    output: Seq<S>,
    after: Resampler<S, P>,
    consumed: int,
    a: real,
    b: real,
    n: int,
)
    requires
        exact::is_exact(u),
        exact::is_exact(v),
        is_faithful(u, v, w, f),
        are_waves(f),
        forall|q: int|
            0 <= q < NUM_PHASES ==> weight_of_all(f, #[trigger] position(q)) != 0real,
        resampler.is_new(w),
        u(ratio) == 2real,
        resampler.resampled(w, ratio, input, room, output, &after, consumed),
        forall|j: int|
            0 <= j < input.len() ==> u(#[trigger] input[j]) == a + b * (j as real),
        0 <= n < output.len(),
    ensures
        u(output[n]) == a + b * (15real + (n as real) / 2real),
{
    law_outputs_lie_evenly(
        u, v, w, f, resampler, ratio, input, room, output, after, consumed, n,
    );
    let (at, i) = choose|at: Reading<S, P>, i: int| #[trigger]
        lies_at(v, w, resampler.kernel(), input, at, i, output[n]) && (i as real) + v(at.offset)
            == 15real + (n as real) * (1real / u(ratio));
    let r = u(ratio);
    assert(1real / r == 1real / 2real);
    let (m, h) = (n as real, 1real / r);
    assert(m * h == m / 2real) by (nonlinear_arith)
        requires
            h == 1real / 2real,
    ;
    let c = a + b * ((i - 15) as real);
    assert forall|k: int| 0 <= k < TAPS implies u(#[trigger] at.history[k]) == c + b * (k as real) by {
        assert(u(input[i - 15 + k]) == a + b * ((i - 15 + k) as real));
        let (p, q) = ((i - 15) as real, k as real);
        let t = (i - 15 + k) as real;
        assert(a + b * t == (a + b * p) + b * q) by (nonlinear_arith)
            requires
                t == p + q,
        ;
    }
    let d = v(at.offset);
    let odd = n - 2 * (i - 15);
    assert(2real * d == odd as real);
    assert(u(at.history[15]) == a + b * (i as real)) by {
        assert(at.history[15] == input[i - 15 + 15]);
    }
    if odd == 0 {
        law_a_sample_comes_out_at_its_own_position(u, v, w, f, resampler, at, output[n]);
        assert(i as real == 15real + m / 2real);
    } else {
        assert(odd == 1);
        law_a_line_gives_its_midpoints(u, v, w, f, resampler, at, c, b, output[n]);
        assert(u(at.history[16]) == a + b * ((i + 1) as real)) by {
            assert(at.history[16] == input[i - 15 + 16]);
        }
        let (p, q) = (i as real, (i + 1) as real);
        let t = 15real + m / 2real;
        assert((a + b * p) + (a + b * q) == 2real * (a + b * t)) by (nonlinear_arith)
            requires
                q == p + 1real,
                t == p + 1real / 2real,
        ;
    }
}

} // verus!
