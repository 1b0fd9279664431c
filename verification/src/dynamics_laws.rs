//! What the compressor, the noise gate, the denoiser and the limiter do to a level.

use crate::compressor::{self, CompDetector, CompGains, CompParams, CompRates, Compressor};
use crate::denoiser::{Denoiser, DenoiserRates, NoiseTracker};
use crate::elementary::{self, Elementary};
use crate::exact::{self, Functions};
use crate::gate::{self, Gate, GateDetector, GateParams, GateRates};
use crate::knob_curve;
use crate::limiter::{self, Limiter};
use crate::num::{self, Sample};
use vstd::prelude::*;
use vstd::std_specs::ops::{AddSpec, DivSpec, MulSpec, NegSpec, SubSpec};

verus! {

/// `coeff` of the way from `value` to `target`.
pub open spec fn step(value: real, target: real, coeff: real) -> real {
    value + (target - value) * coeff
}

/// A step by a fraction stays between where it starts and where it is going, and
/// a whole step arrives.
pub proof fn law_a_step_goes_toward_its_target<S: Sample>(
    v: spec_fn(S) -> real,
    value: S,
    target: S,
    coeff: S,
)
    requires
        exact::is_exact(v),
        0real <= v(coeff) <= 1real,
    ensures
        v(knob_curve::nudged(value, target, coeff)) == step(v(value), v(target), v(coeff)),
        v(value) <= v(target) ==> v(value) <= v(knob_curve::nudged(value, target, coeff)) <= v(
            target,
        ),
        v(target) <= v(value) ==> v(target) <= v(knob_curve::nudged(value, target, coeff)) <= v(
            value,
        ),
        v(coeff) > 0real && v(value) < v(target) ==> v(value) < v(
            knob_curve::nudged(value, target, coeff),
        ),
        v(coeff) > 0real && v(target) < v(value) ==> v(knob_curve::nudged(value, target, coeff)) < v(
            value,
        ),
        v(coeff) == 1real ==> v(knob_curve::nudged(value, target, coeff)) == v(target),
{
    lemma_step(v(value), v(target), v(coeff));
}

proof fn lemma_step(a: real, b: real, k: real)
    requires
        0real <= k <= 1real,
    ensures
        a <= b ==> a <= step(a, b, k) <= b,
        b <= a ==> b <= step(a, b, k) <= a,
        k > 0real && a < b ==> a < step(a, b, k),
        k > 0real && b < a ==> step(a, b, k) < a,
        k == 1real ==> step(a, b, k) == b,
{
    let d = b - a;
    if d >= 0real {
        assert(0real <= d * k <= d && (k > 0real && d > 0real ==> d * k > 0real))
            by (nonlinear_arith)
            requires
                d >= 0real,
                0real <= k <= 1real,
        ;
    } else {
        assert(d <= d * k <= 0real && (k > 0real ==> d * k < 0real)) by (nonlinear_arith)
            requires
                d < 0real,
                0real <= k <= 1real,
        ;
    }
    if k == 1real {
        assert(d * 1real == d);
    }
}

/// A knob goes from nought to one over its ten marks, and stays at either end
/// beyond them; what it sets goes evenly from one end to the other.
pub proof fn law_a_knob_goes_evenly<S: Sample>(v: spec_fn(S) -> real, knob: S, from: S, to: S)
    requires
        exact::is_exact(v),
    ensures
        ({
            let t = exact::held(v(knob) / 10real, 0real, 1real);
            &&& v(knob_curve::travel(knob)) == t
            &&& v(knob_curve::between(from, to, knob_curve::travel(knob))) == step(
                v(from),
                v(to),
                t,
            )
        }),
{
    exact::law_clamping(v, knob.div_spec(num::whole::<S>(10)), num::whole::<S>(0), num::whole::<S>(1));
}

/// Between two whole numbers `d` apart, from `a` on.
proof fn lemma_even<S: Sample>(v: spec_fn(S) -> real, n: int, k: int, t: S, a: real, d: real)
    requires
        exact::is_exact(v),
        -0x8000 <= n < 0x8000,
        -0x8000 <= k < 0x8000,
        n as real == a,
        (k as real) - (n as real) == d,
    ensures
        v(knob_curve::between(num::whole::<S>(n), num::whole::<S>(k), t)) == a + d * v(t),
{
    assert(v(num::whole::<S>(k).sub_spec(num::whole::<S>(n))) == d);
}

/// The coefficient of a smoother comes of minus one over its time in samples: it
/// has gone all the way but the exponential of minus one in that time.
pub proof fn law_a_smoother_takes_its_time<S: Sample, M: Elementary<S>>(
    v: spec_fn(S) -> real,
    m: M,
    f: Functions,
    rate: S,
    time_ms: S,
    coeff: S,
)
    requires
        exact::is_exact(v),
        exact::computes(v, m, f),
        v(rate) > 0real,
        knob_curve::smooths(m, rate, time_ms, coeff),
    ensures
        v(time_ms) <= 0real ==> v(coeff) == 1real,
        v(time_ms) > 0real ==> exists|exponent: real|
            exponent * (v(rate) * (v(time_ms) / 1000real)) == -1real && v(coeff) == 1real
                - #[trigger] (f.exp)(exponent),
{
    if v(time_ms) > 0real {
        let e = choose|e: S|
            #[trigger] elementary::exponential(m, knob_curve::pole_exponent(rate, time_ms), e)
                && coeff == num::whole::<S>(1).sub_spec(e);
        let n = v(rate) * (v(time_ms) / 1000real);
        let (r, t) = (v(rate), v(time_ms) / 1000real);
        assert(r * t > 0real) by (nonlinear_arith)
            requires
                r > 0real,
                t > 0real,
        ;
        let x = v(knob_curve::pole_exponent(rate, time_ms));
        assert(x == -1real / n);
        assert(x * n == -1real) by (nonlinear_arith)
            requires
                n > 0real,
                x == -1real / n,
        ;
        assert(v(coeff) == 1real - (f.exp)(x));
    }
}

/// Decibels are twenty to a power of ten, there and back.
pub proof fn law_decibels<S: Sample, M: Elementary<S>>(
    v: spec_fn(S) -> real,
    m: M,
    f: Functions,
    db: S,
    amplitude: S,
)
    requires
        exact::is_exact(v),
        exact::computes(v, m, f),
    ensures
        elementary::in_linear(m, db, amplitude) ==> v(amplitude) == (f.ten)(v(db) / 20real),
        elementary::in_db(m, amplitude, db) ==> v(db) == 20real * (f.log10)(v(amplitude)),
{
    if elementary::in_db(m, amplitude, db) {
        let l = choose|l: S| #[trigger]
            elementary::logarithms(m, amplitude, l) && db == num::whole::<S>(20).mul_spec(l);
    }
}

/// The width of the knee, in decibels.
pub open spec fn knee_width<S: Sample>(v: spec_fn(S) -> real, params: CompParams<S>) -> real {
    24real * v(params.knee)
}

/// How many decibels a level is over the threshold.
pub open spec fn excess<S: Sample>(
    v: spec_fn(S) -> real,
    level_db: S,
    params: CompParams<S>,
) -> real {
    v(level_db) - v(params.threshold_db)
}

proof fn lemma_comp_terms<S: Sample>(v: spec_fn(S) -> real, level_db: S, params: CompParams<S>)
    requires
        exact::is_exact(v),
        v(params.ratio) > 0real,
    ensures
        v(params.slope()) == 1real / v(params.ratio) - 1real,
        v(params.knee.mul_spec(num::whole::<S>(24))) == knee_width(v, params),
        v(level_db.sub_spec(params.threshold_db)) == excess(v, level_db, params),
        v(
            num::whole::<S>(1).div_spec(num::whole::<S>(1000).mul_spec(num::whole::<S>(1000))),
        ) == 1real / 1000000real,
{
    let k = v(params.knee);
    assert(k * 24real == 24real * k) by (nonlinear_arith);
    let thousand = num::whole::<S>(1000);
    assert(v(thousand) == 1000real);
    assert(v(thousand.mul_spec(thousand)) == 1000000real);
}

/// Above the knee only `1 / ratio` of every decibel over the threshold is left,
/// however soft the knee is.
pub proof fn law_above_the_knee<S: Sample>(
    v: spec_fn(S) -> real,
    level_db: S,
    params: CompParams<S>,
)
    requires
        exact::is_exact(v),
        v(params.ratio) > 0real,
        v(params.knee) >= 0real,
        excess(v, level_db, params) > 0real,
        2real * excess(v, level_db, params) >= knee_width(v, params),
    ensures
        v(params.threshold_db) + excess(v, level_db, params) / v(params.ratio) == v(level_db) + v(
            compressor::reduction_db(level_db, params),
        ),
        v(compressor::reduction_db(level_db, params)) == excess(v, level_db, params) * (1real / v(
            params.ratio,
        ) - 1real),
{
    lemma_comp_terms(v, level_db, params);
    let (o, r, w) = (excess(v, level_db, params), v(params.ratio), knee_width(v, params));
    let k = 1real / r - 1real;
    assert(o * k == o / r - o) by (nonlinear_arith)
        requires
            k == 1real / r - 1real,
            r > 0real,
    ;
    assert(v(level_db) == v(params.threshold_db) + o);
    let two = num::whole::<S>(2);
    let over = level_db.sub_spec(params.threshold_db);
    let width = params.knee.mul_spec(num::whole::<S>(24));
    assert(v(two.mul_spec(over)) == 2real * o);
    assert(v(two.mul_spec(num::magnitude(over))) == 2real * o);
    if !(w <= 1real / 1000000real) && 2real * o <= w {
        let into = over.add_spec(width.div_spec(two));
        assert(v(width.div_spec(two)) == w / 2real);
        assert(v(into) == w);
        assert(v(into.mul_spec(into)) == w * w);
        assert((k * (w * w)) / (2real * w) == k * w / 2real) by (nonlinear_arith)
            requires
                w > 0real,
        ;
        assert(k * w / 2real == o * k) by (nonlinear_arith)
            requires
                2real * o == w,
        ;
    }
}

/// Below the knee nothing is reduced.
pub proof fn law_below_the_knee<S: Sample>(
    v: spec_fn(S) -> real,
    level_db: S,
    params: CompParams<S>,
)
    requires
        exact::is_exact(v),
        v(params.ratio) > 0real,
        v(params.knee) >= 0real,
        2real * excess(v, level_db, params) < -knee_width(v, params) || (v(params.knee) == 0real
            && excess(v, level_db, params) <= 0real),
    ensures
        v(compressor::reduction_db(level_db, params)) == 0real,
{
    lemma_comp_terms(v, level_db, params);
    let two = num::whole::<S>(2);
    let over = level_db.sub_spec(params.threshold_db);
    assert(v(two.mul_spec(over)) == 2real * excess(v, level_db, params));
    assert(24real * 0real == 0real);
}

/// Inside a soft knee the reduction comes in as a parabola: a fraction `x` of the
/// way through it, the reduction is `x` squared of what it is at the upper end. In
/// the middle of the knee, at the threshold, it is an eighth of what the slope
/// takes off a level as far up as the knee is wide.
pub proof fn law_inside_the_knee<S: Sample>(
    v: spec_fn(S) -> real,
    level_db: S,
    params: CompParams<S>,
    x: real,
)
    requires
        exact::is_exact(v),
        v(params.ratio) > 0real,
        knee_width(v, params) > 1real / 1000000real,
        0real <= x <= 1real,
        excess(v, level_db, params) == (x - 1real / 2real) * knee_width(v, params),
    ensures
        v(compressor::reduction_db(level_db, params)) == (x * x) * ((1real / v(params.ratio)
            - 1real) * knee_width(v, params) / 2real),
        x == 1real / 2real ==> v(compressor::reduction_db(level_db, params)) == (1real / v(
            params.ratio,
        ) - 1real) * knee_width(v, params) / 8real,
        x > 0real && v(params.ratio) > 1real ==> v(compressor::reduction_db(level_db, params))
            < 0real,
{
    lemma_comp_terms(v, level_db, params);
    let (o, r, w) = (excess(v, level_db, params), v(params.ratio), knee_width(v, params));
    let k = 1real / r - 1real;
    let two = num::whole::<S>(2);
    let over = level_db.sub_spec(params.threshold_db);
    let width = params.knee.mul_spec(num::whole::<S>(24));
    assert(v(two.mul_spec(over)) == 2real * o);
    assert(v(two.mul_spec(num::magnitude(over))) == 2real * exact::size(o));
    assert(-w <= 2real * o <= w) by (nonlinear_arith)
        requires
            o == (x - 1real / 2real) * w,
            0real <= x <= 1real,
            w > 0real,
    ;
    let into = over.add_spec(width.div_spec(two));
    assert(v(width.div_spec(two)) == w / 2real);
    assert(o + w / 2real == x * w) by (nonlinear_arith)
        requires
            o == (x - 1real / 2real) * w,
    ;
    assert(v(into) == x * w);
    assert(v(into.mul_spec(into)) == (x * w) * (x * w));
    assert((k * ((x * w) * (x * w))) / (2real * w) == (x * x) * (k * w / 2real)) by {
        let y = x * x;
        assert((x * w) * (x * w) == y * (w * w)) by (nonlinear_arith)
            requires
                y == x * x,
        ;
        assert((k * (y * (w * w))) / (2real * w) == y * (k * w / 2real)) by (nonlinear_arith)
            requires
                w > 0real,
        ;
    }
    if x == 1real / 2real {
        assert(x * x == 1real / 4real) by (nonlinear_arith)
            requires
                x == 1real / 2real,
        ;
        let z = k * w;
        assert((1real / 4real) * (z / 2real) == z / 8real);
    }
    if x > 0real && r > 1real {
        assert(k < 0real) by (nonlinear_arith)
            requires
                k == 1real / r - 1real,
                r > 1real,
        ;
        let (z, y) = (k * w, x * x);
        assert(z < 0real) by (nonlinear_arith)
            requires
                z == k * w,
                k < 0real,
                w > 0real,
        ;
        assert(y > 0real) by (nonlinear_arith)
            requires
                y == x * x,
                x > 0real,
        ;
        let h = z / 2real;
        assert(y * h < 0real) by (nonlinear_arith)
            requires
                y > 0real,
                h < 0real,
        ;
    }
}

/// Above either knee a soft one reduces just as a hard one does.
pub proof fn law_a_knee_does_not_reach_above_itself<S: Sample>(
    v: spec_fn(S) -> real,
    level_db: S,
    soft: CompParams<S>,
    hard: CompParams<S>,
)
    requires
        exact::is_exact(v),
        v(soft.ratio) > 0real,
        v(soft.knee) >= 0real,
        v(hard.knee) == 0real,
        v(hard.ratio) == v(soft.ratio),
        v(hard.threshold_db) == v(soft.threshold_db),
        excess(v, level_db, soft) > 0real,
        2real * excess(v, level_db, soft) >= knee_width(v, soft),
    ensures
        v(compressor::reduction_db(level_db, soft)) == v(compressor::reduction_db(level_db, hard)),
        v(compressor::reduction_db(level_db, hard)) == excess(v, level_db, hard) * (1real / v(
            hard.ratio,
        ) - 1real),
{
    assert(24real * 0real == 0real);
    law_above_the_knee(v, level_db, soft);
    law_above_the_knee(v, level_db, hard);
}

/// Above the knee louder in is louder out, though it is reduced by more, and with a
/// ratio of one or more nothing comes out louder than it went in.
pub proof fn law_louder_in_is_louder_out<S: Sample>(
    v: spec_fn(S) -> real,
    lower_db: S,
    higher_db: S,
    params: CompParams<S>,
)
    requires
        exact::is_exact(v),
        v(params.ratio) >= 1real,
        v(params.knee) >= 0real,
        excess(v, lower_db, params) > 0real,
        2real * excess(v, lower_db, params) >= knee_width(v, params),
        v(lower_db) < v(higher_db),
    ensures
        v(lower_db) + v(compressor::reduction_db(lower_db, params)) < v(higher_db) + v(
            compressor::reduction_db(higher_db, params),
        ),
        v(compressor::reduction_db(higher_db, params)) <= v(
            compressor::reduction_db(lower_db, params),
        ) <= 0real,
{
    law_above_the_knee(v, lower_db, params);
    law_above_the_knee(v, higher_db, params);
    let (a, b, r) = (
        excess(v, lower_db, params),
        excess(v, higher_db, params),
        v(params.ratio),
    );
    let (x, y) = (a / r, b / r);
    assert(x < y) by (nonlinear_arith)
        requires
            x == a / r,
            y == b / r,
            a < b,
            r >= 1real,
    ;
    let k = 1real / r - 1real;
    assert(-1real < k <= 0real) by (nonlinear_arith)
        requires
            k == 1real / r - 1real,
            r >= 1real,
    ;
    assert(b * k <= a * k && a * k <= 0real) by (nonlinear_arith)
        requires
            0real < a,
            a < b,
            k <= 0real,
    ;
}

/// What the compressor's knob sets, mark by mark.
pub proof fn law_the_compressors_knob<S: Sample>(
    v: spec_fn(S) -> real,
    comp: Compressor<S>,
    knob: S,
)
    requires
        exact::is_exact(v),
    ensures
        ({
            let t = exact::held(v(knob) / 10real, 0real, 1real);
            let now = comp.turned(knob);
            &&& now.knob == knob
            &&& now.bypass == (v(knob) <= 0real)
            &&& v(knob) <= 0real ==> now.params == comp.params
            &&& v(knob) > 0real ==> {
                &&& v(now.params.threshold_db) == -3real - 37real * t
                &&& v(now.params.ratio) == 1real + 7real * t
                &&& v(now.params.attack_ms) == 50real - 45real * t
                &&& v(now.params.release_ms) == 400real - 320real * t
                &&& v(now.params.knee) == 1real - t
                &&& now.params.input_gain_db == comp.params.input_gain_db
                &&& now.params.output_gain_db == comp.params.output_gain_db
                &&& now.params.auto_makeup == comp.params.auto_makeup
            }
        }),
{
    law_a_knob_goes_evenly(v, knob, num::whole::<S>(0), num::whole::<S>(1));
    let t = knob_curve::travel(knob);
    lemma_even(v, -3, -40, t, -3real, -37real);
    lemma_even(v, 1, 8, t, 1real, 7real);
    lemma_even(v, 50, 5, t, 50real, -45real);
    lemma_even(v, 400, 80, t, 400real, -320real);
    lemma_even(v, 1, 0, t, 1real, -1real);
}

/// The automatic make-up is half of the gain change of full scale.
pub proof fn law_makeup_is_half_of_full_scale<S: Sample>(
    v: spec_fn(S) -> real,
    params: CompParams<S>,
    full: S,
)
    requires
        exact::is_exact(v),
        v(params.ratio) > 0real,
        v(params.knee) >= 0real,
        v(full) == 0real,
        v(params.threshold_db) < 0real,
        -2real * v(params.threshold_db) >= knee_width(v, params),
    ensures
        params.auto_makeup ==> 2real * v(params.makeup_db()) == v(
            compressor::reduction_db(full, params),
        ),
        !params.auto_makeup ==> v(params.makeup_db()) == 0real,
{
    lemma_comp_terms(v, full, params);
    law_above_the_knee(v, full, params);
    let (t, r) = (v(params.threshold_db), v(params.ratio));
    let k = 1real / r - 1real;
    let o = excess(v, full, params);
    assert(t * k == t / r - t && o / r == -(t / r)) by (nonlinear_arith)
        requires
            k == 1real / r - 1real,
            r > 0real,
            o == -t,
    ;
    assert(v(params.threshold_db.mul_spec(params.slope()).neg_spec()) == -(t * k));
    if params.auto_makeup {
        assert(v(params.makeup_db()) == -(t * k) / 2real);
    }
}

/// The gains of a compressor, in amplitudes: the input gain, what is left after
/// the reduction for the level it hears, and the make-up gain, one after the
/// other. The level follows the loudness of what goes in, at the attack rate
/// upward and at the release rate downward.
pub proof fn law_what_a_compressor_does<S: Sample, M: Elementary<S>>(
    v: spec_fn(S) -> real,
    m: M,
    f: Functions,
    detector: CompDetector<S>,
    comp: Compressor<S>,
    rates: CompRates<S>,
    pair: (S, S),
    after: CompDetector<S>,
    out: (S, S),
)
    requires
        exact::is_exact(v),
        exact::computes(v, m, f),
        !comp.bypass,
        detector.compresses(m, comp, rates, pair, after, out),
    ensures
        ({
            let p = comp.params;
            let boost = (f.ten)(v(p.input_gain_db) / 20real);
            let (l, r) = (v(pair.0) * boost, v(pair.1) * boost);
            let power = step(
                v(detector.mean_square),
                (l * l + r * r) * (1real / 2real),
                v(rates.rms),
            );
            let level = (f.root)(if 0real < power {
                power
            } else {
                0real
            });
            let makeup = (f.ten)((v(p.output_gain_db) + v(p.makeup_db())) / 20real);
            let gain = (f.ten)(v(after.gain_reduction_db) / 20real) * makeup;
            &&& v(after.mean_square) == power
            &&& v(after.envelope) == step(
                v(detector.envelope),
                level,
                if v(detector.envelope) < level {
                    v(rates.attack)
                } else {
                    v(rates.release)
                },
            )
            &&& exists|db: S|
                after.gain_reduction_db == #[trigger] compressor::reduction_db(db, p) && v(db)
                    == 20real * (f.log10)(v(knob_curve::floored(after.envelope)))
            &&& v(out.0) == l * gain
            &&& v(out.1) == r * gain
        }),
{
    let p = comp.params;
    let given = choose|given: CompGains<S>|
        #![trigger detector.compressed(comp, rates, pair, given)]
        {
            let boosted = (pair.0.mul_spec(given.input), pair.1.mul_spec(given.input));
            let heard = detector.followed(rates, boosted.0, boosted.1);
            let leveled = heard.enveloped(rates, given.level);
            &&& elementary::in_linear(m, p.input_gain_db, given.input)
            &&& elementary::roots(m, heard.power(), given.level)
            &&& elementary::in_db(m, knob_curve::floored(leveled.envelope), given.db)
            &&& elementary::in_linear(m, compressor::reduction_db(given.db, p), given.reduction)
            &&& elementary::in_linear(
                m,
                p.output_gain_db.add_spec(p.makeup_db()),
                given.makeup,
            )
            &&& (after, out) == detector.compressed(comp, rates, pair, given)
        };
    law_decibels(v, m, f, p.input_gain_db, given.input);
    law_decibels(v, m, f, given.db, knob_curve::floored(after.envelope));
    assert(after.gain_reduction_db == compressor::reduction_db(given.db, p));
    law_decibels(v, m, f, after.gain_reduction_db, given.reduction);
    law_decibels(v, m, f, p.output_gain_db.add_spec(p.makeup_db()), given.makeup);
    assert(v(num::ratio::<S>(1, 2)) == 1real / 2real);
}

/// What the noise gate's knob sets, mark by mark. At the end of its travel it closes
/// fully.
pub proof fn law_the_gates_knob<S: Sample>(v: spec_fn(S) -> real, gate: Gate<S>, knob: S)
    requires
        exact::is_exact(v),
    ensures
        ({
            let t = exact::held(v(knob) / 10real, 0real, 1real);
            let now = gate.turned(knob);
            &&& now.knob == knob
            &&& now.bypass == (v(knob) <= 0real)
            &&& v(knob) <= 0real ==> now.params == gate.params
            &&& v(knob) > 0real ==> {
                &&& v(now.params.threshold_db) == -60real + 50real * t
                &&& now.params.damping_max_db is None <==> t >= 999real / 1000real
                &&& now.params.damping_max_db matches Some(db) ==> v(db) == -10real - 50real * t
                &&& v(now.params.attack_ms) == 50real - 45real * t
                &&& v(now.params.hold_ms) == 500real - 450real * t
                &&& v(now.params.release_ms) == 300real - 220real * t
                &&& now.params.bp_sidechain_hz == gate.params.bp_sidechain_hz
            }
        }),
{
    law_a_knob_goes_evenly(v, knob, num::whole::<S>(0), num::whole::<S>(1));
    let t = knob_curve::travel(knob);
    lemma_even(v, -60, -10, t, -60real, 50real);
    lemma_even(v, -10, -60, t, -10real, -50real);
    lemma_even(v, 50, 5, t, 50real, -45real);
    lemma_even(v, 500, 50, t, 500real, -450real);
    lemma_even(v, 300, 80, t, 300real, -220real);
    exact::law_fractions(v, 999, 1000);
}

/// A gate lets through what goes in at its gain. Over the threshold the gain
/// moves to one and the hold time starts again; under it the gain first stays
/// for the hold time and then moves to the floor. What is over the threshold is
/// the mean of the channels, as the side chain hears it.
pub proof fn law_what_a_gate_does<S: Sample, M: Elementary<S>>(
    v: spec_fn(S) -> real,
    m: M,
    f: Functions,
    detector: GateDetector<S>,
    gate: Gate<S>,
    rates: GateRates<S>,
    pair: (S, S),
    after: GateDetector<S>,
    out: (S, S),
)
    requires
        exact::is_exact(v),
        exact::computes(v, m, f),
        !gate.bypass,
        detector.gates(m, gate, rates, pair, after, out),
    ensures
        v(out.0) == v(pair.0) * v(after.gain),
        v(out.1) == v(pair.1) * v(after.gain),
        exists|x: S|
            2real * v(x) == v(pair.0) + v(pair.1) && after.sidechain
                == #[trigger] detector.sidechain.after(x) && v(after.envelope) == step(
                v(detector.envelope),
                exact::size(v(detector.sidechain.output(x))),
                v(rates.smoothing),
            ),
        ({
            let level = if v(after.envelope) > smallest() {
                v(after.envelope)
            } else {
                smallest()
            };
            let held = detector.hold_remaining_samples;
            if 20real * (f.log10)(level) > v(gate.params.threshold_db) {
                &&& v(after.gain) == step(v(detector.gain), 1real, v(rates.attack))
                &&& after.hold_remaining_samples == rates.hold_samples
            } else if held > 0 {
                &&& after.gain == detector.gain
                &&& after.hold_remaining_samples + 1 == held
            } else {
                &&& v(after.gain) == step(v(detector.gain), v(rates.floor), v(rates.release))
                &&& after.hold_remaining_samples == 0
            }
        }),
{
    let followed = detector.followed(rates, pair.0, pair.1);
    let db = choose|db: S|
        #[trigger] elementary::in_db(m, knob_curve::floored(followed.envelope), db) && after
            == followed.decided(gate, rates, db) && out == (
            pair.0.mul_spec(after.gain),
            pair.1.mul_spec(after.gain),
        );
    law_decibels(v, m, f, db, knob_curve::floored(followed.envelope));
    lemma_floored(v, followed.envelope);
    let x = GateDetector::<S>::detector_in(pair.0, pair.1);
    exact::law_fractions(v, 1, 2);
    let (half, sum) = (v(num::ratio::<S>(1, 2)), v(pair.0) + v(pair.1));
    assert(v(x) == sum * half);
    assert(2real * (sum * half) == sum) by (nonlinear_arith)
        requires
            half == 1real / 2real,
    ;
    assert(after.sidechain == detector.sidechain.after(x));
    exact::law_clamping(v, detector.sidechain.output(x), x, x);
}

/// The level that stands for silence.
pub open spec fn smallest() -> real {
    1real / 10000000000real
}

proof fn lemma_floored<S: Sample>(v: spec_fn(S) -> real, level: S)
    requires
        exact::is_exact(v),
    ensures
        v(knob_curve::floored(level)) == (if v(level) > smallest() {
            v(level)
        } else {
            smallest()
        }),
{
    let (a, b) = (num::whole::<S>(10000), num::whole::<S>(100));
    assert(v(a) == 10000real && v(b) == 100real);
    assert(v(a.mul_spec(a)) == 100000000real);
    assert(v(a.mul_spec(a).mul_spec(b)) == 10000000000real);
}

/// The rates of a gate are those of its times: so many samples of hold, and a
/// floor that is the damping as an amplitude, or nought.
pub proof fn law_a_gates_rates<S: Sample, M: Elementary<S>>(
    v: spec_fn(S) -> real,
    m: M,
    f: Functions,
    params: GateParams<S>,
    rate: S,
    rates: GateRates<S>,
)
    requires
        exact::is_exact(v),
        exact::computes(v, m, f),
        v(rate) > 0real,
        v(params.hold_ms) >= 0real,
        rates.suit(m, params, rate),
    ensures
        ({
            let hold = v(params.hold_ms) / 1000real * v(rate);
            let n = rates.hold_samples as int as real;
            n <= hold && (rates.hold_samples < u32::MAX ==> hold < n + 1real)
        }),
        params.damping_max_db is None ==> v(rates.floor) == 0real,
        params.damping_max_db matches Some(db) ==> v(rates.floor) == (f.ten)(v(db) / 20real),
{
    let held = params.hold_ms.div_spec(num::whole::<S>(1000)).mul_spec(rate);
    let hold = choose|hold: (usize, S)|
        #[trigger] elementary::splits(m, held, hold) && rates.hold_samples == gate::countable(
            hold.0,
        );
    let (a, b) = (v(params.hold_ms) / 1000real, v(rate));
    assert(v(held) == a * b);
    assert(a * b >= 0real) by (nonlinear_arith)
        requires
            a >= 0real,
            b > 0real,
    ;
    if let Some(db) = params.damping_max_db {
        law_decibels(v, m, f, db, rates.floor);
    }
}

/// The denoiser's ratio goes from one to six over its knob.
pub proof fn law_the_denoisers_knob<S: Sample>(v: spec_fn(S) -> real, denoiser: Denoiser<S>)
    requires
        exact::is_exact(v),
    ensures
        v(denoiser.ratio()) == 1real + 5real * exact::held(v(denoiser.knob) / 10real, 0real, 1real),
        denoiser.is_bypassed() == (v(denoiser.knob) <= 0real || denoiser.explicit_bypass),
{
    law_a_knob_goes_evenly(v, denoiser.knob, num::whole::<S>(0), num::whole::<S>(1));
    let t = v(knob_curve::travel(denoiser.knob));
    let five = v(num::whole::<S>(5));
    assert(t * five == 5real * t) by (nonlinear_arith)
        requires
            five == 5real,
    ;
}

/// A denoiser turns down what is less than six decibels above the noise floor:
/// below that line every decibel becomes as many as the ratio says. The floor
/// follows the level, and the gain what is wanted, each with one rate down and
/// another up.
pub proof fn law_what_a_denoiser_does<S: Sample, M: Elementary<S>>(
    v: spec_fn(S) -> real,
    m: M,
    f: Functions,
    tracker: NoiseTracker<S>,
    denoiser: Denoiser<S>,
    rates: DenoiserRates<S>,
    pair: (S, S),
    after: NoiseTracker<S>,
    out: (S, S),
)
    requires
        exact::is_exact(v),
        exact::computes(v, m, f),
        !denoiser.is_bypassed(),
        tracker.denoises(m, denoiser, rates, pair, after, out),
    ensures
        v(out.0) == v(pair.0) * v(after.gain),
        v(out.1) == v(pair.1) * v(after.gain),
        ({
            let (l, r) = (v(pair.0), v(pair.1));
            let power = v(after.mean_square);
            let level = (f.root)(if 0real < power {
                power
            } else {
                0real
            });
            let db = 20real * (f.log10)(if level > smallest() {
                level
            } else {
                smallest()
            });
            let line = v(after.floor_db) + 6real;
            let wanted = if line <= db {
                0real
            } else {
                (db - line) * (v(denoiser.ratio()) - 1real)
            };
            let target = (f.ten)(wanted / 20real);
            &&& power == step(
                v(tracker.mean_square),
                (l * l + r * r) * (1real / 2real),
                v(rates.rms),
            )
            &&& v(after.floor_db) == step(
                v(tracker.floor_db),
                db,
                if db < v(tracker.floor_db) {
                    v(rates.floor_fall)
                } else {
                    v(rates.floor_rise)
                },
            )
            &&& v(after.gain) == step(
                v(tracker.gain),
                target,
                if target < v(tracker.gain) {
                    v(rates.gain_attack)
                } else {
                    v(rates.gain_release)
                },
            )
        }),
{
    let heard = tracker.followed(rates, pair.0, pair.1);
    let (level, db, target) = choose|level: S, db: S, target: S|
        #![trigger elementary::roots(m, heard.power(), level), heard.floored_at(rates, db), elementary::in_linear(m, heard.floored_at(rates, db).target_db(denoiser, db), target)]
        {
            let settled = heard.floored_at(rates, db);
            &&& elementary::roots(m, heard.power(), level)
            &&& elementary::in_db(m, knob_curve::floored(level), db)
            &&& elementary::in_linear(m, settled.target_db(denoiser, db), target)
            &&& after == settled.eased(rates, target)
            &&& out == (pair.0.mul_spec(after.gain), pair.1.mul_spec(after.gain))
        };
    let settled = heard.floored_at(rates, db);
    law_decibels(v, m, f, db, knob_curve::floored(level));
    lemma_floored(v, level);
    law_decibels(v, m, f, settled.target_db(denoiser, db), target);
    assert(v(num::ratio::<S>(1, 2)) == 1real / 2real);
}

/// The loudest channel is a channel, and none is louder.
proof fn lemma_loudest<S: Sample>(v: spec_fn(S) -> real, channels: Seq<S>)
    requires
        exact::is_exact(v),
    ensures
        v(limiter::loudest(channels)) >= 0real,
        forall|c: int|
            0 <= c < channels.len() ==> exact::size(v(#[trigger] channels[c])) <= v(
                limiter::loudest(channels),
            ),
        channels.len() > 0 ==> exists|c: int|
            0 <= c < channels.len() && exact::size(v(#[trigger] channels[c])) == v(
                limiter::loudest(channels),
            ),
    decreases channels.len(),
{
    if channels.len() > 0 {
        let rest = channels.drop_last();
        lemma_loudest(v, rest);
        let last = channels.last();
        exact::law_clamping(v, last, limiter::loudest(rest), num::magnitude(last));
        assert forall|c: int| 0 <= c < channels.len() implies exact::size(
            v(#[trigger] channels[c]),
        ) <= v(limiter::loudest(channels)) by {
            if c < rest.len() {
                assert(rest[c] == channels[c]);
            }
        }
        if v(limiter::loudest(rest)) < exact::size(v(last)) {
            assert(channels[channels.len() - 1] == last);
        } else if rest.len() > 0 {
            let c = choose|c: int|
                0 <= c < rest.len() && exact::size(v(#[trigger] rest[c])) == v(
                    limiter::loudest(rest),
                );
            assert(channels[c] == rest[c]);
        } else {
            assert(channels[0] == last);
        }
    }
}

/// A limiter keeps every channel at or under its ceiling. It does so with one
/// factor for all channels, so the balance between them stays; the factor is one
/// where nothing is too loud, and otherwise puts the loudest channel exactly at
/// the ceiling.
pub proof fn law_a_limiter_keeps_its_ceiling<S: Sample, M: Elementary<S>>(
    v: spec_fn(S) -> real,
    m: M,
    f: Functions,
    limiter: Limiter<S>,
    before: Seq<S>,
    after: Seq<S>,
)
    requires
        exact::is_exact(v),
        exact::computes(v, m, f),
        (f.ten)(v(limiter.threshold_db) / 20real) > 0real,
        limiter.limits(m, before, after),
    ensures
        after.len() == before.len(),
        forall|c: int|
            0 <= c < after.len() ==> exact::size(v(#[trigger] after[c])) <= (f.ten)(
                v(limiter.threshold_db) / 20real,
            ),
        exists|k: real| #[trigger]
            is_one_factor(v, before, after, k) && 0real <= k <= 1real && (k == 1real || exists|c: int|
                0 <= c < after.len() && exact::size(v(#[trigger] after[c])) == (f.ten)(
                    v(limiter.threshold_db) / 20real,
                )),
        (forall|c: int|
            0 <= c < before.len() ==> exact::size(v(#[trigger] before[c])) <= (f.ten)(
                v(limiter.threshold_db) / 20real,
            )) ==> after == before,
{
    let ceiling = choose|ceiling: S|
        #[trigger] elementary::in_linear(m, limiter.threshold_db, ceiling) && after
            == limiter::limited(before, ceiling);
    law_decibels(v, m, f, limiter.threshold_db, ceiling);
    lemma_loudest(v, before);
    let peak = limiter::loudest(before);
    let (p, l) = (v(peak), v(ceiling));
    if num::at_most(peak, ceiling) {
        assert(is_one_factor(v, before, after, 1real)) by {
            assert forall|c: int| 0 <= c < before.len() implies v(#[trigger] after[c]) == 1real * v(
                before[c],
            ) by {}
        }
    } else {
        let k = l / p;
        assert(v(ceiling.div_spec(peak)) == k);
        assert(0real <= k <= 1real && k * p == l) by (nonlinear_arith)
            requires
                k == l / p,
                0real < l,
                l < p,
        ;
        assert forall|c: int| 0 <= c < before.len() implies v(#[trigger] after[c]) == k * v(
            before[c],
        ) && exact::size(v(after[c])) == k * exact::size(v(before[c])) && exact::size(v(after[c]))
            <= l by {
            let x = v(before[c]);
            let s = exact::size(x);
            assert(v(after[c]) == x * k);
            assert(x * k == k * x && (x >= 0real ==> k * x >= 0real) && (x < 0real ==> k * x <= 0real)
                && k * (-x) == -(k * x)) by (nonlinear_arith)
                requires
                    k >= 0real,
            ;
            assert(k * s <= k * p) by (nonlinear_arith)
                requires
                    k >= 0real,
                    s <= p,
            ;
        }
        assert(is_one_factor(v, before, after, k));
        if before.len() > 0 {
            let c = choose|c: int|
                0 <= c < before.len() && exact::size(v(#[trigger] before[c])) == p;
            assert(exact::size(v(after[c])) == k * exact::size(v(before[c])));
        }
    }
}

/// Every channel of `after` is that of `before` times `k`.
pub open spec fn is_one_factor<S: Sample>(
    v: spec_fn(S) -> real,
    before: Seq<S>,
    after: Seq<S>,
    k: real,
) -> bool {
    forall|c: int| 0 <= c < before.len() ==> v(#[trigger] after[c]) == k * v(before[c])
}

/// `coeff` is that of a smoother that takes so many milliseconds.
pub open spec fn takes<S: Sample>(
    v: spec_fn(S) -> real,
    f: Functions,
    rate: S,
    time_ms: real,
    coeff: S,
) -> bool {
    if time_ms <= 0real {
        v(coeff) == 1real
    } else {
        exists|exponent: real|
            exponent * (v(rate) * (time_ms / 1000real)) == -1real && v(coeff) == 1real
                - #[trigger] (f.exp)(exponent)
    }
}

/// How long the stages of a compressor take: five milliseconds to hear, and the
/// attack and release that it is set to.
pub proof fn law_how_long_a_compressor_takes<S: Sample, M: Elementary<S>>(
    v: spec_fn(S) -> real,
    m: M,
    f: Functions,
    params: CompParams<S>,
    rate: S,
    rates: CompRates<S>,
)
    requires
        exact::is_exact(v),
        exact::computes(v, m, f),
        v(rate) > 0real,
        rates.suit(m, params, rate),
    ensures
        takes(v, f, rate, 5real, rates.rms),
        takes(v, f, rate, v(params.attack_ms), rates.attack),
        takes(v, f, rate, v(params.release_ms), rates.release),
{
    law_a_smoother_takes_its_time(v, m, f, rate, num::whole::<S>(5), rates.rms);
    law_a_smoother_takes_its_time(v, m, f, rate, params.attack_ms, rates.attack);
    law_a_smoother_takes_its_time(v, m, f, rate, params.release_ms, rates.release);
}

/// How long the stages of a noise gate take: five milliseconds to hear, and the
/// attack and release that it is set to.
pub proof fn law_how_long_a_gate_takes<S: Sample, M: Elementary<S>>(
    v: spec_fn(S) -> real,
    m: M,
    f: Functions,
    params: GateParams<S>,
    rate: S,
    rates: GateRates<S>,
)
    requires
        exact::is_exact(v),
        exact::computes(v, m, f),
        v(rate) > 0real,
        rates.suit(m, params, rate),
    ensures
        takes(v, f, rate, 5real, rates.smoothing),
        takes(v, f, rate, v(params.attack_ms), rates.attack),
        takes(v, f, rate, v(params.release_ms), rates.release),
{
    law_a_smoother_takes_its_time(v, m, f, rate, num::whole::<S>(5), rates.smoothing);
    law_a_smoother_takes_its_time(v, m, f, rate, params.attack_ms, rates.attack);
    law_a_smoother_takes_its_time(v, m, f, rate, params.release_ms, rates.release);
}

/// How long the stages of a denoiser take: five milliseconds to hear, fifty for the
/// floor to fall and a second to rise, five for the gain to fall and a hundred to
/// rise.
pub proof fn law_how_long_a_denoiser_takes<S: Sample, M: Elementary<S>>(
    v: spec_fn(S) -> real,
    m: M,
    f: Functions,
    rate: S,
    rates: DenoiserRates<S>,
)
    requires
        exact::is_exact(v),
        exact::computes(v, m, f),
        v(rate) > 0real,
        rates.suit(m, rate),
    ensures
        takes(v, f, rate, 5real, rates.rms),
        takes(v, f, rate, 50real, rates.floor_fall),
        takes(v, f, rate, 1000real, rates.floor_rise),
        takes(v, f, rate, 5real, rates.gain_attack),
        takes(v, f, rate, 100real, rates.gain_release),
{
    law_a_smoother_takes_its_time(v, m, f, rate, num::whole::<S>(5), rates.rms);
    law_a_smoother_takes_its_time(v, m, f, rate, num::whole::<S>(50), rates.floor_fall);
    law_a_smoother_takes_its_time(v, m, f, rate, num::whole::<S>(1000), rates.floor_rise);
    law_a_smoother_takes_its_time(v, m, f, rate, num::whole::<S>(5), rates.gain_attack);
    law_a_smoother_takes_its_time(v, m, f, rate, num::whole::<S>(100), rates.gain_release);
}

/// The levels a strip's effects come up with, before any knob is turned: all of
/// them bypassed, and the limiter's ceiling twelve decibels above full scale.
pub proof fn law_what_the_effects_come_up_with<S: Sample>(v: spec_fn(S) -> real)
    requires
        exact::is_exact(v),
    ensures
        ({
            let p = Compressor::<S>::idle().params;
            &&& Compressor::<S>::idle().bypass
            &&& v(p.threshold_db) == -3real && v(p.ratio) == 1real && 2real * v(p.knee) == 1real
            &&& v(p.attack_ms) == 20real && v(p.release_ms) == 200real
            &&& v(p.input_gain_db) == 0real && v(p.output_gain_db) == 0real && p.auto_makeup
        }),
        ({
            let p = Gate::<S>::idle().params;
            &&& Gate::<S>::idle().bypass
            &&& v(p.threshold_db) == -30real && p.damping_max_db is None
            &&& v(p.bp_sidechain_hz) == 1000real
            &&& v(p.attack_ms) == 20real && v(p.hold_ms) == 200real && v(p.release_ms) == 150real
        }),
        Denoiser::<S>::idle().is_bypassed(),
        v(NoiseTracker::<S>::fresh().floor_db) == -20real,
        v(NoiseTracker::<S>::fresh().gain) == 1real,
        v(NoiseTracker::<S>::fresh().mean_square) == 0real,
        v(Limiter::<S>::open_ceiling().threshold_db) == 12real,
{
    exact::law_fractions(v, 1, 2);
}

} // verus!
