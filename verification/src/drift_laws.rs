//! What the drift loop is for: it pushes the ratio back, in both directions alike.

use crate::drift::{DriftCorrector, PiController};
use crate::exact;
use crate::fixed::{self, Fixed};
use crate::num::{self, Sample};
use vstd::prelude::*;
use vstd::std_specs::ops::{AddSpec, DivSpec, MulSpec, NegSpec};

verus! {

/// The gains and bounds of a loop that pushes back.
pub open spec fn is_tuned<S: Sample>(v: spec_fn(S) -> real, pi: PiController<S>) -> bool {
    &&& v(pi.kp) > 0real
    &&& v(pi.ki) >= 0real
    &&& v(pi.max_correction) > 0real
    &&& v(pi.integral_clamp) >= 0real
}

/// The loop answers an error with its two gains, on the error itself and on the
/// sum of what it has taken in, each held inside its bound; and that sum is what
/// it keeps.
pub proof fn law_what_the_loop_answers<S: Sample>(
    v: spec_fn(S) -> real,
    pi: PiController<S>,
    error: S,
)
    requires
        exact::is_exact(v),
    ensures
        ({
            let (i, e) = (v(pi.integral_clamp), v(error));
            let sum = exact::held(v(pi.integral) + e, -i, i);
            let push = exact::held(
                v(pi.kp) * e + v(pi.ki) * sum,
                -v(pi.max_correction),
                v(pi.max_correction),
            );
            &&& v(pi.ratio(error)) == 1real - push
            &&& v(pi.fed(error).integral) == sum
        }),
{
    exact::law_clamping(
        v,
        pi.integral.add_spec(error),
        pi.integral_clamp.neg_spec(),
        pi.integral_clamp,
    );
    exact::law_clamping(v, pi.uncut(error), pi.max_correction.neg_spec(), pi.max_correction);
}

/// From a zero integral the ratio lies on the far side of one: below it for a
/// device that is ahead, above it for one that is behind, and at it for neither.
pub proof fn law_the_loop_pushes_back<S: Sample>(
    v: spec_fn(S) -> real,
    corrector: DriftCorrector<S>,
    error: S,
)
    requires
        exact::is_exact(v),
        is_tuned(v, corrector.pi),
        v(corrector.pi.integral) == 0real,
        exact::size(v(error)) <= v(corrector.discontinuity_threshold),
    ensures
        v(error) > 0real ==> v(corrector.ratio(error)) < 1real,
        v(error) < 0real ==> v(corrector.ratio(error)) > 1real,
        v(error) == 0real ==> v(corrector.ratio(error)) == 1real,
{
    let pi = corrector.pi;
    law_what_the_loop_answers(v, pi, error);
    exact::law_clamping(v, error, error, error);
    let (i, e) = (v(pi.integral_clamp), v(error));
    lemma_push(v(pi.kp), v(pi.ki), e, exact::held(e, -i, i));
}

proof fn lemma_push(kp: real, ki: real, e: real, s: real)
    requires
        kp > 0real,
        ki >= 0real,
        e > 0real ==> s >= 0real,
        e < 0real ==> s <= 0real,
        e == 0real ==> s == 0real,
    ensures
        e > 0real ==> kp * e + ki * s > 0real,
        e < 0real ==> kp * e + ki * s < 0real,
        e == 0real ==> kp * e + ki * s == 0real,
{
    assert((e > 0real ==> kp * e > 0real) && (e < 0real ==> kp * e < 0real) && (e == 0real ==> kp
        * e == 0real)) by (nonlinear_arith)
        requires
            kp > 0real,
    ;
    assert((s >= 0real ==> ki * s >= 0real) && (s <= 0real ==> ki * s <= 0real) && (s == 0real
        ==> ki * s == 0real)) by (nonlinear_arith)
        requires
            ki >= 0real,
    ;
}

/// The loop treats both directions alike: an error the other way round, taken in
/// by a loop that has seen the other way round, is answered the other way round.
pub proof fn law_the_loop_is_even_handed<S: Sample>(
    v: spec_fn(S) -> real,
    corrector: DriftCorrector<S>,
    other: DriftCorrector<S>,
    error: S,
    opposite: S,
)
    requires
        exact::is_exact(v),
        v(corrector.pi.integral_clamp) >= 0real,
        v(corrector.pi.max_correction) >= 0real,
        other.calibrated_as(&corrector),
        v(other.pi.integral) == -v(corrector.pi.integral),
        v(opposite) == -v(error),
    ensures
        v(other.ratio(opposite)) - 1real == 1real - v(corrector.ratio(error)),
        v(other.fed(opposite).pi.integral) == -v(corrector.fed(error).pi.integral),
{
    let (pi, po) = (corrector.pi, other.pi);
    law_what_the_loop_answers(v, pi, error);
    law_what_the_loop_answers(v, po, opposite);
    exact::law_clamping(v, error, error, error);
    exact::law_clamping(v, opposite, opposite, opposite);
    let i = v(pi.integral_clamp);
    let (e, s) = (v(error), exact::held(v(pi.integral) + v(error), -i, i));
    let (kp, ki) = (v(pi.kp), v(pi.ki));
    assert(kp * (-e) == -(kp * e) && ki * (-s) == -(ki * s)) by (nonlinear_arith);
}

/// From a zero integral, the same of one loop: `ratio(-e) - 1 == 1 - ratio(e)`.
pub proof fn law_opposite_errors_are_answered_alike<S: Sample>(
    v: spec_fn(S) -> real,
    corrector: DriftCorrector<S>,
    error: S,
)
    requires
        exact::is_exact(v),
        v(corrector.pi.integral_clamp) >= 0real,
        v(corrector.pi.max_correction) >= 0real,
        v(corrector.pi.integral) == 0real,
    ensures
        v(corrector.ratio(error.neg_spec())) - 1real == 1real - v(corrector.ratio(error)),
        v(corrector.pi.ratio(error.neg_spec())) - 1real == 1real - v(corrector.pi.ratio(error)),
{
    law_the_loop_is_even_handed(v, corrector, corrector, error, error.neg_spec());
    let pi = corrector.pi;
    law_what_the_loop_answers(v, pi, error);
    law_what_the_loop_answers(v, pi, error.neg_spec());
    let i = v(pi.integral_clamp);
    let (e, s) = (v(error), exact::held(v(error), -i, i));
    let (kp, ki) = (v(pi.kp), v(pi.ki));
    assert(kp * (-e) == -(kp * e) && ki * (-s) == -(ki * s)) by (nonlinear_arith);
}

/// The further ahead a device is, the lower the ratio.
pub proof fn law_a_larger_error_is_pushed_harder<S: Sample>(
    v: spec_fn(S) -> real,
    pi: PiController<S>,
    error: S,
    larger: S,
)
    requires
        exact::is_exact(v),
        is_tuned(v, pi),
        v(error) <= v(larger),
    ensures
        v(pi.ratio(larger)) <= v(pi.ratio(error)),
{
    law_what_the_loop_answers(v, pi, error);
    law_what_the_loop_answers(v, pi, larger);
    let i = v(pi.integral_clamp);
    let (e, l) = (v(error), v(larger));
    let (s, t) = (
        exact::held(v(pi.integral) + e, -i, i),
        exact::held(v(pi.integral) + l, -i, i),
    );
    let (kp, ki) = (v(pi.kp), v(pi.ki));
    assert(kp * e <= kp * l) by (nonlinear_arith)
        requires
            kp > 0real,
            e <= l,
    ;
    assert(ki * s <= ki * t) by (nonlinear_arith)
        requires
            ki >= 0real,
            s <= t,
    ;
}

/// An error beyond the threshold, in either direction, is no drift: it is answered
/// with one and forgotten. One within it is the loop's.
pub proof fn law_what_a_jump_is<S: Sample>(
    v: spec_fn(S) -> real,
    corrector: DriftCorrector<S>,
    error: S,
)
    requires
        exact::is_exact(v),
    ensures
        exact::size(v(error)) > v(corrector.discontinuity_threshold) ==> v(corrector.ratio(error))
            == 1real && v(corrector.fed(error).pi.integral) == 0real,
        exact::size(v(error)) <= v(corrector.discontinuity_threshold) ==> corrector.ratio(error)
            == corrector.pi.ratio(error) && corrector.fed(error).pi == corrector.pi.fed(error),
{
    exact::law_clamping(v, error, error, error);
}

/// In fixed point, from a zero integral, an error of a sample or more moves the
/// ratio off one, to the far side, however small the gain is.
pub proof fn law_the_loop_pushes_back_in_fixed_point(
    corrector: DriftCorrector<Fixed>,
    error: Fixed,
)
    requires
        corrector.pi.kp.raw > 0,
        corrector.pi.ki.raw >= 0,
        corrector.pi.max_correction.raw > 0,
        corrector.pi.integral_clamp.raw >= 0,
        corrector.pi.integral.raw == 0,
        !corrector.jumps(error),
    ensures
        error.raw >= 65536 ==> corrector.ratio(error).raw < 65536,
        error.raw <= -65536 ==> corrector.ratio(error).raw > 65536,
{
    let pi = corrector.pi;
    let sum = pi.integrated(error);
    assert(num::whole::<Fixed>(1).raw == 65536);
    let (kp, ki) = (pi.kp.raw as int, pi.ki.raw as int);
    let (e, s) = (fixed::size(error.raw as int), fixed::size(sum.raw as int));
    if e >= 65536 {
        assert(kp * e / 65536 >= 1) by (nonlinear_arith)
            requires
                kp >= 1,
                e >= 65536,
        ;
    }
    assert(ki * s / 65536 >= 0 && (s == 0 ==> ki * s / 65536 == 0)) by (nonlinear_arith)
        requires
            ki >= 0,
            s >= 0,
    ;
    if error.raw >= 65536 {
        assert(sum.raw >= 0);
        assert(MulSpec::mul_spec(pi.kp, error).raw >= 1);
        assert(MulSpec::mul_spec(pi.ki, sum).raw >= 0);
        assert(pi.uncut(error).raw >= 1);
        assert(pi.correction(error).raw >= 1);
    }
    if error.raw <= -65536 {
        assert(sum.raw <= 0);
        assert(MulSpec::mul_spec(pi.kp, error).raw <= -1);
        assert(MulSpec::mul_spec(pi.ki, sum).raw <= 0);
        assert(pi.uncut(error).raw <= -1);
        assert(pi.correction(error).raw <= -1);
    }
}

/// What the integral alone can contribute stays inside the bound of the whole
/// correction, however long an error has lasted.
pub proof fn law_the_integral_alone_stays_inside<S: Sample>(
    v: spec_fn(S) -> real,
    pi: PiController<S>,
    error: S,
)
    requires
        exact::is_exact(v),
        v(pi.ki) > 0real,
        v(pi.max_correction) >= 0real,
        pi.integral_clamp == pi.max_correction.div_spec(pi.ki),
    ensures
        exact::size(v(pi.ki) * v(pi.fed(error).integral)) <= v(pi.max_correction),
{
    law_what_the_loop_answers(v, pi, error);
    let (k, b, c) = (v(pi.ki), v(pi.max_correction), v(pi.integral_clamp));
    assert(c == b / k);
    assert(k * c == b && c >= 0real) by (nonlinear_arith)
        requires
            c == b / k,
            k > 0real,
            b >= 0real,
    ;
    let s = v(pi.fed(error).integral);
    assert(-(k * c) <= k * s && k * s <= k * c) by (nonlinear_arith)
        requires
            -c <= s,
            s <= c,
            k > 0real,
    ;
}

} // verus!
