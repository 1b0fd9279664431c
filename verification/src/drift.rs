//! Drift estimation and correction: a slow proportional-integral loop over the
//! distance between a device's clock and the master's.

use crate::fixed::{self, Fixed};
use crate::num::{self, clamp, get_magnitude, get_whole, is_below, Sample};
use core::ops::Neg;
use vstd::prelude::*;
use vstd::std_specs::ops::{AddSpec, DivSpec, MulSpec, NegSpec, SubSpec};

verus! {

/// The loop. Its error is in samples, positive where the device runs ahead.
/// The ratio it returns stays within `max_correction` of one, and so does what
/// the integral alone can contribute: a large error leaves nothing behind that
/// would hold the ratio at its bound once the error is gone.
#[derive(Debug, Clone, Copy)]
pub struct PiController<S> {
    pub kp: S,
    pub ki: S,
    pub max_correction: S,
    pub integral: S,
    pub integral_clamp: S,
}

impl<S: Sample> PiController<S> {
    /// The two bounds leave room for a value between them.
    pub open spec fn wf(&self) -> bool {
        &&& num::at_most(self.integral_clamp.neg_spec(), self.integral_clamp)
        &&& num::at_most(self.max_correction.neg_spec(), self.max_correction)
    }

    /// The integral once `error` is in it.
    pub open spec fn integrated(&self, error: S) -> S {
        num::clamped(
            self.integral.add_spec(error),
            self.integral_clamp.neg_spec(),
            self.integral_clamp,
        )
    }

    /// The correction for `error`, before it is held inside its bounds.
    pub open spec fn uncut(&self, error: S) -> S {
        self.kp.mul_spec(error).add_spec(self.ki.mul_spec(self.integrated(error)))
    }

    /// The correction for `error`.
    pub open spec fn correction(&self, error: S) -> S {
        num::clamped(
            self.uncut(error),
            self.max_correction.neg_spec(),
            self.max_correction,
        )
    }

    /// The loop behind `error`.
    pub open spec fn fed(&self, error: S) -> Self {
        PiController { integral: self.integrated(error), ..*self }
    }

    /// The ratio for `error`.
    pub open spec fn ratio(&self, error: S) -> S {
        num::whole::<S>(1).sub_spec(self.correction(error))
    }

    pub fn new(kp: S, ki: S, max_correction: S) -> (r: Self)
        requires
            num::lawful::<S>(),
            num::below(num::whole::<S>(0), ki),
        ensures
            r == (PiController {
                kp,
                ki,
                max_correction,
                integral: num::whole::<S>(0),
                integral_clamp: max_correction.div_spec(ki),
            }),
    {
        PiController {
            kp,
            ki,
            max_correction,
            integral: get_whole(0),
            integral_clamp: max_correction / ki,
        }
    }

    /// Takes one block's error in and returns the resampling ratio for the
    /// next block.
    pub fn update(&mut self, error_samples: S) -> (r: S)
        requires
            num::lawful::<S>(),
            old(self).wf(),
        ensures
            *final(self) == old(self).fed(error_samples),
            r == old(self).ratio(error_samples),
    {
        self.integral = clamp(
            self.integral + error_samples,
            self.integral_clamp.neg(),
            self.integral_clamp,
        );
        let correction = clamp(
            self.kp * error_samples + self.ki * self.integral,
            self.max_correction.neg(),
            self.max_correction,
        );
        get_whole::<S>(1) - correction
    }

    pub fn reset_integral(&mut self)
        requires
            num::lawful::<S>(),
        ensures
            *final(self) == (PiController { integral: num::whole::<S>(0), ..*old(self) }),
    {
        self.integral = get_whole(0);
    }
}

/// The loop with an eye for jumps. A device that is reconfigured can move its
/// reported position further in one block than any drift would. Such a
/// reading is no drift: the integral is cleared instead of taking it in.
#[derive(Debug, Clone, Copy)]
pub struct DriftCorrector<S> {
    pub pi: PiController<S>,
    pub discontinuity_threshold: S,
}

impl<S: Sample> DriftCorrector<S> {
    pub open spec fn wf(&self) -> bool {
        self.pi.wf()
    }

    /// An error of this size is a jump.
    pub open spec fn jumps(&self, error: S) -> bool {
        num::below(self.discontinuity_threshold, num::magnitude(error))
    }

    pub open spec fn fed(&self, error: S) -> Self {
        if self.jumps(error) {
            DriftCorrector {
                pi: PiController { integral: num::whole::<S>(0), ..self.pi },
                ..*self
            }
        } else {
            DriftCorrector { pi: self.pi.fed(error), ..*self }
        }
    }

    pub open spec fn ratio(&self, error: S) -> S {
        if self.jumps(error) {
            num::whole::<S>(1)
        } else {
            self.pi.ratio(error)
        }
    }

    /// The same loop, but for what it has taken in.
    pub open spec fn calibrated_as(&self, other: &Self) -> bool {
        *self == (DriftCorrector {
            pi: PiController { integral: self.pi.integral, ..other.pi },
            ..*other
        })
    }

    pub fn new(pi: PiController<S>, discontinuity_threshold: S) -> (r: Self)
        ensures
            r == (DriftCorrector { pi, discontinuity_threshold }),
    {
        DriftCorrector { pi, discontinuity_threshold }
    }

    pub fn update(&mut self, error_samples: S) -> (r: S)
        requires
            num::lawful::<S>(),
            old(self).wf(),
        ensures
            *final(self) == old(self).fed(error_samples),
            r == old(self).ratio(error_samples),
            final(self).wf(),
    {
        if is_below(self.discontinuity_threshold, get_magnitude(error_samples)) {
            self.pi.reset_integral();
            return get_whole(1);
        }
        self.pi.update(error_samples)
    }
}

/// The loop behind a run of errors.
pub open spec fn fed_all<S: Sample>(corrector: DriftCorrector<S>, errors: Seq<S>) -> DriftCorrector<
    S,
>
    decreases errors.len(),
{
    if errors.len() == 0 {
        corrector
    } else {
        fed_all(corrector, errors.drop_last()).fed(errors.last())
    }
}

/// The calibration never changes, whatever is measured.
pub proof fn law_calibration_is_fixed<S: Sample>(corrector: DriftCorrector<S>, errors: Seq<S>)
    ensures
        fed_all(corrector, errors).calibrated_as(&corrector),
        corrector.wf() ==> fed_all(corrector, errors).wf(),
    decreases errors.len(),
{
    if errors.len() > 0 {
        law_calibration_is_fixed(corrector, errors.drop_last());
    }
}

/// A jump leaves no trace: whatever came before it, behind it the loop is as
/// good as new, and the ratio at the jump is one.
pub proof fn law_a_jump_is_forgotten<S: Sample>(
    corrector: DriftCorrector<S>,
    before: Seq<S>,
    jump: S,
    after: Seq<S>,
)
    requires
        corrector.pi.integral == num::whole::<S>(0),
        corrector.jumps(jump),
    ensures
        fed_all(corrector, before).ratio(jump) == num::whole::<S>(1),
        fed_all(corrector, before.push(jump) + after) == fed_all(corrector, after),
        forall|error: S|
            fed_all(corrector, before.push(jump) + after).ratio(error) == #[trigger] fed_all(
                corrector,
                after,
            ).ratio(error),
    decreases after.len(),
{
    law_calibration_is_fixed(corrector, before);
    if after.len() == 0 {
        assert(before.push(jump) + after =~= before.push(jump));
        assert(before.push(jump).drop_last() =~= before);
    } else {
        law_a_jump_is_forgotten(corrector, before, jump, after.drop_last());
        assert((before.push(jump) + after).drop_last() =~= before.push(jump) + after.drop_last());
    }
}

/// The correction is one of the two bounds or lies between them, and so does
/// the integral.
pub proof fn law_the_loop_is_bounded<S: Sample>(pi: PiController<S>, error: S)
    ensures
        pi.correction(error) == pi.max_correction.neg_spec() || pi.correction(error)
            == pi.max_correction || (!num::below(
            pi.correction(error),
            pi.max_correction.neg_spec(),
        ) && !num::below(pi.max_correction, pi.correction(error))),
        pi.integrated(error) == pi.integral_clamp.neg_spec() || pi.integrated(error)
            == pi.integral_clamp || (!num::below(
            pi.integrated(error),
            pi.integral_clamp.neg_spec(),
        ) && !num::below(pi.integral_clamp, pi.integrated(error))),
{
}

/// The ratio never leaves `1 - max_correction` to `1 + max_correction`, whatever
/// was measured before and is measured now, on numbers that are ordered. What is
/// left out is an error for which the correction is no number at all.
pub proof fn law_the_ratio_stays_near_one<S: Sample>(
    corrector: DriftCorrector<S>,
    before: Seq<S>,
    error: S,
)
    requires
        num::is_ordered::<S>(),
        num::has_units::<S>(),
        corrector.wf(),
        num::at_most(num::whole::<S>(0), corrector.pi.max_correction),
        num::is_number(num::whole::<S>(1)),
        num::is_number(corrector.pi.max_correction),
        num::is_number(corrector.pi.max_correction.neg_spec()),
        num::is_number(num::whole::<S>(1).sub_spec(corrector.pi.max_correction)),
        num::is_number(num::whole::<S>(1).add_spec(corrector.pi.max_correction)),
        num::is_number(fed_all(corrector, before).pi.uncut(error)),
    ensures
        num::at_most(
            num::whole::<S>(1).sub_spec(corrector.pi.max_correction),
            fed_all(corrector, before).ratio(error),
        ),
        num::at_most(
            fed_all(corrector, before).ratio(error),
            num::whole::<S>(1).add_spec(corrector.pi.max_correction),
        ),
{
    law_calibration_is_fixed(corrector, before);
    let pi = fed_all(corrector, before).pi;
    let zero = num::whole::<S>(0);
    let one = num::whole::<S>(1);
    let lo = pi.max_correction.neg_spec();
    let hi = pi.max_correction;
    let c = pi.correction(error);
    assert(num::at_most(lo, zero) && num::at_most(zero, hi));
    assert(one.sub_spec(lo) == one.add_spec(hi));
    assert(!num::below(lo, lo) ==> num::at_most(lo, lo));
    assert(!num::below(hi, hi) ==> num::at_most(hi, hi));
    assert(num::at_most(lo, c) && num::at_most(c, hi)) by {
        if c != lo && c != hi {
            assert(!num::below(c, lo) && !num::below(hi, c));
        }
    }
    assert(num::is_number(one.sub_spec(c)));
    assert(num::at_most(one.sub_spec(hi), one.sub_spec(c)));
    assert(num::at_most(one.sub_spec(c), one.sub_spec(lo)));
    assert(one.sub_spec(zero) == one);
    assert(num::at_most(one.sub_spec(hi), one.sub_spec(zero)));
    assert(num::at_most(one.sub_spec(zero), one.sub_spec(lo)));
}

/// In fixed point the ratio of a loop never leaves `1 - max_correction` to
/// `1 + max_correction`, whatever is measured.
pub proof fn law_the_ratio_stays_near_one_in_fixed_point(
    kp: Fixed,
    ki: Fixed,
    max_correction: Fixed,
    discontinuity_threshold: Fixed,
    before: Seq<Fixed>,
    error: Fixed,
)
    requires
        0 < ki.raw,
        0 < max_correction.raw,
    ensures
        ({
            let pi = PiController {
                kp,
                ki,
                max_correction,
                integral: num::whole::<Fixed>(0),
                integral_clamp: DivSpec::div_spec(max_correction, ki),
            };
            let corrector = DriftCorrector { pi, discontinuity_threshold };
            let ratio = fed_all(corrector, before).ratio(error);
            let one = num::whole::<Fixed>(1);
            &&& corrector.wf()
            &&& num::at_most(SubSpec::sub_spec(one, max_correction), ratio)
            &&& num::at_most(ratio, AddSpec::add_spec(one, max_correction))
        }),
{
    let pi = PiController {
        kp,
        ki,
        max_correction,
        integral: num::whole::<Fixed>(0),
        integral_clamp: DivSpec::div_spec(max_correction, ki),
    };
    let corrector = DriftCorrector { pi, discontinuity_threshold };
    fixed::law_fixed_point_is_ordered();
    fixed::law_fixed_point_has_units();
    let clamp = pi.integral_clamp;
    assert(clamp.raw >= 0) by {
        let (a, b) = (max_correction.raw as int, ki.raw as int);
        assert(a * 65536 / b >= 0) by (nonlinear_arith)
            requires
                a > 0,
                b > 0,
        ;
    }
    assert(num::whole::<Fixed>(0).raw == 0);
    law_the_ratio_stays_near_one(corrector, before, error);
}

} // verus!
