//! The curves behind the one-knob controls, and the smoothing they drive.

use crate::elementary::{self, Elementary};
use crate::num::{self, clamp, get_larger, get_whole, is_at_most, Sample};
use vstd::prelude::*;
use vstd::std_specs::ops::{AddSpec, DivSpec, MulSpec, SubSpec};

verus! {

/// A 0..10 knob as a fraction of its travel.
pub open spec fn travel<S: Sample>(knob: S) -> S {
    num::clamped(
        knob.div_spec(num::whole::<S>(10)),
        num::whole::<S>(0),
        num::whole::<S>(1),
    )
}

/// `t` of the way from `from` to `to`.
pub open spec fn between<S: Sample>(from: S, to: S, t: S) -> S {
    from.add_spec(to.sub_spec(from).mul_spec(t))
}

/// One step of `value` toward `target` by the fraction `coeff`.
pub open spec fn nudged<S: Sample>(value: S, target: S, coeff: S) -> S {
    value.add_spec(target.sub_spec(value).mul_spec(coeff))
}

pub fn fraction<S: Sample>(knob: S) -> (r: S)
    requires
        num::lawful::<S>(),
    ensures
        r == travel(knob),
{
    clamp(knob / get_whole(10), get_whole(0), get_whole(1))
}

pub fn lerp<S: Sample>(from: S, to: S, t: S) -> (r: S)
    requires
        num::lawful::<S>(),
    ensures
        r == between(from, to, t),
{
    from + (to - from) * t
}

pub fn nudge<S: Sample>(value: S, target: S, coeff: S) -> (r: S)
    requires
        num::lawful::<S>(),
    ensures
        r == nudged(value, target, coeff),
{
    value + (target - value) * coeff
}

/// A level held above `1e-10`, so that it has a decibel value.
pub open spec fn floored<S: Sample>(level: S) -> S {
    let scale = num::whole::<S>(10000).mul_spec(num::whole::<S>(10000)).mul_spec(
        num::whole::<S>(100),
    );
    num::larger(num::whole::<S>(1).div_spec(scale), level)
}

pub fn floor_level<S: Sample>(level: S) -> (r: S)
    requires
        num::lawful::<S>(),
    ensures
        r == floored(level),
{
    let scale = get_whole::<S>(10000) * get_whole(10000) * get_whole(100);
    get_larger(get_whole::<S>(1) / scale, level)
}

/// What the exponential of a one-pole smoother is taken of: minus one over the
/// time constant in samples.
pub open spec fn pole_exponent<S: Sample>(sample_rate: S, time_ms: S) -> S {
    num::whole::<S>(-1).div_spec(
        sample_rate.mul_spec(time_ms.div_spec(num::whole::<S>(1000))),
    )
}

/// `coeff` is the per-sample coefficient of a one-pole smoother with the given
/// time constant: `1 - exp(-1 / samples)`, and 1 for no time at all.
pub open spec fn smooths<S: Sample, M: Elementary<S>>(
    m: M,
    sample_rate: S,
    time_ms: S,
    coeff: S,
) -> bool {
    if num::at_most(time_ms, num::whole::<S>(0)) {
        coeff == num::whole::<S>(1)
    } else {
        exists|e: S|
            #[trigger] elementary::exponential(m, pole_exponent(sample_rate, time_ms), e)
                && coeff == num::whole::<S>(1).sub_spec(e)
    }
}

pub fn one_pole_coeff<S: Sample, M: Elementary<S>>(m: &M, sample_rate: S, time_ms: S) -> (r: S)
    requires
        num::lawful::<S>(),
    ensures
        smooths(*m, sample_rate, time_ms, r),
{
    if is_at_most(time_ms, get_whole(0)) {
        get_whole(1)
    } else {
        let e = m.exp(get_whole::<S>(-1) / (sample_rate * (time_ms / get_whole(1000))));
        assert(elementary::exponential(*m, pole_exponent(sample_rate, time_ms), e));
        get_whole::<S>(1) - e
    }
}

} // verus!
