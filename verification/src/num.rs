//! The number type of the signal path.
//!
//! Everything that touches a sample is written once, over any type that has
//! the four operations, negation, an order and the small integers. The mixer
//! runs it on machine floating point; the proofs ask only that the operations
//! are total and give equal results for equal operands.

use core::ops::{Add, Div, Mul, Neg, Sub};
use vstd::prelude::*;
use vstd::std_specs::cmp::{PartialEqSpec, PartialOrdSpec};
use vstd::std_specs::convert::FromSpec;
use vstd::std_specs::ops::{AddSpec, DivSpec, MulSpec, NegSpec, SubSpec};

verus! {

/// A number the signal path can compute with. It has no methods of its own:
/// every type with the operations below is one.
pub trait Sample: Copy + Add<Output = Self> + Sub<Output = Self> + Mul<Output = Self> + Div<
    Output = Self,
> + Neg<Output = Self> + From<i16> + PartialOrd {

}

impl<T> Sample for T where
    T: Copy + Add<Output = T> + Sub<Output = T> + Mul<Output = T> + Div<Output = T> + Neg<
        Output = T,
    > + From<i16> + PartialOrd,
 {

}

/// The arithmetic of `S` is total, and each operation is a function of its
/// operands. Nothing is asked of what the results are: no rounding rule, no
/// algebraic identity.
pub open spec fn lawful<S: Sample>() -> bool {
    &&& S::obeys_add_spec()
    &&& S::obeys_sub_spec()
    &&& S::obeys_mul_spec()
    &&& S::obeys_div_spec()
    &&& S::obeys_neg_spec()
    &&& S::obeys_from_spec()
    &&& S::obeys_eq_spec()
    &&& S::obeys_partial_cmp_spec()
    &&& forall|a: S, b: S| #[trigger] a.add_req(b)
    &&& forall|a: S, b: S| #[trigger] a.sub_req(b)
    &&& forall|a: S, b: S| #[trigger] a.mul_req(b)
    &&& forall|a: S, b: S| #[trigger] a.div_req(b)
    &&& forall|a: S| #[trigger] a.neg_req()
}

/// The small integer `n` as a number.
pub open spec fn whole<S: Sample>(n: int) -> S {
    S::from_spec(n as i16)
}

/// The quotient `n / d` as a number.
pub open spec fn ratio<S: Sample>(n: int, d: int) -> S {
    whole::<S>(n).div_spec(whole::<S>(d))
}

/// `a < b`.
pub open spec fn below<S: Sample>(a: S, b: S) -> bool {
    a.partial_cmp_spec(&b) == Some(core::cmp::Ordering::Less)
}

/// `a <= b`.
pub open spec fn at_most<S: Sample>(a: S, b: S) -> bool {
    a.partial_cmp_spec(&b) == Some(core::cmp::Ordering::Less) || a.partial_cmp_spec(&b) == Some(
        core::cmp::Ordering::Equal,
    )
}

/// `a == b` as the type compares it.
pub open spec fn same<S: Sample>(a: S, b: S) -> bool {
    a.eq_spec(&b)
}

/// A number whose distance from itself is zero: no infinity, and a number at
/// all.
pub open spec fn finite<S: Sample>(a: S) -> bool {
    same(a.sub_spec(a), whole::<S>(0))
}

/// The magnitude of `a`.
pub open spec fn magnitude<S: Sample>(a: S) -> S {
    if below(a, whole::<S>(0)) {
        a.neg_spec()
    } else {
        a
    }
}

/// The larger of the two, the first where neither is.
pub open spec fn larger<S: Sample>(a: S, b: S) -> S {
    if below(a, b) {
        b
    } else {
        a
    }
}

/// `x` held inside `lo..=hi`; what compares with neither bound stays as it is.
pub open spec fn clamped<S: Sample>(x: S, lo: S, hi: S) -> S {
    if below(x, lo) {
        lo
    } else if below(hi, x) {
        hi
    } else {
        x
    }
}

/// `a` is a number: a type may have values that are not equal to themselves.
pub open spec fn is_number<S: Sample>(a: S) -> bool {
    same(a, a)
}

/// One leaves a product alone and nought a sum; the two, and the halves next to
/// nought, are ordered as usual.
pub open spec fn has_units<S: Sample>() -> bool {
    let zero = whole::<S>(0);
    let one = whole::<S>(1);
    &&& forall|x: S| is_number(x) ==> #[trigger] x.mul_spec(one) == x
    &&& forall|x: S| is_number(x) ==> same(#[trigger] zero.add_spec(x), x)
    &&& forall|x: S| is_number(x) ==> is_number(#[trigger] zero.add_spec(x))
    &&& one.add_spec(zero) == one
    &&& one.sub_spec(zero) == one
    &&& zero.mul_spec(whole::<S>(2)) == zero
    &&& !same(one, zero)
    &&& at_most(zero, zero)
    &&& clamped(zero, whole::<S>(-1), one) == zero
    &&& clamped(zero, zero, one) == zero
    &&& clamped(zero, ratio::<S>(-1, 2), ratio::<S>(1, 2)) == zero
}

/// Numbers are in order, taking more away leaves less, taking the negative away
/// adds, a factor that is not negative keeps the order, and one up to one does
/// not raise a level. A result that is no number is left aside.
pub open spec fn is_ordered<S: Sample>() -> bool {
    let zero = whole::<S>(0);
    &&& forall|a: S, b: S, c: S| #[trigger]
        at_most(a, b) && #[trigger] at_most(b, c) ==> at_most(a, c)
    &&& forall|a: S, b: S, c: S| #[trigger]
        at_most(a, b) && #[trigger] below(b, c) ==> below(a, c)
    &&& forall|a: S, b: S| #[trigger] at_most(a, b) ==> !below(b, a)
    &&& forall|a: S, b: S|
        is_number(a) && is_number(b) && !#[trigger] below(a, b) ==> at_most(b, a)
    &&& forall|a: S, x: S, y: S|
        at_most(x, y) && is_number(a.sub_spec(x)) && is_number(a.sub_spec(y)) ==> at_most(
            #[trigger] a.sub_spec(y),
            #[trigger] a.sub_spec(x),
        )
    &&& forall|a: S, x: S, y: S, z: S| #[trigger]
        at_most(x, y) && #[trigger] at_most(y, z) && is_number(a.sub_spec(x)) && is_number(
            a.sub_spec(z),
        ) ==> is_number(#[trigger] a.sub_spec(y))
    &&& forall|a: S, x: S|
        at_most(zero, x) && is_number(#[trigger] a.add_spec(x)) ==> a.sub_spec(x.neg_spec())
            == a.add_spec(x)
    &&& forall|x: S| at_most(zero, x) ==> at_most(#[trigger] x.neg_spec(), zero)
    &&& forall|x: S, k: S|
        at_most(zero, x) && at_most(zero, k) && at_most(k, whole::<S>(1)) && is_number(
            #[trigger] x.mul_spec(k),
        ) ==> at_most(zero, x.mul_spec(k)) && at_most(x.mul_spec(k), x)
    &&& forall|x: S, y: S, k: S|
        at_most(x, y) && at_most(zero, k) && is_number(x.mul_spec(k)) && is_number(y.mul_spec(k))
            ==> at_most(#[trigger] x.mul_spec(k), #[trigger] y.mul_spec(k))
}

pub fn get_whole<S: Sample>(n: i16) -> (r: S)
    requires
        lawful::<S>(),
    ensures
        r == whole::<S>(n as int),
{
    S::from(n)
}

pub fn get_ratio<S: Sample>(n: i16, d: i16) -> (r: S)
    requires
        lawful::<S>(),
    ensures
        r == ratio::<S>(n as int, d as int),
{
    S::from(n) / S::from(d)
}

pub fn is_below<S: Sample>(a: S, b: S) -> (r: bool)
    requires
        lawful::<S>(),
    ensures
        r == below(a, b),
{
    a < b
}

pub fn is_at_most<S: Sample>(a: S, b: S) -> (r: bool)
    requires
        lawful::<S>(),
    ensures
        r == at_most(a, b),
{
    a <= b
}

pub fn is_same<S: Sample>(a: S, b: S) -> (r: bool)
    requires
        lawful::<S>(),
    ensures
        r == same(a, b),
{
    a == b
}

pub fn is_finite<S: Sample>(a: S) -> (r: bool)
    requires
        lawful::<S>(),
    ensures
        r == finite(a),
{
    is_same(a - a, get_whole(0))
}

pub fn get_magnitude<S: Sample>(a: S) -> (r: S)
    requires
        lawful::<S>(),
    ensures
        r == magnitude(a),
{
    if is_below(a, get_whole(0)) {
        a.neg()
    } else {
        a
    }
}

pub fn get_larger<S: Sample>(a: S, b: S) -> (r: S)
    requires
        lawful::<S>(),
    ensures
        r == larger(a, b),
{
    if is_below(a, b) {
        b
    } else {
        a
    }
}

pub fn clamp<S: Sample>(x: S, lo: S, hi: S) -> (r: S)
    requires
        lawful::<S>(),
    ensures
        r == clamped(x, lo, hi),
{
    if is_below(x, lo) {
        lo
    } else if is_below(hi, x) {
        hi
    } else {
        x
    }
}

} // verus!
