//! The wider number type in which positions are kept.
//!
//! A frame count grows past what the samples' own type can tell apart, so
//! positions and filter design use a wider one. The ways between the two, and
//! the functions that filter design needs, come from the caller; contracts
//! name their results by the call they come from.

use vstd::prelude::*;

verus! {

pub trait Precision<S, P> {
    /// A sample as a wide number.
    fn widen(&self, x: S) -> P;

    /// The nearest sample to a wide number.
    fn narrow(&self, x: P) -> S;

    /// A frame count.
    fn count(&self, frames: u64) -> P;

    /// The nearest whole number; zero for negative numbers.
    fn nearest(&self, x: P) -> usize;

    /// The number times pi.
    fn times_pi(&self, x: P) -> P;

    /// The sine of an angle.
    fn sine(&self, angle: P) -> P;

    /// The cosine of an angle.
    fn cosine(&self, angle: P) -> P;

    /// A sample as bits, to hand it to another thread.
    fn to_bits(&self, x: S) -> u32;

    /// The sample that bits stand for.
    fn of_bits(&self, bits: u32) -> S;
}

/// Widening a sample, and rounding to a whole number, always give one result for
/// one argument.
pub open spec fn is_settled<S, P, W: Precision<S, P>>(w: W) -> bool {
    &&& forall|x: S, y: P, z: P| #[trigger]
        widens(w, x, y) && #[trigger] widens(w, x, z) ==> y == z
    &&& forall|x: P, y: usize, z: usize| #[trigger]
        rounds::<S, P, W>(w, x, y) && #[trigger] rounds::<S, P, W>(w, x, z) ==> y == z
}

/// The bits are those of `x`.
pub open spec fn packs<S, P, W: Precision<S, P>>(w: W, x: S, bits: u32) -> bool {
    call_ensures(W::to_bits, (&w, x), bits)
}

/// The bits stand for `x`.
pub open spec fn unpacks<S, P, W: Precision<S, P>>(w: W, bits: u32, x: S) -> bool {
    call_ensures(W::of_bits, (&w, bits), x)
}

pub open spec fn widens<S, P, W: Precision<S, P>>(w: W, x: S, y: P) -> bool {
    call_ensures(W::widen, (&w, x), y)
}

pub open spec fn narrows<S, P, W: Precision<S, P>>(w: W, x: P, y: S) -> bool {
    call_ensures(W::narrow, (&w, x), y)
}

pub open spec fn counts<S, P, W: Precision<S, P>>(w: W, frames: u64, y: P) -> bool {
    call_ensures(W::count, (&w, frames), y)
}

pub open spec fn rounds<S, P, W: Precision<S, P>>(w: W, x: P, y: usize) -> bool {
    call_ensures(W::nearest, (&w, x), y)
}

pub open spec fn angles<S, P, W: Precision<S, P>>(w: W, x: P, y: P) -> bool {
    call_ensures(W::times_pi, (&w, x), y)
}

pub open spec fn sines<S, P, W: Precision<S, P>>(w: W, angle: P, y: P) -> bool {
    call_ensures(W::sine, (&w, angle), y)
}

pub open spec fn cosines<S, P, W: Precision<S, P>>(w: W, angle: P, y: P) -> bool {
    call_ensures(W::cosine, (&w, angle), y)
}

} // verus!
