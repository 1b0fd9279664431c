//! The fader law that every gain control shares.

use crate::elementary::{self, Elementary};
use crate::num::{self, get_whole, Sample};
use vstd::prelude::*;

verus! {

/// Decibels as an amplitude.
pub fn gain_db_to_linear<S: Sample, M: Elementary<S>>(m: &M, db: S) -> (r: S)
    requires
        num::lawful::<S>(),
    ensures
        elementary::in_linear(*m, db, r),
{
    m.power_of_ten(db / get_whole(20))
}

/// An amplitude in decibels.
pub fn gain_linear_to_db<S: Sample, M: Elementary<S>>(m: &M, linear: S) -> (r: S)
    requires
        num::lawful::<S>(),
    ensures
        elementary::in_db(*m, linear, r),
{
    let logarithm: S = m.log10(linear);
    assert(elementary::logarithms(*m, linear, logarithm));
    get_whole::<S>(20) * logarithm
}

} // verus!
