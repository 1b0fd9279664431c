//! A scope that stands for the audio callback.

use vstd::prelude::*;

verus! {

/// Runs `f` as the audio callback would run it, and gives back what it gives.
pub fn assert_realtime<T, F: FnOnce() -> T>(f: F) -> (r: T)
    requires
        f.requires(()),
    ensures
        f.ensures((), r),
{
    f()
}

} // verus!
