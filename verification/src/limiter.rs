//! The strip limiter: a ceiling on the loudest channel, applied to all.

use crate::elementary::{self, Elementary};
use crate::fader::gain_db_to_linear;
use crate::num::{self, get_larger, get_magnitude, get_whole, is_at_most, Sample};
use vstd::prelude::*;
use vstd::std_specs::ops::{DivSpec, MulSpec};

verus! {

/// The limiter's setting. The default ceiling is far above full scale.
#[derive(Debug, Clone, Copy, PartialEq)]
pub struct Limiter<S> {
    pub threshold_db: S,
}

impl<S: Sample> Limiter<S> {
    pub open spec fn open_ceiling() -> Self {
        Limiter { threshold_db: num::whole::<S>(12) }
    }
}

impl<S: Sample> Default for Limiter<S> {
    fn default() -> (r: Self)
        ensures
            num::lawful::<S>() ==> r == Self::open_ceiling(),
    {
        Limiter { threshold_db: S::from(12) }
    }
}

/// The largest magnitude among the channels, and at least zero.
pub open spec fn loudest<S: Sample>(channels: Seq<S>) -> S
    decreases channels.len(),
{
    if channels.len() == 0 {
        num::whole::<S>(0)
    } else {
        num::larger(loudest(channels.drop_last()), num::magnitude(channels.last()))
    }
}

/// Brings the channels under `threshold_linear`: all of them by one factor, or
/// none.
pub open spec fn limited<S: Sample>(channels: Seq<S>, threshold_linear: S) -> Seq<S> {
    let peak = loudest(channels);
    if num::at_most(peak, threshold_linear) {
        channels
    } else {
        channels.map_values(|s: S| s.mul_spec(threshold_linear.div_spec(peak)))
    }
}

impl<S: Sample> Limiter<S> {
    /// `after` is `before` limited to this threshold.
    pub open spec fn limits<M: Elementary<S>>(self, m: M, before: Seq<S>, after: Seq<S>) -> bool {
        exists|threshold_linear: S|
            #[trigger] elementary::in_linear(m, self.threshold_db, threshold_linear) && after
                == limited(before, threshold_linear)
    }

    /// Limits the channels to the threshold.
    pub fn process<const N: usize, M: Elementary<S>>(&self, m: &M, channels: &mut [S; N])
        requires
            num::lawful::<S>(),
        ensures
            self.limits(*m, old(channels)@, final(channels)@),
    {
        let threshold_linear = gain_db_to_linear(m, self.threshold_db);
        Self::limit(channels, threshold_linear);
        assert(elementary::in_linear(*m, self.threshold_db, threshold_linear));
    }

    /// Limits the channels to an amplitude.
    pub fn limit<const N: usize>(channels: &mut [S; N], threshold_linear: S)
        requires
            num::lawful::<S>(),
        ensures
            final(channels)@ == limited(old(channels)@, threshold_linear),
    {
        let mut peak: S = get_whole(0);
        let mut c: usize = 0;
        while c < N
            invariant
                num::lawful::<S>(),
                c <= N,
                peak == loudest(channels@.take(c as int)),
                channels@ == old(channels)@,
            decreases N - c,
        {
            assert(channels@.take(c + 1).drop_last() == channels@.take(c as int));
            peak = get_larger(peak, get_magnitude(channels[c]));
            c = c + 1;
        }
        assert(channels@.take(N as int) == channels@);
        if is_at_most(peak, threshold_linear) {
            return;
        }
        let gain = threshold_linear / peak;
        let mut i: usize = 0;
        while i < N
            invariant
                num::lawful::<S>(),
                i <= N,
                gain == threshold_linear.div_spec(loudest(old(channels)@)),
                forall|k: int|
                    0 <= k < N ==> #[trigger] channels@[k] == (if k < i {
                        old(channels)@[k].mul_spec(gain)
                    } else {
                        old(channels)@[k]
                    }),
            decreases N - i,
        {
            channels[i] = channels[i] * gain;
            i = i + 1;
        }
        assert(channels@ == limited(old(channels)@, threshold_linear));
    }
}

/// Below the ceiling the limiter does nothing at all.
pub proof fn law_quiet_frames_pass_untouched<S: Sample>(channels: Seq<S>, threshold_linear: S)
    requires
        num::at_most(loudest(channels), threshold_linear),
    ensures
        limited(channels, threshold_linear) == channels,
{
}

} // verus!
