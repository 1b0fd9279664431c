//! A whole equaliser as a file: its channels, of whatever number, with the
//! version of the format.

use crate::parametric_eq::{EqChannelParams, ParametricEq};
use vstd::prelude::*;

verus! {

/// The version of the format that is written.
pub const CURRENT_VERSION: u32 = 1;

/// What a file holds. The number of channels is not fixed, so a strip's file
/// can be loaded into a bus and the other way round.
pub struct EqFile<S> {
    pub version: u32,
    pub channels: Vec<EqChannelParams<S>>,
}

impl<S: Copy> EqFile<S> {
    /// The file holds every channel of the active memory of `eq`.
    pub open spec fn holds<const N: usize>(&self, eq: ParametricEq<S, N>) -> bool {
        &&& self.version == CURRENT_VERSION
        &&& self.channels@.len() == N
        &&& forall|c: int| 0 <= c < N ==> #[trigger] self.channels@[c] == eq.current(c)
    }

    /// Loading the file turns `before` into `after`: the channels it has
    /// replace those of the active memory, and nothing else changes.
    pub open spec fn loads<const N: usize>(
        &self,
        before: ParametricEq<S, N>,
        after: ParametricEq<S, N>,
    ) -> bool {
        &&& after.on == before.on
        &&& after.active == before.active
        &&& forall|c: int|
            0 <= c < N ==> #[trigger] after.current(c) == (if c < self.channels@.len() {
                self.channels@[c]
            } else {
                before.current(c)
            })
        &&& forall|c: int|
            0 <= c < N ==> #[trigger] after.stored(before.active.other(), c) == before.stored(
                before.active.other(),
                c,
            )
    }

    /// Takes the active memory of `eq`.
    pub fn capture<const N: usize>(eq: &ParametricEq<S, N>) -> (r: Self)
        ensures
            r.holds(*eq),
    {
        let mut channels: Vec<EqChannelParams<S>> = Vec::new();
        let mut c: usize = 0;
        while c < N
            invariant
                c <= N,
                channels@.len() == c,
                forall|k: int| 0 <= k < c ==> #[trigger] channels@[k] == eq.current(k),
            decreases N - c,
        {
            channels.push(*eq.channel_params(c));
            c = c + 1;
        }
        EqFile { version: CURRENT_VERSION, channels }
    }

    /// Puts the file's channels into the active memory of `eq`, as far as both
    /// have channels.
    pub fn apply<const N: usize>(&self, eq: &mut ParametricEq<S, N>)
        ensures
            self.loads(*old(eq), *final(eq)),
    {
        let mut c: usize = 0;
        while c < self.channels.len() && c < N
            invariant
                c <= N,
                c <= self.channels@.len(),
                eq.on == old(eq).on,
                eq.active == old(eq).active,
                forall|k: int|
                    0 <= k < N ==> #[trigger] eq.current(k) == (if k < c {
                        self.channels@[k]
                    } else {
                        old(eq).current(k)
                    }),
                forall|k: int|
                    0 <= k < N ==> #[trigger] eq.stored(old(eq).active.other(), k) == old(
                        eq,
                    ).stored(old(eq).active.other(), k),
            decreases N - c,
        {
            let params = self.channels[c];
            proof {
                crate::parametric_eq::law_edit_is_local(*eq, c as int, params);
            }
            eq.set_channel_params(c, params);
            c = c + 1;
        }
    }
}

/// A file taken from one equaliser and loaded into another makes the channels
/// they share the same, and leaves the others as they were.
pub proof fn law_file_carries_settings_over<S: Copy, const N: usize, const M: usize>(
    file: EqFile<S>,
    from: ParametricEq<S, N>,
    before: ParametricEq<S, M>,
    after: ParametricEq<S, M>,
    c: int,
)
    requires
        file.holds(from),
        file.loads(before, after),
        0 <= c < M,
    ensures
        after.current(c) == (if c < N {
            from.current(c)
        } else {
            before.current(c)
        }),
{
    if c < N {
        assert(file.channels@[c] == from.current(c));
    }
}

} // verus!
