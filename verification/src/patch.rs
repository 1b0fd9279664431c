//! The composite and insert patch: which strip channel feeds each channel of
//! a bus in Composite mode, and which insert sends are on.

use crate::CHANNELS;
use vstd::prelude::*;

verus! {

/// Insert switches of the patch.
pub const NUM_INSERTS: usize = 22;

#[derive(Debug, Clone, Copy, PartialEq, Eq, Structural)]
pub enum CompositeSource {
    /// The bus's own summed channel.
    Default,
    Strip { strip: usize, channel: usize },
}

impl Default for CompositeSource {
    fn default() -> (r: Self)
        ensures
            r == CompositeSource::Default,
    {
        CompositeSource::Default
    }
}

pub struct Patch {
    pub composite: [CompositeSource; CHANNELS],
    pub composite_post_fader: bool,
    pub insert: [bool; NUM_INSERTS],
    pub insert_post_fx: bool,
}

impl Default for Patch {
    fn default() -> (r: Self)
        ensures
            forall|c: int| 0 <= c < CHANNELS ==> r.composite@[c] == CompositeSource::Default,
            forall|i: int| 0 <= i < NUM_INSERTS ==> !r.insert@[i],
            !r.composite_post_fader,
            !r.insert_post_fx,
    {
        Patch {
            composite: [CompositeSource::Default; CHANNELS],
            composite_post_fader: false,
            insert: [false; NUM_INSERTS],
            insert_post_fx: false,
        }
    }
}

impl Patch {
    /// Slot `c` of the composite takes its signal from `strip`.
    pub open spec fn slot_taps(&self, c: int, strip: usize) -> bool {
        self.composite@[c] matches CompositeSource::Strip { strip: s, .. } && s == strip
    }

    /// Some slot of the composite takes its signal from `strip`.
    pub open spec fn taps(&self, strip: usize) -> bool {
        exists|c: int| 0 <= c < CHANNELS && self.slot_taps(c, strip)
    }

    /// Every strip and channel a slot names exists.
    pub open spec fn wf(&self) -> bool {
        forall|c: int|
            0 <= c < CHANNELS ==> match #[trigger] self.composite@[c] {
                CompositeSource::Default => true,
                CompositeSource::Strip { strip, channel } => strip < crate::NUM_STRIPS && channel
                    < CHANNELS,
            }
    }

    pub fn composite_references_strip(&self, strip: usize) -> (r: bool)
        ensures
            r == self.taps(strip),
    {
        let mut c: usize = 0;
        while c < CHANNELS
            invariant
                c <= CHANNELS,
                forall|k: int| 0 <= k < c ==> !self.slot_taps(k, strip),
            decreases CHANNELS - c,
        {
            if let CompositeSource::Strip { strip: s, .. } = self.composite[c] {
                if s == strip {
                    assert(self.slot_taps(c as int, strip));
                    return true;
                }
            }
            c = c + 1;
        }
        false
    }
}

} // verus!
