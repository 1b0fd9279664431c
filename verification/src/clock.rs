//! Clock master selection, and the clock the engine runs on when no device
//! can be the master.

use vstd::prelude::*;

verus! {

/// A device object id of the audio hardware layer.
pub type DeviceId = u32;

#[derive(Debug, Clone, Copy, PartialEq, Eq, Structural)]
pub enum ClockSource {
    Device(DeviceId),
    Internal,
}

/// The clock master for a configured main output and the devices that are
/// alive.
pub open spec fn resolved(configured: Option<DeviceId>, alive: Seq<DeviceId>) -> ClockSource {
    match configured {
        Some(id) => if alive.contains(id) {
            ClockSource::Device(id)
        } else {
            ClockSource::Internal
        },
        None => ClockSource::Internal,
    }
}

/// Picks the clock master: the configured main output where it is present,
/// the internal clock otherwise.
pub fn resolve_clock_source(configured: Option<DeviceId>, alive: &[DeviceId]) -> (r: ClockSource)
    ensures
        r == resolved(configured, alive@),
{
    match configured {
        Some(id) => {
            let mut i: usize = 0;
            while i < alive.len()
                invariant
                    configured == Some(id),
                    i <= alive.len(),
                    forall|k: int| 0 <= k < i ==> alive@[k] != id,
                decreases alive.len() - i,
            {
                if alive[i] == id {
                    assert(alive@[i as int] == id);
                    return ClockSource::Device(id);
                }
                i = i + 1;
            }
            ClockSource::Internal
        },
        None => ClockSource::Internal,
    }
}

/// The clock master is never a device that is not there, and never a device
/// other than the configured one.
pub proof fn law_master_is_the_configured_live_device(
    configured: Option<DeviceId>,
    alive: Seq<DeviceId>,
)
    ensures
        resolved(configured, alive) matches ClockSource::Device(id) ==> configured == Some(id)
            && alive.contains(id),
        resolved(configured, alive) == ClockSource::Internal <==> (configured is None
            || !alive.contains(configured->0)),
{
}

/// A frame counter standing in for a device clock.
#[derive(Debug, Clone, Copy)]
pub struct InternalClock {
    sample_rate_hz: u32,
    frames_produced: u64,
}

impl InternalClock {
    pub closed spec fn rate(&self) -> u32 {
        self.sample_rate_hz
    }

    pub closed spec fn produced(&self) -> u64 {
        self.frames_produced
    }

    pub fn new(sample_rate_hz: u32) -> (r: Self)
        ensures
            r.rate() == sample_rate_hz,
            r.produced() == 0,
    {
        InternalClock { sample_rate_hz, frames_produced: 0 }
    }

    pub fn sample_rate_hz(&self) -> (r: u32)
        ensures
            r == self.rate(),
    {
        self.sample_rate_hz
    }

    pub fn frames_produced(&self) -> (r: u64)
        ensures
            r == self.produced(),
    {
        self.frames_produced
    }

    /// Advances by one block of `block_frames` frames.
    pub fn tick(&mut self, block_frames: u32)
        requires
            old(self).produced() + block_frames <= u64::MAX,
        ensures
            final(self).produced() == old(self).produced() + block_frames,
            final(self).rate() == old(self).rate(),
    {
        self.frames_produced = self.frames_produced + block_frames as u64;
    }
}

} // verus!
