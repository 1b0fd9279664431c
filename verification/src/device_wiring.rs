//! The queues between a device and the engine.

use crate::device_callback::{CaptureIoProcContext, RenderIoProcContext};
use crate::drift::DriftCorrector;
use crate::engine_io::{BusSink, StripSource};
use crate::ioproc::DriftCorrectedIoStage;
use crate::num::{self, Sample};
use crate::precision::{self, Precision};
use crate::ring::{self, channel, Inbox, Outbox};
use vstd::prelude::*;

verus! {

/// The two lists are the two ends of the same new queues, each with room for
/// `capacity` samples.
pub open spec fn connected<S>(
    outboxes: Seq<Outbox<S>>,
    inboxes: Seq<Inbox<S>>,
    capacity: nat,
) -> bool {
    &&& outboxes.len() == inboxes.len()
    &&& forall|c: int|
        0 <= c < outboxes.len() ==> (#[trigger] outboxes[c]).wf() && outboxes[c].sent() == 0
            && outboxes[c].capacity() == capacity && ring::in_step(outboxes[c], inboxes[c])
    &&& forall|c: int|
        0 <= c < inboxes.len() ==> (#[trigger] inboxes[c]).wf() && inboxes[c].taken() == 0
}

/// One queue per channel.
pub fn new_queues<S>(channel_count: usize, ring_capacity: usize) -> (r: (
    Vec<Outbox<S>>,
    Vec<Inbox<S>>,
))
    requires
        ring::fits::<S>(ring_capacity as int),
    ensures
        r.0@.len() == channel_count,
        connected(r.0@, r.1@, ring_capacity as nat),
{
    let mut outboxes: Vec<Outbox<S>> = Vec::new();
    let mut inboxes: Vec<Inbox<S>> = Vec::new();
    let mut c: usize = 0;
    while c < channel_count
        invariant
            ring::fits::<S>(ring_capacity as int),
            c <= channel_count,
            outboxes@.len() == c,
            connected(outboxes@, inboxes@, ring_capacity as nat),
        decreases channel_count - c,
    {
        let (outbox, inbox) = channel(ring_capacity);
        outboxes.push(outbox);
        inboxes.push(inbox);
        c = c + 1;
    }
    (outboxes, inboxes)
}

/// A capturing device and the strip source it feeds.
pub fn wire_capture<S: Sample, P: Sample, W: Precision<S, P>>(
    w: &W,
    channel_count: usize,
    corrector: DriftCorrector<S>,
    ring_capacity: usize,
    base_ratio: S,
) -> (r: (CaptureIoProcContext<S, P>, StripSource<S>))
    requires
        num::lawful::<S>(),
        num::lawful::<P>(),
        ring::fits::<S>(ring_capacity as int),
        corrector.wf(),
    ensures
        r.0.wf(),
        r.0.outputs().len() == channel_count,
        r.0.capacity() == ring_capacity,
        r.0.stage().corrector() == corrector,
        r.0.stage().base_ratio() == base_ratio,
        r.0.stage().ratio() == base_ratio,
        r.0.stage().progress() == 0,
        precision::packs::<S, P, W>(*w, base_ratio, r.0.stage().ratio_bits()),
        forall|c: int|
            0 <= c < channel_count ==> (#[trigger] r.0.stage().resampler(c)).is_new(*w),
        r.1.wf(),
        r.1.underruns.count() == 0,
        connected(r.0.outputs(), r.1.channels@, ring_capacity as nat),
{
    let (outboxes, inboxes) = new_queues(channel_count, ring_capacity);
    let stage: DriftCorrectedIoStage<S, P> = DriftCorrectedIoStage::new(
        w,
        channel_count,
        corrector,
        base_ratio,
    );
    let context = CaptureIoProcContext::new(stage, outboxes, ring_capacity);
    (context, StripSource::new(inboxes))
}

/// A playing device and the bus sink that feeds it.
pub fn wire_render<S: Sample, P: Sample, W: Precision<S, P>>(
    w: &W,
    channel_count: usize,
    corrector: DriftCorrector<S>,
    ring_capacity: usize,
    base_ratio: S,
) -> (r: (RenderIoProcContext<S, P>, BusSink<S>))
    requires
        num::lawful::<S>(),
        num::lawful::<P>(),
        ring::fits::<S>(ring_capacity as int),
        corrector.wf(),
    ensures
        r.0.wf(),
        r.0.inputs().len() == channel_count,
        r.0.capacity() == ring_capacity,
        r.0.stage().corrector() == corrector,
        r.0.stage().base_ratio() == base_ratio,
        r.0.stage().ratio() == base_ratio,
        r.0.stage().progress() == 0,
        precision::packs::<S, P, W>(*w, base_ratio, r.0.stage().ratio_bits()),
        forall|c: int|
            0 <= c < channel_count ==> (#[trigger] r.0.stage().resampler(c)).is_new(*w),
        r.1.wf(),
        r.1.overruns.count() == 0,
        connected(r.1.channels@, r.0.inputs(), ring_capacity as nat),
{
    let (outboxes, inboxes) = new_queues(channel_count, ring_capacity);
    let stage: DriftCorrectedIoStage<S, P> = DriftCorrectedIoStage::new(
        w,
        channel_count,
        corrector,
        base_ratio,
    );
    let context = RenderIoProcContext::new(stage, inboxes, ring_capacity);
    (context, BusSink::new(outboxes))
}

} // verus!
