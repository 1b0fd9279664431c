//! The callbacks of a device that is not the clock master, capturing and
//! playing.

use crate::channel_layout;
use crate::device::{
    read_input_channels_planar,
    write_output_channels,
    DeviceBuffers,
    MAX_IO_CHANNELS,
};
use crate::ioproc::{Captured, DriftCorrectedIoStage, RatioHandle, Rendered};
use crate::master_clock::MasterClockHandle;
use crate::num::{self, get_whole, Sample};
use crate::precision::Precision;
use crate::ring::{Inbox, Outbox};
use crate::shared_count;
use vstd::prelude::*;

verus! {

/// A capturing device: its stage, the queues it fills, and where a channel is
/// resampled. Callbacks of up to `scratch_capacity` frames are provided for.
#[verifier::reject_recursive_types(S)]
#[verifier::reject_recursive_types(P)]
pub struct CaptureIoProcContext<S, P> {
    stage: DriftCorrectedIoStage<S, P>,
    outputs: Vec<Outbox<S>>,
    scratch: Vec<S>,
    planar: Vec<Vec<S>>,
}

/// A playing device: its stage, the queues it empties, and where a channel is
/// resampled.
#[verifier::reject_recursive_types(S)]
#[verifier::reject_recursive_types(P)]
pub struct RenderIoProcContext<S, P> {
    stage: DriftCorrectedIoStage<S, P>,
    inputs: Vec<Inbox<S>>,
    scratch: Vec<S>,
    planar: Vec<Vec<S>>,
}

/// `count` empty channels with room for `capacity` samples each.
fn empty_channels<S>(count: usize, capacity: usize) -> (r: Vec<Vec<S>>)
    ensures
        r@.len() == count,
{
    let mut r: Vec<Vec<S>> = Vec::new();
    let mut c: usize = 0;
    while c < count
        invariant
            c <= count,
            r@.len() == c,
        decreases count - c,
    {
        r.push(Vec::with_capacity(capacity));
        c = c + 1;
    }
    r
}

impl<S: Sample, P: Sample> CaptureIoProcContext<S, P> {
    pub closed spec fn stage(&self) -> DriftCorrectedIoStage<S, P> {
        self.stage
    }

    pub closed spec fn outputs(&self) -> Seq<Outbox<S>> {
        self.outputs@
    }

    pub closed spec fn capacity(&self) -> nat {
        self.scratch@.len()
    }

    pub closed spec fn wf(&self) -> bool {
        &&& self.stage.wf()
        &&& self.stage.channels() == self.outputs@.len()
        &&& self.planar@.len() == MAX_IO_CHANNELS
        &&& forall|c: int| 0 <= c < self.outputs@.len() ==> (#[trigger] self.outputs@[c]).wf()
    }

    pub fn new(
        stage: DriftCorrectedIoStage<S, P>,
        outputs: Vec<Outbox<S>>,
        scratch_capacity: usize,
    ) -> (r: Self)
        requires
            num::lawful::<S>(),
            stage.wf(),
            stage.channels() == outputs@.len(),
            forall|c: int| 0 <= c < outputs@.len() ==> (#[trigger] outputs@[c]).wf(),
        ensures
            r.wf(),
            r.stage() == stage,
            r.outputs() == outputs@,
            r.capacity() == scratch_capacity,
    {
        let zero: S = get_whole(0);
        CaptureIoProcContext {
            stage,
            outputs,
            scratch: vec![zero; scratch_capacity],
            planar: empty_channels(MAX_IO_CHANNELS, scratch_capacity),
        }
    }

    pub fn channel_count(&self) -> (r: usize)
        ensures
            r == self.outputs().len(),
    {
        self.outputs.len()
    }

    /// A view on the ratio the device runs at.
    pub fn ratio_handle(&self) -> (r: RatioHandle)
        ensures
            r.cell() == self.stage().cell(),
    {
        self.stage.ratio_handle()
    }

    /// How many frames have gone through.
    pub fn get_progress(&self) -> (r: u64)
        ensures
            r == self.stage().progress(),
    {
        self.stage.get_progress()
    }

    /// One callback, with the master wherever it is just now.
    pub fn on_input<W: Precision<S, P>>(
        &mut self,
        w: &W,
        master: &MasterClockHandle,
        list: &DeviceBuffers<S>,
    )
        requires
            num::lawful::<S>(),
            num::lawful::<P>(),
            old(self).wf(),
            list.combined(old(self).outputs().len() as int) ==> old(self).capacity() > 0,
            old(self).stage().progress() + old(self).capacity() <= u64::MAX,
        ensures
            final(self).wf(),
            final(self).capacity() == old(self).capacity(),
            final(self).outputs().len() == old(self).outputs().len(),
            exists|position: u64| #[trigger]
                old(self).stage().picks(*w, position, &final(self).stage())
                    && shared_count::is_seen(master.cell(), position),
            final(self).stage().base_ratio() == old(self).stage().base_ratio(),
            final(self).stage().cell() == old(self).stage().cell(),
            exists|done: Seq<Captured<S>>| #[trigger]
                old(self).stage().captured(
                    *w,
                    list.planar(old(self).outputs().len() as int, old(self).capacity() as int),
                    old(self).outputs(),
                    old(self).capacity() as int,
                    done,
                    &final(self).stage(),
                    final(self).outputs(),
                ),
    {
        self.input_at(w, master.frames(), list);
    }

    /// One callback, with the master at position `master`: the channels are
    /// taken apart and captured.
    pub fn input_at<W: Precision<S, P>>(
        &mut self,
        w: &W,
        master: u64,
        list: &DeviceBuffers<S>,
    )
        requires
            num::lawful::<S>(),
            num::lawful::<P>(),
            old(self).wf(),
            list.combined(old(self).outputs().len() as int) ==> old(self).capacity() > 0,
            old(self).stage().progress() + old(self).capacity() <= u64::MAX,
        ensures
            final(self).wf(),
            final(self).capacity() == old(self).capacity(),
            final(self).outputs().len() == old(self).outputs().len(),
            old(self).stage().picks(*w, master, &final(self).stage()),
            final(self).stage().base_ratio() == old(self).stage().base_ratio(),
            final(self).stage().cell() == old(self).stage().cell(),
            exists|done: Seq<Captured<S>>| #[trigger]
                old(self).stage().captured(
                    *w,
                    list.planar(old(self).outputs().len() as int, old(self).capacity() as int),
                    old(self).outputs(),
                    old(self).capacity() as int,
                    done,
                    &final(self).stage(),
                    final(self).outputs(),
                ),
    {
        let expected: usize = self.outputs.len();
        let capacity: usize = self.scratch.len();
        read_input_channels_planar(list, expected, capacity, &mut self.planar);
        let given: usize = list.get_used(expected);
        self.stage.capture_at(
            w,
            &self.planar,
            given,
            master,
            &mut self.outputs,
            &mut self.scratch,
        );
        let ghost done = choose|done: Seq<Captured<S>>| #[trigger]
            old(self).stage.captured(
                *w,
                channel_layout::samples(self.planar@).take(given as int),
                old(self).outputs@,
                capacity as int,
                done,
                &self.stage,
                self.outputs@,
            );
        assert(old(self).stage().captured(
            *w,
            list.planar(expected as int, capacity as int),
            old(self).outputs(),
            capacity as int,
            done,
            &self.stage(),
            self.outputs(),
        ));
        assert forall|c: int| 0 <= c < self.outputs@.len() implies (
        #[trigger] self.outputs@[c]).wf() by {
            assert(old(self).outputs@[c].wf());
            if c < done.len() {
                let d = done[c];
            }
        }
    }
}

impl<S: Sample, P: Sample> RenderIoProcContext<S, P> {
    pub closed spec fn stage(&self) -> DriftCorrectedIoStage<S, P> {
        self.stage
    }

    pub closed spec fn inputs(&self) -> Seq<Inbox<S>> {
        self.inputs@
    }

    pub closed spec fn capacity(&self) -> nat {
        self.scratch@.len()
    }

    pub closed spec fn wf(&self) -> bool {
        &&& self.stage.wf()
        &&& self.stage.channels() == self.inputs@.len()
        &&& self.planar@.len() == MAX_IO_CHANNELS
        &&& forall|c: int| 0 <= c < self.inputs@.len() ==> (#[trigger] self.inputs@[c]).wf()
    }

    pub fn new(
        stage: DriftCorrectedIoStage<S, P>,
        inputs: Vec<Inbox<S>>,
        scratch_capacity: usize,
    ) -> (r: Self)
        requires
            num::lawful::<S>(),
            stage.wf(),
            stage.channels() == inputs@.len(),
            forall|c: int| 0 <= c < inputs@.len() ==> (#[trigger] inputs@[c]).wf(),
        ensures
            r.wf(),
            r.stage() == stage,
            r.inputs() == inputs@,
            r.capacity() == scratch_capacity,
    {
        let zero: S = get_whole(0);
        RenderIoProcContext {
            stage,
            inputs,
            scratch: vec![zero; scratch_capacity],
            planar: empty_channels(MAX_IO_CHANNELS, scratch_capacity),
        }
    }

    pub fn channel_count(&self) -> (r: usize)
        ensures
            r == self.inputs().len(),
    {
        self.inputs.len()
    }

    /// A view on the ratio the device runs at.
    pub fn ratio_handle(&self) -> (r: RatioHandle)
        ensures
            r.cell() == self.stage().cell(),
    {
        self.stage.ratio_handle()
    }

    /// How many frames have gone through.
    pub fn get_progress(&self) -> (r: u64)
        ensures
            r == self.stage().progress(),
    {
        self.stage.get_progress()
    }

    /// The channels `played` are what the stage rendered in this callback, and
    /// the buffers hold them.
    pub open spec fn plays<W: Precision<S, P>>(
        &self,
        w: W,
        list: DeviceBuffers<S>,
        done: Seq<Rendered<S>>,
        played: Seq<Seq<S>>,
        after: &Self,
        list_after: DeviceBuffers<S>,
    ) -> bool {
        let expected = self.inputs().len() as int;
        let capacity = self.capacity() as int;
        &&& self.stage().rendered(
            w,
            self.inputs(),
            capacity,
            done,
            &after.stage(),
            after.inputs(),
            played,
        )
        &&& played.len() == list.filled(expected)
        &&& forall|c: int|
            0 <= c < played.len() ==> (#[trigger] played[c]).len() == list.frames(
                expected,
                capacity,
                c,
            )
        &&& list_after.counts == list.counts
        &&& list_after.data@.len() == list.data@.len()
        &&& forall|k: int|
            0 <= k < list.data@.len() ==> (#[trigger] list_after.data@[k])@.len()
                == list.data@[k]@.len()
        &&& forall|k: int, i: int|
            0 <= k < list.data@.len() && 0 <= i < list.data@[k]@.len()
                ==> #[trigger] list_after.data@[k]@[i] == list.with_channels(
                expected,
                capacity,
                played,
                k,
                i,
            )
    }

    /// One callback, with the master wherever it is just now.
    pub fn on_output<W: Precision<S, P>>(
        &mut self,
        w: &W,
        master: &MasterClockHandle,
        list: &mut DeviceBuffers<S>,
    )
        requires
            num::lawful::<S>(),
            num::lawful::<P>(),
            old(self).wf(),
            old(list).combined(old(self).inputs().len() as int) ==> old(self).capacity() > 0,
            old(self).stage().progress() + old(self).capacity() <= u64::MAX,
        ensures
            final(self).wf(),
            final(self).capacity() == old(self).capacity(),
            final(self).inputs().len() == old(self).inputs().len(),
            exists|position: u64| #[trigger]
                old(self).stage().picks(*w, position, &final(self).stage())
                    && shared_count::is_seen(master.cell(), position),
            final(self).stage().base_ratio() == old(self).stage().base_ratio(),
            final(self).stage().cell() == old(self).stage().cell(),
            exists|done: Seq<Rendered<S>>, played: Seq<Seq<S>>| #[trigger]
                old(self).plays(*w, *old(list), done, played, final(self), *final(list)),
    {
        self.output_at(w, master.frames(), list);
    }

    /// One callback, with the master at position `master`: the channels are
    /// rendered and put together.
    pub fn output_at<W: Precision<S, P>>(
        &mut self,
        w: &W,
        master: u64,
        list: &mut DeviceBuffers<S>,
    )
        requires
            num::lawful::<S>(),
            num::lawful::<P>(),
            old(self).wf(),
            old(list).combined(old(self).inputs().len() as int) ==> old(self).capacity() > 0,
            old(self).stage().progress() + old(self).capacity() <= u64::MAX,
        ensures
            final(self).wf(),
            final(self).capacity() == old(self).capacity(),
            final(self).inputs().len() == old(self).inputs().len(),
            old(self).stage().picks(*w, master, &final(self).stage()),
            final(self).stage().base_ratio() == old(self).stage().base_ratio(),
            final(self).stage().cell() == old(self).stage().cell(),
            exists|done: Seq<Rendered<S>>, played: Seq<Seq<S>>| #[trigger]
                old(self).plays(*w, *old(list), done, played, final(self), *final(list)),
    {
        let expected: usize = self.inputs.len();
        let capacity: usize = self.scratch.len();
        let zero: S = get_whole(0);
        let combined: bool = list.data.len() == 1 && expected > 1;
        let given: usize = list.get_filled(expected);
        let mut c: usize = 0;
        while c < given
            invariant
                c <= given,
                given == list.filled(expected as int),
                expected == self.inputs@.len(),
                capacity == self.scratch@.len(),
                combined == list.combined(expected as int),
                *list == *old(list),
                self.planar@.len() == MAX_IO_CHANNELS,
                self.stage == old(self).stage,
                self.inputs == old(self).inputs,
                self.scratch == old(self).scratch,
                forall|k: int|
                    0 <= k < c ==> (#[trigger] self.planar@[k])@.len() == list.frames(
                        expected as int,
                        capacity as int,
                        k,
                    ),
            decreases given - c,
        {
            let frames: usize = if combined {
                let n: usize = list.data[0].len() / expected;
                if n < capacity {
                    n
                } else {
                    capacity
                }
            } else {
                list.data[c].len()
            };
            self.planar[c].resize(frames, zero);
            c = c + 1;
        }
        self.stage.render_at(
            w,
            master,
            &mut self.inputs,
            &mut self.planar,
            given,
            &mut self.scratch,
        );
        let ghost played = channel_layout::samples(self.planar@).take(given as int);
        let ghost done = choose|done: Seq<Rendered<S>>| #[trigger]
            old(self).stage.rendered(
                *w,
                old(self).inputs@,
                capacity as int,
                done,
                &self.stage,
                self.inputs@,
                played,
            );
        assert forall|c: int| 0 <= c < given implies (
        #[trigger] self.planar@[c])@.len() == list.frames(
            expected as int,
            capacity as int,
            c,
        ) by {}
        write_output_channels(list, expected, capacity, &self.planar);
        assert forall|c: int| 0 <= c < self.inputs@.len() implies (
        #[trigger] self.inputs@[c]).wf() by {
            assert(old(self).inputs@[c].wf());
            if c < done.len() {
                let d = done[c];
            }
        }
        assert(old(self).plays(*w, *old(list), done, played, self, *list));
    }
}

} // verus!
