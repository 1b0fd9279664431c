//! One device that is not the clock master: what it captures, or plays, is
//! resampled against the master's clock on its way to, or from, the queues.

use crate::channel_layout;
use crate::drift::DriftCorrector;
use crate::engine_io;
use crate::master_clock::MasterClockHandle;
use crate::num::{self, get_whole, Sample};
use crate::precision::{self, Precision};
use crate::resample::Resampler;
use crate::ring::{self, Inbox, Outbox};
use crate::shared_count::{self, SharedCount, Tally};
use core::sync::atomic::AtomicU64;
use vstd::prelude::*;
use vstd::slice::slice_subrange;
use vstd::std_specs::ops::{MulSpec, SubSpec};

verus! {

/// A live view on the ratio a stage last resampled at, for any thread to look
/// at. It crosses as bits.
#[derive(Debug)]
pub struct RatioHandle {
    bits: SharedCount,
}

impl RatioHandle {
    /// Which stage's ratio this is a view on.
    pub closed spec fn cell(&self) -> AtomicU64 {
        self.bits.cell()
    }

    /// The ratio, as far as the stage has come.
    pub fn get<S, P, W: Precision<S, P>>(&self, w: &W) -> (r: S)
        ensures
            exists|seen: u64| #[trigger]
                shared_count::is_seen(self.cell(), seen) && precision::unpacks::<S, P, W>(
                    *w,
                    seen as u32,
                    r,
                ),
    {
        let seen: u64 = self.bits.get();
        assert(shared_count::is_seen(self.cell(), seen));
        w.of_bits(seen as u32)
    }

    /// The ratio, with the stage itself at hand.
    pub fn get_beside<S: Sample, P: Sample, W: Precision<S, P>>(
        &self,
        w: &W,
        stage: &DriftCorrectedIoStage<S, P>,
    ) -> (r: S)
        ensures
            self.cell() == stage.cell() ==> precision::unpacks::<S, P, W>(
                *w,
                stage.ratio_bits(),
                r,
            ),
    {
        let bits: u32 = self.bits.get_beside(&stage.shown) as u32;
        w.of_bits(bits)
    }
}

impl Clone for RatioHandle {
    fn clone(&self) -> (r: Self)
        ensures
            r.cell() == self.cell(),
    {
        RatioHandle { bits: self.bits.clone() }
    }
}

/// A device's side of the queues: one resampler per channel, and one drift
/// loop, since all channels of a device share its clock.
///
/// `base_ratio` is the ratio of the two nominal rates. The loop only corrects
/// what is left beside it. `progress_frames` is how far the device's side has
/// come, counted in the master's frames: what was produced by resampling, or
/// consumed by it.
pub struct DriftCorrectedIoStage<S, P> {
    resamplers: Vec<Resampler<S, P>>,
    corrector: DriftCorrector<S>,
    base_ratio: S,
    ratio: S,
    shown: Tally,
    progress_frames: u64,
}

/// The least of three counts.
pub open spec fn least(a: nat, b: nat, c: nat) -> nat {
    if a <= b && a <= c {
        a
    } else if b <= c {
        b
    } else {
        c
    }
}

fn get_least(a: usize, b: usize, c: usize) -> (r: usize)
    ensures
        r == least(a as nat, b as nat, c as nat),
{
    if a <= b && a <= c {
        a
    } else if b <= c {
        b
    } else {
        c
    }
}

/// What one channel of a capture callback did.
pub struct Captured<S> {
    /// What resampling produced.
    pub produced: Seq<S>,
    /// Which of it the queue took.
    pub took: Seq<bool>,
    pub consumed: int,
}

/// What one channel of a render callback did.
pub struct Rendered<S> {
    /// What was taken out of the queue.
    pub chunk: Seq<S>,
    /// What resampling made of it.
    pub produced: Seq<S>,
    pub consumed: int,
}

/// One channel of a capture callback: the input is resampled and offered to
/// the queue.
pub open spec fn captures<S: Sample, P: Sample, W: Precision<S, P>>(
    w: W,
    ratio: S,
    resampler: Resampler<S, P>,
    outbox: Outbox<S>,
    input: Seq<S>,
    room: int,
    done: Captured<S>,
    resampler_after: Resampler<S, P>,
    outbox_after: Outbox<S>,
) -> bool {
    &&& resampler.resampled(
        w,
        ratio,
        input,
        room,
        done.produced,
        &resampler_after,
        done.consumed,
    )
    &&& engine_io::fills(outbox, done.produced, done.took, outbox_after)
}

/// One channel of a render callback: as much as waits in the queue, and fits,
/// is taken out and resampled. Where that is not enough the rest is silent.
pub open spec fn renders_channel<S: Sample, P: Sample, W: Precision<S, P>>(
    w: W,
    ratio: S,
    resampler: Resampler<S, P>,
    inbox: Inbox<S>,
    room: int,
    done: Rendered<S>,
    resampler_after: Resampler<S, P>,
    inbox_after: Inbox<S>,
    output: Seq<S>,
) -> bool {
    &&& inbox_after.wf()
    &&& inbox_after.queue() == inbox.queue()
    &&& inbox_after.capacity() == inbox.capacity()
    &&& inbox_after.ready() >= ring::less(inbox.ready(), done.chunk.len())
    &&& done.chunk.len() <= room
    &&& done.chunk.len() < room ==> done.chunk.len() >= inbox.ready()
    &&& inbox_after.received() == inbox.received() + done.chunk
    &&& resampler.resampled(
        w,
        ratio,
        done.chunk,
        output.len() as int,
        done.produced,
        &resampler_after,
        done.consumed,
    )
    &&& output == done.produced + Seq::new(
        (output.len() - done.produced.len()) as nat,
        |i: int| num::whole::<S>(0),
    )
}

/// Offers the first `n` of `samples` to the queue.
fn push_all<S: Sample>(outbox: &mut Outbox<S>, samples: &Vec<S>, n: usize) -> (took: Ghost<
    Seq<bool>,
>)
    requires
        old(outbox).wf(),
        n <= samples@.len(),
    ensures
        engine_io::fills(*old(outbox), samples@.take(n as int), took@, *final(outbox)),
{
    let ghost all = samples@.take(n as int);
    let ghost mut took: Seq<bool> = Seq::empty();
    let mut i: usize = 0;
    assert(outbox.accepted() =~= old(outbox).accepted() + engine_io::kept(all, took));
    while i < n
        invariant
            i <= n,
            n <= samples@.len(),
            all == samples@.take(n as int),
            took.len() == i,
            old(outbox).wf(),
            outbox.wf(),
            outbox.queue() == old(outbox).queue(),
            outbox.capacity() == old(outbox).capacity(),
            outbox.accepted() == old(outbox).accepted() + engine_io::kept(all, took),
            outbox.room() == ring::less(old(outbox).room(), engine_io::kept(all, took).len()),
            forall|k: int|
                0 <= k < i && !(#[trigger] took[k]) ==> engine_io::kept(all, took.take(k)).len()
                    >= old(outbox).room(),
        decreases n - i,
    {
        let outcome = outbox.try_push(samples[i]);
        let ghost more = took.push(outcome is Ok);
        assert(more.drop_last() =~= took);
        assert(all[i as int] == samples@[i as int]);
        assert forall|k: int| 0 <= k < i + 1 && !(#[trigger] more[k]) implies engine_io::kept(
            all,
            more.take(k),
        ).len() >= old(outbox).room() by {
            if k < i {
                assert(!took[k]);
                assert(more.take(k) =~= took.take(k));
            } else {
                assert(more.take(k) =~= took);
            }
        }
        assert(outbox.accepted() =~= old(outbox).accepted() + engine_io::kept(all, more));
        proof {
            took = more;
        }
        i = i + 1;
    }
    Ghost(took)
}

/// Takes what waits in the queue into `scratch`, as far as it fits. Returns
/// how much it was.
fn pull_waiting<S: Sample>(inbox: &mut Inbox<S>, scratch: &mut Vec<S>) -> (available: usize)
    requires
        old(inbox).wf(),
    ensures
        final(inbox).wf(),
        final(inbox).queue() == old(inbox).queue(),
        final(inbox).capacity() == old(inbox).capacity(),
        final(inbox).ready() >= ring::less(old(inbox).ready(), available as nat),
        final(scratch)@.len() == old(scratch)@.len(),
        available <= old(scratch)@.len(),
        available < old(scratch)@.len() ==> available >= old(inbox).ready(),
        final(inbox).received() == old(inbox).received() + final(scratch)@.take(available as int),
{
    let waiting: usize = inbox.waiting();
    let available: usize = if waiting < scratch.len() {
        waiting
    } else {
        scratch.len()
    };
    let mut i: usize = 0;
    assert(inbox.received() =~= old(inbox).received() + scratch@.take(0));
    while i < available
        invariant
            i <= available <= scratch@.len(),
            scratch@.len() == old(scratch)@.len(),
            inbox.wf(),
            inbox.queue() == old(inbox).queue(),
            inbox.capacity() == old(inbox).capacity(),
            inbox.ready() >= available - i,
            inbox.ready() + i >= old(inbox).ready(),
            inbox.received() == old(inbox).received() + scratch@.take(i as int),
        decreases available - i,
    {
        match inbox.try_pop() {
            Some(sample) => {
                let ghost before = scratch@;
                scratch[i] = sample;
                assert(scratch@.take(i + 1) =~= before.take(i as int).push(sample));
                assert(inbox.received() =~= old(inbox).received() + scratch@.take(i + 1));
            },
            None => {},
        }
        i = i + 1;
    }
    available
}

impl<S: Sample, P: Sample> DriftCorrectedIoStage<S, P> {
    pub closed spec fn resampler(&self, channel: int) -> Resampler<S, P> {
        self.resamplers@[channel]
    }

    pub closed spec fn channels(&self) -> nat {
        self.resamplers@.len()
    }

    pub closed spec fn corrector(&self) -> DriftCorrector<S> {
        self.corrector
    }

    pub closed spec fn base_ratio(&self) -> S {
        self.base_ratio
    }

    pub closed spec fn ratio(&self) -> S {
        self.ratio
    }

    pub closed spec fn progress(&self) -> u64 {
        self.progress_frames
    }

    /// The ratio that handles on this stage look at.
    pub closed spec fn cell(&self) -> AtomicU64 {
        self.shown.cell()
    }

    /// The bits that are shown as the ratio.
    pub closed spec fn ratio_bits(&self) -> u32 {
        self.shown.count() as u32
    }

    /// Every channel's resampler is in order.
    pub open spec fn wf(&self) -> bool {
        &&& self.corrector().wf()
        &&& forall|c: int| 0 <= c < self.channels() ==> (#[trigger] self.resampler(c)).wf()
    }

    /// The ratio for the callback about to run is `ratio`: the loop is fed the
    /// distance between this side's progress and the master's position. Handles
    /// are shown its bits.
    pub open spec fn picks<W: Precision<S, P>>(&self, w: W, master: u64, after: &Self) -> bool {
        exists|here: P, there: P, error: S| #[trigger]
            self.measures(w, master, here, there, error) && after.corrector()
                == self.corrector().fed(error) && after.ratio() == self.base_ratio().mul_spec(
                self.corrector().ratio(error),
            ) && precision::packs::<S, P, W>(w, after.ratio(), after.ratio_bits())
    }

    /// The distance is `error`.
    pub open spec fn measures<W: Precision<S, P>>(
        &self,
        w: W,
        master: u64,
        here: P,
        there: P,
        error: S,
    ) -> bool {
        &&& precision::counts::<S, P, W>(w, self.progress(), here)
        &&& precision::counts::<S, P, W>(w, master, there)
        &&& precision::narrows(w, here.sub_spec(there), error)
    }

    /// A stage for `channel_count` channels, at the ratio of the nominal
    /// rates.
    pub fn new<W: Precision<S, P>>(
        w: &W,
        channel_count: usize,
        corrector: DriftCorrector<S>,
        base_ratio: S,
    ) -> (r: Self)
        requires
            num::lawful::<S>(),
            num::lawful::<P>(),
        ensures
            r.channels() == channel_count,
            r.corrector() == corrector,
            r.base_ratio() == base_ratio,
            r.ratio() == base_ratio,
            precision::packs::<S, P, W>(*w, base_ratio, r.ratio_bits()),
            r.progress() == 0,
            forall|c: int|
                0 <= c < channel_count ==> (#[trigger] r.resampler(c)).is_new(*w),
    {
        let mut resamplers: Vec<Resampler<S, P>> = Vec::new();
        let mut c: usize = 0;
        while c < channel_count
            invariant
                num::lawful::<S>(),
                num::lawful::<P>(),
                c <= channel_count,
                resamplers@.len() == c,
                forall|k: int|
                    0 <= k < c ==> (#[trigger] resamplers@[k]).is_new(*w),
            decreases channel_count - c,
        {
            resamplers.push(Resampler::new(w));
            c = c + 1;
        }
        DriftCorrectedIoStage {
            resamplers,
            corrector,
            base_ratio,
            ratio: base_ratio,
            shown: Tally::at(w.to_bits(base_ratio) as u64),
            progress_frames: 0,
        }
    }

    /// The ratio the resamplers run at: the base ratio times the loop's
    /// correction.
    pub fn get_ratio(&self) -> (r: S)
        ensures
            r == self.ratio(),
    {
        self.ratio
    }

    /// A view on that ratio.
    pub fn ratio_handle(&self) -> (r: RatioHandle)
        ensures
            r.cell() == self.cell(),
    {
        RatioHandle { bits: self.shown.view_on() }
    }

    /// How many frames have gone through.
    pub fn get_progress(&self) -> (r: u64)
        ensures
            r == self.progress(),
    {
        self.progress_frames
    }

    fn ratio_for_next_callback<W: Precision<S, P>>(&mut self, w: &W, master: u64) -> (r: S)
        requires
            num::lawful::<S>(),
            num::lawful::<P>(),
            old(self).wf(),
        ensures
            old(self).picks(*w, master, final(self)),
            r == final(self).ratio(),
            final(self).wf(),
            final(self).resamplers == old(self).resamplers,
            final(self).base_ratio == old(self).base_ratio,
            final(self).shown.cell() == old(self).shown.cell(),
            final(self).progress_frames == old(self).progress_frames,
    {
        let here: P = w.count(self.progress_frames);
        let there: P = w.count(master);
        let error: S = w.narrow(here - there);
        let correction: S = self.corrector.update(error);
        let ratio: S = self.base_ratio * correction;
        self.ratio = ratio;
        self.shown.set(w.to_bits(ratio) as u64);
        assert(old(self).measures(*w, master, here, there, error));
        assert forall|c: int| 0 <= c < self.channels() implies (#[trigger] self.resampler(c)).wf() by {
            assert(old(self).resampler(c).wf());
        }
        ratio
    }

    /// A capture callback, with the master at position `master`. The first
    /// `given` of `input` hold one buffer per channel, `outputs` one queue per
    /// channel; what the queues have no room for is dropped. Where the channels
    /// are not as many as those of the stage, the shorter side counts.
    /// `scratch` is where a channel is resampled.
    pub fn capture_at<W: Precision<S, P>>(
        &mut self,
        w: &W,
        input: &Vec<Vec<S>>,
        given: usize,
        master: u64,
        outputs: &mut Vec<Outbox<S>>,
        scratch: &mut Vec<S>,
    )
        requires
            num::lawful::<S>(),
            num::lawful::<P>(),
            old(self).wf(),
            given <= input@.len(),
            old(self).progress() + old(scratch)@.len() <= u64::MAX,
            forall|c: int| 0 <= c < old(outputs)@.len() ==> (#[trigger] old(outputs)@[c]).wf(),
        ensures
            old(self).picks(*w, master, final(self)),
            final(self).channels() == old(self).channels(),
            final(self).base_ratio() == old(self).base_ratio(),
            final(self).cell() == old(self).cell(),
            final(self).wf(),
            final(outputs)@.len() == old(outputs)@.len(),
            final(scratch)@.len() == old(scratch)@.len(),
            exists|done: Seq<Captured<S>>| #[trigger]
                old(self).captured(
                    *w,
                    channel_layout::samples(input@).take(given as int),
                    old(outputs)@,
                    old(scratch)@.len() as int,
                    done,
                    final(self),
                    final(outputs)@,
                ),
    {
        let ratio: S = self.ratio_for_next_callback(w, master);
        assert forall|c: int| 0 <= c < self.resamplers@.len() implies (
        #[trigger] self.resamplers@[c]).wf() by {
            assert(self.resampler(c).wf());
        }
        let ghost picked = *self;
        let ghost mut done: Seq<Captured<S>> = Seq::empty();
        let mut produced: usize = 0;
        let count: usize = get_least(self.resamplers.len(), given, outputs.len());
        let mut c: usize = 0;
        while c < count
            invariant
                num::lawful::<S>(),
                num::lawful::<P>(),
                ratio == self.ratio,
                c <= count,
                count <= self.resamplers@.len(),
                count <= input@.len(),
                count <= outputs@.len(),
                old(outputs)@.len() == outputs@.len(),
                old(self).resamplers@.len() == self.resamplers@.len(),
                scratch@.len() == old(scratch)@.len(),
                self.corrector == picked.corrector,
                self.base_ratio == picked.base_ratio,
                self.ratio == picked.ratio,
                self.shown == picked.shown,
                self.progress_frames == picked.progress_frames,
                forall|k: int|
                    0 <= k < self.resamplers@.len() ==> (#[trigger] self.resamplers@[k]).wf(),
                forall|k: int| 0 <= k < outputs@.len() ==> (#[trigger] outputs@[k]).wf(),
                forall|k: int|
                    c <= k < outputs@.len() ==> #[trigger] outputs@[k] == old(outputs)@[k],
                forall|k: int|
                    c <= k < self.resamplers@.len() ==> #[trigger] self.resamplers@[k] == old(
                        self,
                    ).resamplers@[k],
                done.len() == c,
                produced <= scratch@.len(),
                produced == (if c == 0 {
                    0
                } else {
                    done[c - 1].produced.len()
                }),
                forall|k: int|
                    0 <= k < c ==> captures(
                        *w,
                        ratio,
                        old(self).resamplers@[k],
                        old(outputs)@[k],
                        input@[k]@,
                        old(scratch)@.len() as int,
                        #[trigger] done[k],
                        self.resamplers@[k],
                        outputs@[k],
                    ),
            decreases count - c,
        {
            assert(self.resamplers@[c as int].wf());
            let (written, consumed) = self.resamplers[c].process(
                w,
                ratio,
                input[c].as_slice(),
                scratch,
            );
            assert(outputs@[c as int].wf());
            let took = push_all(&mut outputs[c], scratch, written);
            produced = written;
            proof {
                done = done.push(
                    Captured {
                        produced: scratch@.take(written as int),
                        took: took@,
                        consumed: consumed as int,
                    },
                );
            }
            c = c + 1;
        }
        assert(self.corrector() == picked.corrector() && self.base_ratio() == picked.base_ratio());
        self.progress_frames = self.progress_frames + produced as u64;
        assert(old(self).captured(
            *w,
            channel_layout::samples(input@).take(given as int),
            old(outputs)@,
            old(scratch)@.len() as int,
            done,
            self,
            outputs@,
        ));
    }

    /// What a capture callback does to the channels, and to the progress: the
    /// channels run in step, so the last one tells how far they came.
    pub open spec fn captured<W: Precision<S, P>>(
        &self,
        w: W,
        input: Seq<Seq<S>>,
        outputs: Seq<Outbox<S>>,
        room: int,
        done: Seq<Captured<S>>,
        after: &Self,
        outputs_after: Seq<Outbox<S>>,
    ) -> bool {
        &&& done.len() == least(self.channels(), input.len(), outputs.len())
        &&& after.progress() == self.progress() + (if done.len() == 0 {
            0
        } else {
            done.last().produced.len()
        })
        &&& forall|c: int|
            done.len() <= c < self.channels() ==> #[trigger] after.resampler(c) == self.resampler(c)
        &&& forall|c: int|
            done.len() <= c < outputs.len() ==> #[trigger] outputs_after[c] == outputs[c]
        &&& forall|c: int|
            0 <= c < done.len() ==> captures(
                w,
                after.ratio(),
                self.resampler(c),
                outputs[c],
                input[c],
                room,
                #[trigger] done[c],
                after.resampler(c),
                outputs_after[c],
            )
    }

    /// A render callback, with the master at position `master`. `inputs` holds
    /// one queue per channel, the first `given` of `output` one buffer per
    /// channel to fill. Where the channels are not as many as those of the stage,
    /// the shorter side counts.
    pub fn render_at<W: Precision<S, P>>(
        &mut self,
        w: &W,
        master: u64,
        inputs: &mut Vec<Inbox<S>>,
        output: &mut Vec<Vec<S>>,
        given: usize,
        scratch: &mut Vec<S>,
    )
        requires
            num::lawful::<S>(),
            num::lawful::<P>(),
            old(self).wf(),
            given <= old(output)@.len(),
            old(self).progress() + old(scratch)@.len() <= u64::MAX,
            forall|c: int| 0 <= c < old(inputs)@.len() ==> (#[trigger] old(inputs)@[c]).wf(),
        ensures
            old(self).picks(*w, master, final(self)),
            final(self).channels() == old(self).channels(),
            final(self).base_ratio() == old(self).base_ratio(),
            final(self).cell() == old(self).cell(),
            final(self).wf(),
            final(inputs)@.len() == old(inputs)@.len(),
            final(output)@.len() == old(output)@.len(),
            forall|c: int|
                0 <= c < old(output)@.len() ==> (#[trigger] final(output)@[c])@.len() == old(
                    output,
                )@[c]@.len(),
            forall|c: int|
                least(old(self).channels(), given as nat, old(inputs)@.len()) <= c < old(
                    output,
                )@.len() ==> #[trigger] final(output)@[c] == old(output)@[c],
            final(scratch)@.len() == old(scratch)@.len(),
            exists|done: Seq<Rendered<S>>| #[trigger]
                old(self).rendered(
                    *w,
                    old(inputs)@,
                    old(scratch)@.len() as int,
                    done,
                    final(self),
                    final(inputs)@,
                    channel_layout::samples(final(output)@).take(given as int),
                ),
    {
        let ratio: S = self.ratio_for_next_callback(w, master);
        assert forall|c: int| 0 <= c < self.resamplers@.len() implies (
        #[trigger] self.resamplers@[c]).wf() by {
            assert(self.resampler(c).wf());
        }
        let zero: S = get_whole(0);
        let ghost picked = *self;
        let ghost mut done: Seq<Rendered<S>> = Seq::empty();
        let mut consumed_total: usize = 0;
        let count: usize = get_least(self.resamplers.len(), given, inputs.len());
        let mut c: usize = 0;
        while c < count
            invariant
                num::lawful::<S>(),
                num::lawful::<P>(),
                zero == num::whole::<S>(0),
                ratio == self.ratio,
                c <= count,
                count <= self.resamplers@.len(),
                count <= inputs@.len(),
                count <= output@.len(),
                old(inputs)@.len() == inputs@.len(),
                old(output)@.len() == output@.len(),
                old(self).resamplers@.len() == self.resamplers@.len(),
                forall|k: int|
                    c <= k < output@.len() ==> #[trigger] output@[k] == old(output)@[k],
                scratch@.len() == old(scratch)@.len(),
                self.corrector == picked.corrector,
                self.base_ratio == picked.base_ratio,
                self.ratio == picked.ratio,
                self.shown == picked.shown,
                self.progress_frames == picked.progress_frames,
                forall|k: int|
                    0 <= k < self.resamplers@.len() ==> (#[trigger] self.resamplers@[k]).wf(),
                forall|k: int| 0 <= k < inputs@.len() ==> (#[trigger] inputs@[k]).wf(),
                forall|k: int|
                    c <= k < inputs@.len() ==> #[trigger] inputs@[k] == old(inputs)@[k],
                forall|k: int|
                    0 <= k < output@.len() ==> (#[trigger] output@[k])@.len() == old(
                        output,
                    )@[k]@.len(),
                forall|k: int|
                    c <= k < self.resamplers@.len() ==> #[trigger] self.resamplers@[k] == old(
                        self,
                    ).resamplers@[k],
                done.len() == c,
                consumed_total <= scratch@.len(),
                consumed_total == (if c == 0 {
                    0
                } else {
                    done[c - 1].consumed
                }),
                forall|k: int|
                    0 <= k < c ==> renders_channel(
                        *w,
                        ratio,
                        old(self).resamplers@[k],
                        old(inputs)@[k],
                        old(scratch)@.len() as int,
                        #[trigger] done[k],
                        self.resamplers@[k],
                        inputs@[k],
                        output@[k]@,
                    ),
            decreases count - c,
        {
            assert(self.resamplers@[c as int].wf());
            assert(inputs@[c as int].wf());
            let available: usize = pull_waiting(&mut inputs[c], scratch);
            let chunk = slice_subrange(scratch.as_slice(), 0, available);
            assert(chunk@ =~= scratch@.take(available as int));
            let (written, consumed) = self.resamplers[c].process(
                w,
                ratio,
                chunk,
                &mut output[c],
            );
            let ghost produced = output@[c as int]@.take(written as int);
            silence_from(&mut output[c], written, zero);
            consumed_total = consumed;
            proof {
                let done_here = Rendered {
                    chunk: scratch@.take(available as int),
                    produced,
                    consumed: consumed as int,
                };
                assert(output@[c as int]@ =~= produced + Seq::new(
                    (output@[c as int]@.len() - produced.len()) as nat,
                    |i: int| num::whole::<S>(0),
                ));
                done = done.push(done_here);
            }
            c = c + 1;
        }
        assert(self.corrector() == picked.corrector() && self.base_ratio() == picked.base_ratio());
        self.progress_frames = self.progress_frames + consumed_total as u64;
        assert(old(self).rendered(
            *w,
            old(inputs)@,
            old(scratch)@.len() as int,
            done,
            self,
            inputs@,
            channel_layout::samples(output@).take(given as int),
        ));
    }

    /// A capture callback, with the master wherever it is just now.
    pub fn on_capture<W: Precision<S, P>>(
        &mut self,
        w: &W,
        input: &Vec<Vec<S>>,
        master: &MasterClockHandle,
        outputs: &mut Vec<Outbox<S>>,
        scratch: &mut Vec<S>,
    )
        requires
            num::lawful::<S>(),
            num::lawful::<P>(),
            old(self).wf(),
            old(self).progress() + old(scratch)@.len() <= u64::MAX,
            forall|c: int| 0 <= c < old(outputs)@.len() ==> (#[trigger] old(outputs)@[c]).wf(),
        ensures
            exists|position: u64| #[trigger]
                old(self).picks(*w, position, final(self)) && shared_count::is_seen(
                    master.cell(),
                    position,
                ),
            final(self).channels() == old(self).channels(),
            final(self).base_ratio() == old(self).base_ratio(),
            final(self).cell() == old(self).cell(),
            final(self).wf(),
            final(outputs)@.len() == old(outputs)@.len(),
            final(scratch)@.len() == old(scratch)@.len(),
            exists|done: Seq<Captured<S>>| #[trigger]
                old(self).captured(
                    *w,
                    channel_layout::samples(input@),
                    old(outputs)@,
                    old(scratch)@.len() as int,
                    done,
                    final(self),
                    final(outputs)@,
                ),
    {
        assert(channel_layout::samples(input@).take(input@.len() as int)
            =~= channel_layout::samples(input@));
        self.capture_at(w, input, input.len(), master.frames(), outputs, scratch);
    }

    /// A render callback, with the master wherever it is just now.
    pub fn on_render<W: Precision<S, P>>(
        &mut self,
        w: &W,
        master: &MasterClockHandle,
        inputs: &mut Vec<Inbox<S>>,
        output: &mut Vec<Vec<S>>,
        scratch: &mut Vec<S>,
    )
        requires
            num::lawful::<S>(),
            num::lawful::<P>(),
            old(self).wf(),
            old(self).progress() + old(scratch)@.len() <= u64::MAX,
            forall|c: int| 0 <= c < old(inputs)@.len() ==> (#[trigger] old(inputs)@[c]).wf(),
        ensures
            exists|position: u64| #[trigger]
                old(self).picks(*w, position, final(self)) && shared_count::is_seen(
                    master.cell(),
                    position,
                ),
            final(self).channels() == old(self).channels(),
            final(self).base_ratio() == old(self).base_ratio(),
            final(self).cell() == old(self).cell(),
            final(self).wf(),
            final(inputs)@.len() == old(inputs)@.len(),
            final(output)@.len() == old(output)@.len(),
            forall|c: int|
                0 <= c < old(output)@.len() ==> (#[trigger] final(output)@[c])@.len() == old(
                    output,
                )@[c]@.len(),
            forall|c: int|
                least(old(self).channels(), old(output)@.len(), old(inputs)@.len()) <= c < old(
                    output,
                )@.len() ==> #[trigger] final(output)@[c] == old(output)@[c],
            final(scratch)@.len() == old(scratch)@.len(),
            exists|done: Seq<Rendered<S>>| #[trigger]
                old(self).rendered(
                    *w,
                    old(inputs)@,
                    old(scratch)@.len() as int,
                    done,
                    final(self),
                    final(inputs)@,
                    channel_layout::samples(final(output)@),
                ),
    {
        let given: usize = output.len();
        self.render_at(w, master.frames(), inputs, output, given, scratch);
        assert(channel_layout::samples(output@).take(given as int) =~= channel_layout::samples(
            output@,
        ));
    }

    /// What a render callback does to the channels, and to the progress.
    pub open spec fn rendered<W: Precision<S, P>>(
        &self,
        w: W,
        inputs: Seq<Inbox<S>>,
        room: int,
        done: Seq<Rendered<S>>,
        after: &Self,
        inputs_after: Seq<Inbox<S>>,
        output: Seq<Seq<S>>,
    ) -> bool {
        &&& done.len() == least(self.channels(), output.len(), inputs.len())
        &&& after.progress() == self.progress() + (if done.len() == 0 {
            0
        } else {
            done.last().consumed
        })
        &&& forall|c: int|
            done.len() <= c < self.channels() ==> #[trigger] after.resampler(c) == self.resampler(c)
        &&& forall|c: int|
            done.len() <= c < inputs.len() ==> #[trigger] inputs_after[c] == inputs[c]
        &&& forall|c: int|
            0 <= c < done.len() ==> renders_channel(
                w,
                after.ratio(),
                self.resampler(c),
                inputs[c],
                room,
                #[trigger] done[c],
                after.resampler(c),
                inputs_after[c],
                output[c],
            )
    }
}

/// Silences everything from place `from` on.
fn silence_from<S: Sample>(buffer: &mut Vec<S>, from: usize, zero: S)
    requires
        from <= old(buffer)@.len(),
    ensures
        final(buffer)@.len() == old(buffer)@.len(),
        forall|i: int|
            0 <= i < old(buffer)@.len() ==> #[trigger] final(buffer)@[i] == (if i < from {
                old(buffer)@[i]
            } else {
                zero
            }),
{
    let mut i: usize = from;
    while i < buffer.len()
        invariant
            from <= i <= buffer@.len(),
            buffer@.len() == old(buffer)@.len(),
            forall|k: int|
                0 <= k < buffer@.len() ==> #[trigger] buffer@[k] == (if from <= k < i {
                    zero
                } else {
                    old(buffer)@[k]
                }),
        decreases buffer@.len() - i,
    {
        buffer[i] = zero;
        i = i + 1;
    }
}

} // verus!
