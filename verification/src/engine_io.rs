//! The engine between its devices: what the capture queues hold goes in, what
//! the buses play goes out, once per callback of the clock master.

use crate::meter;
use crate::num::{self, get_whole, Sample};
use crate::ring::{self, Inbox, Outbox};
use crate::shared_count::{self, SharedCount, Tally};
use crate::{Frame, CHANNELS};
use core::sync::atomic::AtomicU64;
use vstd::prelude::*;

verus! {

/// A live view on the number of samples that were missing, or for which there
/// was no room, for any thread to look at. The count itself is kept by the
/// source or sink, and wraps.
#[derive(Debug)]
pub struct DropoutCounter {
    shown: SharedCount,
}

impl DropoutCounter {
    /// Which count this is a view on.
    pub closed spec fn cell(&self) -> AtomicU64 {
        self.shown.cell()
    }

    /// The count, as far as the thread that keeps it has come.
    pub fn get(&self) -> (r: u64)
        ensures
            shared_count::is_seen(self.cell(), r),
    {
        self.shown.get()
    }

    /// The count, with that of the source or sink itself at hand.
    pub fn get_beside(&self, keeper: &Tally) -> (r: u64)
        ensures
            self.cell() == keeper.cell() ==> r == keeper.count(),
    {
        self.shown.get_beside(keeper)
    }
}

impl Default for DropoutCounter {
    /// A view on a count of its own, which starts at zero and which nobody keeps.
    fn default() -> (r: Self)
        ensures
            shared_count::starts_at(r.cell(), 0),
    {
        DropoutCounter { shown: Tally::default().view_on() }
    }
}

impl Clone for DropoutCounter {
    fn clone(&self) -> (r: Self)
        ensures
            r.cell() == self.cell(),
    {
        DropoutCounter { shown: self.shown.clone() }
    }
}

/// What there was to take, of the attempts `got`.
pub open spec fn popped<T>(got: Seq<Option<T>>) -> Seq<T>
    decreases got.len(),
{
    if got.len() == 0 {
        Seq::empty()
    } else {
        match got.last() {
            Some(item) => popped(got.drop_last()).push(item),
            None => popped(got.drop_last()),
        }
    }
}

/// How many of the attempts `got` found nothing.
pub open spec fn misses<T>(got: Seq<Option<T>>) -> nat
    decreases got.len(),
{
    if got.len() == 0 {
        0
    } else if got.last() is None {
        misses(got.drop_last()) + 1
    } else {
        misses(got.drop_last())
    }
}

/// The attempts of all channels together that found nothing.
pub open spec fn all_misses<T>(got: Seq<Seq<Option<T>>>) -> nat
    decreases got.len(),
{
    if got.len() == 0 {
        0
    } else {
        all_misses(got.drop_last()) + misses(got.last())
    }
}

/// The attempts `got` took the queue from `before` to `after`. None of them
/// found it empty while items were known to wait.
pub open spec fn drains<T>(before: Inbox<T>, got: Seq<Option<T>>, after: Inbox<T>) -> bool {
    &&& after.wf()
    &&& after.queue() == before.queue()
    &&& after.capacity() == before.capacity()
    &&& after.received() == before.received() + popped(got)
    &&& after.ready() == ring::less(before.ready(), popped(got).len())
    &&& forall|i: int|
        0 <= i < got.len() && (#[trigger] got[i]) is None ==> popped(got.take(i)).len()
            >= before.ready()
}

/// The sample that an attempt puts into the block: silence where it found
/// nothing.
pub open spec fn or_silence<S: Sample>(got: Option<S>) -> S {
    match got {
        Some(x) => x,
        None => num::whole::<S>(0),
    }
}

/// The items of `samples` that the queue took.
pub open spec fn kept<T>(samples: Seq<T>, took: Seq<bool>) -> Seq<T>
    decreases took.len(),
{
    if took.len() == 0 {
        Seq::empty()
    } else if took.last() {
        kept(samples, took.drop_last()).push(samples[took.len() - 1])
    } else {
        kept(samples, took.drop_last())
    }
}

/// How many items the queue had no room for.
pub open spec fn refused(took: Seq<bool>) -> nat
    decreases took.len(),
{
    if took.len() == 0 {
        0
    } else if took.last() {
        refused(took.drop_last())
    } else {
        refused(took.drop_last()) + 1
    }
}

pub open spec fn all_refused(took: Seq<Seq<bool>>) -> nat
    decreases took.len(),
{
    if took.len() == 0 {
        0
    } else {
        all_refused(took.drop_last()) + refused(took.last())
    }
}

/// Offering `samples` took the queue from `before` to `after`, with the
/// outcomes `took`. None was refused before the slots known to be free were
/// used up.
pub open spec fn fills<T>(
    before: Outbox<T>,
    samples: Seq<T>,
    took: Seq<bool>,
    after: Outbox<T>,
) -> bool {
    &&& after.wf()
    &&& took.len() == samples.len()
    &&& after.queue() == before.queue()
    &&& after.capacity() == before.capacity()
    &&& after.accepted() == before.accepted() + kept(samples, took)
    &&& after.room() == ring::less(before.room(), kept(samples, took).len())
    &&& forall|i: int|
        0 <= i < took.len() && !(#[trigger] took[i]) ==> kept(samples, took.take(i)).len()
            >= before.room()
}

/// How many of `n` device channels the engine has a place for.
pub open spec fn used_channels(n: nat) -> nat {
    if n < CHANNELS {
        n
    } else {
        CHANNELS as nat
    }
}

/// One strip's captured audio: a queue per device channel.
#[verifier::reject_recursive_types(S)]
pub struct StripSource<S> {
    pub channels: Vec<Inbox<S>>,
    pub underruns: Tally,
}

/// One bus's output: a queue per device channel.
#[verifier::reject_recursive_types(S)]
pub struct BusSink<S> {
    pub channels: Vec<Outbox<S>>,
    pub overruns: Tally,
}

/// Takes one channel of a block out of its queue.
fn pull_channel<S: Sample>(
    inbox: &mut Inbox<S>,
    underruns: &mut Tally,
    c: usize,
    out: &mut Vec<Frame<S>>,
) -> (got: Ghost<Seq<Option<S>>>)
    requires
        num::lawful::<S>(),
        old(inbox).wf(),
        c < CHANNELS,
    ensures
        got@.len() == old(out)@.len(),
        drains(*old(inbox), got@, *final(inbox)),
        final(underruns).cell() == old(underruns).cell(),
        final(underruns).count() == (old(underruns).count() + misses(got@)) % 0x1_0000_0000_0000_0000,
        final(out)@.len() == old(out)@.len(),
        forall|f: int, k: int|
            0 <= f < old(out)@.len() && 0 <= k < CHANNELS ==> #[trigger] final(out)@[f]@[k] == (if k
                == c {
                or_silence(got@[f])
            } else {
                old(out)@[f]@[k]
            }),
{
    let zero: S = get_whole(0);
    let ghost mut got: Seq<Option<S>> = Seq::empty();
    let mut f: usize = 0;
    assert(inbox.received() =~= old(inbox).received() + popped(got));
    while f < out.len()
        invariant
            num::lawful::<S>(),
            zero == num::whole::<S>(0),
            c < CHANNELS,
            f <= out@.len(),
            out@.len() == old(out)@.len(),
            got.len() == f,
            inbox.wf(),
            inbox.queue() == old(inbox).queue(),
            inbox.capacity() == old(inbox).capacity(),
            inbox.received() == old(inbox).received() + popped(got),
            inbox.ready() == ring::less(old(inbox).ready(), popped(got).len()),
            forall|i: int|
                0 <= i < f && (#[trigger] got[i]) is None ==> popped(got.take(i)).len() >= old(
                    inbox,
                ).ready(),
            underruns.cell() == old(underruns).cell(),
            underruns.count() == (old(underruns).count() + misses(got)) % 0x1_0000_0000_0000_0000,
            forall|g: int, k: int|
                0 <= g < out@.len() && 0 <= k < CHANNELS ==> #[trigger] out@[g]@[k] == (if k == c
                    && g < f {
                    or_silence(got[g])
                } else {
                    old(out)@[g]@[k]
                }),
        decreases out@.len() - f,
    {
        let item = inbox.try_pop();
        let ghost more = got.push(item);
        assert(more.drop_last() =~= got);
        assert forall|i: int| 0 <= i < f + 1 && (#[trigger] more[i]) is None implies popped(
            more.take(i),
        ).len() >= old(inbox).ready() by {
            if i < f {
                assert(got[i] is None);
                assert(more.take(i) =~= got.take(i));
            } else {
                assert(more.take(i) =~= got);
            }
        }
        let sample: S = match item {
            Some(sample) => sample,
            None => {
                underruns.increment();
                zero
            },
        };
        assert(inbox.received() =~= old(inbox).received() + popped(more));
        out[f][c] = sample;
        proof {
            got = more;
        }
        f = f + 1;
    }
    Ghost(got)
}

/// Offers one channel of a block to its queue.
fn push_channel<S: Sample>(
    outbox: &mut Outbox<S>,
    overruns: &mut Tally,
    c: usize,
    input: &Vec<Frame<S>>,
) -> (took: Ghost<Seq<bool>>)
    requires
        old(outbox).wf(),
        c < CHANNELS,
    ensures
        fills(*old(outbox), meter::channel_of(input@, c as int), took@, *final(outbox)),
        final(overruns).cell() == old(overruns).cell(),
        final(overruns).count() == (old(overruns).count() + refused(took@)) % 0x1_0000_0000_0000_0000,
{
    let ghost all = meter::channel_of(input@, c as int);
    let ghost mut took: Seq<bool> = Seq::empty();
    let mut f: usize = 0;
    assert(outbox.accepted() =~= old(outbox).accepted() + kept(all, took));
    while f < input.len()
        invariant
            c < CHANNELS,
            f <= input@.len(),
            all == meter::channel_of(input@, c as int),
            took.len() == f,
            old(outbox).wf(),
            outbox.wf(),
            outbox.queue() == old(outbox).queue(),
            outbox.capacity() == old(outbox).capacity(),
            outbox.accepted() == old(outbox).accepted() + kept(all, took),
            outbox.room() == ring::less(old(outbox).room(), kept(all, took).len()),
            forall|i: int|
                0 <= i < f && !(#[trigger] took[i]) ==> kept(all, took.take(i)).len() >= old(
                    outbox,
                ).room(),
            overruns.cell() == old(overruns).cell(),
            overruns.count() == (old(overruns).count() + refused(took)) % 0x1_0000_0000_0000_0000,
        decreases input@.len() - f,
    {
        let outcome = outbox.try_push(input[f][c]);
        let ghost more = took.push(outcome is Ok);
        assert(more.drop_last() =~= took);
        assert(all[f as int] == input@[f as int]@[c as int]);
        assert forall|i: int| 0 <= i < f + 1 && !(#[trigger] more[i]) implies kept(
            all,
            more.take(i),
        ).len() >= old(outbox).room() by {
            if i < f {
                assert(!took[i]);
                assert(more.take(i) =~= took.take(i));
            } else {
                assert(more.take(i) =~= took);
            }
        }
        match outcome {
            Ok(()) => {},
            Err(_) => {
                overruns.increment();
            },
        }
        assert(outbox.accepted() =~= old(outbox).accepted() + kept(all, more));
        proof {
            took = more;
        }
        f = f + 1;
    }
    Ghost(took)
}

impl<S: Sample> StripSource<S> {
    pub open spec fn wf(&self) -> bool {
        forall|c: int| 0 <= c < self.channels@.len() ==> (#[trigger] self.channels@[c]).wf()
    }

    /// Taking a block of `frames` out left the source as `after`; `got` is
    /// what each channel gave.
    pub open spec fn pulls(&self, got: Seq<Seq<Option<S>>>, frames: int, after: &Self) -> bool {
        &&& after.channels@.len() == self.channels@.len()
        &&& got.len() == used_channels(self.channels@.len())
        &&& forall|c: int|
            0 <= c < got.len() ==> (#[trigger] got[c]).len() == frames && drains(
                self.channels@[c],
                got[c],
                after.channels@[c],
            )
        &&& forall|c: int|
            got.len() <= c < self.channels@.len() ==> #[trigger] after.channels@[c]
                == self.channels@[c]
        &&& after.underruns.cell() == self.underruns.cell()
        &&& after.underruns.count() == (self.underruns.count() + all_misses(got))
            % 0x1_0000_0000_0000_0000
    }

    /// The source gave `block` and is left as `after`.
    pub open spec fn supplies(&self, block: Seq<Frame<S>>, after: &Self) -> bool {
        exists|got: Seq<Seq<Option<S>>>| #[trigger]
            self.pulls(got, block.len() as int, after) && heard(got, block)
    }

    pub fn new(channels: Vec<Inbox<S>>) -> (r: Self)
        ensures
            r.channels == channels,
            r.underruns.count() == 0,
    {
        StripSource { channels, underruns: Tally::default() }
    }

    /// A view on how many samples were missing.
    pub fn underrun_counter(&self) -> (r: DropoutCounter)
        ensures
            r.cell() == self.underruns.cell(),
    {
        DropoutCounter { shown: self.underruns.view_on() }
    }

    /// Fills a block from the queues, a channel each. What has not arrived,
    /// and what the device has no channel for, is silent.
    pub fn pull_into(&mut self, out: &mut Vec<Frame<S>>)
        requires
            num::lawful::<S>(),
            old(self).wf(),
        ensures
            final(self).wf(),
            final(out)@.len() == old(out)@.len(),
            old(self).supplies(final(out)@, final(self)),
    {
        let zero: S = get_whole(0);
        let mut f: usize = 0;
        while f < out.len()
            invariant
                zero == num::whole::<S>(0),
                f <= out@.len(),
                out@.len() == old(out)@.len(),
                forall|g: int, k: int|
                    0 <= g < f && 0 <= k < CHANNELS ==> #[trigger] out@[g]@[k] == zero,
            decreases out@.len() - f,
        {
            out[f] = [zero; CHANNELS];
            f = f + 1;
        }
        let ghost mut got: Seq<Seq<Option<S>>> = Seq::empty();
        let mut c: usize = 0;
        while c < self.channels.len() && c < CHANNELS
            invariant
                num::lawful::<S>(),
                zero == num::whole::<S>(0),
                c <= self.channels@.len(),
                c <= CHANNELS,
                old(self).wf(),
                self.wf(),
                self.channels@.len() == old(self).channels@.len(),
                out@.len() == old(out)@.len(),
                got.len() == c,
                forall|k: int|
                    0 <= k < c ==> (#[trigger] got[k]).len() == out@.len() && drains(
                        old(self).channels@[k],
                        got[k],
                        self.channels@[k],
                    ),
                forall|k: int|
                    c <= k < self.channels@.len() ==> #[trigger] self.channels@[k] == old(
                        self,
                    ).channels@[k],
                self.underruns.cell() == old(self).underruns.cell(),
                self.underruns.count() == (old(self).underruns.count() + all_misses(got))
                    % 0x1_0000_0000_0000_0000,
                forall|g: int, k: int|
                    0 <= g < out@.len() && 0 <= k < CHANNELS ==> #[trigger] out@[g]@[k] == (if k
                        < c {
                        or_silence(got[k][g])
                    } else {
                        zero
                    }),
            decreases CHANNELS - c,
        {
            assert(self.channels@[c as int].wf());
            let pulled = pull_channel(&mut self.channels[c], &mut self.underruns, c, out);
            proof {
                let more = got.push(pulled@);
                assert(more.drop_last() =~= got);
                got = more;
            }
            c = c + 1;
        }
        assert(old(self).pulls(got, out@.len() as int, self));
        assert(heard(got, out@));
    }
}

/// The block holds what the channels gave, and silence on the others.
pub open spec fn heard<S: Sample>(got: Seq<Seq<Option<S>>>, block: Seq<Frame<S>>) -> bool {
    forall|f: int, c: int|
        0 <= f < block.len() && 0 <= c < CHANNELS ==> #[trigger] block[f]@[c] == (if c < got.len() {
            or_silence(got[c][f])
        } else {
            num::whole::<S>(0)
        })
}

impl<S: Sample> BusSink<S> {
    pub open spec fn wf(&self) -> bool {
        forall|c: int| 0 <= c < self.channels@.len() ==> (#[trigger] self.channels@[c]).wf()
    }

    /// Offering `block` left the sink as `after`; `took` says what each
    /// channel's queue took.
    pub open spec fn pushes(
        &self,
        block: Seq<Frame<S>>,
        took: Seq<Seq<bool>>,
        after: &Self,
    ) -> bool {
        &&& after.channels@.len() == self.channels@.len()
        &&& took.len() == used_channels(self.channels@.len())
        &&& forall|c: int|
            0 <= c < took.len() ==> fills(
                self.channels@[c],
                meter::channel_of(block, c),
                #[trigger] took[c],
                after.channels@[c],
            )
        &&& forall|c: int|
            took.len() <= c < self.channels@.len() ==> #[trigger] after.channels@[c]
                == self.channels@[c]
        &&& after.overruns.cell() == self.overruns.cell()
        &&& after.overruns.count() == (self.overruns.count() + all_refused(took))
            % 0x1_0000_0000_0000_0000
    }

    /// The sink was offered `block` and is left as `after`.
    pub open spec fn delivers(&self, block: Seq<Frame<S>>, after: &Self) -> bool {
        exists|took: Seq<Seq<bool>>| #[trigger] self.pushes(block, took, after)
    }

    pub fn new(channels: Vec<Outbox<S>>) -> (r: Self)
        ensures
            r.channels == channels,
            r.overruns.count() == 0,
    {
        BusSink { channels, overruns: Tally::default() }
    }

    /// A view on how many samples there was no room for.
    pub fn overrun_counter(&self) -> (r: DropoutCounter)
        ensures
            r.cell() == self.overruns.cell(),
    {
        DropoutCounter { shown: self.overruns.view_on() }
    }

    /// Offers a block to the queues, a channel each. What there is no room for
    /// is dropped.
    pub fn push_from(&mut self, input: &Vec<Frame<S>>)
        requires
            old(self).wf(),
        ensures
            final(self).wf(),
            old(self).delivers(input@, final(self)),
    {
        let ghost mut took: Seq<Seq<bool>> = Seq::empty();
        let mut c: usize = 0;
        while c < self.channels.len() && c < CHANNELS
            invariant
                c <= self.channels@.len(),
                c <= CHANNELS,
                old(self).wf(),
                self.wf(),
                self.channels@.len() == old(self).channels@.len(),
                took.len() == c,
                forall|k: int|
                    0 <= k < c ==> fills(
                        old(self).channels@[k],
                        meter::channel_of(input@, k),
                        #[trigger] took[k],
                        self.channels@[k],
                    ),
                forall|k: int|
                    c <= k < self.channels@.len() ==> #[trigger] self.channels@[k] == old(
                        self,
                    ).channels@[k],
                self.overruns.cell() == old(self).overruns.cell(),
                self.overruns.count() == (old(self).overruns.count() + all_refused(took))
                    % 0x1_0000_0000_0000_0000,
            decreases CHANNELS - c,
        {
            assert(self.channels@[c as int].wf());
            let pushed = push_channel(&mut self.channels[c], &mut self.overruns, c, input);
            proof {
                let more = took.push(pushed@);
                assert(more.drop_last() =~= took);
                took = more;
            }
            c = c + 1;
        }
        assert(old(self).pushes(input@, took, self));
    }
}

/// What was taken, and how often there was nothing, add up to the attempts.
proof fn lemma_popped_and_misses<T>(got: Seq<Option<T>>)
    ensures
        popped(got).len() + misses(got) == got.len(),
        misses(got) == 0 ==> forall|i: int|
            0 <= i < got.len() ==> #[trigger] got[i] == Some(popped(got)[i]),
    decreases got.len(),
{
    if got.len() > 0 {
        lemma_popped_and_misses(got.drop_last());
        if misses(got) == 0 {
            assert forall|i: int| 0 <= i < got.len() implies #[trigger] got[i] == Some(
                popped(got)[i],
            ) by {
                if i < got.len() - 1 {
                    assert(got.drop_last()[i] == got[i]);
                }
            }
        }
    }
}

/// Without an underrun a channel is passed on sample by sample as `sender` put
/// it in: nothing is skipped, repeated or moved, from one block to the next.
pub proof fn law_no_underrun_no_change<S: Sample>(
    sender: Outbox<S>,
    before: Inbox<S>,
    got: Seq<Option<S>>,
    after: Inbox<S>,
    f: int,
)
    requires
        drains(before, got, after),
        ring::in_step(sender, after),
        misses(got) == 0,
        0 <= f < got.len(),
    ensures
        after.taken() == before.taken() + got.len(),
        or_silence(got[f]) == sender.accepted()[before.taken() + f],
{
    lemma_popped_and_misses(got);
    let n = before.taken() as int;
    assert(got[f] == Some(popped(got)[f]));
    assert((before.received() + popped(got))[n + f] == popped(got)[f]);
    ring::law_first_in_first_out(sender, after, n + f);
}

/// A queue in which a whole block is known to wait does not underrun.
pub proof fn law_a_waiting_block_is_complete<S: Sample>(
    before: Inbox<S>,
    got: Seq<Option<S>>,
    after: Inbox<S>,
)
    requires
        drains(before, got, after),
        before.ready() >= got.len(),
    ensures
        misses(got) == 0,
{
    lemma_misses_prefix(before, got, after, got.len() as int);
    assert(got.take(got.len() as int) =~= got);
}

proof fn lemma_misses_prefix<S: Sample>(
    before: Inbox<S>,
    got: Seq<Option<S>>,
    after: Inbox<S>,
    n: int,
)
    requires
        drains(before, got, after),
        before.ready() >= got.len(),
        0 <= n <= got.len(),
    ensures
        misses(got.take(n)) == 0,
    decreases n,
{
    if n > 0 {
        lemma_misses_prefix(before, got, after, n - 1);
        assert(got.take(n).drop_last() =~= got.take(n - 1));
        lemma_popped_and_misses(got.take(n - 1));
        assert(got[n - 1] !is None);
    }
}

/// A queue that is known to have room for a block takes all of it.
pub proof fn law_room_for_a_block_is_used<S: Sample>(
    before: Outbox<S>,
    samples: Seq<S>,
    took: Seq<bool>,
    after: Outbox<S>,
)
    requires
        fills(before, samples, took, after),
        samples.len() <= before.room(),
    ensures
        refused(took) == 0,
        after.accepted() == before.accepted() + samples,
{
    lemma_kept_prefix(before, samples, took, after, took.len() as int);
    assert(took.take(took.len() as int) =~= took);
    assert(samples.take(took.len() as int) =~= samples);
}

proof fn lemma_kept_prefix<S: Sample>(
    before: Outbox<S>,
    samples: Seq<S>,
    took: Seq<bool>,
    after: Outbox<S>,
    n: int,
)
    requires
        fills(before, samples, took, after),
        samples.len() <= before.room(),
        0 <= n <= took.len(),
    ensures
        refused(took.take(n)) == 0,
        kept(samples, took.take(n)) == samples.take(n),
    decreases n,
{
    if n > 0 {
        lemma_kept_prefix(before, samples, took, after, n - 1);
        assert(took.take(n).drop_last() =~= took.take(n - 1));
        assert(took[n - 1]);
        assert(took.take(n).last());
    }
    assert(kept(samples, took.take(n)) =~= samples.take(n));
}

} // verus!
