//! What a device callback does with the buffers it is handed.
//!
//! A device delivers one buffer per channel, or one buffer in which all its
//! channels are interleaved, whatever format it was asked for. The callbacks
//! take either.

use crate::channel_layout;
use crate::num::Sample;
use vstd::arithmetic::div_mod::{
    lemma_fundamental_div_mod,
    lemma_fundamental_div_mod_converse,
    lemma_remainder_upper,
};
use vstd::prelude::*;

verus! {

/// A failure code of the audio hardware layer.
pub type CoreAudioError = i32;

/// The most channels a device is driven on.
pub const MAX_IO_CHANNELS: usize = 8;

/// A device's capturing or its playing side.
#[derive(Debug, Clone, Copy, PartialEq, Eq, Structural)]
pub enum Direction {
    Input,
    Output,
}

/// Zero is success; every other status is an error.
pub fn check(status: i32) -> (r: Result<(), CoreAudioError>)
    ensures
        status == 0 ==> r == Ok::<(), CoreAudioError>(()),
        status != 0 ==> r == Err::<(), CoreAudioError>(status),
{
    if status == 0 {
        Ok(())
    } else {
        Err(status)
    }
}

/// The process id that stands for nobody.
pub const NO_OWNER: i32 = -1;

/// The owner a device reports: none, or a process.
pub fn owner_of(pid: i32) -> (r: Option<i32>)
    ensures
        r == (if pid == NO_OWNER {
            None::<i32>
        } else {
            Some(pid)
        }),
{
    if pid == NO_OWNER {
        None
    } else {
        Some(pid)
    }
}

/// The sum of the channels of all buffers.
pub open spec fn channel_sum(counts: Seq<u32>) -> int
    decreases counts.len(),
{
    if counts.len() == 0 {
        0
    } else {
        channel_sum(counts.drop_last()) + counts.last()
    }
}

proof fn lemma_channel_sum_grows(counts: Seq<u32>, n: int)
    requires
        0 <= n <= counts.len(),
    ensures
        0 <= channel_sum(counts.take(n)) <= channel_sum(counts),
    decreases counts.len(),
{
    if counts.len() == 0 {
        assert(counts.take(n) =~= counts);
    } else if n == counts.len() {
        assert(counts.take(n) =~= counts);
        lemma_channel_sum_grows(counts.drop_last(), counts.len() - 1);
        assert(counts.drop_last().take(counts.len() - 1) =~= counts.drop_last());
    } else {
        lemma_channel_sum_grows(counts.drop_last(), n);
        assert(counts.drop_last().take(n) =~= counts.take(n));
    }
}

/// How many channels a device has, over all the buffers it delivers.
pub fn channel_count(counts: &Vec<u32>) -> (r: usize)
    requires
        channel_sum(counts@) <= usize::MAX,
    ensures
        r == channel_sum(counts@),
{
    let mut total: usize = 0;
    let mut i: usize = 0;
    assert(counts@.take(0) =~= Seq::empty());
    while i < counts.len()
        invariant
            i <= counts@.len(),
            channel_sum(counts@) <= usize::MAX,
            total == channel_sum(counts@.take(i as int)),
        decreases counts@.len() - i,
    {
        proof {
            lemma_channel_sum_grows(counts@, i + 1);
            assert(counts@.take(i + 1).drop_last() =~= counts@.take(i as int));
        }
        total = total + counts[i] as usize;
        i = i + 1;
    }
    assert(counts@.take(i as int) =~= counts@);
    total
}

/// The buffers of one callback: each with the number of channels it says it
/// holds, and its samples.
pub struct DeviceBuffers<S> {
    pub counts: Vec<u32>,
    pub data: Vec<Vec<S>>,
}

impl<S> DeviceBuffers<S> {
    pub open spec fn wf(&self) -> bool {
        self.counts@.len() == self.data@.len()
    }

    /// There is one buffer, and it holds the `expected` channels.
    pub open spec fn combined(&self, expected: int) -> bool {
        self.data@.len() == 1 && expected > 1
    }

    /// How many channels a callback made for `expected` channels reads.
    pub open spec fn used(&self, expected: int) -> int {
        let n = if self.combined(expected) {
            expected
        } else {
            self.data@.len() as int
        };
        if n < MAX_IO_CHANNELS {
            n
        } else {
            MAX_IO_CHANNELS as int
        }
    }

    /// How many channels a callback made for `expected` channels fills: as many
    /// as it has, and as there are to fill.
    pub open spec fn filled(&self, expected: int) -> int {
        if self.used(expected) < expected {
            self.used(expected)
        } else {
            expected
        }
    }

    pub fn get_used(&self, expected: usize) -> (r: usize)
        ensures
            r == self.used(expected as int),
    {
        let n: usize = if self.data.len() == 1 && expected > 1 {
            expected
        } else {
            self.data.len()
        };
        if n < MAX_IO_CHANNELS {
            n
        } else {
            MAX_IO_CHANNELS
        }
    }

    pub fn get_filled(&self, expected: usize) -> (r: usize)
        ensures
            r == self.filled(expected as int),
    {
        let used: usize = self.get_used(expected);
        if used < expected {
            used
        } else {
            expected
        }
    }

    /// How many frames of a combined buffer are used, where there is room for
    /// `capacity`.
    pub open spec fn combined_frames(&self, expected: int, capacity: int) -> int {
        let n = self.data@[0]@.len() as int / expected;
        if n < capacity {
            n
        } else {
            capacity
        }
    }

    /// How many frames channel `c` has.
    pub open spec fn frames(&self, expected: int, capacity: int, c: int) -> int {
        if self.combined(expected) {
            self.combined_frames(expected, capacity)
        } else {
            self.data@[c]@.len() as int
        }
    }

    /// The channels, one by one.
    pub open spec fn planar(&self, expected: int, capacity: int) -> Seq<Seq<S>> {
        Seq::new(
            self.used(expected) as nat,
            |c: int|
                if self.combined(expected) {
                    Seq::new(
                        self.combined_frames(expected, capacity) as nat,
                        |f: int| self.data@[0]@[f * expected + c],
                    )
                } else {
                    self.data@[c]@
                },
        )
    }

    /// Sample `i` of buffer `k` once `channels` have been written into the
    /// buffers.
    pub open spec fn with_channels(
        &self,
        expected: int,
        capacity: int,
        channels: Seq<Seq<S>>,
        k: int,
        i: int,
    ) -> S {
        if self.combined(expected) {
            if i < self.combined_frames(expected, capacity) * expected && i % expected
                < MAX_IO_CHANNELS {
                channels[i % expected][i / expected]
            } else {
                self.data@[k]@[i]
            }
        } else if k < self.filled(expected) {
            channels[k][i]
        } else {
            self.data@[k]@[i]
        }
    }

    /// The number of frames in the first buffer: its samples over its
    /// channels. A buffer that claims no channel is taken to have one.
    pub open spec fn first_frames(&self) -> Option<int> {
        if self.data@.len() == 0 {
            None
        } else if self.counts@[0] == 0 {
            Some(self.data@[0]@.len() as int)
        } else {
            Some(self.data@[0]@.len() as int / self.counts@[0] as int)
        }
    }

    pub fn get_first_frames(&self) -> (r: Option<usize>)
        requires
            self.wf(),
        ensures
            self.first_frames() == (match r {
                Some(n) => Some(n as int),
                None => None,
            }),
    {
        if self.data.len() == 0 {
            None
        } else if self.counts[0] == 0 {
            Some(self.data[0].len())
        } else {
            Some(self.data[0].len() / self.counts[0] as usize)
        }
    }
}

/// A frame of a combined buffer lies inside it.
proof fn lemma_inside(len: int, expected: int, frames: int, f: int, c: int)
    requires
        expected > 0,
        0 <= frames <= len / expected,
        0 <= f < frames,
        0 <= c < expected,
    ensures
        0 <= f * expected,
        0 <= f * expected + c < frames * expected <= len,
        (f * expected + c) / expected == f,
        (f * expected + c) % expected == c,
{
    lemma_fundamental_div_mod(len, expected);
    lemma_remainder_upper(len, expected);
    let q = len / expected;
    assert(len >= 0) by (nonlinear_arith)
        requires
            len == expected * q + len % expected,
            0 <= len % expected,
            q >= 0,
            expected > 0,
    ;
    assert(frames * expected <= expected * q) by (nonlinear_arith)
        requires
            0 <= frames <= q,
            expected > 0,
    ;
    assert(0 <= f * expected && f * expected + c < frames * expected) by (nonlinear_arith)
        requires
            0 <= f < frames,
            0 <= c < expected,
    ;
    lemma_fundamental_div_mod_converse(f * expected + c, expected, f, c);
}

/// How many frames of a combined buffer of `len` samples are used.
fn get_combined_frames(len: usize, expected: usize, capacity: usize) -> (r: usize)
    requires
        expected > 0,
    ensures
        r == (if len as int / expected as int >= capacity {
            capacity as int
        } else {
            len as int / expected as int
        }),
{
    let n: usize = len / expected;
    if n < capacity {
        n
    } else {
        capacity
    }
}

/// The block a master callback renders: as many frames as its output buffers
/// hold, or its input buffers where it has no output.
pub open spec fn master_frames<S>(input: DeviceBuffers<S>, output: DeviceBuffers<S>) -> int {
    match output.first_frames() {
        Some(n) => n,
        None => match input.first_frames() {
            Some(n) => n,
            None => 0,
        },
    }
}

pub fn master_block_frames<S>(input: &DeviceBuffers<S>, output: &DeviceBuffers<S>) -> (r: usize)
    requires
        input.wf(),
        output.wf(),
    ensures
        r == master_frames(*input, *output),
{
    match output.get_first_frames() {
        Some(n) => n,
        None => match input.get_first_frames() {
            Some(n) => n,
            None => 0,
        },
    }
}

/// One callback of the clock master: what was captured and what is to be played
/// are handed to `callback` together, with the number of frames.
pub fn run_master<S, F: FnOnce(usize, &Vec<Vec<S>>, &mut Vec<Vec<S>>)>(
    input: &DeviceBuffers<S>,
    output: &mut DeviceBuffers<S>,
    callback: F,
)
    requires
        input.wf(),
        old(output).wf(),
        forall|frames: usize, out: &mut Vec<Vec<S>>|
            frames == master_frames(*input, *old(output)) && *out == old(output).data
                ==> #[trigger] callback.requires((frames, &input.data, out)),
    ensures
        final(output).counts == old(output).counts,
        exists|frames: usize, out: &mut Vec<Vec<S>>|
            frames == master_frames(*input, *old(output)) && *out == old(output).data && *final(out)
                == final(output).data && #[trigger] callback.ensures(
                (frames, &input.data, out),
                (),
            ),
{
    let frames: usize = master_block_frames(input, output);
    let out = &mut output.data;
    callback(frames, &input.data, out);
}

/// Reads the channels of a callback into the first of `channels`, one vector
/// each.
pub fn read_input_channels_planar<S: Sample>(
    list: &DeviceBuffers<S>,
    expected: usize,
    capacity: usize,
    channels: &mut Vec<Vec<S>>,
)
    requires
        list.used(expected as int) <= old(channels)@.len(),
    ensures
        final(channels)@.len() == old(channels)@.len(),
        channel_layout::samples(final(channels)@).take(list.used(expected as int)) == list.planar(
            expected as int,
            capacity as int,
        ),
{
    let count: usize = list.get_used(expected);
    let combined: bool = list.data.len() == 1 && expected > 1;
    let ghost all = list.planar(expected as int, capacity as int);
    let mut c: usize = 0;
    while c < count
        invariant
            c <= count,
            count <= channels@.len(),
            channels@.len() == old(channels)@.len(),
            count == list.used(expected as int),
            combined == list.combined(expected as int),
            all == list.planar(expected as int, capacity as int),
            forall|k: int| 0 <= k < c ==> (#[trigger] channels@[k])@ == all[k],
        decreases count - c,
    {
        let source: usize = if combined {
            0
        } else {
            c
        };
        let raw: &Vec<S> = &list.data[source];
        let len: usize = raw.len();
        let stride: usize = if combined {
            expected
        } else {
            1
        };
        let frames: usize = if combined {
            get_combined_frames(len, expected, capacity)
        } else {
            len
        };
        let offset: usize = if combined {
            c
        } else {
            0
        };
        assert(frames as int <= len as int / stride as int) by {
            if !combined {
                assert(len as int / 1 == len);
            }
        }
        let mut channel: Vec<S> = Vec::new();
        core::mem::swap(&mut channel, &mut channels[c]);
        channel.clear();
        let mut f: usize = 0;
        while f < frames
            invariant
                f <= frames,
                frames as int <= len as int / stride as int,
                offset < stride,
                len == raw@.len(),
                channel@.len() == f,
                forall|g: int| 0 <= g < f ==> #[trigger] channel@[g] == raw@[g * stride + offset],
            decreases frames - f,
        {
            proof {
                lemma_inside(len as int, stride as int, frames as int, f as int, offset as int);
            }
            channel.push(raw[f * stride + offset]);
            f = f + 1;
        }
        assert(channel@ =~= all[c as int]);
        channels[c] = channel;
        c = c + 1;
    }
    assert(channel_layout::samples(channels@).take(count as int) =~= all);
}

/// Writes the first of `channels` back into the buffers of a callback, as many
/// as it fills. The rest of the buffers stays as it is.
pub fn write_output_channels<S: Sample>(
    list: &mut DeviceBuffers<S>,
    expected: usize,
    capacity: usize,
    channels: &Vec<Vec<S>>,
)
    requires
        old(list).filled(expected as int) <= channels@.len(),
        forall|c: int|
            0 <= c < old(list).filled(expected as int) ==> (#[trigger] channels@[c])@.len() == old(list).frames(
                expected as int,
                capacity as int,
                c,
            ),
    ensures
        final(list).counts == old(list).counts,
        final(list).data@.len() == old(list).data@.len(),
        forall|k: int|
            0 <= k < old(list).data@.len() ==> (#[trigger] final(list).data@[k])@.len() == old(
                list,
            ).data@[k]@.len(),
        forall|k: int, i: int|
            0 <= k < old(list).data@.len() && 0 <= i < old(list).data@[k]@.len()
                ==> #[trigger] final(list).data@[k]@[i] == old(list).with_channels(
                expected as int,
                capacity as int,
                channel_layout::samples(channels@),
                k,
                i,
            ),
{
    let ghost all = channel_layout::samples(channels@);
    let count: usize = list.get_filled(expected);
    if list.data.len() == 1 && expected > 1 {
        let len: usize = list.data[0].len();
        let frames: usize = get_combined_frames(len, expected, capacity);
        assert(0 <= frames * expected <= len) by {
            if frames > 0 {
                lemma_inside(len as int, expected as int, frames as int, 0, 0);
            }
        }
        let end: usize = frames * expected;
        let mut i: usize = 0;
        while i < end
            invariant
                i <= end <= len,
                end == frames * expected,
                1 < expected,
                count <= channels@.len(),
                expected < MAX_IO_CHANNELS ==> count == expected,
                expected >= MAX_IO_CHANNELS ==> count == MAX_IO_CHANNELS,
                all == channel_layout::samples(channels@),
                forall|c: int| 0 <= c < count ==> (#[trigger] channels@[c])@.len() == frames,
                list.counts == old(list).counts,
                list.data@.len() == 1,
                old(list).data@.len() == 1,
                list.data@[0]@.len() == len,
                old(list).data@[0]@.len() == len,
                frames == old(list).combined_frames(expected as int, capacity as int),
                forall|k: int|
                    0 <= k < len ==> #[trigger] list.data@[0]@[k] == (if k < i {
                        old(list).with_channels(expected as int, capacity as int, all, 0, k)
                    } else {
                        old(list).data@[0]@[k]
                    }),
            decreases end - i,
        {
            proof {
                lemma_fundamental_div_mod(i as int, expected as int);
                lemma_remainder_upper(i as int, expected as int);
                assert(0 <= (i as int) / (expected as int) < frames) by (nonlinear_arith)
                    requires
                        0 <= i < frames * expected,
                        i == expected * ((i as int) / (expected as int)) + (i as int) % (
                        expected as int),
                        0 <= (i as int) % (expected as int) < expected,
                        expected > 0,
                ;
            }
            let c: usize = i % expected;
            if c < count {
                assert(channels@[c as int]@.len() == frames);
                let x: S = channels[c][i / expected];
                list.data[0][i] = x;
            }
            i = i + 1;
        }
        return ;
    }
    let mut k: usize = 0;
    while k < count
        invariant
            k <= count <= channels@.len(),
            !old(list).combined(expected as int),
            count == old(list).filled(expected as int),
            all == channel_layout::samples(channels@),
            forall|c: int|
                0 <= c < count ==> (#[trigger] channels@[c])@.len() == old(list).data@[c]@.len(),
            list.counts == old(list).counts,
            list.data@.len() == old(list).data@.len(),
            forall|j: int|
                0 <= j < list.data@.len() ==> (#[trigger] list.data@[j])@ == (if j < k {
                    all[j]
                } else {
                    old(list).data@[j]@
                }),
        decreases count - k,
    {
        let mut i: usize = 0;
        assert(channels@[k as int]@.len() == old(list).data@[k as int]@.len());
        while i < channels[k].len()
            invariant
                k < count <= channels@.len(),
                count <= list.data@.len(),
                i <= channels@[k as int]@.len(),
                all == channel_layout::samples(channels@),
                list.counts == old(list).counts,
                list.data@.len() == old(list).data@.len(),
                list.data@[k as int]@.len() == channels@[k as int]@.len(),
                forall|j: int|
                    0 <= j < list.data@.len() && j != k ==> (#[trigger] list.data@[j])@ == (if j
                        < k {
                        all[j]
                    } else {
                        old(list).data@[j]@
                    }),
                forall|h: int|
                    0 <= h < i ==> #[trigger] list.data@[k as int]@[h] == channels@[k as int]@[h],
            decreases channels@[k as int]@.len() - i,
        {
            let x: S = channels[k][i];
            list.data[k][i] = x;
            i = i + 1;
        }
        assert(list.data@[k as int]@ =~= all[k as int]);
        k = k + 1;
    }
}

} // verus!
