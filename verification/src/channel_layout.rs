//! How a device lays its channels out in memory: one buffer per channel, or
//! one buffer in which the channels of each frame follow one another.
//!
//! A device hands over a list of buffers without saying which of the two it
//! is. A single buffer that is longer than the block can only hold several
//! channels; in every other case each buffer is a channel.

use crate::num::{self, get_whole, Sample};
use crate::{Frame, CHANNELS};
use vstd::arithmetic::div_mod::{
    lemma_fundamental_div_mod,
    lemma_fundamental_div_mod_converse,
    lemma_remainder_upper,
};
use vstd::prelude::*;

verus! {

/// The samples of each buffer.
pub open spec fn samples<S>(buffers: Seq<Vec<S>>) -> Seq<Seq<S>> {
    Seq::new(buffers.len(), |i: int| buffers[i]@)
}

/// These lengths are those of one buffer with several channels in it.
pub open spec fn interleaved(buffers: nat, first: nat, frames: nat) -> bool {
    frames > 0 && buffers == 1 && first > frames
}

/// How far apart the frames of a combined buffer of `len` samples lie: as far
/// as there are channels in it.
pub open spec fn stride(len: nat, frames: nat) -> int {
    (len / frames) as int
}

/// How many channels of a combined buffer of `len` samples are used.
pub open spec fn combined_channels(len: nat, frames: nat) -> int {
    if stride(len, frames) < CHANNELS {
        stride(len, frames)
    } else {
        CHANNELS as int
    }
}

/// The sample of channel `c` in frame `f` of what a device captured. What it
/// does not have is silent.
pub open spec fn packed<S: Sample>(src: Seq<Seq<S>>, frames: nat, f: int, c: int) -> S {
    if interleaved(src.len(), src[0].len(), frames) {
        if c < combined_channels(src[0].len(), frames) {
            src[0][f * stride(src[0].len(), frames) + c]
        } else {
            num::whole::<S>(0)
        }
    } else if c < src.len() && f < src[c].len() {
        src[c][f]
    } else {
        num::whole::<S>(0)
    }
}

/// Sample `i` of buffer `k` once `src` has been written into buffers that
/// held `dst`. What there is no frame or no channel for keeps its value.
pub open spec fn unpacked<S: Sample>(src: Seq<Frame<S>>, dst: Seq<Seq<S>>, k: int, i: int) -> S {
    if interleaved(dst.len(), dst[0].len(), src.len()) {
        let n = stride(dst[0].len(), src.len());
        if i / n < src.len() && i % n < CHANNELS {
            src[i / n]@[i % n]
        } else {
            dst[k][i]
        }
    } else if k < CHANNELS && i < src.len() {
        src[i]@[k]
    } else {
        dst[k][i]
    }
}

/// A position of a combined buffer lies inside it.
proof fn lemma_position(len: nat, frames: nat, f: int, c: int)
    requires
        frames > 0,
        len > frames,
        0 <= f < frames,
        0 <= c < combined_channels(len, frames),
    ensures
        0 < combined_channels(len, frames) <= CHANNELS,
        combined_channels(len, frames) <= stride(len, frames),
        0 <= f * stride(len, frames) + c < frames * stride(len, frames) <= len,
        (f * stride(len, frames) + c) / stride(len, frames) == f,
        (f * stride(len, frames) + c) % stride(len, frames) == c,
{
    let n = stride(len, frames);
    let t = frames as int;
    lemma_fundamental_div_mod(len as int, t);
    assert(t * n <= len);
    assert(f * n + c < t * n && f * n + c >= 0) by (nonlinear_arith)
        requires
            0 <= f < t,
            0 <= c < n,
    ;
    lemma_fundamental_div_mod_converse(f * n + c, n, f, c);
}

/// A buffer that is longer than the block has room for a channel at least.
proof fn lemma_combined_is_not_empty(len: nat, frames: nat)
    requires
        frames > 0,
        len > frames,
    ensures
        1 <= combined_channels(len, frames) <= CHANNELS,
        1 <= stride(len, frames),
{
    let q = (len / frames) as int;
    lemma_fundamental_div_mod(len as int, frames as int);
    lemma_remainder_upper(len as int, frames as int);
    assert(q >= 1) by (nonlinear_arith)
        requires
            len == frames * q + (len as int) % (frames as int),
            0 <= (len as int) % (frames as int) < frames,
            len > frames,
            frames > 0,
    ;
}

/// Takes the channels of a device apart into frames.
pub fn pack_channels<S: Sample>(src: &Vec<Vec<S>>, dst: &mut Vec<Frame<S>>)
    requires
        num::lawful::<S>(),
    ensures
        final(dst)@.len() == old(dst)@.len(),
        forall|f: int, c: int|
            0 <= f < old(dst)@.len() && 0 <= c < CHANNELS ==> #[trigger] final(dst)@[f]@[c]
                == packed(samples(src@), old(dst)@.len(), f, c),
{
    let zero: S = get_whole(0);
    let frames: usize = dst.len();
    let combined: bool = frames > 0 && src.len() == 1 && src[0].len() > frames;
    let ghost all = samples(src@);
    assert(src@.len() > 0 ==> all[0] == src@[0]@);
    assert(combined == interleaved(all.len(), all[0].len(), frames as nat));
    if combined {
        let raw: &Vec<S> = &src[0];
        let len: usize = raw.len();
        let fitting: usize = len / frames;
        let count: usize = if fitting < CHANNELS {
            fitting
        } else {
            CHANNELS
        };
        assert(fitting == stride(all[0].len(), frames as nat));
        assert(count == combined_channels(all[0].len(), frames as nat));
        let mut f: usize = 0;
        while f < frames
            invariant
                f <= frames,
                frames == dst@.len(),
                frames == old(dst)@.len(),
                0 < frames < len,
                len == raw@.len(),
                all == samples(src@),
                raw@ == all[0],
                zero == num::whole::<S>(0),
                interleaved(all.len(), all[0].len(), frames as nat),
                fitting == stride(all[0].len(), frames as nat),
                count == combined_channels(all[0].len(), frames as nat),
                forall|g: int, k: int|
                    0 <= g < f && 0 <= k < CHANNELS ==> #[trigger] dst@[g]@[k] == packed(
                        all,
                        frames as nat,
                        g,
                        k,
                    ),
            decreases frames - f,
        {
            let mut frame = [zero; CHANNELS];
            let mut c: usize = 0;
            proof {
                lemma_combined_is_not_empty(raw@.len(), frames as nat);
            }
            while c < count
                invariant
                    c <= count <= CHANNELS,
                    f < frames < len,
                    len == raw@.len(),
                    raw@ == all[0],
                    zero == num::whole::<S>(0),
                    interleaved(all.len(), all[0].len(), frames as nat),
                    fitting == stride(all[0].len(), frames as nat),
                    count == combined_channels(all[0].len(), frames as nat),
                    forall|k: int| c <= k < CHANNELS ==> #[trigger] frame@[k] == zero,
                    forall|k: int|
                        0 <= k < c ==> #[trigger] frame@[k] == packed(
                            all,
                            frames as nat,
                            f as int,
                            k,
                        ),
                decreases count - c,
            {
                proof {
                    lemma_position(raw@.len(), frames as nat, f as int, c as int);
                    assert(0 <= f * fitting) by (nonlinear_arith);
                }
                let at: usize = f * fitting + c;
                frame[c] = raw[at];
                c = c + 1;
            }
            dst[f] = frame;
            f = f + 1;
        }
        return ;
    }
    let mut f: usize = 0;
    while f < frames
        invariant
            f <= frames,
            frames == dst@.len(),
            frames == old(dst)@.len(),
            all == samples(src@),
            zero == num::whole::<S>(0),
            !interleaved(all.len(), all[0].len(), frames as nat),
            forall|g: int, k: int|
                0 <= g < f && 0 <= k < CHANNELS ==> #[trigger] dst@[g]@[k] == packed(
                    all,
                    frames as nat,
                    g,
                    k,
                ),
        decreases frames - f,
    {
        let mut frame = [zero; CHANNELS];
        let mut c: usize = 0;
        while c < CHANNELS && c < src.len()
            invariant
                c <= CHANNELS,
                c <= src@.len(),
                f < frames,
                all == samples(src@),
                zero == num::whole::<S>(0),
                !interleaved(all.len(), all[0].len(), frames as nat),
                forall|k: int| c <= k < CHANNELS ==> #[trigger] frame@[k] == zero,
                forall|k: int|
                    0 <= k < c ==> #[trigger] frame@[k] == packed(
                        all,
                        frames as nat,
                        f as int,
                        k,
                    ),
            decreases CHANNELS - c,
        {
            if f < src[c].len() {
                frame[c] = src[c][f];
            }
            c = c + 1;
        }
        dst[f] = frame;
        f = f + 1;
    }
}

/// Puts the frames of a bus into the buffers of a device.
pub fn unpack_channels<S: Sample>(src: &Vec<Frame<S>>, dst: &mut Vec<Vec<S>>)
    ensures
        final(dst)@.len() == old(dst)@.len(),
        forall|k: int|
            0 <= k < old(dst)@.len() ==> (#[trigger] final(dst)@[k])@.len() == old(dst)@[k]@.len(),
        forall|k: int, i: int|
            0 <= k < old(dst)@.len() && 0 <= i < old(dst)@[k]@.len() ==> #[trigger] final(
                dst)@[k]@[i] == unpacked(src@, samples(old(dst)@), k, i),
{
    let frames: usize = src.len();
    let ghost all = samples(old(dst)@);
    assert(dst@.len() > 0 ==> all[0] == dst@[0]@);
    if frames == 0 {
        return ;
    }
    if dst.len() == 1 && dst[0].len() > frames {
        let len: usize = dst[0].len();
        let fitting: usize = len / frames;
        proof {
            lemma_combined_is_not_empty(len as nat, frames as nat);
        }
        let mut i: usize = 0;
        while i < len
            invariant
                i <= len,
                0 < fitting,
                fitting == stride(all[0].len(), frames as nat),
                frames == src@.len(),
                dst@.len() == 1,
                dst@[0]@.len() == len,
                all.len() == 1,
                all[0].len() == len,
                interleaved(all.len(), all[0].len(), frames as nat),
                forall|k: int|
                    0 <= k < len ==> #[trigger] dst@[0]@[k] == (if k < i {
                        unpacked(src@, all, 0, k)
                    } else {
                        all[0][k]
                    }),
            decreases len - i,
        {
            let f: usize = i / fitting;
            let c: usize = i % fitting;
            if f < frames && c < CHANNELS {
                dst[0][i] = src[f][c];
            }
            i = i + 1;
        }
        return ;
    }
    let mut k: usize = 0;
    while k < dst.len() && k < CHANNELS
        invariant
            k <= dst@.len(),
            k <= CHANNELS,
            frames == src@.len(),
            dst@.len() == old(dst)@.len(),
            all == samples(old(dst)@),
            !interleaved(all.len(), all[0].len(), frames as nat),
            forall|j: int|
                0 <= j < dst@.len() ==> (#[trigger] dst@[j])@.len() == old(dst)@[j]@.len(),
            forall|j: int, i: int|
                0 <= j < dst@.len() && 0 <= i < dst@[j]@.len() ==> #[trigger] dst@[j]@[i] == (if j
                    < k {
                    unpacked(src@, all, j, i)
                } else {
                    all[j][i]
                }),
        decreases CHANNELS - k,
    {
        let len: usize = dst[k].len();
        let mut i: usize = 0;
        while i < frames && i < len
            invariant
                k < dst@.len(),
                k < CHANNELS,
                i <= frames,
                i <= len,
                frames == src@.len(),
                dst@.len() == old(dst)@.len(),
                dst@[k as int]@.len() == len,
                all == samples(old(dst)@),
                !interleaved(all.len(), all[0].len(), frames as nat),
                forall|j: int|
                    0 <= j < dst@.len() ==> (#[trigger] dst@[j])@.len() == old(dst)@[j]@.len(),
                forall|j: int, h: int|
                    0 <= j < dst@.len() && 0 <= h < dst@[j]@.len() ==> #[trigger] dst@[j]@[h]
                        == (if j < k || (j == k && h < i) {
                        unpacked(src@, all, j, h)
                    } else {
                        all[j][h]
                    }),
            decreases frames - i,
        {
            dst[k][i] = src[i][k];
            i = i + 1;
        }
        k = k + 1;
    }
}

/// A combined buffer gives back, on every channel it holds, what was written
/// into it.
pub proof fn law_combined_buffer_round_trip<S: Sample>(
    src: Seq<Frame<S>>,
    dst: Seq<S>,
    written: Seq<S>,
    f: int,
    c: int,
)
    requires
        interleaved(1, dst.len(), src.len()),
        written.len() == dst.len(),
        forall|i: int|
            0 <= i < written.len() ==> #[trigger] written[i] == unpacked(src, seq![dst], 0, i),
        0 <= f < src.len(),
        0 <= c < combined_channels(dst.len(), src.len()),
    ensures
        packed(seq![written], src.len(), f, c) == src[f]@[c],
{
    let n = stride(dst.len(), src.len());
    lemma_position(dst.len(), src.len(), f, c);
    assert(written[f * n + c] == unpacked(src, seq![dst], 0, f * n + c));
}

/// A buffer per channel gives back, on every channel there is a buffer for,
/// what was written into it.
pub proof fn law_channel_buffers_round_trip<S: Sample>(
    src: Seq<Frame<S>>,
    dst: Seq<Seq<S>>,
    written: Seq<Seq<S>>,
    f: int,
    c: int,
)
    requires
        !interleaved(dst.len(), dst[0].len(), src.len()),
        written.len() == dst.len(),
        forall|k: int| 0 <= k < dst.len() ==> (#[trigger] written[k]).len() == dst[k].len(),
        forall|k: int, i: int|
            0 <= k < dst.len() && 0 <= i < dst[k].len() ==> #[trigger] written[k][i] == unpacked(
                src,
                dst,
                k,
                i,
            ),
        0 <= f < src.len(),
        0 <= c < CHANNELS,
        c < dst.len(),
        f < dst[c].len(),
    ensures
        packed(written, src.len(), f, c) == src[f]@[c],
{
    assert(written[0].len() == dst[0].len());
    assert(written[c][f] == unpacked(src, dst, c, f));
}

} // verus!
