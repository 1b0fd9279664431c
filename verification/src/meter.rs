//! Peak meters with a hold time and a decay.

use crate::elementary::{self, Elementary};
use crate::fixed::{self, Fixed};
use crate::num::{self, get_magnitude, get_whole, is_below, Sample};
use crate::{Frame, CHANNELS};
use vstd::prelude::*;
use vstd::std_specs::ops::{DivSpec, MulSpec};

verus! {

/// The peak of each channel and how long it is still held.
#[derive(Debug, Clone, Copy)]
pub struct Meter<S> {
    pub peak_hold: [S; CHANNELS],
    pub hold_remaining: [u32; CHANNELS],
    pub hold_samples: u32,
    pub decay_per_sample: S,
}

/// How long a peak is held, in samples, and the factor it falls by per sample
/// afterwards.
#[derive(Debug, Clone, Copy, PartialEq)]
pub struct Ballistics<S> {
    pub hold_samples: u32,
    pub decay_per_sample: S,
}

/// One channel of a meter.
pub struct Reading<S> {
    pub held: S,
    pub remaining: u32,
}

impl<S: Sample> Ballistics<S> {
    /// These are the ballistics at a sample rate: a peak is held for a second
    /// and then falls by twenty decibels per second.
    pub open spec fn suit<M: Elementary<S>>(self, m: M, rate: S) -> bool {
        &&& exists|samples: usize| #[trigger]
            elementary::rounds(m, num::whole::<S>(1).mul_spec(rate), samples) && self.hold_samples
                == (if samples <= u32::MAX {
                samples as int
            } else {
                u32::MAX as int
            })
        &&& elementary::powers(
            m,
            num::whole::<S>(-20).div_spec(num::whole::<S>(20)).div_spec(rate),
            self.decay_per_sample,
        )
    }

    pub fn new<M: Elementary<S>>(m: &M, sample_rate: S) -> (r: Self)
        requires
            num::lawful::<S>(),
        ensures
            r.suit(*m, sample_rate),
    {
        let samples: usize = m.nearest(get_whole::<S>(1) * sample_rate);
        assert(elementary::rounds(*m, num::whole::<S>(1).mul_spec(sample_rate), samples));
        Ballistics {
            hold_samples: if samples <= u32::MAX as usize {
                samples as u32
            } else {
                u32::MAX
            },
            decay_per_sample: m.power_of_ten(get_whole::<S>(-20) / get_whole(20) / sample_rate),
        }
    }

    /// A decayed level, silent once it is under a millionth.
    pub open spec fn faded(self, held: S) -> S {
        let decayed = held.mul_spec(self.decay_per_sample);
        let floor = num::whole::<S>(1).div_spec(
            num::whole::<S>(1000).mul_spec(num::whole::<S>(1000)),
        );
        if num::below(decayed, floor) {
            num::whole::<S>(0)
        } else {
            decayed
        }
    }

    /// A reading after one more sample: a higher level takes over and restarts
    /// the hold; otherwise the hold runs down, and only then the peak falls.
    pub open spec fn read(self, reading: Reading<S>, sample: S) -> Reading<S> {
        let level = num::magnitude(sample);
        if num::below(reading.held, level) {
            Reading { held: level, remaining: self.hold_samples }
        } else if reading.remaining > 0 {
            Reading { held: reading.held, remaining: (reading.remaining - 1) as u32 }
        } else {
            Reading { held: self.faded(reading.held), remaining: 0 }
        }
    }

    /// A reading after a run of samples.
    pub open spec fn read_all(self, reading: Reading<S>, samples: Seq<S>) -> Reading<S>
        decreases samples.len(),
    {
        if samples.len() == 0 {
            reading
        } else {
            self.read(self.read_all(reading, samples.drop_last()), samples.last())
        }
    }
}

/// The samples of channel `c` of a block.
pub open spec fn channel_of<S>(block: Seq<Frame<S>>, c: int) -> Seq<S> {
    Seq::new(block.len(), |n: int| block[n]@[c])
}

impl<S: Sample> Meter<S> {
    pub open spec fn ballistics(&self) -> Ballistics<S> {
        Ballistics { hold_samples: self.hold_samples, decay_per_sample: self.decay_per_sample }
    }

    pub open spec fn reading(&self, c: int) -> Reading<S> {
        Reading { held: self.peak_hold@[c], remaining: self.hold_remaining@[c] }
    }

    pub open spec fn is_silent(&self) -> bool {
        forall|c: int|
            0 <= c < CHANNELS ==> self.peak_hold@[c] == num::whole::<S>(0)
                && self.hold_remaining@[c] == 0
    }

    /// A meter that has read nothing, for a sample rate.
    pub fn new<M: Elementary<S>>(m: &M, sample_rate: S) -> (r: Self)
        requires
            num::lawful::<S>(),
        ensures
            r.ballistics().suit(*m, sample_rate),
            r.is_silent(),
    {
        let ballistics = Ballistics::new(m, sample_rate);
        Meter {
            peak_hold: [get_whole(0); CHANNELS],
            hold_remaining: [0u32; CHANNELS],
            hold_samples: ballistics.hold_samples,
            decay_per_sample: ballistics.decay_per_sample,
        }
    }

    /// Takes the ballistics of another sample rate; the readings stay.
    pub fn set_sample_rate<M: Elementary<S>>(&mut self, m: &M, sample_rate: S)
        requires
            num::lawful::<S>(),
        ensures
            final(self).ballistics().suit(*m, sample_rate),
            final(self).peak_hold == old(self).peak_hold,
            final(self).hold_remaining == old(self).hold_remaining,
    {
        let ballistics = Ballistics::new(m, sample_rate);
        self.hold_samples = ballistics.hold_samples;
        self.decay_per_sample = ballistics.decay_per_sample;
    }

    pub fn peak(&self, channel: usize) -> (r: S)
        requires
            channel < CHANNELS,
        ensures
            r == self.peak_hold@[channel as int],
    {
        self.peak_hold[channel]
    }

    pub fn reset(&mut self)
        requires
            num::lawful::<S>(),
        ensures
            final(self).is_silent(),
            final(self).ballistics() == old(self).ballistics(),
    {
        self.peak_hold = [get_whole(0); CHANNELS];
        self.hold_remaining = [0u32; CHANNELS];
    }

    fn observe_frame(&mut self, frame: &Frame<S>)
        requires
            num::lawful::<S>(),
        ensures
            final(self).ballistics() == old(self).ballistics(),
            forall|c: int|
                0 <= c < CHANNELS ==> #[trigger] final(self).reading(c)
                    == old(self).ballistics().read(old(self).reading(c), frame@[c]),
    {
        let mut c: usize = 0;
        while c < CHANNELS
            invariant
                num::lawful::<S>(),
                c <= CHANNELS,
                self.ballistics() == old(self).ballistics(),
                forall|k: int|
                    0 <= k < CHANNELS ==> #[trigger] self.reading(k) == (if k < c {
                        old(self).ballistics().read(old(self).reading(k), frame@[k])
                    } else {
                        old(self).reading(k)
                    }),
            decreases CHANNELS - c,
        {
            let ghost before = *self;
            assert(before.reading(c as int) == old(self).reading(c as int));
            let level = get_magnitude(frame[c]);
            let held = self.peak_hold[c];
            let remaining: u32 = self.hold_remaining[c];
            if is_below(held, level) {
                self.peak_hold[c] = level;
                self.hold_remaining[c] = self.hold_samples;
            } else if remaining > 0 {
                self.hold_remaining[c] = remaining - 1;
            } else {
                let decayed = held * self.decay_per_sample;
                let floor = get_whole::<S>(1) / (get_whole::<S>(1000) * get_whole(1000));
                self.peak_hold[c] = if is_below(decayed, floor) {
                    get_whole(0)
                } else {
                    decayed
                };
            }
            assert(forall|k: int|
                0 <= k < CHANNELS && k != c ==> #[trigger] self.reading(k) == before.reading(k));
            c = c + 1;
        }
    }

    /// Reads a block into the meter, sample by sample.
    pub fn observe(&mut self, block: &[Frame<S>])
        requires
            num::lawful::<S>(),
        ensures
            final(self).ballistics() == old(self).ballistics(),
            forall|c: int|
                0 <= c < CHANNELS ==> #[trigger] final(self).reading(c)
                    == old(self).ballistics().read_all(
                    old(self).reading(c),
                    channel_of(block@, c),
                ),
    {
        let mut n: usize = 0;
        while n < block.len()
            invariant
                num::lawful::<S>(),
                n <= block.len(),
                self.ballistics() == old(self).ballistics(),
                forall|c: int|
                    0 <= c < CHANNELS ==> #[trigger] self.reading(c)
                        == old(self).ballistics().read_all(
                        old(self).reading(c),
                        channel_of(block@.take(n as int), c),
                    ),
            decreases block.len() - n,
        {
            proof {
                assert forall|c: int| 0 <= c < CHANNELS implies #[trigger] channel_of(
                    block@.take(n + 1),
                    c,
                ).drop_last() == channel_of(block@.take(n as int), c) by {
                    assert(channel_of(block@.take(n + 1), c).drop_last() =~= channel_of(
                        block@.take(n as int),
                        c,
                    ));
                }
            }
            self.observe_frame(&block[n]);
            n = n + 1;
        }
        assert(block@.take(block@.len() as int) =~= block@);
    }
}

/// A peak is held for exactly the hold time: as long as nothing louder comes
/// and the hold has not run out, it does not move.
pub proof fn law_peak_is_held<S: Sample>(
    ballistics: Ballistics<S>,
    reading: Reading<S>,
    samples: Seq<S>,
)
    requires
        samples.len() <= reading.remaining,
        forall|n: int|
            0 <= n < samples.len() ==> !num::below(
                reading.held,
                num::magnitude(#[trigger] samples[n]),
            ),
    ensures
        ballistics.read_all(reading, samples).held == reading.held,
        ballistics.read_all(reading, samples).remaining == reading.remaining - samples.len(),
    decreases samples.len(),
{
    if samples.len() > 0 {
        let before = samples.drop_last();
        assert forall|n: int| 0 <= n < before.len() implies !num::below(
            reading.held,
            num::magnitude(#[trigger] before[n]),
        ) by {
            assert(before[n] == samples[n]);
        }
        law_peak_is_held(ballistics, reading, before);
        assert(samples.last() == samples[samples.len() - 1]);
    }
}

/// Once the hold has run out, and while nothing louder comes, a peak falls by
/// its factor with every sample: it never rises, and does not go below silence.
/// So a peak that has fallen silent stays silent.
pub proof fn law_a_peak_then_only_falls<S: Sample>(
    ballistics: Ballistics<S>,
    reading: Reading<S>,
    samples: Seq<S>,
)
    requires
        num::is_ordered::<S>(),
        num::at_most(num::whole::<S>(0), num::whole::<S>(0)),
        num::at_most(num::whole::<S>(0), ballistics.decay_per_sample),
        num::at_most(ballistics.decay_per_sample, num::whole::<S>(1)),
        reading.remaining == 0,
        num::at_most(num::whole::<S>(0), reading.held),
        num::at_most(reading.held, reading.held),
        forall|n: int|
            0 <= n < samples.len() ==> !num::below(
                ballistics.read_all(reading, #[trigger] samples.take(n)).held,
                num::magnitude(samples[n]),
            ) && num::is_number(
                ballistics.read_all(reading, samples.take(n)).held.mul_spec(
                    ballistics.decay_per_sample,
                ),
            ),
    ensures
        ballistics.read_all(reading, samples).remaining == 0,
        num::at_most(ballistics.read_all(reading, samples).held, reading.held),
        num::at_most(num::whole::<S>(0), ballistics.read_all(reading, samples).held),
        samples.len() > 0 ==> ballistics.read_all(reading, samples).held == ballistics.faded(
            ballistics.read_all(reading, samples.drop_last()).held,
        ),
    decreases samples.len(),
{
    if samples.len() > 0 {
        let before = samples.drop_last();
        let last = samples.len() - 1;
        assert(samples.take(last) =~= before);
        assert forall|n: int| 0 <= n < before.len() implies !num::below(
            ballistics.read_all(reading, #[trigger] before.take(n)).held,
            num::magnitude(before[n]),
        ) && num::is_number(
            ballistics.read_all(reading, before.take(n)).held.mul_spec(
                ballistics.decay_per_sample,
            ),
        ) by {
            assert(before.take(n) =~= samples.take(n));
            assert(before[n] == samples[n]);
        }
        law_a_peak_then_only_falls(ballistics, reading, before);
        let held = ballistics.read_all(reading, before).held;
        let now = ballistics.faded(held);
        assert(!num::below(held, num::magnitude(samples[last])));
        assert(ballistics.read_all(reading, samples).held == now);
        assert(num::at_most(held.mul_spec(ballistics.decay_per_sample), held));
        assert(num::at_most(now, reading.held)) by {
            if now == num::whole::<S>(0) {
            } else {
                assert(num::at_most(now, held) && num::at_most(held, reading.held));
            }
        }
    }
}

impl<S: Sample> Ballistics<S> {
    /// What a level has come down to after `n` samples of decay, without the
    /// floor.
    pub open spec fn decayed(self, held: S, n: nat) -> S
        decreases n,
    {
        if n == 0 {
            held
        } else {
            self.decayed(held, (n - 1) as nat).mul_spec(self.decay_per_sample)
        }
    }

    /// A decaying level is under the floor after `n` samples.
    pub open spec fn under_floor(self, held: S, n: nat) -> bool {
        num::below(
            self.decayed(held, n),
            num::whole::<S>(1).div_spec(num::whole::<S>(1000).mul_spec(num::whole::<S>(1000))),
        )
    }

    /// These ballistics make a level fall: the factor lies between nought and
    /// one, silence stays silence, and what the level comes down to are numbers.
    pub open spec fn lower(self, held: S) -> bool {
        let zero = num::whole::<S>(0);
        &&& num::at_most(zero, zero)
        &&& num::at_most(zero, self.decay_per_sample)
        &&& num::at_most(self.decay_per_sample, num::whole::<S>(1))
        &&& self.faded(zero) == zero
        &&& num::at_most(zero, held)
        &&& num::at_most(held, held)
        &&& forall|n: nat| num::is_number(#[trigger] self.decayed(held, n))
    }
}

/// `n` samples of silence.
pub open spec fn silence<S: Sample>(n: nat) -> Seq<S> {
    Seq::new(n, |i: int| num::whole::<S>(0))
}

/// How a signal is cut into blocks does not matter to a meter.
pub proof fn law_cuts_do_not_matter<S: Sample>(
    ballistics: Ballistics<S>,
    reading: Reading<S>,
    first: Seq<S>,
    second: Seq<S>,
)
    ensures
        ballistics.read_all(reading, first + second) == ballistics.read_all(
            ballistics.read_all(reading, first),
            second,
        ),
    decreases second.len(),
{
    if second.len() == 0 {
        assert(first + second =~= first);
    } else {
        assert((first + second).drop_last() =~= first + second.drop_last());
        law_cuts_do_not_matter(ballistics, reading, first, second.drop_last());
    }
}

proof fn lemma_decayed<S: Sample>(ballistics: Ballistics<S>, held: S, n: nat)
    requires
        num::is_ordered::<S>(),
        ballistics.lower(held),
    ensures
        num::at_most(num::whole::<S>(0), ballistics.decayed(held, n)),
        n > 0 ==> num::at_most(
            ballistics.decayed(held, n),
            ballistics.decayed(held, (n - 1) as nat),
        ),
        n > 0 ==> num::at_most(ballistics.decayed(held, n), ballistics.decayed(held, 1)),
    decreases n,
{
    let zero = num::whole::<S>(0);
    if n > 0 {
        let before = (n - 1) as nat;
        lemma_decayed(ballistics, held, before);
        let was = ballistics.decayed(held, before);
        let now = ballistics.decayed(held, n);
        assert(now == was.mul_spec(ballistics.decay_per_sample));
        assert(num::is_number(now));
        if n == 1 {
            assert(was == held);
            assert(num::at_most(now, now)) by {
                assert(num::below(now, now) ==> num::at_most(now, now));
            }
        }
    }
}

/// What a held level reads after `n` samples of silence once the hold is over:
/// what it has decayed to, or silence from the first sample on at which that is
/// under the floor.
proof fn lemma_fall<S: Sample>(ballistics: Ballistics<S>, held: S, n: nat)
    requires
        num::is_ordered::<S>(),
        ballistics.lower(held),
    ensures
        ({
            let start = Reading { held, remaining: 0 };
            let end = ballistics.read_all(start, silence::<S>(n));
            &&& end.remaining == 0
            &&& end.held == (if exists|k: nat| 0 < k <= n && #[trigger] ballistics.under_floor(
                held,
                k,
            ) {
                num::whole::<S>(0)
            } else {
                ballistics.decayed(held, n)
            })
        }),
    decreases n,
{
    let zero = num::whole::<S>(0);
    let start = Reading { held, remaining: 0 };
    if n > 0 {
        let before = (n - 1) as nat;
        assert(silence::<S>(n).drop_last() =~= silence::<S>(before));
        lemma_fall(ballistics, held, before);
        lemma_decayed(ballistics, held, before);
        let was = ballistics.read_all(start, silence::<S>(before));
        assert(num::magnitude(zero) == zero);
        assert(!num::below(was.held, zero));
        if exists|k: nat| 0 < k <= before && #[trigger] ballistics.under_floor(held, k) {
            let k = choose|k: nat| 0 < k <= before && #[trigger] ballistics.under_floor(held, k);
            assert(0 < k <= n && ballistics.under_floor(held, k));
        } else {
            assert(was.held == ballistics.decayed(held, before));
            if ballistics.under_floor(held, n) {
                assert(0 < n <= n && ballistics.under_floor(held, n));
            } else {
                assert(!exists|k: nat| 0 < k <= n && #[trigger] ballistics.under_floor(held, k));
            }
        }
    }
}

/// A peak in silence is held for what is left of its hold, then falls by its
/// factor with every sample, and is silent for good from the sample on at which
/// that takes it under the floor.
pub proof fn law_a_peak_fades_to_silence<S: Sample>(
    ballistics: Ballistics<S>,
    reading: Reading<S>,
    n: nat,
)
    requires
        num::is_ordered::<S>(),
        ballistics.lower(reading.held),
    ensures
        ({
            let end = ballistics.read_all(reading, silence::<S>(n));
            let past = (n - reading.remaining) as nat;
            if n <= reading.remaining {
                end.held == reading.held && end.remaining == reading.remaining - n
            } else {
                &&& end.remaining == 0
                &&& end.held == (if exists|k: nat|
                    0 < k <= past && #[trigger] ballistics.under_floor(reading.held, k) {
                    num::whole::<S>(0)
                } else {
                    ballistics.decayed(reading.held, past)
                })
            }
        }),
{
    let zero = num::whole::<S>(0);
    assert(num::magnitude(zero) == zero);
    assert(!num::below(reading.held, zero));
    if n <= reading.remaining {
        law_peak_is_held(ballistics, reading, silence::<S>(n));
    } else {
        let wait = reading.remaining as nat;
        let past = (n - wait) as nat;
        assert(silence::<S>(n) =~= silence::<S>(wait) + silence::<S>(past));
        law_cuts_do_not_matter(ballistics, reading, silence::<S>(wait), silence::<S>(past));
        law_peak_is_held(ballistics, reading, silence::<S>(wait));
        lemma_fall(ballistics, reading.held, past);
    }
}

/// Once its hold is over a peak in silence is lower than it was, and it is
/// never higher again than it was a sample before. The factor has to make it
/// smaller at all, and it has to be above silence.
pub proof fn law_a_peak_falls_after_its_hold<S: Sample>(
    ballistics: Ballistics<S>,
    reading: Reading<S>,
    n: nat,
)
    requires
        num::is_ordered::<S>(),
        ballistics.lower(reading.held),
        num::below(num::whole::<S>(0), reading.held),
        num::below(ballistics.decayed(reading.held, 1), reading.held),
    ensures
        n > reading.remaining ==> num::below(
            ballistics.read_all(reading, silence::<S>(n)).held,
            reading.held,
        ),
        num::at_most(
            ballistics.read_all(reading, silence::<S>(n + 1)).held,
            ballistics.read_all(reading, silence::<S>(n)).held,
        ),
        num::at_most(
            num::whole::<S>(0),
            ballistics.read_all(reading, silence::<S>(n)).held,
        ),
{
    let held = reading.held;
    law_a_peak_fades_to_silence(ballistics, reading, n);
    law_a_peak_fades_to_silence(ballistics, reading, n + 1);
    if n > reading.remaining {
        let past = (n - reading.remaining) as nat;
        lemma_decayed(ballistics, held, past);
        lemma_decayed(ballistics, held, past + 1);
        if exists|k: nat| 0 < k <= past && #[trigger] ballistics.under_floor(held, k) {
            let k = choose|k: nat| 0 < k <= past && #[trigger] ballistics.under_floor(held, k);
            assert(0 < k <= past + 1 && ballistics.under_floor(held, k));
        }
    } else if n == reading.remaining {
        lemma_decayed(ballistics, held, 1);
    }
}

/// All the blocks together.
pub open spec fn total(cuts: Seq<nat>) -> nat
    decreases cuts.len(),
{
    if cuts.len() == 0 {
        0
    } else {
        total(cuts.drop_last()) + cuts.last()
    }
}

impl<S: Sample> Ballistics<S> {
    /// A reading after silent blocks of the lengths `cuts`, read one by one.
    pub open spec fn read_silence(self, reading: Reading<S>, cuts: Seq<nat>) -> Reading<S>
        decreases cuts.len(),
    {
        if cuts.len() == 0 {
            reading
        } else {
            self.read_all(
                self.read_silence(reading, cuts.drop_last()),
                silence::<S>(cuts.last()),
            )
        }
    }
}

/// Silence is silence, into however many blocks it is cut.
pub proof fn law_silence_may_be_cut<S: Sample>(
    ballistics: Ballistics<S>,
    reading: Reading<S>,
    cuts: Seq<nat>,
)
    ensures
        ballistics.read_silence(reading, cuts) == ballistics.read_all(
            reading,
            silence::<S>(total(cuts)),
        ),
    decreases cuts.len(),
{
    if cuts.len() > 0 {
        let init = cuts.drop_last();
        law_silence_may_be_cut(ballistics, reading, init);
        law_cuts_do_not_matter(
            ballistics,
            reading,
            silence::<S>(total(init)),
            silence::<S>(cuts.last()),
        );
        assert(silence::<S>(total(init)) + silence::<S>(cuts.last()) =~= silence::<S>(total(cuts)));
    }
}

/// One loud sample on a silent channel, and then silence, in blocks of any
/// lengths: the sample's level stands for the whole hold, afterwards it is lower,
/// and it is nought once the decay has taken it under the floor. A channel that
/// gets nothing but silence reads silence throughout.
pub proof fn law_one_sample_in_silence<S: Sample>(
    ballistics: Ballistics<S>,
    sample: S,
    cuts: Seq<nat>,
)
    requires
        num::is_ordered::<S>(),
        ballistics.lower(num::magnitude(sample)),
        num::below(num::whole::<S>(0), num::magnitude(sample)),
        num::below(ballistics.decayed(num::magnitude(sample), 1), num::magnitude(sample)),
    ensures
        ({
            let silent = Reading { held: num::whole::<S>(0), remaining: 0 };
            let level = num::magnitude(sample);
            let n = total(cuts);
            let end = ballistics.read_silence(
                ballistics.read_all(silent, seq![sample]),
                cuts,
            ).held;
            &&& n <= ballistics.hold_samples ==> end == level
            &&& n > ballistics.hold_samples ==> num::below(end, level)
            &&& forall|k: nat|
                0 < k && ballistics.hold_samples + k <= n && #[trigger] ballistics.under_floor(
                    level,
                    k,
                ) ==> end == num::whole::<S>(0)
            &&& ballistics.read_silence(silent, cuts) == silent
        }),
{
    let zero = num::whole::<S>(0);
    let silent = Reading { held: zero, remaining: 0 };
    let level = num::magnitude(sample);
    let loud = Reading { held: level, remaining: ballistics.hold_samples };
    assert(seq![sample].drop_last() =~= Seq::<S>::empty());
    assert(ballistics.read_all(silent, seq![sample].drop_last()) == silent);
    assert(ballistics.read_all(silent, seq![sample]) == loud);
    law_silence_may_be_cut(ballistics, loud, cuts);
    law_silence_may_be_cut(ballistics, silent, cuts);
    law_a_peak_fades_to_silence(ballistics, loud, total(cuts));
    law_a_peak_falls_after_its_hold(ballistics, loud, total(cuts));
    lemma_silence_stays(ballistics, total(cuts));
}

proof fn lemma_lower_decays_lower<S: Sample>(
    ballistics: Ballistics<S>,
    held: S,
    top: S,
    n: nat,
)
    requires
        num::is_ordered::<S>(),
        ballistics.lower(held),
        ballistics.lower(top),
        num::at_most(held, top),
    ensures
        num::at_most(ballistics.decayed(held, n), ballistics.decayed(top, n)),
    decreases n,
{
    if n > 0 {
        lemma_lower_decays_lower(ballistics, held, top, (n - 1) as nat);
        assert(num::is_number(ballistics.decayed(held, n)));
        assert(num::is_number(ballistics.decayed(top, n)));
    }
}

/// If the decay takes a level `top` under the floor in `n` samples, then every
/// peak up to `top` is nought when its hold is over and `n` samples of silence
/// more have passed, and from there on.
pub proof fn law_every_peak_is_gone_in_time<S: Sample>(
    ballistics: Ballistics<S>,
    reading: Reading<S>,
    top: S,
    n: nat,
    cuts: Seq<nat>,
)
    requires
        num::is_ordered::<S>(),
        ballistics.lower(reading.held),
        ballistics.lower(top),
        num::at_most(reading.held, top),
        n > 0,
        ballistics.under_floor(top, n),
        reading.remaining + n <= total(cuts),
    ensures
        ballistics.read_silence(reading, cuts).held == num::whole::<S>(0),
{
    lemma_lower_decays_lower(ballistics, reading.held, top, n);
    law_silence_may_be_cut(ballistics, reading, cuts);
    law_a_peak_fades_to_silence(ballistics, reading, total(cuts));
    assert(ballistics.under_floor(reading.held, n));
}

proof fn lemma_silence_stays<S: Sample>(ballistics: Ballistics<S>, n: nat)
    requires
        num::is_ordered::<S>(),
        num::at_most(num::whole::<S>(0), num::whole::<S>(0)),
        ballistics.faded(num::whole::<S>(0)) == num::whole::<S>(0),
    ensures
        ({
            let silent = Reading { held: num::whole::<S>(0), remaining: 0 };
            ballistics.read_all(silent, silence::<S>(n)) == silent
        }),
    decreases n,
{
    if n > 0 {
        assert(silence::<S>(n).drop_last() =~= silence::<S>((n - 1) as nat));
        lemma_silence_stays(ballistics, (n - 1) as nat);
    }
}

proof fn lemma_decayed_in_fixed_point(ballistics: Ballistics<Fixed>, held: Fixed, n: nat)
    requires
        0 <= ballistics.decay_per_sample.raw < fixed::ONE,
        0 <= held.raw,
    ensures
        0 <= ballistics.decayed(held, n).raw <= held.raw,
        ballistics.decayed(held, n).raw == 0 || ballistics.decayed(held, n).raw + n <= held.raw,
    decreases n,
{
    if n > 0 {
        lemma_decayed_in_fixed_point(ballistics, held, (n - 1) as nat);
        let a = ballistics.decayed(held, (n - 1) as nat).raw as int;
        let d = ballistics.decay_per_sample.raw as int;
        assert(0 <= a * d / 65536 && (a > 0 ==> a * d / 65536 < a) && (a == 0 ==> a * d / 65536
            == 0)) by (nonlinear_arith)
            requires
                0 <= a,
                0 <= d < 65536,
        ;
    }
}

/// In fixed point a peak in silence is always gone in the end: at the latest
/// when its hold is over and as many samples more have passed as its level has
/// steps.
pub proof fn law_a_peak_dies_out_in_fixed_point(
    ballistics: Ballistics<Fixed>,
    reading: Reading<Fixed>,
    n: nat,
)
    requires
        0 <= ballistics.decay_per_sample.raw < fixed::ONE,
        0 <= reading.held.raw,
        n > reading.remaining + reading.held.raw,
    ensures
        ballistics.read_all(reading, silence::<Fixed>(n)).held == num::whole::<Fixed>(0),
{
    fixed::law_fixed_point_is_ordered();
    let past = (n - reading.remaining) as nat;
    lemma_decayed_in_fixed_point(ballistics, reading.held, past);
    assert(num::whole::<Fixed>(0).raw == 0);
    assert(num::whole::<Fixed>(1).raw == fixed::ONE);
    assert(ballistics.faded(num::whole::<Fixed>(0)).raw == 0);
    law_a_peak_fades_to_silence(ballistics, reading, n);
}

} // verus!
