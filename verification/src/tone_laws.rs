//! What the pan pots, the pads, the tone controls and karaoke do to a signal.

use crate::biquad::{self, Biquad, BiquadCoeffs, Boost, Corner};
use crate::elementary::{self, Elementary};
use crate::eq3::{StereoBiquad, ThreeBandEq, ThreeBandFilter};
use crate::exact::{self, Functions};
use crate::filter_laws;
use crate::gate::{self, Gate, GateDetector};
use crate::intellipan::{self, ColorPad, DelayPair, ModulationPad, PadPosition, Sweep};
use crate::karaoke::{self, KaraokeMode, VocalNotch};
use crate::num::{self, Sample};
use crate::pan::{self, PositionPad5_1, StereoBalance};
use crate::CHANNELS;
use vstd::prelude::*;
use vstd::std_specs::ops::{AddSpec, DivSpec, MulSpec, NegSpec, SubSpec};

verus! {

/// The gains of the left and the right side at `p`: the near side is left as it
/// is, the far one loses as much as `p` is off the centre.
pub open spec fn sides(p: real) -> (real, real) {
    if p <= 0real {
        (1real, 1real + p)
    } else {
        (1real - p, 1real)
    }
}

/// A pan pot turns down the side away from where it points, evenly, down to
/// silence at its end, and leaves the near side alone.
pub proof fn law_where_a_pan_pot_points<S: Sample>(
    v: spec_fn(S) -> real,
    pot: StereoBalance<S>,
    f: Seq<S>,
)
    requires
        exact::is_exact(v),
        f.len() == CHANNELS,
    ensures
        ({
            let g = sides(exact::held(v(pot.pan), -1real, 1real));
            &&& v(pan::balance(pot.pan).0) == g.0
            &&& v(pan::balance(pot.pan).1) == g.1
            &&& v(pot.panned(f)[0]) == v(f[0]) * g.0
            &&& v(pot.panned(f)[1]) == v(f[1]) * g.1
        }),
{
    exact::law_clamping(v, pot.pan, num::whole::<S>(-1), num::whole::<S>(1));
}

/// A pan pot turned the other way does to the left what it did to the right.
pub proof fn law_a_pan_pot_is_even_handed<S: Sample>(v: spec_fn(S) -> real, p: S, q: S)
    requires
        exact::is_exact(v),
        v(q) == -v(p),
    ensures
        v(pan::balance(q).0) == v(pan::balance(p).1),
        v(pan::balance(q).1) == v(pan::balance(p).0),
{
    exact::law_clamping(v, p, num::whole::<S>(-1), num::whole::<S>(1));
    exact::law_clamping(v, q, num::whole::<S>(-1), num::whole::<S>(1));
}

/// The pad of a virtual strip pans the front pair and shares each side out
/// between front and rear: together they are what the pan leaves, and the rear's
/// part is how far back the pad points.
pub proof fn law_where_a_position_pad_points<S: Sample>(
    v: spec_fn(S) -> real,
    pad: PositionPad5_1<S>,
    f: Seq<S>,
)
    requires
        exact::is_exact(v),
        f.len() == CHANNELS,
    ensures
        ({
            let x = exact::held(v(pad.x), -1real / 2real, 1real / 2real);
            let y = exact::held(v(pad.y), 0real, 1real);
            let g = sides(2real * x);
            let (l, r) = (v(f[0]) * g.0, v(f[1]) * g.1);
            let out = pad.placed(f);
            &&& v(out[0]) + v(out[4]) == l
            &&& v(out[1]) + v(out[5]) == r
            &&& v(out[4]) == l * y
            &&& v(out[5]) == r * y
        }),
{
    exact::law_fractions(v, -1, 2);
    exact::law_fractions(v, 1, 2);
    exact::law_clamping(v, pad.x, num::ratio::<S>(-1, 2), num::ratio::<S>(1, 2));
    exact::law_clamping(v, pad.y, num::whole::<S>(0), num::whole::<S>(1));
    let x = num::clamped(pad.x, num::ratio::<S>(-1, 2), num::ratio::<S>(1, 2));
    let y = num::clamped(pad.y, num::whole::<S>(0), num::whole::<S>(1));
    let two = num::whole::<S>(2);
    let (p, t) = (v(x), v(two));
    assert(p * t == 2real * p) by (nonlinear_arith)
        requires
            t == 2real,
    ;
    let pot = StereoBalance { pan: x.mul_spec(two) };
    law_where_a_pan_pot_points(v, pot, f);
    let g = pan::balance(pot.pan);
    let (l, r) = (f[0].mul_spec(g.0), f[1].mul_spec(g.1));
    let front = num::whole::<S>(1).sub_spec(y);
    let out = pad.placed(f);
    assert(out[0] == l.mul_spec(front));
    assert(out[1] == r.mul_spec(front));
    assert(out[4] == l.mul_spec(y));
    assert(out[5] == r.mul_spec(y));
    let (a, b, w) = (v(l), v(r), v(y));
    assert(v(front) == 1real - w);
    assert(a * (1real - w) + a * w == a && b * (1real - w) + b * w == b) by (nonlinear_arith);
}

/// What karaoke leaves. KM keeps only what the sides do not share: the same signal
/// on both sides is gone. The other modes replace a part of each side, 85, 50 or
/// 100 in a hundred, by what the vocal notch leaves of it.
pub proof fn law_what_karaoke_leaves<S: Sample>(
    v: spec_fn(S) -> real,
    notch: VocalNotch<S>,
    mode: KaraokeMode,
    l: S,
    r: S,
)
    requires
        exact::is_exact(v),
    ensures
        ({
            let out = notch.output(mode, l, r);
            let (x, y) = (v(notch.notch_l.output(l)), v(notch.notch_r.output(r)));
            match mode {
                KaraokeMode::Off => out == (l, r),
                KaraokeMode::KM => 2real * v(out.0) == v(l) - v(r) && 2real * v(out.1) == v(r) - v(l),
                KaraokeMode::K1 => 100real * v(out.0) == 15real * v(l) + 85real * x && 100real
                    * v(out.1) == 15real * v(r) + 85real * y,
                KaraokeMode::K2 => 2real * v(out.0) == v(l) + x && 2real * v(out.1) == v(r) + y,
                KaraokeMode::KV => v(out.0) == x && v(out.1) == y,
            }
        }),
{
    exact::law_fractions(v, 85, 100);
    exact::law_fractions(v, 1, 2);
    let (x, y) = (notch.notch_l.output(l), notch.notch_r.output(r));
    if let Some(depth) = karaoke::band_depth::<S>(mode) {
        lemma_blended(v, l, x, depth);
        lemma_blended(v, r, y, depth);
        let t = v(depth);
        let (a, b) = (v(x) - v(l), v(y) - v(r));
        assert((t == 85real / 100real ==> 100real * (t * a) == 85real * a && 100real * (t * b)
            == 85real * b) && (t == 1real / 2real ==> 2real * (t * a) == a && 2real * (t * b) == b)
            && (t == 1real ==> t * a == a && t * b == b)) by (nonlinear_arith);
    } else {
        let side = l.sub_spec(r);
        let (s, h) = (v(side), v(num::ratio::<S>(1, 2)));
        assert(2real * (s * h) == s) by (nonlinear_arith)
            requires
                h == 1real / 2real,
        ;
    }
}

proof fn lemma_blended<S: Sample>(v: spec_fn(S) -> real, dry: S, wet: S, depth: S)
    requires
        exact::is_exact(v),
    ensures
        v(karaoke::blended(dry, wet, depth)) == v(dry) + v(depth) * (v(wet) - v(dry)),
{
    let (d, w, t) = (v(dry), v(wet), v(depth));
    assert(d * (1real - t) + w * t == d + t * (w - d)) by (nonlinear_arith);
}

/// The angle of a frequency lies inside the spectrum.
pub open spec fn is_audible(f: Functions, angle: real) -> bool {
    let (s, c) = ((f.sin)(angle), (f.cos)(angle));
    s > 0real && s * s + c * c == 1real
}

/// The angle that a frequency goes through in one sample.
pub open spec fn angle_of<S: Sample>(
    v: spec_fn(S) -> real,
    f: Functions,
    hz: real,
    rate: S,
) -> real {
    f.turn * (hz / v(rate))
}

/// An angle with this sine and cosine is an edge of a band of quality `q` around
/// another angle.
pub open spec fn is_edge_of(f: Functions, angle: real, q: real, sin: real, cos: real) -> bool {
    sin > 0real && 2real * q * exact::size(cos - (f.cos)(angle)) == (f.sin)(angle) * sin
}

/// A bell of quality `q` around a frequency: that frequency comes out with as many
/// decibels more, the edges of the band with half as many, and the two ends of the
/// spectrum as they are.
pub open spec fn is_a_bell<S: Sample>(
    v: spec_fn(S) -> real,
    f: Functions,
    angle: real,
    q: real,
    gain_db: real,
    c: BiquadCoeffs<S>,
) -> bool {
    let a = (f.ten)(gain_db / 40real);
    &&& filter_laws::lets_through(v, c, 0real, 1real, 1real)
    &&& filter_laws::lets_through(v, c, (f.sin)(angle), (f.cos)(angle), (a * a) * (a * a))
    &&& filter_laws::lets_through(v, c, 0real, -1real, 1real)
    &&& forall|sin: real, cos: real| #[trigger]
        is_edge_of(f, angle, q, sin, cos) ==> filter_laws::lets_through(v, c, sin, cos, a * a)
}

/// The bells of the tone controls are bells.
pub proof fn law_a_tone_bell_is_a_bell<S: Sample, M: Elementary<S>>(
    v: spec_fn(S) -> real,
    m: M,
    f: Functions,
    rate: S,
    freq_hz: S,
    q: S,
    gain_db: S,
    c: BiquadCoeffs<S>,
)
    requires
        exact::is_exact(v),
        exact::computes(v, m, f),
        v(rate) > 0real,
        v(q) > 0real,
        (f.ten)(v(gain_db) / 40real) > 0real,
        is_audible(f, angle_of(v, f, v(freq_hz), rate)),
        biquad::bells(m, rate, freq_hz, q, gain_db, c),
    ensures
        is_a_bell(v, f, angle_of(v, f, v(freq_hz), rate), v(q), v(gain_db), c),
{
    let (corner, boost) = choose|corner: Corner<S>, boost: Boost<S>|
        #[trigger] elementary::corners(m, freq_hz, rate, corner) && #[trigger] elementary::boosts(
            m,
            gain_db,
            boost,
        ) && c == BiquadCoeffs::peak_form(corner, q, boost.amplitude);
    filter_laws::law_a_corner_is_its_frequency(v, m, f, freq_hz, rate, corner);
    filter_laws::law_a_boost_is_half_the_decibels(v, m, f, gain_db, boost);
    filter_laws::law_bell(v, corner, q, boost.amplitude);
    let angle = angle_of(v, f, v(freq_hz), rate);
    let a = (f.ten)(v(gain_db) / 40real);
    assert forall|sin: real, cos: real| #[trigger]
        is_edge_of(f, angle, v(q), sin, cos) implies filter_laws::lets_through(
        v,
        c,
        sin,
        cos,
        a * a,
    ) by {
        filter_laws::law_how_wide_a_band_is(v, corner, q, boost.amplitude, sin, cos);
    }
}

/// A filter is out of the way, or a bell of quality seven tenths, or on its way to
/// one.
pub open spec fn is_set_to_a_bell<S: Sample>(
    v: spec_fn(S) -> real,
    f: Functions,
    angle: real,
    gain_db: real,
    filter: Biquad<S>,
) -> bool {
    if gain_db == 0real {
        filter.coeffs is None
    } else {
        exists|c: BiquadCoeffs<S>| #[trigger]
            filter.aims_at(c) && is_a_bell(v, f, angle, 7real / 10real, gain_db, c)
    }
}

proof fn lemma_retuned_aims<S: Sample>(v: spec_fn(S) -> real, filter: Biquad<S>, c: BiquadCoeffs<S>)
    requires
        exact::is_exact(v),
        filter.ramp is Some ==> filter.coeffs is Some,
    ensures
        filter.retuned(c).aims_at(c),
{
}

/// The three tone controls of a virtual strip are bells at 200, 1000 and 5000 Hz,
/// each of its own gain, on both sides.
pub proof fn law_what_the_tone_controls_do<S: Sample, M: Elementary<S>>(
    v: spec_fn(S) -> real,
    m: M,
    f: Functions,
    rate: S,
    eq: ThreeBandEq<S>,
    before: ThreeBandFilter<S>,
    after: ThreeBandFilter<S>,
)
    requires
        exact::is_exact(v),
        exact::computes(v, m, f),
        v(rate) > 0real,
        forall|x: real| #[trigger] (f.ten)(x) > 0real,
        is_audible(f, angle_of(v, f, 200real, rate)),
        is_audible(f, angle_of(v, f, 1000real, rate)),
        is_audible(f, angle_of(v, f, 5000real, rate)),
        before.wf(),
        before.set_to(m, rate, eq, after),
    ensures
        ({
            let (low, mid, high) = (
                angle_of(v, f, 200real, rate),
                angle_of(v, f, 1000real, rate),
                angle_of(v, f, 5000real, rate),
            );
            &&& is_set_to_a_bell(v, f, low, v(eq.bass_db), after.bass.left)
            &&& is_set_to_a_bell(v, f, low, v(eq.bass_db), after.bass.right)
            &&& is_set_to_a_bell(v, f, mid, v(eq.mid_db), after.mid.left)
            &&& is_set_to_a_bell(v, f, mid, v(eq.mid_db), after.mid.right)
            &&& is_set_to_a_bell(v, f, high, v(eq.treble_db), after.treble.left)
            &&& is_set_to_a_bell(v, f, high, v(eq.treble_db), after.treble.right)
        }),
{
    lemma_tone_band(v, m, f, rate, num::whole::<S>(200), eq.bass_db, before.bass, after.bass);
    lemma_tone_band(v, m, f, rate, num::whole::<S>(1000), eq.mid_db, before.mid, after.mid);
    lemma_tone_band(
        v,
        m,
        f,
        rate,
        num::whole::<S>(5000),
        eq.treble_db,
        before.treble,
        after.treble,
    );
}

proof fn lemma_tone_band<S: Sample, M: Elementary<S>>(
    v: spec_fn(S) -> real,
    m: M,
    f: Functions,
    rate: S,
    freq_hz: S,
    gain_db: S,
    before: StereoBiquad<S>,
    after: StereoBiquad<S>,
)
    requires
        exact::is_exact(v),
        exact::computes(v, m, f),
        v(rate) > 0real,
        forall|x: real| #[trigger] (f.ten)(x) > 0real,
        is_audible(f, angle_of(v, f, v(freq_hz), rate)),
        before.wf(),
        before.set_to(m, rate, freq_hz, gain_db, after),
    ensures
        is_set_to_a_bell(v, f, angle_of(v, f, v(freq_hz), rate), v(gain_db), after.left),
        is_set_to_a_bell(v, f, angle_of(v, f, v(freq_hz), rate), v(gain_db), after.right),
{
    if v(gain_db) != 0real {
        let c = choose|c: BiquadCoeffs<S>|
            #[trigger] biquad::bells(m, rate, freq_hz, num::ratio::<S>(7, 10), gain_db, c) && after
                == before.retuned(c);
        exact::law_fractions(v, 7, 10);
        law_a_tone_bell_is_a_bell(v, m, f, rate, freq_hz, num::ratio::<S>(7, 10), gain_db, c);
        lemma_retuned_aims(v, before.left, c);
        lemma_retuned_aims(v, before.right, c);
    }
}

/// The color pad tilts the spectrum: at either edge it takes twelve decibels off
/// one end and puts them on the other. To the right the treble rises and the bass
/// falls.
pub proof fn law_what_the_color_pad_does<S: Sample, M: Elementary<S>>(
    v: spec_fn(S) -> real,
    m: M,
    f: Functions,
    rate: S,
    pad: PadPosition<S>,
    before: ColorPad<S>,
    after: ColorPad<S>,
)
    requires
        exact::is_exact(v),
        exact::computes(v, m, f),
        v(rate) > 0real,
        forall|x: real| #[trigger] (f.ten)(x) > 0real,
        is_audible(f, angle_of(v, f, 200real, rate)),
        is_audible(f, angle_of(v, f, 5000real, rate)),
        before.wf(),
        before.set_to(m, rate, pad, after),
    ensures
        ({
            let tilt = 24real * v(pad.x);
            let (low, high) = (angle_of(v, f, 200real, rate), angle_of(v, f, 5000real, rate));
            &&& is_set_to_a_bell(v, f, low, -tilt, after.bass_l)
            &&& is_set_to_a_bell(v, f, low, -tilt, after.bass_r)
            &&& is_set_to_a_bell(v, f, high, tilt, after.treble_l)
            &&& is_set_to_a_bell(v, f, high, tilt, after.treble_r)
        }),
{
    let tilt = ColorPad::<S>::tilt_db(pad);
    exact::law_fractions(v, 1, 2);
    exact::law_fractions(v, 7, 10);
    let (x, h, t) = (v(pad.x), v(num::ratio::<S>(1, 2)), v(num::whole::<S>(12)));
    assert((x / h) * t == 24real * x) by (nonlinear_arith)
        requires
            h == 1real / 2real,
            t == 12real,
    ;
    assert(v(tilt) == 24real * x);
    let q = num::ratio::<S>(7, 10);
    if v(tilt) != 0real {
        let (low, high) = (num::whole::<S>(200), num::whole::<S>(5000));
        let (bass, treble) = choose|bass: BiquadCoeffs<S>, treble: BiquadCoeffs<S>|
            #[trigger] biquad::bells(m, rate, low, q, tilt.neg_spec(), bass)
                && #[trigger] biquad::bells(m, rate, high, q, tilt, treble) && after
                == before.retuned(bass, treble);
        law_a_tone_bell_is_a_bell(v, m, f, rate, low, q, tilt.neg_spec(), bass);
        law_a_tone_bell_is_a_bell(v, m, f, rate, high, q, tilt, treble);
        lemma_retuned_aims(v, before.bass_l, bass);
        lemma_retuned_aims(v, before.bass_r, bass);
        lemma_retuned_aims(v, before.treble_l, treble);
        lemma_retuned_aims(v, before.treble_r, treble);
    }
}

/// A pad stays inside its square.
pub proof fn law_a_pad_stays_inside<S: Sample>(v: spec_fn(S) -> real, x: S, y: S)
    requires
        exact::is_exact(v),
    ensures
        v(PadPosition::<S>::at(x, y).x) == exact::held(v(x), -1real / 2real, 1real / 2real),
        v(PadPosition::<S>::at(x, y).y) == exact::held(v(y), 0real, 1real),
{
    exact::law_fractions(v, -1, 2);
    exact::law_fractions(v, 1, 2);
    exact::law_clamping(v, x, num::ratio::<S>(-1, 2), num::ratio::<S>(1, 2));
    exact::law_clamping(v, y, num::whole::<S>(0), num::whole::<S>(1));
}

/// `y` is the ring read `d` samples before slot `at`: on the straight line between
/// the two samples on either side of that.
pub open spec fn is_read_back<S: Sample>(
    v: spec_fn(S) -> real,
    ring: Seq<S>,
    at: int,
    d: real,
    y: real,
) -> bool {
    exists|n: int|
        0 <= n && n as real <= d && d < (n as real) + 1real && y == (1real - (d - (n as real))) * v(
            ring[#[trigger] ((at - n) % (ring.len() as int))],
        ) + (d - (n as real)) * v(ring[(at - (n + 1)) % (ring.len() as int)])
}

proof fn lemma_tap<S: Sample>(
    v: spec_fn(S) -> real,
    ring: Seq<S>,
    at: int,
    split: (usize, S),
    d: real,
)
    requires
        exact::is_exact(v),
        d == (split.0 as int as real) + v(split.1),
        0real <= v(split.1) < 1real,
    ensures
        is_read_back(v, ring, at, d, v(intellipan::tap(ring, at, split.0 as int, split.1))),
{
    let n = split.0 as int;
    let a = ring[intellipan::slot_back(at, n, ring.len() as int)];
    let b = ring[intellipan::slot_back(at, n + 1, ring.len() as int)];
    let (x, y, t) = (v(a), v(b), v(split.1));
    assert(x + (y - x) * t == (1real - t) * x + t * y) by (nonlinear_arith);
    assert(d - (n as real) == t);
    assert(a == ring[(at - n) % (ring.len() as int)]);
}

/// The position pad makes the side away from the source softer and later: at
/// either edge it is silent, and it lags by a millisecond there, and in
/// proportion in between. The near side is as it comes in.
pub proof fn law_what_the_position_pad_does<S: Sample, M: Elementary<S>>(
    v: spec_fn(S) -> real,
    m: M,
    f: Functions,
    delays: DelayPair<S>,
    pad: PadPosition<S>,
    rate: S,
    frame: Seq<S>,
    after: DelayPair<S>,
    out: Seq<S>,
)
    requires
        exact::is_exact(v),
        exact::computes(v, m, f),
        delays.wf(),
        v(rate) > 0real,
        -1real / 2real <= v(pad.x) <= 1real / 2real,
        frame.len() == CHANNELS,
        delays.positions(m, pad, rate, frame, &after, out),
    ensures
        ({
            let x = v(pad.x);
            let lag = 2real * exact::size(x) / 1000real * v(rate);
            let at = delays.write_idx as int;
            &&& forall|c: int| 2 <= c < CHANNELS ==> #[trigger] out[c] == frame[c]
            &&& x <= 0real ==> v(out[0]) == v(frame[0])
            &&& x >= 0real ==> v(out[1]) == v(frame[1])
            &&& x < 0real ==> exists|y: real| #[trigger]
                is_read_back(v, after.buf_r@, at, lag, y) && v(out[1]) == (1real + 2real * x) * y
            &&& x > 0real ==> exists|y: real| #[trigger]
                is_read_back(v, after.buf_l@, at, lag, y) && v(out[0]) == (1real - 2real * x) * y
            &&& after.buf_l@ == delays.buf_l@.update(at, frame[0])
            &&& after.buf_r@ == delays.buf_r@.update(at, frame[1])
        }),
{
    let at = delays.write_idx as int;
    let d = intellipan::itd_pair(pad.x, rate);
    let (sl, sr) = choose|sl: (usize, S), sr: (usize, S)|
        #[trigger] elementary::splits(m, d.0, sl) && #[trigger] elementary::splits(m, d.1, sr)
            && out == intellipan::placed(
            frame,
            after.buf_l@,
            after.buf_r@,
            at,
            pad.x,
            rate,
            sl,
            sr,
        );
    let (x, k, w) = (v(pad.x), v(rate), exact::size(v(pad.x)));
    let lag = 2real * w / 1000real * k;
    exact::law_clamping(v, pad.x, pad.x, pad.x);
    exact::law_fractions(v, 1, 2);
    let delay = intellipan::itd_samples(pad.x, rate);
    assert(v(delay) == lag && lag >= 0real && (w > 0real ==> lag > 0real) && (w == 0real ==> lag
        == 0real)) by {
        let h = v(num::ratio::<S>(1, 2));
        let t = 1real / 1000real;
        assert(v(num::whole::<S>(1).div_spec(num::whole::<S>(1000))) == t);
        assert(v(delay) == ((w / h) * t) * k);
        assert((w / h) * t == 2real * w / 1000real) by (nonlinear_arith)
            requires
                h == 1real / 2real,
                t == 1real / 1000real,
        ;
        let a = 2real * w / 1000real;
        assert(a * k >= 0real && (a > 0real ==> a * k > 0real) && (a == 0real ==> a * k == 0real))
            by (nonlinear_arith)
            requires
                a >= 0real,
                k > 0real,
        ;
    }
    let two = num::whole::<S>(2);
    let pot = StereoBalance { pan: pad.x.mul_spec(two) };
    let t = v(two);
    assert(x * t == 2real * x) by (nonlinear_arith)
        requires
            t == 2real,
    ;
    law_where_a_pan_pot_points(v, pot, frame);
    let g = pan::balance(pot.pan);
    let l = intellipan::delayed(after.buf_l@, at, d.0, sl);
    let r = intellipan::delayed(after.buf_r@, at, d.1, sr);
    assert(out[0] == g.0.mul_spec(l) && out[1] == g.1.mul_spec(r));
    let (a, b) = (v(l), v(r));
    assert(1real * a == a && 1real * b == b);
    if x < 0real {
        lemma_tap(v, after.buf_r@, at, sr, lag);
        assert(is_read_back(v, after.buf_r@, at, lag, b));
    }
    if x > 0real {
        lemma_tap(v, after.buf_l@, at, sl, lag);
        assert(is_read_back(v, after.buf_l@, at, lag, a));
    }
}

/// The delay of the modulation pad, in samples.
pub open spec fn swept_delay<S: Sample>(
    v: spec_fn(S) -> real,
    f: Functions,
    sweep: Sweep<S>,
    pad: PadPosition<S>,
    rate: S,
) -> real {
    let swing = (f.sin)(f.turn * v(sweep.phase));
    (15real + 8real * (swing * v(pad.y))) / 1000real * v(rate)
}

/// How much of its echo the modulation pad feeds back.
pub open spec fn fed_back<S: Sample>(v: spec_fn(S) -> real, pad: PadPosition<S>) -> real {
    if v(pad.x) < 0real {
        -v(pad.x)
    } else {
        0real
    }
}

/// `y` is what one side was `d` samples ago. What comes out of that side is half of
/// it and half of what came in, and what the ring takes in is what came in with
/// `back` times the echo.
pub open spec fn is_echo<S: Sample>(
    v: spec_fn(S) -> real,
    before: Seq<S>,
    now: Seq<S>,
    at: int,
    d: real,
    back: real,
    side: (S, S),
    y: real,
) -> bool {
    &&& is_read_back(v, before, at, d, y)
    &&& 2real * v(side.1) == v(side.0) + y
    &&& v(now[at]) == v(side.0) + back * y
}

/// The modulation pad mixes each side half and half with itself some fifteen
/// milliseconds ago, swept by up to eight milliseconds either way as far as the pad
/// is up. To the left of its centre it feeds the echo back, by as much as the pad
/// is to the left.
pub proof fn law_what_the_modulation_pad_does<S: Sample, M: Elementary<S>>(
    v: spec_fn(S) -> real,
    m: M,
    f: Functions,
    modulation: ModulationPad<S>,
    pad: PadPosition<S>,
    rate: S,
    frame: Seq<S>,
    after: ModulationPad<S>,
    out: Seq<S>,
)
    requires
        exact::is_exact(v),
        exact::computes(v, m, f),
        forall|x: real| -1real <= #[trigger] (f.sin)(x) <= 1real,
        modulation.wf(),
        v(rate) > 0real,
        0real < v(pad.y) <= 1real,
        frame.len() == CHANNELS,
        modulation.carries(m, pad, rate, frame, &after, out),
    ensures
        forall|c: int| 2 <= c < CHANNELS ==> #[trigger] out[c] == frame[c],
        exists|y: real| #[trigger]
            is_echo(
                v,
                modulation.delays.buf_l@,
                after.delays.buf_l@,
                modulation.delays.write_idx as int,
                swept_delay(v, f, modulation.sweep, pad, rate),
                fed_back(v, pad),
                (frame[0], out[0]),
                y,
            ),
        exists|y: real| #[trigger]
            is_echo(
                v,
                modulation.delays.buf_r@,
                after.delays.buf_r@,
                modulation.delays.write_idx as int,
                swept_delay(v, f, modulation.sweep, pad, rate),
                fed_back(v, pad),
                (frame[1], out[1]),
                y,
            ),
{
    let phase = modulation.sweep.phase;
    let (lfo, split) = choose|lfo: S, split: (usize, S)|
        #[trigger] elementary::swings(m, phase, lfo) && #[trigger] elementary::splits(
            m,
            Sweep::delay_samples(pad, lfo, rate),
            split,
        ) && modulation.delays.echoes(pad, split, frame, &after.delays, out);
    let angle = choose|angle: S| #[trigger]
        elementary::angles(m, phase, angle) && elementary::sines(m, angle, lfo);
    let swing = (f.sin)(f.turn * v(phase));
    assert(v(lfo) == swing);
    let (h, k) = (v(pad.y), v(rate));
    let d = swept_delay(v, f, modulation.sweep, pad, rate);
    assert(d == (15real + 8real * (swing * h)) / 1000real * k);
    assert(v(Sweep::delay_samples(pad, lfo, rate)) == d) by {
        let e = v(num::whole::<S>(8));
        assert(swing * (h * e) == 8real * (swing * h)) by (nonlinear_arith)
            requires
                e == 8real,
        ;
    }
    assert(d >= 0real) by {
        let s = swing * h;
        assert(-1real <= s <= 1real) by (nonlinear_arith)
            requires
                s == swing * h,
                -1real <= swing <= 1real,
                0real < h <= 1real,
        ;
        let a = (15real + 8real * s) / 1000real;
        assert(a * k >= 0real) by (nonlinear_arith)
            requires
                a >= 0real,
                k > 0real,
        ;
    }
    let at = modulation.delays.write_idx as int;
    let (ring_l, ring_r) = (modulation.delays.buf_l@, modulation.delays.buf_r@);
    lemma_tap(v, ring_l, at, split, d);
    lemma_tap(v, ring_r, at, split, d);
    exact::law_fractions(v, 1, 2);
    let half = num::ratio::<S>(1, 2);
    let l = intellipan::tap(ring_l, at, split.0 as int, split.1);
    let r = intellipan::tap(ring_r, at, split.0 as int, split.1);
    let (a, b, t) = (v(frame[0]) + v(l), v(frame[1]) + v(r), v(half));
    assert(2real * (a * t) == a && 2real * (b * t) == b) by (nonlinear_arith)
        requires
            t == 1real / 2real,
    ;
    let x = v(pad.x);
    let fb = intellipan::feedback(pad.x);
    assert(((-x) / t) * t == -x) by (nonlinear_arith)
        requires
            t == 1real / 2real,
    ;
    let back = fed_back(v, pad);
    assert(v(fb) == back);
    let (p, q) = (v(l), v(r));
    assert(p * back == back * p && q * back == back * q) by (nonlinear_arith);
    let now = after.delays;
    assert(v(now.buf_l@[at]) == v(frame[0]) + back * p);
    assert(v(now.buf_r@[at]) == v(frame[1]) + back * q);
    assert(out[0] == frame[0].add_spec(l).mul_spec(half));
    assert(out[1] == frame[1].add_spec(r).mul_spec(half));
    assert(2real * v(out[0]) == v(frame[0]) + p);
    assert(2real * v(out[1]) == v(frame[1]) + q);
    assert(is_echo(v, ring_l, now.buf_l@, at, d, back, (frame[0], out[0]), p));
    assert(is_echo(v, ring_r, now.buf_r@, at, d, back, (frame[1], out[1]), q));
}

/// The sweep goes round in a second and a quarter: four fifths of a turn in a
/// second, and from one back to nought.
pub proof fn law_how_fast_the_sweep_goes<S: Sample>(v: spec_fn(S) -> real, sweep: Sweep<S>, rate: S)
    requires
        exact::is_exact(v),
        v(rate) >= 1real,
        0real <= v(sweep.phase) < 1real,
    ensures
        0real <= v(sweep.next(rate)) < 1real,
        ({
            let moved = v(sweep.next(rate)) - v(sweep.phase);
            let step = (8real / 10real) / v(rate);
            moved == step || moved == step - 1real
        }),
{
    exact::law_fractions(v, 8, 10);
    let (a, k) = (8real / 10real, v(rate));
    assert(0real < a / k < 1real) by (nonlinear_arith)
        requires
            a == 8real / 10real,
            k >= 1real,
    ;
}

proof fn lemma_half_octave<S: Sample>(v: spec_fn(S) -> real)
    requires
        exact::is_exact(v),
    ensures
        v(elementary::half_octave::<S>()) == 3525real / 10171real,
{
    exact::law_fractions(v, 3525, 10171);
}

proof fn lemma_vocal_band<S: Sample>(v: spec_fn(S) -> real)
    requires
        exact::is_exact(v),
    ensures
        v(karaoke::vocal_center::<S>()) == 894427real / 1000real,
        v(karaoke::vocal_octaves::<S>()) == 4321928real / 1000000real,
{
    let thousand = num::whole::<S>(1000);
    let (a, b) = (num::whole::<S>(894), num::whole::<S>(4321));
    let (t, p, q) = (v(thousand), v(a), v(b));
    assert(t == 1000real && p == 894real && q == 4321real);
    assert(t * t == 1000000real && p * t == 894000real && q * t == 4321000real)
        by (nonlinear_arith)
        requires
            t == 1000real,
            p == 894real,
            q == 4321real,
    ;
    assert(v(thousand.mul_spec(thousand)) == 1000000real);
    assert(v(a.mul_spec(thousand).add_spec(num::whole::<S>(427))) == 894427real);
    assert(v(b.mul_spec(thousand).add_spec(num::whole::<S>(928))) == 4321928real);
}

/// How far apart the edges of the vocal band are, 4.321928 octaves.
pub open spec fn vocal_spread(f: Functions) -> real {
    (f.sinh)((3525real / 10171real) * (4321928real / 1000000real))
}

/// The vocal notch takes out the middle of the vocal band, 894.427 Hz, half of what
/// lies at the edges of the band, and leaves the two ends of the spectrum as they
/// are.
pub proof fn law_what_the_vocal_notch_takes_out<S: Sample, M: Elementary<S>>(
    v: spec_fn(S) -> real,
    m: M,
    f: Functions,
    rate: S,
    c: BiquadCoeffs<S>,
)
    requires
        exact::is_exact(v),
        exact::computes(v, m, f),
        v(rate) > 0real,
        forall|x: real| x > 0real ==> #[trigger] (f.sinh)(x) > 0real,
        is_audible(f, angle_of(v, f, 894427real / 1000real, rate)),
        karaoke::vocal_band(m, rate, c),
    ensures
        ({
            let x = angle_of(v, f, 894427real / 1000real, rate);
            &&& filter_laws::lets_through(v, c, 0real, 1real, 1real)
            &&& filter_laws::lets_through(v, c, (f.sin)(x), (f.cos)(x), 0real)
            &&& filter_laws::lets_through(v, c, 0real, -1real, 1real)
            &&& forall|sin: real, cos: real|
                sin > 0real && exact::size(cos - (f.cos)(x)) == ((f.sin)(x) * vocal_spread(f)) * sin
                    ==> #[trigger] filter_laws::lets_through(v, c, sin, cos, 1real / 2real)
        }),
{
    let centre = karaoke::vocal_center::<S>();
    let octaves = karaoke::vocal_octaves::<S>();
    let (corner, spread) = choose|corner: Corner<S>, spread: S|
        #[trigger] elementary::corners(m, centre, rate, corner)
            && #[trigger] elementary::spreads(m, octaves, spread) && c
            == BiquadCoeffs::notch_form(corner.cos, corner.sin.mul_spec(spread));
    lemma_vocal_band(v);
    lemma_half_octave(v);
    let (a, b) = (v(elementary::half_octave::<S>()), v(octaves));
    assert(a * b > 0real) by (nonlinear_arith)
        requires
            a > 0real,
            b > 0real,
    ;
    filter_laws::law_a_corner_is_its_frequency(v, m, f, centre, rate, corner);
    let alpha = corner.sin.mul_spec(spread);
    let (s, w) = (v(corner.sin), v(spread));
    assert(s * w > 0real) by (nonlinear_arith)
        requires
            s > 0real,
            w > 0real,
    ;
    filter_laws::law_notch(v, corner, alpha);
    let x = angle_of(v, f, 894427real / 1000real, rate);
    assert(w == vocal_spread(f));
    assert forall|sin: real, cos: real|
        sin > 0real && exact::size(cos - (f.cos)(x)) == ((f.sin)(x) * vocal_spread(f)) * sin implies
        #[trigger] filter_laws::lets_through(v, c, sin, cos, 1real / 2real) by {
        filter_laws::law_how_wide_a_notch_is(v, corner, alpha, sin, cos);
    }
}

/// A gate's side chain hears its own frequency as it is, half of what lies at the
/// edges of an octave and a half around it, and nothing of the two ends of the
/// spectrum.
pub proof fn law_what_a_side_chain_hears<S: Sample, M: Elementary<S>>(
    v: spec_fn(S) -> real,
    m: M,
    f: Functions,
    detector: GateDetector<S>,
    gate: Gate<S>,
    rate: S,
    after: GateDetector<S>,
)
    requires
        exact::is_exact(v),
        exact::computes(v, m, f),
        v(rate) > 0real,
        forall|x: real| x > 0real ==> #[trigger] (f.sinh)(x) > 0real,
        is_audible(f, angle_of(v, f, v(gate.params.bp_sidechain_hz), rate)),
        detector.sidechain.wf(),
        detector.at_rate(m, gate, rate, after),
    ensures
        exists|c: BiquadCoeffs<S>| #[trigger]
            after.sidechain.aims_at(c) && {
                let x = angle_of(v, f, v(gate.params.bp_sidechain_hz), rate);
                let q = 1real / (2real * (f.sinh)((3525real / 10171real) * (3real / 2real)));
                &&& filter_laws::lets_through(v, c, 0real, 1real, 0real)
                &&& filter_laws::lets_through(v, c, (f.sin)(x), (f.cos)(x), 1real)
                &&& filter_laws::lets_through(v, c, 0real, -1real, 0real)
                &&& forall|sin: real, cos: real| #[trigger]
                    is_edge_of(f, x, q, sin, cos) ==> filter_laws::lets_through(
                        v,
                        c,
                        sin,
                        cos,
                        1real / 2real,
                    )
            },
{
    let hz = gate.params.bp_sidechain_hz;
    let c = choose|c: BiquadCoeffs<S>|
        #[trigger] gate::sidechain_band(m, hz, rate, c) && after == (GateDetector {
            sidechain: detector.sidechain.retuned(c),
            ..detector
        });
    let octaves = num::ratio::<S>(3, 2);
    let (q, corner) = choose|q: S, corner: Corner<S>|
        #[trigger] elementary::qualities(m, octaves, q)
            && #[trigger] elementary::corners(m, hz, rate, corner) && c
            == BiquadCoeffs::band_pass_form(corner, q);
    let spread = choose|spread: S| #[trigger]
        elementary::spreads(m, octaves, spread) && q == num::whole::<S>(1).div_spec(
            num::whole::<S>(2).mul_spec(spread),
        );
    lemma_half_octave(v);
    exact::law_fractions(v, 3, 2);
    let (a, b) = (v(elementary::half_octave::<S>()), v(octaves));
    assert(a * b > 0real) by (nonlinear_arith)
        requires
            a > 0real,
            b > 0real,
    ;
    let w = 2real * v(spread);
    assert(v(num::whole::<S>(2).mul_spec(spread)) == w);
    assert(1real / w > 0real) by (nonlinear_arith)
        requires
            w > 0real,
    ;
    filter_laws::law_a_corner_is_its_frequency(v, m, f, hz, rate, corner);
    filter_laws::law_band_pass(v, corner, q);
    let x = angle_of(v, f, v(hz), rate);
    assert(v(q) == 1real / (2real * (f.sinh)((3525real / 10171real) * (3real / 2real))));
    assert forall|sin: real, cos: real| #[trigger]
        is_edge_of(f, x, v(q), sin, cos) implies filter_laws::lets_through(
        v,
        c,
        sin,
        cos,
        1real / 2real,
    ) by {
        filter_laws::law_how_wide_a_band_is(v, corner, q, num::whole::<S>(1), sin, cos);
    }
    lemma_retuned_aims(v, detector.sidechain, c);
}

/// The quality of a band of so many octaves: one over twice the hyperbolic sine of
/// half its width, in natural units.
pub proof fn law_what_the_quality_of_a_band_is<S: Sample, M: Elementary<S>>(
    v: spec_fn(S) -> real,
    m: M,
    f: Functions,
    octaves: S,
    q: S,
)
    requires
        exact::is_exact(v),
        exact::computes(v, m, f),
        (f.sinh)((3525real / 10171real) * v(octaves)) > 0real,
        elementary::qualities(m, octaves, q),
    ensures
        v(q) * (2real * (f.sinh)((3525real / 10171real) * v(octaves))) == 1real,
        693147real / 1000000real <= 2real * (3525real / 10171real) <= 693148real / 1000000real,
{
    let spread = choose|spread: S| #[trigger]
        elementary::spreads(m, octaves, spread) && q == num::whole::<S>(1).div_spec(
            num::whole::<S>(2).mul_spec(spread),
        );
    lemma_half_octave(v);
    let w = 2real * v(spread);
    assert(v(num::whole::<S>(2).mul_spec(spread)) == w);
    let x = v(q);
    assert(x * w == 1real) by (nonlinear_arith)
        requires
            x == 1real / w,
            w > 0real,
    ;
}

/// The three tone controls stand one behind the other, on either side.
pub proof fn law_tone_controls_stand_in_series<S: Sample>(filter: ThreeBandFilter<S>, l: S, r: S)
    ensures
        filter.output(l, r).0 == filter.treble.left.output(
            filter.mid.left.output(filter.bass.left.output(l)),
        ),
        filter.output(l, r).1 == filter.treble.right.output(
            filter.mid.right.output(filter.bass.right.output(r)),
        ),
        ({
            let after = filter.after(l, r);
            let x = filter.bass.left.output(l);
            let y = filter.mid.left.output(x);
            &&& after.bass.left == filter.bass.left.after(l)
            &&& after.mid.left == filter.mid.left.after(x)
            &&& after.treble.left == filter.treble.left.after(y)
        }),
        ({
            let after = filter.after(l, r);
            let x = filter.bass.right.output(r);
            let y = filter.mid.right.output(x);
            &&& after.bass.right == filter.bass.right.after(r)
            &&& after.mid.right == filter.mid.right.after(x)
            &&& after.treble.right == filter.treble.right.after(y)
        }),
{
}

/// A modulation pad at the bottom does nothing at all.
pub proof fn law_a_modulation_pad_at_the_bottom<S: Sample, M: Elementary<S>>(
    v: spec_fn(S) -> real,
    m: M,
    modulation: ModulationPad<S>,
    pad: PadPosition<S>,
    rate: S,
    frame: Seq<S>,
    after: ModulationPad<S>,
    out: Seq<S>,
)
    requires
        exact::is_exact(v),
        v(pad.y) <= 0real,
        modulation.carries(m, pad, rate, frame, &after, out),
    ensures
        out == frame,
        after == modulation,
{
}

} // verus!
