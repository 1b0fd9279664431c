//! What the engine decides about devices, and how it reads and says what it is
//! told.

use crate::clock::{self, ClockSource, DeviceId};
use crate::connect::{self, Answer, Connection, Request, Stage};
use crate::device::DeviceBuffers;
use crate::device_report::{self, DeviceIdentity, RatioError};
use crate::duration;
use crate::engine_io;
use crate::exact;
use crate::fixed::{self, Fixed};
use crate::hotplug::{self, Event, HotplugConfig};
use crate::num::{self, Sample};
use crate::precision::{self, Precision};
use crate::soak::{self, DriftWatch, OptionsView};
use crate::text;
use vstd::prelude::*;
use vstd::std_specs::ops::{AddSpec, DivSpec, MulSpec, SubSpec};

verus! {

/// What restarts the engine, device by device. The loss of the main output does so
/// under either switch and that of another device only under the one for all; the
/// return of the main output always does, and that of another device never.
pub proof fn law_what_restarts_the_engine(
    config: HotplugConfig,
    a1_device: DeviceId,
    other: DeviceId,
)
    requires
        other != a1_device,
    ensures
        hotplug::restarts(config, Some(a1_device), Event::DeviceRemoved(a1_device)) <==> (
        config.restart_on_any_disconnect || config.restart_on_a1_disconnect),
        hotplug::restarts(config, Some(a1_device), Event::DeviceRemoved(other))
            <==> config.restart_on_any_disconnect,
        hotplug::restarts(config, Some(a1_device), Event::DeviceAdded(a1_device)),
        !hotplug::restarts(config, Some(a1_device), Event::DeviceAdded(other)),
{
}

/// The clock follows the configured device from the moment it is there, whatever
/// else comes and goes.
pub proof fn law_other_devices_do_not_move_the_clock(
    id: DeviceId,
    alive: Seq<DeviceId>,
    others: Seq<DeviceId>,
)
    requires
        alive.contains(id) <==> others.contains(id),
    ensures
        clock::resolved(Some(id), alive) == clock::resolved(Some(id), others),
        alive.contains(id) ==> clock::resolved(Some(id), alive) == ClockSource::Device(id),
{
}

/// An hour is sixty minutes, a minute sixty seconds, and a number without a unit
/// is in seconds.
pub proof fn law_units_of_time()
    ensures
        duration::unit_seconds("s"@) == Some(1u64),
        duration::unit_seconds(Seq::<char>::empty()) == duration::unit_seconds("s"@),
        duration::unit_seconds("m"@) matches Some(m) && m == 60 && (duration::unit_seconds(
            "h"@,
        ) matches Some(h) && h == 60 * m),
        forall|unit: Seq<char>| #[trigger]
            duration::unit_seconds(unit) is Some ==> unit == Seq::<char>::empty() || unit == "s"@
                || unit == "m"@ || unit == "h"@,
{
    reveal_strlit("s");
    reveal_strlit("m");
    reveal_strlit("h");
    assert("m"@[0] != "s"@[0]);
    assert("h"@[0] != "s"@[0]);
    assert("h"@[0] != "m"@[0]);
    assert("m"@.len() == 1 && "h"@.len() == 1);
}

/// A decimal with a known unit behind it reads back as that decimal and that unit.
pub proof fn law_a_run_length_reads_back(number: Seq<char>, unit: Seq<char>)
    requires
        duration::decimal(number),
        duration::unit_seconds(unit) is Some,
    ensures
        duration::parsed(number + unit) == Ok::<(Seq<char>, u64), Seq<char>>(
            (number, duration::unit_seconds(unit)->0),
        ),
{
    reveal_strlit("s");
    reveal_strlit("m");
    reveal_strlit("h");
    let s = number + unit;
    let n = number.len() as int;
    assert forall|i: int| 0 <= i < n implies !duration::letter(#[trigger] s[i]) by {
        assert(s[i] == number[i]);
        lemma_no_letters(number, i);
    }
    lemma_number_ends(s, number.len());
    assert(s.take(n) =~= number);
    assert(s.skip(n) =~= unit);
}

proof fn lemma_no_letters(number: Seq<char>, i: int)
    requires
        duration::decimal(number),
        0 <= i < number.len(),
    ensures
        !duration::letter(number[i]),
{
    let signed = number[0] == '+' || number[0] == '-';
    let body = if signed {
        number.skip(1)
    } else {
        number
    };
    let j = if signed {
        i - 1
    } else {
        i
    };
    if j >= 0 {
        assert(body[j] == number[i]);
        if duration::all_digits(body) {
            assert(duration::digit(body[j]));
        } else {
            let p = choose|p: int|
                0 <= p < body.len() && body.len() > 1 && body[p] == '.' && duration::all_digits(
                    body.take(p),
                ) && duration::all_digits(#[trigger] body.skip(p + 1));
            if j < p {
                assert(duration::digit(body.take(p)[j]));
            } else if j > p {
                assert(duration::digit(body.skip(p + 1)[j - p - 1]));
            }
        }
    }
}

proof fn lemma_number_ends(s: Seq<char>, n: nat)
    requires
        n <= s.len(),
        forall|i: int| 0 <= i < n ==> !duration::letter(#[trigger] s[i]),
        n < s.len() ==> duration::letter(s[n as int]),
    ensures
        duration::number_len(s) == n,
    decreases n,
{
    if n > 0 {
        let rest = s.skip(1);
        assert(!duration::letter(s[0]));
        assert forall|i: int| 0 <= i < n - 1 implies !duration::letter(#[trigger] rest[i]) by {
            assert(rest[i] == s[i + 1]);
        }
        if n < s.len() {
            assert(rest[n - 1] == s[n as int]);
        }
        lemma_number_ends(rest, (n - 1) as nat);
    }
}

/// Looking a device up gives the first one with that persistent id, and fails only
/// where there is none.
pub proof fn law_the_first_device_with_that_id(devices: Seq<DeviceIdentity>, uid: Seq<char>)
    ensures
        match device_report::first_with(devices, uid) {
            Some(id) => exists|i: int|
                0 <= i < devices.len() && (#[trigger] devices[i]).uid is Some
                    && devices[i].uid->0@ == uid && devices[i].id == id && forall|j: int|
                    0 <= j < i ==> !((#[trigger] devices[j]).uid is Some && devices[j].uid->0@
                        == uid),
            None => forall|j: int|
                0 <= j < devices.len() ==> !((#[trigger] devices[j]).uid is Some
                    && devices[j].uid->0@ == uid),
        },
    decreases devices.len(),
{
    if devices.len() > 0 {
        let rest = devices.drop_last();
        law_the_first_device_with_that_id(rest, uid);
        let n = devices.len() - 1;
        assert(devices.last() == devices[n]);
        assert forall|j: int| 0 <= j < n implies #[trigger] devices[j] == rest[j] by {}
        if let Some(id) = device_report::first_with(rest, uid) {
            let i = choose|i: int|
                0 <= i < rest.len() && (#[trigger] rest[i]).uid is Some && rest[i].uid->0@ == uid
                    && rest[i].id == id && forall|j: int|
                    0 <= j < i ==> !((#[trigger] rest[j]).uid is Some && rest[j].uid->0@ == uid);
            assert(devices[i] == rest[i]);
        }
    }
}

/// Two devices can be brought together where neither runs more than 32 times as
/// fast as the other, and it is the master's rate over the device's that counts.
pub proof fn law_which_rates_go_together<S: Sample, P: Sample, W: Precision<S, P>>(
    u: spec_fn(S) -> real,
    v: spec_fn(P) -> real,
    w: W,
    master_rate: P,
    device_rate: P,
    ratio: S,
)
    requires
        exact::is_exact(u),
        exact::is_exact(v),
        num::finite(ratio),
        v(master_rate) > 0real,
        v(device_rate) > 0real,
        precision::narrows(w, master_rate.div_spec(device_rate), ratio),
        u(ratio) == v(master_rate.div_spec(device_rate)),
    ensures
        device_report::judged(ratio) is Ok <==> v(master_rate) <= 32real * v(device_rate) && v(
            device_rate,
        ) <= 32real * v(master_rate),
        device_report::judged(ratio) is Ok ==> device_report::judged(ratio)->Ok_0 == ratio && u(
            ratio,
        ) * v(device_rate) == v(master_rate),
        device_report::judged(ratio) is Err ==> device_report::judged(ratio)->Err_0
            == RatioError::OutOfRange(ratio),
{
    let (a, b, r) = (v(master_rate), v(device_rate), u(ratio));
    assert(r == a / b);
    assert(r * b == a && r > 0real) by (nonlinear_arith)
        requires
            r == a / b,
            a > 0real,
            b > 0real,
    ;
    exact::law_fractions(u, 1, 32);
    assert(r <= 32real <==> a <= 32real * b) by (nonlinear_arith)
        requires
            r * b == a,
            b > 0real,
    ;
    assert(1real / 32real <= r <==> b <= 32real * a) by (nonlinear_arith)
        requires
            r * b == a,
            b > 0real,
    ;
}

/// Every option of a run sets what it is named after, and nothing else; what is
/// none of them is refused.
pub proof fn law_every_option_sets_its_own(args: Seq<Seq<char>>, i: int, so_far: OptionsView)
    requires
        0 <= i < args.len(),
    ensures
        i + 1 < args.len() && args[i] == "--device-a"@ ==> soak::read_from(args, i, so_far)
            == soak::read_from(
            args,
            i + 2,
            (OptionsView { device_a: Some(args[i + 1]), ..so_far }),
        ),
        i + 1 < args.len() && args[i] == "--device-b"@ ==> soak::read_from(args, i, so_far)
            == soak::read_from(
            args,
            i + 2,
            (OptionsView { device_b: Some(args[i + 1]), ..so_far }),
        ),
        args[i] == "--allow-same-device"@ ==> soak::read_from(args, i, so_far) == soak::read_from(
            args,
            i + 1,
            (OptionsView { allow_same_device: true, ..so_far }),
        ),
        i + 1 < args.len() && args[i] == "--duration"@ ==> match duration::parsed(args[i + 1]) {
            Ok(length) => soak::read_from(args, i, so_far) == soak::read_from(
                args,
                i + 2,
                (OptionsView { duration: Some(length), ..so_far }),
            ),
            Err(message) => soak::read_from(args, i, so_far) == Err::<
                OptionsView,
                (Seq<char>, bool),
            >((message, false)),
        },
        args[i] != "--device-a"@ && args[i] != "--device-b"@ && args[i] != "--duration"@ && args[i]
            != "--allow-same-device"@ ==> soak::read_from(args, i, so_far) is Err,
        i + 1 == args.len() && args[i] != "--allow-same-device"@ ==> soak::read_from(
            args,
            i,
            so_far,
        ) is Err,
{
    reveal_strlit("--duration");
    reveal_strlit("--device-a");
    reveal_strlit("--device-b");
    reveal_strlit("--allow-same-device");
    assert("--duration"@[3] != "--device-a"@[3]);
    assert("--duration"@[3] != "--device-b"@[3]);
    assert("--device-a"@[9] != "--device-b"@[9]);
    assert("--allow-same-device"@.len() == 19);
    assert("--duration"@.len() == 10 && "--device-a"@.len() == 10 && "--device-b"@.len() == 10);
}

/// A watch keeps the worst deviation it has seen, and is at its bound from one in a
/// hundred on.
pub proof fn law_a_watch_keeps_the_worst<S: Sample>(
    v: spec_fn(S) -> real,
    before: DriftWatch<S>,
    ratio: S,
    after: DriftWatch<S>,
)
    requires
        exact::is_exact(v),
        after.max_deviation == num::larger(
            before.max_deviation,
            num::magnitude(ratio.sub_spec(num::whole::<S>(1))),
        ),
    ensures
        v(after.max_deviation) >= v(before.max_deviation),
        v(after.max_deviation) >= exact::size(v(ratio) - 1real),
        v(after.max_deviation) == v(before.max_deviation) || v(after.max_deviation) == exact::size(
            v(ratio) - 1real,
        ),
        after.at_bound() <==> 100real * v(after.max_deviation) >= 1real,
{
    let off = ratio.sub_spec(num::whole::<S>(1));
    exact::law_clamping(v, off, before.max_deviation, num::magnitude(off));
    exact::law_fractions(v, 1, 100);
}

/// The device was found under that persistent id, among the first `n` answers.
pub open spec fn is_found<P>(
    answers: Seq<Answer<P>>,
    n: int,
    uid: Seq<char>,
    device: DeviceId,
) -> bool {
    exists|i: int|
        0 <= i < n && (#[trigger] answers[i] matches Answer::Devices(Ok(devices))
            && device_report::first_with(devices@, uid) == Some(device))
}

/// What a connection at its `n`th state knows of its devices.
spec fn knows<P>(
    stage: Stage<P>,
    output_uid: Seq<char>,
    input_uid: Option<String>,
    answers: Seq<Answer<P>>,
    n: int,
) -> bool {
    match stage {
        Stage::CountingOutput { output } => is_found(answers, n, output_uid, output),
        Stage::FindingMaster { output } => is_found(answers, n, output_uid, output),
        Stage::ReadingOutputRate { output } => is_found(answers, n, output_uid, output),
        Stage::FindingInput { output, .. } => is_found(answers, n, output_uid, output),
        Stage::CountingInput { output, rate, input } => is_found(answers, n, output_uid, output)
            && input_uid is Some && is_found(answers, n, input_uid->0@, input),
        Stage::ReadingInputRate { output, rate, input, channels } => is_found(
            answers,
            n,
            output_uid,
            output,
        ) && input_uid is Some && is_found(answers, n, input_uid->0@, input),
        Stage::StartingCapture { output } => is_found(answers, n, output_uid, output),
        Stage::StartingOutput { output } => is_found(answers, n, output_uid, output),
        _ => true,
    }
}

proof fn lemma_knows<S: Sample, P: Sample, W: Precision<S, P>>(
    w: W,
    states: Seq<Connection<P>>,
    answers: Seq<Answer<P>>,
    requests: Seq<Request<S>>,
    n: int,
)
    requires
        connect::converses(w, states, answers, requests),
        0 <= n < states.len(),
    ensures
        knows(states[n].stage, states[0].output_uid@, states[0].input_uid, answers, n),
    decreases n,
{
    if n > 0 {
        lemma_knows(w, states, answers, requests, n - 1);
        let a = answers[n - 1];
        assert(states[n - 1].goes_on(w, a, states[n].stage, requests[n - 1]));
        assert(states[n - 1].input_uid == states[0].input_uid);
        assert forall|uid: Seq<char>, device: DeviceId| #[trigger]
            is_found(answers, n - 1, uid, device) implies is_found(answers, n, uid, device) by {
            let i = choose|i: int|
                0 <= i < n - 1 && (#[trigger] answers[i] matches Answer::Devices(Ok(devices))
                    && device_report::first_with(devices@, uid) == Some(device));
            assert(answers[i] is Devices);
        }
        if let Answer::Devices(Ok(devices)) = a {
            assert forall|uid: Seq<char>, device: DeviceId|
                device_report::first_with(devices@, uid) == Some(device) implies #[trigger] is_found(
                answers,
                n,
                uid,
                device,
            ) by {
                assert(answers[n - 1] == a);
            }
        }
    }
}

/// Only the devices that were asked for are started: the output under the output's
/// persistent id, and the capture under the input's, at the ratio of the output's
/// rate to the input's.
pub proof fn law_only_the_devices_asked_for_are_started<S: Sample, P: Sample, W: Precision<S, P>>(
    w: W,
    states: Seq<Connection<P>>,
    answers: Seq<Answer<P>>,
    requests: Seq<Request<S>>,
    k: int,
)
    requires
        connect::converses(w, states, answers, requests),
        0 <= k < requests.len(),
    ensures
        requests[k] matches Request::StartMaster { device } ==> is_found(
            answers,
            k,
            states[0].output_uid@,
            device,
        ),
        requests[k] matches Request::StartCapture { device, channels, base_ratio }
            ==> states[0].input_uid is Some && is_found(
            answers,
            k,
            states[0].input_uid->0@,
            device,
        ) && device_report::judged(base_ratio) is Ok && exists|rate: P, input_rate: P|
            answers[k] == Answer::<P>::Rate(Ok(input_rate)) && #[trigger] precision::narrows(
                w,
                rate.div_spec(input_rate),
                base_ratio,
            ),
{
    lemma_knows(w, states, answers, requests, k);
    assert(states[k].goes_on(w, answers[k], states[k + 1].stage, requests[k]));
    assert(states[k].input_uid == states[0].input_uid);
}

/// A strip takes as many channels as a device has, and eight of more.
pub proof fn law_how_many_channels_are_taken(channels: usize)
    ensures
        connect::taken_channels(channels) <= channels,
        connect::taken_channels(channels) <= 8,
        channels <= 8 ==> connect::taken_channels(channels) == channels,
        channels > 8 ==> connect::taken_channels(channels) == 8,
{
}

/// The number that a run of digits stands for.
pub open spec fn number_of(digits: Seq<char>) -> int
    decreases digits.len(),
{
    if digits.len() == 0 {
        0
    } else {
        10 * number_of(digits.drop_last()) + (digits.last() as int - '0' as int)
    }
}

/// A number in decimal reads back as that number, and is written in digits alone.
pub proof fn law_decimals_read_back(n: nat)
    ensures
        number_of(text::decimal_text(n)) == n,
        duration::all_digits(text::decimal_text(n)),
        text::decimal_text(n).len() > 0,
        n > 0 ==> text::decimal_text(n)[0] != '0',
    decreases n,
{
    lemma_digit(n % 10);
    if n < 10 {
        let t = text::decimal_text(n);
        assert(t.drop_last() =~= Seq::empty());
        assert(number_of(t.drop_last()) == 0);
    } else {
        law_decimals_read_back(n / 10);
        let (a, b) = (text::decimal_text(n / 10), text::digit_text(n % 10));
        let t = text::decimal_text(n);
        assert(t =~= a + b);
        assert(t.drop_last() =~= a);
        assert(t.last() == b[0]);
    }
}

proof fn lemma_digit(d: nat)
    requires
        d < 10,
    ensures
        text::digit_text(d).len() == 1,
        text::digit_text(d)[0] as int - '0' as int == d,
        duration::digit(text::digit_text(d)[0]),
{
    reveal_strlit("0");
    reveal_strlit("1");
    reveal_strlit("2");
    reveal_strlit("3");
    reveal_strlit("4");
    reveal_strlit("5");
    reveal_strlit("6");
    reveal_strlit("7");
    reveal_strlit("8");
    reveal_strlit("9");
}

/// Of a block every sample counts once: what a queue gave and what it lacked make up
/// the block, and so do what it took and what it had no room for.
pub proof fn law_every_sample_counts_once<T>(
    got: Seq<Option<T>>,
    samples: Seq<T>,
    took: Seq<bool>,
)
    ensures
        engine_io::popped(got).len() + engine_io::misses(got) == got.len(),
        engine_io::kept(samples, took).len() + engine_io::refused(took) == took.len(),
    decreases got.len() + took.len(),
{
    if got.len() > 0 {
        law_every_sample_counts_once(got.drop_last(), samples, took);
    } else if took.len() > 0 {
        law_every_sample_counts_once(got, samples, took.drop_last());
    }
}

/// What is written into a device's buffers, channel by channel, is what is read out
/// of them again.
pub proof fn law_written_channels_read_back<S>(
    before: DeviceBuffers<S>,
    after: DeviceBuffers<S>,
    expected: int,
    capacity: int,
    channels: Seq<Seq<S>>,
    c: int,
    f: int,
)
    requires
        0 < expected,
        0 <= capacity,
        after.data@.len() == before.data@.len(),
        forall|k: int|
            0 <= k < before.data@.len() ==> (#[trigger] after.data@[k])@.len()
                == before.data@[k]@.len(),
        forall|k: int, i: int|
            0 <= k < before.data@.len() && 0 <= i < before.data@[k]@.len()
                ==> #[trigger] after.data@[k]@[i] == before.with_channels(
                expected,
                capacity,
                channels,
                k,
                i,
            ),
        0 <= c < before.filled(expected),
        0 <= f < before.frames(expected, capacity, c),
    ensures
        after.planar(expected, capacity)[c][f] == channels[c][f],
{
    if before.combined(expected) {
        let len = before.data@[0]@.len() as int;
        let frames = before.combined_frames(expected, capacity);
        let i = f * expected + c;
        vstd::arithmetic::div_mod::lemma_fundamental_div_mod(len, expected);
        let (q, rest) = (len / expected, len % expected);
        assert(0 <= rest) by {
            vstd::arithmetic::div_mod::lemma_mod_bound(len, expected);
        }
        assert(0 <= i < frames * expected && frames * expected <= expected * q) by (nonlinear_arith)
            requires
                i == f * expected + c,
                0 <= f < frames,
                frames <= q,
                0 <= c < expected,
        ;
        assert(i == expected * f + c) by (nonlinear_arith)
            requires
                i == f * expected + c,
        ;
        vstd::arithmetic::div_mod::lemma_fundamental_div_mod_converse(i, expected, f, c);
        assert(after.data@[0]@[i] == before.with_channels(expected, capacity, channels, 0, i));
        assert(after.data@[0]@.len() == before.data@[0]@.len());
    } else {
        assert(after.data@[c]@[f] == before.with_channels(expected, capacity, channels, c, f));
    }
}

/// In fixed point a sum and a difference are exact, and a product is off by less
/// than one step, toward nought, as long as they fit.
pub proof fn law_fixed_point_is_close(a: Fixed, b: Fixed)
    requires
        -0x1_0000_0000 <= a.raw <= 0x1_0000_0000,
        -0x1000_0000 <= b.raw <= 0x1000_0000,
    ensures
        AddSpec::add_spec(a, b).raw == a.raw + b.raw,
        SubSpec::sub_spec(a, b).raw == a.raw - b.raw,
        ({
            let p = MulSpec::mul_spec(a, b).raw as int;
            let exact = a.raw * b.raw;
            &&& exact >= 0 ==> 0 <= p && p * 65536 <= exact && exact < (p + 1) * 65536
            &&& exact <= 0 ==> p <= 0 && (p - 1) * 65536 < exact && exact <= p * 65536
        }),
        b.raw != 0 ==> ({
            let q = DivSpec::div_spec(a, b).raw as int;
            let exact = a.raw * 65536;
            fixed::size(q) * fixed::size(b.raw as int) <= fixed::size(exact) && fixed::size(exact) < (
            fixed::size(q) + 1) * fixed::size(b.raw as int)
        }),
{
    let (x, y) = (a.raw as int, b.raw as int);
    let (m, n) = (fixed::size(x), fixed::size(y));
    assert(m * n == fixed::size(x * y) && (x * y > 0 ==> (x < 0) == (y < 0)) && (x * y < 0 ==> (x
        < 0) != (y < 0))) by {
        assert(x * (-y) == -(x * y) && (-x) * y == -(x * y) && (-x) * (-y) == x * y)
            by (nonlinear_arith);
        assert((x >= 0 && y >= 0 ==> x * y >= 0) && (x < 0 && y < 0 ==> x * y > 0) && (x >= 0 && y < 0
            ==> x * y <= 0) && (x < 0 && y >= 0 ==> x * y <= 0)) by (nonlinear_arith);
    }
    let mn = m * n;
    assert(0 <= mn <= 0x1_0000_0000 * 0x1000_0000) by (nonlinear_arith)
        requires
            mn == m * n,
            0 <= m <= 0x1_0000_0000,
            0 <= n <= 0x1000_0000,
    ;
    if y != 0 {
        let e = m * 65536;
        vstd::arithmetic::div_mod::lemma_fundamental_div_mod(e, n);
        vstd::arithmetic::div_mod::lemma_mod_bound(e, n);
        let q = e / n;
        let r = e % n;
        assert(q * n <= e && e < (q + 1) * n && 0 <= q && q <= e) by (nonlinear_arith)
            requires
                e == n * q + r,
                0 <= r < n,
                0 <= e,
                n >= 1,
        ;
    }
}

/// A refusal of the hardware at any point of a conversation ends it, and so does an
/// answer to another question.
pub proof fn law_a_failure_ends_the_conversation<S: Sample, P: Sample, W: Precision<S, P>>(
    w: W,
    connection: Connection<P>,
    a: Answer<P>,
    next: Stage<P>,
    r: Request<S>,
)
    requires
        connection.goes_on(w, a, next, r),
        match a {
            Answer::Devices(result) => result is Err,
            Answer::Channels(result) => result is Err,
            Answer::Master(result) => result is Err,
            Answer::Rate(result) => result is Err,
            Answer::Started(result) => result is Err,
        } || connection.stage is Connected || connection.stage is Refused,
    ensures
        next == Stage::<P>::Refused,
        r is Refuse,
{
}

/// How many frames a device's first buffer holds: as many as go into it whole.
pub proof fn law_how_many_frames_a_buffer_holds<S>(buffers: DeviceBuffers<S>, n: int)
    requires
        buffers.wf(),
        buffers.first_frames() == Some(n),
    ensures
        buffers.data@.len() > 0,
        ({
            let channels = if buffers.counts@[0] == 0 {
                1
            } else {
                buffers.counts@[0] as int
            };
            let len = buffers.data@[0]@.len();
            channels * n <= len && len < channels * n + channels
        }),
{
    let channels = if buffers.counts@[0] == 0 {
        1
    } else {
        buffers.counts@[0] as int
    };
    let len = buffers.data@[0]@.len() as int;
    vstd::arithmetic::div_mod::lemma_fundamental_div_mod(len, channels);
    vstd::arithmetic::div_mod::lemma_mod_bound(len, channels);
}

/// A callback's channels are read the same way whether they come one to a buffer or
/// all in one: sample `f` of channel `c`.
pub proof fn law_channels_are_read_alike<S>(
    apart: DeviceBuffers<S>,
    together: DeviceBuffers<S>,
    channels: int,
    capacity: int,
    c: int,
    f: int,
)
    requires
        1 < channels <= 8,
        apart.data@.len() == channels,
        together.data@.len() == 1,
        0 <= c < channels,
        0 <= f < capacity,
        f < together.data@[0]@.len() as int / channels,
        together.data@[0]@[f * channels + c] == apart.data@[c]@[f],
    ensures
        apart.planar(channels, capacity)[c][f] == together.planar(channels, capacity)[c][f],
        apart.used(channels) == together.used(channels),
{
}

} // verus!
