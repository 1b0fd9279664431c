//! The soak run: two devices with different clocks, watched for dropouts and
//! drift.

use crate::clock::{ClockSource, DeviceId};
use crate::duration::{self, parse_duration, RunLength};
use crate::num::{self, get_larger, get_magnitude, get_ratio, get_whole, is_at_most, Sample};
use crate::text::{self, get_decimal_text, same_text};
use vstd::prelude::*;
use vstd::std_specs::ops::SubSpec;
use vstd::string::StringExecFns;

verus! {

/// The length of a run that is not given one, in seconds.
pub const DEFAULT_SECONDS: u64 = 1800;

/// What a run was asked for. Without a length it lasts the default; without a
/// device it picks one.
pub struct SoakOptions {
    pub duration: Option<RunLength>,
    pub device_a: Option<String>,
    pub device_b: Option<String>,
    pub allow_same_device: bool,
}

pub enum SoakCommand {
    ListDevices,
    Run(SoakOptions),
}

/// Why a command line is refused, and whether the usage is to be shown.
pub struct UsageError {
    pub message: String,
    pub show_usage: bool,
}

/// The options as values.
pub struct OptionsView {
    pub duration: Option<(Seq<char>, u64)>,
    pub device_a: Option<Seq<char>>,
    pub device_b: Option<Seq<char>>,
    pub allow_same_device: bool,
}

impl View for SoakOptions {
    type V = OptionsView;

    open spec fn view(&self) -> OptionsView {
        OptionsView {
            duration: match self.duration {
                Some(length) => Some((length.number@, length.seconds_per_unit)),
                None => None,
            },
            device_a: match self.device_a {
                Some(uid) => Some(uid@),
                None => None,
            },
            device_b: match self.device_b {
                Some(uid) => Some(uid@),
                None => None,
            },
            allow_same_device: self.allow_same_device,
        }
    }
}

pub open spec fn words(args: Seq<String>) -> Seq<Seq<char>> {
    Seq::new(args.len(), |i: int| args[i]@)
}

/// No option given.
pub open spec fn no_options() -> OptionsView {
    OptionsView { duration: None, device_a: None, device_b: None, allow_same_device: false }
}

/// The options of the arguments from place `i` on, on top of `so_far`. The
/// first thing wrong is what is reported; the flag says whether the usage
/// helps.
pub open spec fn read_from(args: Seq<Seq<char>>, i: int, so_far: OptionsView) -> Result<
    OptionsView,
    (Seq<char>, bool),
>
    decreases args.len() - i,
{
    if i >= args.len() {
        Ok(so_far)
    } else if args[i] == "--duration"@ {
        if i + 1 >= args.len() {
            Err(("--duration needs a value, e.g. 30m, 1800s, 2h"@, false))
        } else {
            match duration::parsed(args[i + 1]) {
                Ok(length) => read_from(
                    args,
                    i + 2,
                    OptionsView { duration: Some(length), ..so_far },
                ),
                Err(message) => Err((message, false)),
            }
        }
    } else if args[i] == "--device-a"@ {
        if i + 1 >= args.len() {
            Err(("--device-a needs a device UID (see --list-devices)"@, false))
        } else {
            read_from(args, i + 2, OptionsView { device_a: Some(args[i + 1]), ..so_far })
        }
    } else if args[i] == "--device-b"@ {
        if i + 1 >= args.len() {
            Err(("--device-b needs a device UID (see --list-devices)"@, false))
        } else {
            read_from(args, i + 2, OptionsView { device_b: Some(args[i + 1]), ..so_far })
        }
    } else if args[i] == "--allow-same-device"@ {
        read_from(args, i + 1, OptionsView { allow_same_device: true, ..so_far })
    } else {
        Err(("unrecognised argument: "@ + args[i], true))
    }
}

/// Whether one of the arguments is `word`.
fn has_word(args: &Vec<String>, word: &str) -> (r: bool)
    ensures
        r == words(args@).contains(word@),
{
    let mut i: usize = 0;
    while i < args.len()
        invariant
            i <= args@.len(),
            forall|k: int| 0 <= k < i ==> (#[trigger] words(args@)[k]) != word@,
        decreases args@.len() - i,
    {
        if same_text(args[i].as_str(), word) {
            assert(words(args@)[i as int] == word@);
            return true;
        }
        i = i + 1;
    }
    false
}

fn refuse(message: &str) -> (r: UsageError)
    ensures
        r.message@ == message@,
        !r.show_usage,
{
    UsageError { message: String::from_str(message), show_usage: false }
}

/// Reads a command line. Asking for the device list wins over everything else.
pub fn parse_args(args: &Vec<String>) -> (r: Result<SoakCommand, UsageError>)
    ensures
        words(args@).contains("--list-devices"@) ==> r == Ok::<SoakCommand, UsageError>(
            SoakCommand::ListDevices,
        ),
        !words(args@).contains("--list-devices"@) ==> match r {
            Ok(SoakCommand::ListDevices) => false,
            Ok(SoakCommand::Run(options)) => read_from(words(args@), 0, no_options()) == Ok::<
                OptionsView,
                (Seq<char>, bool),
            >(options@),
            Err(e) => read_from(words(args@), 0, no_options()) == Err::<
                OptionsView,
                (Seq<char>, bool),
            >((e.message@, e.show_usage)),
        },
{
    if has_word(args, "--list-devices") {
        return Ok(SoakCommand::ListDevices);
    }
    let ghost all = words(args@);
    let mut options = SoakOptions {
        duration: None,
        device_a: None,
        device_b: None,
        allow_same_device: false,
    };
    let mut i: usize = 0;
    while i < args.len()
        invariant
            i <= args@.len(),
            all == words(args@),
            !all.contains("--list-devices"@),
            read_from(all, i as int, options@) == read_from(all, 0, no_options()),
        decreases args@.len() - i,
    {
        assert(all[i as int] == args@[i as int]@);
        assert(i + 1 < args@.len() ==> all[i + 1] == args@[i + 1]@);
        if same_text(args[i].as_str(), "--duration") {
            if i + 1 >= args.len() {
                return Err(refuse("--duration needs a value, e.g. 30m, 1800s, 2h"));
            }
            match parse_duration(args[i + 1].as_str()) {
                Ok(length) => {
                    options.duration = Some(length);
                },
                Err(message) => {
                    return Err(UsageError { message, show_usage: false });
                },
            }
            i = i + 2;
        } else if same_text(args[i].as_str(), "--device-a") {
            if i + 1 >= args.len() {
                return Err(refuse("--device-a needs a device UID (see --list-devices)"));
            }
            options.device_a = Some(args[i + 1].clone());
            i = i + 2;
        } else if same_text(args[i].as_str(), "--device-b") {
            if i + 1 >= args.len() {
                return Err(refuse("--device-b needs a device UID (see --list-devices)"));
            }
            options.device_b = Some(args[i + 1].clone());
            i = i + 2;
        } else if same_text(args[i].as_str(), "--allow-same-device") {
            options.allow_same_device = true;
            i = i + 1;
        } else {
            let mut message = String::from_str("unrecognised argument: ");
            message.append(args[i].as_str());
            return Err(UsageError { message, show_usage: true });
        }
    }
    Ok(SoakCommand::Run(options))
}

/// A device with the number of its output channels.
#[derive(Debug, Clone, Copy, PartialEq, Eq, Structural)]
pub struct OutputDevice {
    pub id: DeviceId,
    pub channels: usize,
}

impl OutputDevice {
    /// Another device than `exclude`, and one that can play.
    pub open spec fn serves_beside(self, exclude: DeviceId) -> bool {
        self.id != exclude && self.channels > 0
    }
}

/// The first device that can play and is not `exclude`.
pub fn first_other_output_device(devices: &Vec<OutputDevice>, exclude: DeviceId) -> (r: Option<
    DeviceId,
>)
    ensures
        match r {
            Some(id) => exists|i: int|
                0 <= i < devices@.len() && (#[trigger] devices@[i]).serves_beside(exclude) && id
                    == devices@[i].id && forall|j: int|
                    0 <= j < i ==> !(#[trigger] devices@[j]).serves_beside(exclude),
            None => forall|j: int|
                0 <= j < devices@.len() ==> !(#[trigger] devices@[j]).serves_beside(exclude),
        },
{
    let mut i: usize = 0;
    while i < devices.len()
        invariant
            i <= devices@.len(),
            forall|j: int| 0 <= j < i ==> !(#[trigger] devices@[j]).serves_beside(exclude),
        decreases devices@.len() - i,
    {
        if devices[i].id != exclude && devices[i].channels > 0 {
            assert(devices@[i as int].serves_beside(exclude));
            return Some(devices[i].id);
        }
        i = i + 1;
    }
    None
}

/// One device has one clock: with the same device twice there is no drift to
/// correct, so that takes an explicit wish.
pub fn devices_clash(a_uid: &str, b_uid: &str, allow_same_device: bool) -> (r: bool)
    ensures
        r == (a_uid@ == b_uid@ && !allow_same_device),
{
    !allow_same_device && same_text(a_uid, b_uid)
}

/// Why a run on two devices does not start.
#[derive(Debug, Clone, Copy, PartialEq, Eq, Structural)]
pub enum PairRefusal {
    /// Both are the same device.
    SameDevice,
    /// The first device is not the clock master.
    NotMaster,
    FirstHasNoChannels,
    SecondHasNoChannels,
}

/// What two devices have answered so far. They are asked one thing after the
/// other, and no further once a run is refused.
#[derive(Debug, Clone, Copy, PartialEq, Eq, Structural)]
pub struct PairAnswers {
    /// The clock master there is.
    pub source: Option<ClockSource>,
    pub first_channels: Option<usize>,
    pub second_channels: Option<usize>,
}

impl Default for PairAnswers {
    fn default() -> (r: Self)
        ensures
            r == (PairAnswers { source: None, first_channels: None, second_channels: None }),
    {
        PairAnswers { source: None, first_channels: None, second_channels: None }
    }
}

/// Whether a run can start on two devices, as far as they have answered:
/// `first` is the one that is to be the clock master.
pub fn judge_pair(
    first: DeviceId,
    first_uid: &str,
    second_uid: &str,
    allow_same_device: bool,
    answers: PairAnswers,
) -> (r: Result<(), PairRefusal>)
    ensures
        r == (if first_uid@ == second_uid@ && !allow_same_device {
            Err::<(), PairRefusal>(PairRefusal::SameDevice)
        } else if answers.source is Some && answers.source != Some(ClockSource::Device(first)) {
            Err(PairRefusal::NotMaster)
        } else if answers.first_channels == Some(0usize) {
            Err(PairRefusal::FirstHasNoChannels)
        } else if answers.second_channels == Some(0usize) {
            Err(PairRefusal::SecondHasNoChannels)
        } else {
            Ok(())
        }),
{
    if devices_clash(first_uid, second_uid, allow_same_device) {
        return Err(PairRefusal::SameDevice);
    }
    if let Some(source) = answers.source {
        if source != ClockSource::Device(first) {
            return Err(PairRefusal::NotMaster);
        }
    }
    if let Some(channels) = answers.first_channels {
        if channels == 0 {
            return Err(PairRefusal::FirstHasNoChannels);
        }
    }
    if let Some(channels) = answers.second_channels {
        if channels == 0 {
            return Err(PairRefusal::SecondHasNoChannels);
        }
    }
    Ok(())
}

/// Milliseconds between two readings of a run.
pub const POLL_MILLIS: u64 = 10_000;

/// When a run is read next, in milliseconds from its start.
#[derive(Debug, Clone, Copy, PartialEq, Eq, Structural)]
pub struct PollSchedule {
    pub next_millis: u64,
}

impl PollSchedule {
    pub fn new() -> (r: Self)
        ensures
            r.next_millis == POLL_MILLIS,
    {
        PollSchedule { next_millis: POLL_MILLIS }
    }

    /// Whether a reading is due; each one is due once, and none is left out
    /// where the run was held up.
    pub fn take_due(&mut self, elapsed_millis: u64) -> (r: bool)
        ensures
            r == (old(self).next_millis <= elapsed_millis),
            final(self).next_millis == (if !r {
                old(self).next_millis as int
            } else if old(self).next_millis + POLL_MILLIS <= u64::MAX {
                old(self).next_millis + POLL_MILLIS
            } else {
                u64::MAX as int
            }),
    {
        if elapsed_millis < self.next_millis {
            return false;
        }
        self.next_millis = self.next_millis.saturating_add(POLL_MILLIS);
        true
    }
}

/// The largest distance of the ratio from one that has been seen.
#[derive(Debug, Clone, Copy)]
pub struct DriftWatch<S> {
    pub max_deviation: S,
}

impl<S: Sample> DriftWatch<S> {
    pub fn new() -> (r: Self)
        requires
            num::lawful::<S>(),
        ensures
            r.max_deviation == num::whole::<S>(0),
    {
        DriftWatch { max_deviation: get_whole(0) }
    }

    pub fn observe(&mut self, ratio: S)
        requires
            num::lawful::<S>(),
        ensures
            final(self).max_deviation == num::larger(
                old(self).max_deviation,
                num::magnitude(ratio.sub_spec(num::whole::<S>(1))),
            ),
    {
        self.max_deviation = get_larger(
            self.max_deviation,
            get_magnitude(ratio - get_whole(1)),
        );
    }

    /// The correction has been at its bound of one percent.
    pub open spec fn at_bound(self) -> bool {
        num::at_most(num::ratio::<S>(1, 100), self.max_deviation)
    }

    pub fn is_saturated(&self) -> (r: bool)
        requires
            num::lawful::<S>(),
        ensures
            r == self.at_bound(),
    {
        is_at_most(get_ratio(1, 100), self.max_deviation)
    }
}

/// How a run ended.
#[derive(Debug, Clone, Copy, PartialEq, Eq, Structural)]
pub struct Verdict {
    pub dropouts: u64,
    pub saturated: bool,
}

impl Verdict {
    /// No dropouts, and the drift stayed bounded.
    pub open spec fn passed(self) -> bool {
        self.dropouts == 0 && !self.saturated
    }

    pub open spec fn text(self) -> Seq<char> {
        if self.passed() {
            "PASS: no dropouts, drift stayed bounded (never saturated the corrector)"@
        } else {
            "FAIL: "@ + (if self.dropouts > 0 {
                text::decimal_text(self.dropouts as nat) + " dropout(s) observed. "@
            } else {
                Seq::empty()
            }) + (if self.saturated {
                "drift correction saturated its clamp at least once."@
            } else {
                Seq::empty()
            })
        }
    }

    pub fn has_passed(&self) -> (r: bool)
        ensures
            r == self.passed(),
    {
        self.dropouts == 0 && !self.saturated
    }

    pub fn get_text(&self) -> (r: String)
        ensures
            r@ == self.text(),
    {
        if self.has_passed() {
            return String::from_str(
                "PASS: no dropouts, drift stayed bounded (never saturated the corrector)",
            );
        }
        let mut r = String::from_str("FAIL: ");
        assert(r@ + Seq::<char>::empty() =~= r@);
        if self.dropouts > 0 {
            let mut part = get_decimal_text(self.dropouts);
            part.append(" dropout(s) observed. ");
            r.append(part.as_str());
        }
        assert(r@ + Seq::<char>::empty() =~= r@);
        if self.saturated {
            r.append("drift correction saturated its clamp at least once.");
        }
        r
    }
}

} // verus!
