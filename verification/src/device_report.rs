//! What the user is told of a device, and whether it can be connected.

use crate::clock::DeviceId;
use crate::num::{self, get_ratio, get_whole, is_at_most, is_below, is_finite, Sample};
use crate::precision::{self, Precision};
use crate::text::{self, get_decimal_text, join, same_text};
use vstd::prelude::*;
use vstd::std_specs::ops::DivSpec;
use vstd::string::StringExecFns;

verus! {

/// The transport code of a Bluetooth device.
pub const TRANSPORT_BLUETOOTH: u32 = 0x626c_7565;

/// The transport code of a Bluetooth low energy device.
pub const TRANSPORT_BLUETOOTH_LE: u32 = 0x626c_6561;

/// Below this rate, in hertz, a Bluetooth device runs its call profile.
pub const BLUETOOTH_REDUCED_PROFILE_RATE_CEILING: i16 = 32_000;

/// Ratios of nominal rates between one over this and this are resampled.
pub const MAX_BASE_RATIO: i16 = 32;

pub open spec fn bluetooth(transport: u32) -> bool {
    transport == TRANSPORT_BLUETOOTH || transport == TRANSPORT_BLUETOOTH_LE
}

pub fn is_bluetooth_transport(transport: u32) -> (r: bool)
    ensures
        r == bluetooth(transport),
{
    transport == TRANSPORT_BLUETOOTH || transport == TRANSPORT_BLUETOOTH_LE
}

/// A Bluetooth device whose microphone is in use drops to the rates of its
/// call profile, on both sides.
pub open spec fn reduced_profile<P: Sample>(transport: u32, rate: P) -> bool {
    &&& bluetooth(transport)
    &&& num::below(num::whole::<P>(0), rate)
    &&& num::below(rate, num::whole::<P>(BLUETOOTH_REDUCED_PROFILE_RATE_CEILING as int))
}

pub open spec fn reduced_profile_message(
    name: Seq<char>,
    rate_text: Seq<char>,
    channels: nat,
) -> Seq<char> {
    text::joined(
        seq![
            name,
            " is running at "@,
            rate_text,
            " Hz, "@,
            text::decimal_text(channels),
            "ch -- Bluetooth's reduced call-quality profile, not its normal stereo quality. This usually means "@,
            name,
            "'s microphone is in use by this or another app; stop using it and reconnect "@,
            name,
            " to restore full quality."@,
        ],
    )
}

/// What is wrong with a device in its call profile, and what helps.
/// `rate_text` is the rate in whole hertz.
pub fn bluetooth_reduced_profile_warning<P: Sample>(
    name: &str,
    transport: u32,
    rate: P,
    rate_text: &str,
    channels: usize,
) -> (r: Option<String>)
    requires
        num::lawful::<P>(),
    ensures
        r is Some <==> reduced_profile(transport, rate),
        r matches Some(message) ==> message@ == reduced_profile_message(
            name@,
            rate_text@,
            channels as nat,
        ),
{
    if is_bluetooth_transport(transport) && is_below(get_whole(0), rate) && is_below(
        rate,
        get_whole(BLUETOOTH_REDUCED_PROFILE_RATE_CEILING),
    ) {
        let count: String = get_decimal_text(channels as u64);
        let parts = [
            name,
            " is running at ",
            rate_text,
            " Hz, ",
            count.as_str(),
            "ch -- Bluetooth's reduced call-quality profile, not its normal stereo quality. This usually means ",
            name,
            "'s microphone is in use by this or another app; stop using it and reconnect ",
            name,
            " to restore full quality.",
        ];
        let message: String = join(&parts);
        assert(text::texts(parts@) =~= seq![
            name@,
            " is running at "@,
            rate_text@,
            " Hz, "@,
            text::decimal_text(channels as nat),
            "ch -- Bluetooth's reduced call-quality profile, not its normal stereo quality. This usually means "@,
            name@,
            "'s microphone is in use by this or another app; stop using it and reconnect "@,
            name@,
            " to restore full quality."@,
        ]);
        Some(message)
    } else {
        None
    }
}

pub open spec fn mono_output_message(name: Seq<char>) -> Seq<char> {
    name
        + " only provides 1 output channel, so no stereo field can exist over it regardless of the mix -- choose a different device for stereo output."@
}

/// A single output channel cannot carry a stereo field. Fewer channels than a
/// bus has are no reason to warn: the bus modes are made for that.
pub fn mono_output_warning(name: &str, channels: usize) -> (r: Option<String>)
    ensures
        r is Some <==> channels == 1,
        r matches Some(message) ==> message@ == mono_output_message(name@),
{
    if channels == 1 {
        let mut message = String::from_str(name);
        message.append(
            " only provides 1 output channel, so no stereo field can exist over it regardless of the mix -- choose a different device for stereo output.",
        );
        Some(message)
    } else {
        None
    }
}

/// The one warning that applies to a device as an output: the call profile
/// explains a single channel too.
pub open spec fn output_message<P: Sample>(
    name: Seq<char>,
    transport: u32,
    rate: P,
    rate_text: Seq<char>,
    channels: nat,
) -> Option<Seq<char>> {
    if reduced_profile(transport, rate) {
        Some(reduced_profile_message(name, rate_text, channels))
    } else if channels == 1 {
        Some(mono_output_message(name))
    } else {
        None
    }
}

/// The one warning that applies to a device as an input: a single channel is
/// what most microphones have.
pub open spec fn input_message<P: Sample>(
    name: Seq<char>,
    transport: u32,
    rate: P,
    rate_text: Seq<char>,
    channels: nat,
) -> Option<Seq<char>> {
    if reduced_profile(transport, rate) {
        Some(reduced_profile_message(name, rate_text, channels))
    } else {
        None
    }
}

/// `list` holds `message`, if there is one, and nothing else.
pub open spec fn is_only(list: Seq<String>, message: Option<Seq<char>>) -> bool {
    match message {
        Some(message) => list.len() == 1 && list[0]@ == message,
        None => list.len() == 0,
    }
}

pub fn output_device_warnings<P: Sample>(
    name: &str,
    transport: u32,
    rate: P,
    rate_text: &str,
    channels: usize,
) -> (r: Vec<String>)
    requires
        num::lawful::<P>(),
    ensures
        is_only(r@, output_message(name@, transport, rate, rate_text@, channels as nat)),
{
    let mut r: Vec<String> = Vec::new();
    match bluetooth_reduced_profile_warning(name, transport, rate, rate_text, channels) {
        Some(warning) => {
            r.push(warning);
        },
        None => {
            match mono_output_warning(name, channels) {
                Some(warning) => {
                    r.push(warning);
                },
                None => {},
            }
        },
    }
    r
}

pub fn input_device_warnings<P: Sample>(
    name: &str,
    transport: u32,
    rate: P,
    rate_text: &str,
    channels: usize,
) -> (r: Vec<String>)
    requires
        num::lawful::<P>(),
    ensures
        is_only(r@, input_message(name@, transport, rate, rate_text@, channels as nat)),
{
    let mut r: Vec<String> = Vec::new();
    match bluetooth_reduced_profile_warning(name, transport, rate, rate_text, channels) {
        Some(warning) => {
            r.push(warning);
        },
        None => {},
    }
    r
}

/// An entry of the device list.
pub struct DeviceInfo {
    pub uid: String,
    pub name: String,
    pub input_channels: usize,
    pub output_channels: usize,
    pub warnings: Vec<String>,
}

/// `list` holds the messages that there are, in order.
pub open spec fn holds_messages(
    list: Seq<String>,
    first: Option<Seq<char>>,
    second: Option<Seq<char>>,
) -> bool {
    exists|a: Seq<String>, b: Seq<String>|
        is_only(a, first) && is_only(b, second) && list == #[trigger] (a + b)
}

/// A device is listed if it can be identified and has a channel at all.
pub fn device_info<P: Sample>(
    uid: String,
    name: String,
    input_channels: usize,
    output_channels: usize,
    transport: u32,
    rate: P,
    rate_text: &str,
) -> (r: Option<DeviceInfo>)
    requires
        num::lawful::<P>(),
    ensures
        r is Some <==> uid@.len() > 0 && (input_channels > 0 || output_channels > 0),
        r matches Some(info) ==> info.uid == uid && info.name == name && info.input_channels
            == input_channels && info.output_channels == output_channels && holds_messages(
            info.warnings@,
            output_message(name@, transport, rate, rate_text@, output_channels as nat),
            input_message(name@, transport, rate, rate_text@, input_channels as nat),
        ),
{
    if same_text(uid.as_str(), "") {
        assert(uid@.len() == 0) by {
            reveal_strlit("");
        }
        return None;
    }
    assert(uid@.len() > 0) by {
        reveal_strlit("");
        if uid@.len() == 0 {
            assert(uid@ =~= ""@);
        }
    }
    if input_channels == 0 && output_channels == 0 {
        return None;
    }
    let mut warnings = output_device_warnings(
        name.as_str(),
        transport,
        rate,
        rate_text,
        output_channels,
    );
    let mut more = input_device_warnings(name.as_str(), transport, rate, rate_text, input_channels);
    let ghost a = warnings@;
    let ghost b = more@;
    warnings.append(&mut more);
    assert(warnings@ == a + b);
    Some(DeviceInfo { uid, name, input_channels, output_channels, warnings })
}

/// Why a pair of nominal rates is refused.
#[derive(Debug)]
pub enum RatioError<S> {
    /// The rates give no positive number.
    Unusable,
    /// The ratio is further from one than is attempted.
    OutOfRange(S),
}

/// The answer for a pair of rates whose quotient is `ratio`.
pub open spec fn judged<S: Sample>(ratio: S) -> Result<S, RatioError<S>> {
    if !num::finite(ratio) || num::at_most(ratio, num::whole::<S>(0)) {
        Err(RatioError::Unusable)
    } else if num::at_most(num::ratio::<S>(1, MAX_BASE_RATIO as int), ratio) && num::at_most(
        ratio,
        num::whole::<S>(MAX_BASE_RATIO as int),
    ) {
        Ok(ratio)
    } else {
        Err(RatioError::OutOfRange(ratio))
    }
}

/// Accepts or refuses a ratio of nominal rates.
pub fn judge_ratio<S: Sample>(ratio: S) -> (r: Result<S, RatioError<S>>)
    requires
        num::lawful::<S>(),
    ensures
        r == judged(ratio),
{
    if !is_finite(ratio) || is_at_most(ratio, get_whole(0)) {
        return Err(RatioError::Unusable);
    }
    if is_at_most(get_ratio(1, MAX_BASE_RATIO), ratio) && is_at_most(
        ratio,
        get_whole(MAX_BASE_RATIO),
    ) {
        Ok(ratio)
    } else {
        Err(RatioError::OutOfRange(ratio))
    }
}

/// The ratio of the master's nominal rate to a device's.
pub fn base_ratio_for<S: Sample, P: Sample, W: Precision<S, P>>(
    w: &W,
    master_rate: P,
    device_rate: P,
) -> (r: Result<S, RatioError<S>>)
    requires
        num::lawful::<S>(),
        num::lawful::<P>(),
    ensures
        exists|ratio: S|
            #![trigger precision::narrows(*w, master_rate.div_spec(device_rate), ratio)]
            precision::narrows(*w, master_rate.div_spec(device_rate), ratio) && r == judged(ratio),
{
    let ratio: S = w.narrow(master_rate / device_rate);
    assert(precision::narrows(*w, master_rate.div_spec(device_rate), ratio));
    judge_ratio(ratio)
}

/// A device of the system, with its persistent id where it tells it.
pub struct DeviceIdentity {
    pub id: DeviceId,
    pub uid: Option<String>,
}

impl DeviceIdentity {
    pub open spec fn has_uid(&self, uid: Seq<char>) -> bool {
        match self.uid {
            Some(own) => own@ == uid,
            None => false,
        }
    }
}

pub open spec fn no_such_device_message(uid: Seq<char>) -> Seq<char> {
    "no device with UID '"@ + uid
        + "' found (it may have been unplugged since the picker was last refreshed)"@
}

pub fn get_no_such_device_message(uid: &str) -> (r: String)
    ensures
        r@ == no_such_device_message(uid@),
{
    let mut message = String::from_str("no device with UID '");
    message.append(uid);
    message.append("' found (it may have been unplugged since the picker was last refreshed)");
    message
}

/// The first device with that persistent id.
pub open spec fn first_with(devices: Seq<DeviceIdentity>, uid: Seq<char>) -> Option<DeviceId>
    decreases devices.len(),
{
    if devices.len() == 0 {
        None
    } else if first_with(devices.drop_last(), uid) is Some {
        first_with(devices.drop_last(), uid)
    } else if devices.last().has_uid(uid) {
        Some(devices.last().id)
    } else {
        None
    }
}

/// Once found, a device stays found in a longer list.
proof fn lemma_first_stays(devices: Seq<DeviceIdentity>, n: int, uid: Seq<char>)
    requires
        0 <= n <= devices.len(),
        first_with(devices.take(n), uid) is Some,
    ensures
        first_with(devices, uid) == first_with(devices.take(n), uid),
    decreases devices.len(),
{
    if n == devices.len() {
        assert(devices.take(n) =~= devices);
    } else {
        assert(devices.drop_last().take(n) =~= devices.take(n));
        lemma_first_stays(devices.drop_last(), n, uid);
    }
}

/// Looks a device up by its persistent id.
pub fn resolve_uid(uid: &str, devices: &Vec<DeviceIdentity>) -> (r: Result<DeviceId, String>)
    ensures
        match r {
            Ok(id) => first_with(devices@, uid@) == Some(id),
            Err(message) => first_with(devices@, uid@) is None && message@
                == no_such_device_message(uid@),
        },
{
    let mut i: usize = 0;
    while i < devices.len()
        invariant
            i <= devices@.len(),
            first_with(devices@.take(i as int), uid@) is None,
        decreases devices@.len() - i,
    {
        assert(devices@.take(i + 1).drop_last() =~= devices@.take(i as int));
        match &devices[i].uid {
            Some(own) => {
                if same_text(own.as_str(), uid) {
                    proof {
                        lemma_first_stays(devices@, i + 1, uid@);
                    }
                    return Ok(devices[i].id);
                }
            },
            None => {},
        }
        i = i + 1;
    }
    assert(devices@.take(i as int) =~= devices@);
    Err(get_no_such_device_message(uid))
}

} // verus!
