//! Connecting devices to the mixer.
//!
//! A connection is a conversation with the audio hardware layer: each request
//! is answered, and the answer decides on the next request. The output device
//! has to be there, to have channels and to be the clock master; an input
//! device, where one is wanted, has to have channels and a rate that can be
//! resampled. The output is started last, because it is what runs the mixer.

use crate::clock::{ClockSource, DeviceId};
use crate::device::{CoreAudioError, Direction};
use crate::device_report::{self, base_ratio_for, resolve_uid, DeviceIdentity, RatioError};
use crate::num::{self, Sample};
use crate::precision::{self, Precision};
use crate::text::{self, get_signed_text};
use crate::CHANNELS;
use vstd::prelude::*;
use vstd::std_specs::ops::DivSpec;
use vstd::string::StringExecFns;

verus! {

/// What is asked of the audio hardware layer.
pub enum Request<S> {
    ListDevices,
    CountChannels { device: DeviceId, direction: Direction },
    FindMaster { configured: DeviceId },
    ReadRate { device: DeviceId },
    StartCapture { device: DeviceId, channels: usize, base_ratio: S },
    StartMaster { device: DeviceId },
    /// Everything runs.
    Finish,
    /// Nothing more is to be done.
    Refuse(ConnectError<S>),
}

/// What the audio hardware layer answers.
pub enum Answer<P> {
    Devices(Result<Vec<DeviceIdentity>, CoreAudioError>),
    Channels(Result<usize, CoreAudioError>),
    Master(Result<ClockSource, CoreAudioError>),
    Rate(Result<P, CoreAudioError>),
    Started(Result<(), CoreAudioError>),
}

/// Why devices are not connected.
pub enum ConnectError<S> {
    NoSuchOutput,
    NoSuchInput,
    NoOutputChannels,
    NoInputChannels,
    /// The output device is not the clock master, so it is not there.
    NotConnected,
    /// The rates of the two devices cannot be brought together.
    Ratio(RatioError<S>),
    CaptureNotStarted(CoreAudioError),
    OutputNotStarted(CoreAudioError),
    Hardware(CoreAudioError),
    /// The answer is none to the request that was made.
    OutOfTurn,
}

/// Which answer is waited for, and what is known so far.
pub enum Stage<P> {
    FindingOutput,
    CountingOutput { output: DeviceId },
    FindingMaster { output: DeviceId },
    ReadingOutputRate { output: DeviceId },
    FindingInput { output: DeviceId, rate: P },
    CountingInput { output: DeviceId, rate: P, input: DeviceId },
    ReadingInputRate { output: DeviceId, rate: P, input: DeviceId, channels: usize },
    StartingCapture { output: DeviceId },
    StartingOutput { output: DeviceId },
    Connected,
    Refused,
}

/// A connection in the making.
pub struct Connection<P> {
    pub output_uid: String,
    pub input_uid: Option<String>,
    pub stage: Stage<P>,
}

/// The channels a strip takes of so many.
pub open spec fn taken_channels(channels: usize) -> usize {
    if channels < CHANNELS {
        channels
    } else {
        CHANNELS
    }
}

/// The connection stands at `stage` and asks `request`.
pub open spec fn moves<S, P>(
    next: Stage<P>,
    r: Request<S>,
    stage: Stage<P>,
    request: Request<S>,
) -> bool {
    next == stage && r == request
}

/// The connection has come to its end, for a reason.
pub open spec fn refuses<S, P>(reason: ConnectError<S>, stage: Stage<P>, r: Request<S>) -> bool {
    stage == Stage::<P>::Refused && r == Request::Refuse(reason)
}

/// The rates of the two devices have been compared: the input is started at
/// their ratio, or refused for it.
pub open spec fn compares<S: Sample, P: Sample, W: Precision<S, P>>(
    w: W,
    output: DeviceId,
    rate: P,
    input: DeviceId,
    channels: usize,
    input_rate: P,
    next: Stage<P>,
    r: Request<S>,
) -> bool {
    exists|ratio: S|
        #![trigger precision::narrows(w, rate.div_spec(input_rate), ratio)]
        precision::narrows(w, rate.div_spec(input_rate), ratio) && match device_report::judged(
            ratio,
        ) {
            Ok(base_ratio) => moves(
                next,
                r,
                Stage::StartingCapture { output },
                Request::StartCapture { device: input, channels, base_ratio },
            ),
            Err(e) => refuses(ConnectError::Ratio(e), next, r),
        }
}

impl<P: Sample> Connection<P> {
    /// The connection is to be that of `output_uid` and `input_uid`, and
    /// nothing has been answered yet.
    pub open spec fn is_new(&self) -> bool {
        self.stage == Stage::<P>::FindingOutput
    }

    /// After the answer `a` the connection stands at `next`, with the request
    /// `r`.
    pub open spec fn goes_on<S: Sample, W: Precision<S, P>>(
        &self,
        w: W,
        a: Answer<P>,
        next: Stage<P>,
        r: Request<S>,
    ) -> bool {
        match (self.stage, a) {
            (Stage::FindingOutput, Answer::Devices(Ok(devices))) => match device_report::first_with(
                devices@,
                self.output_uid@,
            ) {
                Some(output) => moves(
                    next,
                    r,
                    Stage::CountingOutput { output },
                    Request::CountChannels { device: output, direction: Direction::Output },
                ),
                None => refuses(ConnectError::NoSuchOutput, next, r),
            },
            (Stage::CountingOutput { output }, Answer::Channels(Ok(channels))) => if channels > 0 {
                moves(
                    next,
                    r,
                    Stage::FindingMaster { output },
                    Request::FindMaster { configured: output },
                )
            } else {
                refuses(ConnectError::NoOutputChannels, next, r)
            },
            (Stage::FindingMaster { output }, Answer::Master(Ok(source))) => if source
                == ClockSource::Device(output) {
                moves(
                    next,
                    r,
                    Stage::ReadingOutputRate { output },
                    Request::ReadRate { device: output },
                )
            } else {
                refuses(ConnectError::NotConnected, next, r)
            },
            (Stage::ReadingOutputRate { output }, Answer::Rate(Ok(rate))) => if self.input_uid
                is Some {
                moves(next, r, Stage::FindingInput { output, rate }, Request::ListDevices)
            } else {
                moves(
                    next,
                    r,
                    Stage::StartingOutput { output },
                    Request::StartMaster { device: output },
                )
            },
            (Stage::FindingInput { output, rate }, Answer::Devices(Ok(devices))) => match self.input_uid {
                Some(uid) => match device_report::first_with(devices@, uid@) {
                    Some(input) => moves(
                        next,
                        r,
                        Stage::CountingInput { output, rate, input },
                        Request::CountChannels { device: input, direction: Direction::Input },
                    ),
                    None => refuses(ConnectError::NoSuchInput, next, r),
                },
                None => refuses(ConnectError::NoSuchInput, next, r),
            },
            (
                Stage::CountingInput { output, rate, input },
                Answer::Channels(Ok(channels)),
            ) => if channels > 0 {
                moves(
                    next,
                    r,
                    Stage::ReadingInputRate { output, rate, input, channels: taken_channels(channels) },
                    Request::ReadRate { device: input },
                )
            } else {
                refuses(ConnectError::NoInputChannels, next, r)
            },
            (
                Stage::ReadingInputRate { output, rate, input, channels },
                Answer::Rate(Ok(input_rate)),
            ) => compares(w, output, rate, input, channels, input_rate, next, r),
            (Stage::StartingCapture { output }, Answer::Started(Ok(_))) => {
                moves(
                    next,
                    r,
                    Stage::StartingOutput { output },
                    Request::StartMaster { device: output },
                )
            },
            (Stage::StartingOutput { .. }, Answer::Started(Ok(_))) => {
                moves(next, r, Stage::Connected, Request::Finish)
            },
            (Stage::StartingCapture { .. }, Answer::Started(Err(e))) => refuses(
                ConnectError::CaptureNotStarted(e),
                next,
                r,
            ),
            (Stage::StartingOutput { .. }, Answer::Started(Err(e))) => refuses(
                ConnectError::OutputNotStarted(e),
                next,
                r,
            ),
            (Stage::FindingOutput, Answer::Devices(Err(e))) => refuses(
                ConnectError::Hardware(e),
                next,
                r,
            ),
            (Stage::FindingInput { .. }, Answer::Devices(Err(e))) => refuses(
                ConnectError::Hardware(e),
                next,
                r,
            ),
            (Stage::CountingOutput { .. }, Answer::Channels(Err(e))) => refuses(
                ConnectError::Hardware(e),
                next,
                r,
            ),
            (Stage::CountingInput { .. }, Answer::Channels(Err(e))) => refuses(
                ConnectError::Hardware(e),
                next,
                r,
            ),
            (Stage::FindingMaster { .. }, Answer::Master(Err(e))) => refuses(
                ConnectError::Hardware(e),
                next,
                r,
            ),
            (Stage::ReadingOutputRate { .. }, Answer::Rate(Err(e))) => refuses(
                ConnectError::Hardware(e),
                next,
                r,
            ),
            (Stage::ReadingInputRate { .. }, Answer::Rate(Err(e))) => refuses(
                ConnectError::Hardware(e),
                next,
                r,
            ),
            _ => refuses(ConnectError::OutOfTurn, next, r),
        }
    }

    /// Starts to connect; the first request is for the list of devices.
    pub fn new(output_uid: String, input_uid: Option<String>) -> (r: Self)
        ensures
            r.is_new(),
            r.output_uid == output_uid,
            r.input_uid == input_uid,
    {
        Connection { output_uid, input_uid, stage: Stage::FindingOutput }
    }

    fn refuse<S: Sample>(&mut self, reason: ConnectError<S>) -> (r: Request<S>)
        ensures
            final(self).output_uid == old(self).output_uid,
            final(self).input_uid == old(self).input_uid,
            refuses(reason, final(self).stage, r),
    {
        self.stage = Stage::Refused;
        Request::Refuse(reason)
    }

    /// Takes an answer and makes the next request.
    pub fn answer<S: Sample, W: Precision<S, P>>(&mut self, w: &W, a: Answer<P>) -> (r: Request<S>)
        requires
            num::lawful::<S>(),
            num::lawful::<P>(),
        ensures
            final(self).output_uid == old(self).output_uid,
            final(self).input_uid == old(self).input_uid,
            old(self).goes_on(*w, a, final(self).stage, r),
    {
        match a {
            Answer::Devices(Ok(devices)) => self.found(w, devices),
            Answer::Channels(Ok(channels)) => self.counted(w, channels),
            Answer::Master(Ok(source)) => self.mastered(w, source),
            Answer::Rate(Ok(rate)) => self.rated(w, rate),
            Answer::Started(Ok(())) => self.started(w),
            Answer::Started(Err(e)) => match self.stage {
                Stage::StartingCapture { .. } => self.refuse(ConnectError::CaptureNotStarted(e)),
                Stage::StartingOutput { .. } => self.refuse(ConnectError::OutputNotStarted(e)),
                _ => self.refuse(ConnectError::OutOfTurn),
            },
            Answer::Devices(Err(e)) => match self.stage {
                Stage::FindingOutput => self.refuse(ConnectError::Hardware(e)),
                Stage::FindingInput { .. } => self.refuse(ConnectError::Hardware(e)),
                _ => self.refuse(ConnectError::OutOfTurn),
            },
            Answer::Channels(Err(e)) => match self.stage {
                Stage::CountingOutput { .. } => self.refuse(ConnectError::Hardware(e)),
                Stage::CountingInput { .. } => self.refuse(ConnectError::Hardware(e)),
                _ => self.refuse(ConnectError::OutOfTurn),
            },
            Answer::Master(Err(e)) => match self.stage {
                Stage::FindingMaster { .. } => self.refuse(ConnectError::Hardware(e)),
                _ => self.refuse(ConnectError::OutOfTurn),
            },
            Answer::Rate(Err(e)) => match self.stage {
                Stage::ReadingOutputRate { .. } => self.refuse(ConnectError::Hardware(e)),
                Stage::ReadingInputRate { .. } => self.refuse(ConnectError::Hardware(e)),
                _ => self.refuse(ConnectError::OutOfTurn),
            },
        }
    }

    fn found<S: Sample, W: Precision<S, P>>(
        &mut self,
        w: &W,
        devices: Vec<DeviceIdentity>,
    ) -> (r: Request<S>)
        ensures
            final(self).output_uid == old(self).output_uid,
            final(self).input_uid == old(self).input_uid,
            old(self).goes_on(*w, Answer::Devices(Ok(devices)), final(self).stage, r),
    {
        match self.stage {
            Stage::FindingOutput => match resolve_uid(self.output_uid.as_str(), &devices) {
                Ok(output) => {
                    self.stage = Stage::CountingOutput { output };
                    Request::CountChannels { device: output, direction: Direction::Output }
                },
                Err(_) => self.refuse(ConnectError::NoSuchOutput),
            },
            Stage::FindingInput { output, rate } => match &self.input_uid {
                Some(uid) => match resolve_uid(uid.as_str(), &devices) {
                    Ok(input) => {
                        self.stage = Stage::CountingInput { output, rate, input };
                        Request::CountChannels { device: input, direction: Direction::Input }
                    },
                    Err(_) => self.refuse(ConnectError::NoSuchInput),
                },
                None => self.refuse(ConnectError::NoSuchInput),
            },
            _ => self.refuse(ConnectError::OutOfTurn),
        }
    }

    fn counted<S: Sample, W: Precision<S, P>>(&mut self, w: &W, channels: usize) -> (r: Request<S>)
        ensures
            final(self).output_uid == old(self).output_uid,
            final(self).input_uid == old(self).input_uid,
            old(self).goes_on(*w, Answer::Channels(Ok(channels)), final(self).stage, r),
    {
        match self.stage {
            Stage::CountingOutput { output } => {
                if channels == 0 {
                    return self.refuse(ConnectError::NoOutputChannels);
                }
                self.stage = Stage::FindingMaster { output };
                Request::FindMaster { configured: output }
            },
            Stage::CountingInput { output, rate, input } => {
                if channels == 0 {
                    return self.refuse(ConnectError::NoInputChannels);
                }
                let channels: usize = if channels < CHANNELS {
                    channels
                } else {
                    CHANNELS
                };
                self.stage = Stage::ReadingInputRate { output, rate, input, channels };
                Request::ReadRate { device: input }
            },
            _ => self.refuse(ConnectError::OutOfTurn),
        }
    }

    fn mastered<S: Sample, W: Precision<S, P>>(&mut self, w: &W, source: ClockSource) -> (r: Request<
        S,
    >)
        ensures
            final(self).output_uid == old(self).output_uid,
            final(self).input_uid == old(self).input_uid,
            old(self).goes_on(*w, Answer::Master(Ok(source)), final(self).stage, r),
    {
        match self.stage {
            Stage::FindingMaster { output } => {
                if source == ClockSource::Device(output) {
                    self.stage = Stage::ReadingOutputRate { output };
                    Request::ReadRate { device: output }
                } else {
                    self.refuse(ConnectError::NotConnected)
                }
            },
            _ => self.refuse(ConnectError::OutOfTurn),
        }
    }

    fn rated<S: Sample, W: Precision<S, P>>(&mut self, w: &W, heard: P) -> (r: Request<S>)
        requires
            num::lawful::<S>(),
            num::lawful::<P>(),
        ensures
            final(self).output_uid == old(self).output_uid,
            final(self).input_uid == old(self).input_uid,
            old(self).goes_on(*w, Answer::Rate(Ok(heard)), final(self).stage, r),
    {
        match self.stage {
            Stage::ReadingOutputRate { output } => {
                if self.input_uid.is_some() {
                    self.stage = Stage::FindingInput { output, rate: heard };
                    Request::ListDevices
                } else {
                    self.stage = Stage::StartingOutput { output };
                    Request::StartMaster { device: output }
                }
            },
            Stage::ReadingInputRate { output, rate, input, channels } => {
                let judgement = base_ratio_for(w, rate, heard);
                let ghost ratio = choose|ratio: S|
                    #![trigger precision::narrows(*w, rate.div_spec(heard), ratio)]
                    precision::narrows(*w, rate.div_spec(heard), ratio) && judgement
                        == device_report::judged(ratio);
                let r: Request<S> = match judgement {
                    Ok(base_ratio) => {
                        self.stage = Stage::StartingCapture { output };
                        Request::StartCapture { device: input, channels, base_ratio }
                    },
                    Err(e) => self.refuse(ConnectError::Ratio(e)),
                };
                assert(precision::narrows(*w, rate.div_spec(heard), ratio));
                assert(compares(*w, output, rate, input, channels, heard, self.stage, r));
                r
            },
            _ => self.refuse(ConnectError::OutOfTurn),
        }
    }

    fn started<S: Sample, W: Precision<S, P>>(&mut self, w: &W) -> (r: Request<S>)
        ensures
            final(self).output_uid == old(self).output_uid,
            final(self).input_uid == old(self).input_uid,
            old(self).goes_on(*w, Answer::Started(Ok(())), final(self).stage, r),
    {
        match self.stage {
            Stage::StartingCapture { output } => {
                self.stage = Stage::StartingOutput { output };
                Request::StartMaster { device: output }
            },
            Stage::StartingOutput { .. } => {
                self.stage = Stage::Connected;
                Request::Finish
            },
            _ => self.refuse(ConnectError::OutOfTurn),
        }
    }
}

/// What the user is told of a refusal. The rates that a ratio was made of are
/// not known here.
pub open spec fn refusal<S>(
    e: ConnectError<S>,
    output_uid: Seq<char>,
    input_uid: Seq<char>,
) -> Option<Seq<char>> {
    match e {
        ConnectError::NoSuchOutput => Some(device_report::no_such_device_message(output_uid)),
        ConnectError::NoSuchInput => Some(device_report::no_such_device_message(input_uid)),
        ConnectError::NoOutputChannels => Some(output_uid + " has no output channels"@),
        ConnectError::NoInputChannels => Some(input_uid + " has no input channels"@),
        ConnectError::NotConnected => Some(output_uid + " is not currently connected"@),
        ConnectError::Ratio(_) => None,
        ConnectError::CaptureNotStarted(status) => Some(
            "failed to start capture on "@ + input_uid + ": CoreAudio error "@ + text::signed_text(
                status as int,
            ),
        ),
        ConnectError::OutputNotStarted(status) => Some(
            "failed to start output on "@ + output_uid + ": CoreAudio error "@ + text::signed_text(
                status as int,
            ),
        ),
        ConnectError::Hardware(status) => Some(
            "CoreAudio error "@ + text::signed_text(status as int),
        ),
        ConnectError::OutOfTurn => Some("an answer out of turn"@),
    }
}

pub fn get_refusal<S>(e: &ConnectError<S>, output_uid: &str, input_uid: &str) -> (r: Option<String>)
    ensures
        match r {
            Some(message) => refusal(*e, output_uid@, input_uid@) == Some(message@),
            None => refusal(*e, output_uid@, input_uid@) is None,
        },
{
    match e {
        ConnectError::NoSuchOutput => Some(device_report::get_no_such_device_message(output_uid)),
        ConnectError::NoSuchInput => Some(device_report::get_no_such_device_message(input_uid)),
        ConnectError::NoOutputChannels => Some(pair(output_uid, " has no output channels")),
        ConnectError::NoInputChannels => Some(pair(input_uid, " has no input channels")),
        ConnectError::NotConnected => Some(pair(output_uid, " is not currently connected")),
        ConnectError::Ratio(_) => None,
        ConnectError::CaptureNotStarted(status) => {
            let number: String = get_signed_text(*status);
            let start: String = pair("failed to start capture on ", input_uid);
            let head: String = pair(start.as_str(), ": CoreAudio error ");
            Some(pair(head.as_str(), number.as_str()))
        },
        ConnectError::OutputNotStarted(status) => {
            let number: String = get_signed_text(*status);
            let start: String = pair("failed to start output on ", output_uid);
            let head: String = pair(start.as_str(), ": CoreAudio error ");
            Some(pair(head.as_str(), number.as_str()))
        },
        ConnectError::Hardware(status) => {
            let number: String = get_signed_text(*status);
            Some(pair("CoreAudio error ", number.as_str()))
        },
        ConnectError::OutOfTurn => Some(String::from_str("an answer out of turn")),
    }
}

fn pair(a: &str, b: &str) -> (r: String)
    ensures
        r@ == a@ + b@,
{
    let mut r = String::from_str(a);
    r.append(b);
    r
}

/// A conversation from its start: state by state, with the answers and the
/// requests that follow them.
pub open spec fn converses<S: Sample, P: Sample, W: Precision<S, P>>(
    w: W,
    states: Seq<Connection<P>>,
    answers: Seq<Answer<P>>,
    requests: Seq<Request<S>>,
) -> bool {
    &&& states.len() == answers.len() + 1
    &&& requests.len() == answers.len()
    &&& states[0].is_new()
    &&& forall|i: int|
        0 <= i < answers.len() ==> states[i].goes_on(
            w,
            #[trigger] answers[i],
            states[i + 1].stage,
            requests[i],
        )
    &&& forall|i: int|
        0 <= i < states.len() ==> (#[trigger] states[i]).input_uid == states[0].input_uid
            && states[i].output_uid == states[0].output_uid
}

/// Among the first `n` answers, the device was found to be the clock master.
pub open spec fn is_confirmed<P>(answers: Seq<Answer<P>>, n: int, device: DeviceId) -> bool {
    exists|i: int|
        0 <= i < n && #[trigger] answers[i] == Answer::<P>::Master(Ok(ClockSource::Device(device)))
}

/// Among the first `n` answers, a device was found to have channels.
pub open spec fn is_counted<P>(answers: Seq<Answer<P>>, n: int) -> bool {
    exists|i: int|
        0 <= i < n && (#[trigger] answers[i] matches Answer::Channels(Ok(channels)) && channels > 0)
}

/// The answer is that a device has been started.
pub open spec fn says_started<P>(a: Answer<P>) -> bool {
    a matches Answer::Started(Ok(_))
}

/// What is behind a connection at its `n`th state.
spec fn has_earned<S, P>(
    stage: Stage<P>,
    wants_input: bool,
    answers: Seq<Answer<P>>,
    requests: Seq<Request<S>>,
    n: int,
) -> bool {
    match stage {
        Stage::FindingMaster { .. } => is_counted(answers, n),
        Stage::ReadingOutputRate { output } => is_counted(answers, n) && is_confirmed(
            answers,
            n,
            output,
        ),
        Stage::FindingInput { output, .. } => is_counted(answers, n) && is_confirmed(
            answers,
            n,
            output,
        ),
        Stage::CountingInput { output, .. } => is_counted(answers, n) && is_confirmed(
            answers,
            n,
            output,
        ),
        Stage::ReadingInputRate { output, .. } => is_counted(answers, n) && is_confirmed(
            answers,
            n,
            output,
        ),
        Stage::StartingCapture { output } => is_counted(answers, n) && is_confirmed(
            answers,
            n,
            output,
        ) && n > 0 && requests[n - 1] is StartCapture,
        Stage::StartingOutput { output } => is_counted(answers, n) && is_confirmed(
            answers,
            n,
            output,
        ) && (wants_input ==> n > 1 && requests[n - 2] is StartCapture && says_started(
            answers[n - 1],
        )),
        _ => true,
    }
}

proof fn lemma_earned<S: Sample, P: Sample, W: Precision<S, P>>(
    w: W,
    states: Seq<Connection<P>>,
    answers: Seq<Answer<P>>,
    requests: Seq<Request<S>>,
    n: int,
)
    requires
        converses(w, states, answers, requests),
        0 <= n < states.len(),
    ensures
        has_earned(states[n].stage, states[0].input_uid is Some, answers, requests, n),
    decreases n,
{
    if n > 0 {
        lemma_earned(w, states, answers, requests, n - 1);
        let a = answers[n - 1];
        assert(states[n - 1].goes_on(w, a, states[n].stage, requests[n - 1]));
        assert(states[n - 1].input_uid == states[0].input_uid);
        if is_counted(answers, n - 1) {
            let i = choose|i: int|
                0 <= i < n - 1 && (#[trigger] answers[i] matches Answer::Channels(Ok(channels))
                    && channels > 0);
            assert(answers[i] matches Answer::Channels(Ok(channels)) && channels > 0);
        }
        assert forall|device: DeviceId|
            is_confirmed(answers, n - 1, device) implies is_confirmed(answers, n, device) by {
            let i = choose|i: int|
                0 <= i < n - 1 && #[trigger] answers[i] == Answer::<P>::Master(
                    Ok(ClockSource::Device(device)),
                );
            assert(answers[i] == Answer::<P>::Master(Ok(ClockSource::Device(device))));
        }
    }
}

/// The output device is started only once it has been found to have channels
/// and to be the clock master, and, where an input is wanted, only right after
/// the input has been started.
pub proof fn law_the_output_is_started_last<S: Sample, P: Sample, W: Precision<S, P>>(
    w: W,
    states: Seq<Connection<P>>,
    answers: Seq<Answer<P>>,
    requests: Seq<Request<S>>,
    k: int,
    device: DeviceId,
)
    requires
        converses(w, states, answers, requests),
        0 <= k < requests.len(),
        requests[k] == (Request::<S>::StartMaster { device }),
    ensures
        is_counted(answers, k),
        is_confirmed(answers, k, device),
        states[0].input_uid is Some ==> k > 0 && requests[k - 1] is StartCapture
            && says_started(answers[k]),
{
    lemma_earned(w, states, answers, requests, k);
    assert(states[k].goes_on(w, answers[k], states[k + 1].stage, requests[k]));
    assert(states[k].input_uid == states[0].input_uid);
}

} // verus!
