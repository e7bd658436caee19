//! A mirroring session from its options to its end: what is refused, what runs, when it stops and
//! which result it has.

use vstd::prelude::*;

use crate::bytes::even;
use crate::failure::{first_error, first_of, take_failure};
use crate::h264::{
    demand_of, level_codec_parameter, level_name, lowest_level, H264Level, LevelExceeded,
};
use crate::mirror::options::{host_refusal, validate_cast_hosts, HostError, MirrorOptions};
use crate::mirror::stats::MirrorCounters;
use crate::network::IpAddr;
use crate::rate_control::{floor_for, no_reports, AdaptiveRateControl, RateState};

verus! {

/// The longest target delay: five seconds.
pub const MAX_TARGET_DELAY: u128 = 5_000_000_000;

/// Whether a session casts or measures.
#[derive(Clone, Copy, Debug, PartialEq, Eq, Structural)]
pub enum RunMode {
    Cast,
    Profile,
}

/// How the measurements of a session are shown.
#[derive(Clone, Copy, Debug, PartialEq, Eq, Structural)]
pub enum ProfilePresentation {
    Detailed,
    /// One receiver of a group whose report follows for all of them.
    GroupedTarget,
    AutoTuneTrial,
}

/// Why a session was refused.
#[derive(Debug)]
pub enum RunError {
    Hosts(HostError),
    BitrateNotPositive,
    TargetDelayOutOfRange,
    SyntheticOutsideProfiling,
    DisplayWithSynthetic,
    AudioWithSynthetic,
    ExtendWithDisplay,
    ExtendWithSynthetic,
}

/// Why a session with valid hosts is refused, if it is.
pub open spec fn run_refusal(options: MirrorOptions, mode: RunMode) -> Option<RunError> {
    if options.bitrate <= 0 {
        Some(RunError::BitrateNotPositive)
    } else if options.target_delay == 0 || options.target_delay > MAX_TARGET_DELAY {
        Some(RunError::TargetDelayOutOfRange)
    } else if options.synthetic && mode != RunMode::Profile {
        Some(RunError::SyntheticOutsideProfiling)
    } else if options.synthetic && options.display_id is Some {
        Some(RunError::DisplayWithSynthetic)
    } else if options.synthetic && options.audio {
        Some(RunError::AudioWithSynthetic)
    } else if options.extend && options.display_id is Some {
        Some(RunError::ExtendWithDisplay)
    } else if options.extend && options.synthetic {
        Some(RunError::ExtendWithSynthetic)
    } else {
        None
    }
}

/// A session runs with a bitrate above zero, a delay of up to five seconds, and at most one source
/// of pictures: a selected display, an extended one, or synthetic frames, which are for profiling
/// and have no audio.
pub proof fn lemma_sessions_have_one_source(options: MirrorOptions, mode: RunMode)
    ensures
        run_refusal(options, mode) is None <==> {
            &&& options.bitrate > 0
            &&& 0 < options.target_delay <= 5_000_000_000
            &&& options.synthetic ==> mode == RunMode::Profile && options.display_id is None
                && !options.audio && !options.extend
            &&& !(options.extend && options.display_id is Some)
        },
        options.bitrate <= 0 ==> run_refusal(options, mode) == Some(RunError::BitrateNotPositive),
        options.synthetic && mode == RunMode::Cast && options.bitrate > 0 && 0
            < options.target_delay <= 5_000_000_000 ==> run_refusal(options, mode) == Some(
            RunError::SyntheticOutsideProfiling,
        ),
{
}

/// Checks the options of a session.
pub fn validate_run(options: &MirrorOptions, mode: RunMode) -> (result: Result<(), RunError>)
    ensures
        match (result, host_refusal(options.cast_hosts@)) {
            (Err(RunError::Hosts(error)), Some(refusal)) => error == refusal,
            (Err(error), None) => run_refusal(*options, mode) == Some(error),
            (Ok(()), None) => run_refusal(*options, mode) is None,
            _ => false,
        },
{
    if let Err(error) = validate_cast_hosts(options.cast_hosts.as_slice()) {
        return Err(RunError::Hosts(error));
    }
    if options.bitrate <= 0 {
        return Err(RunError::BitrateNotPositive);
    }
    if options.target_delay == 0 || options.target_delay > MAX_TARGET_DELAY {
        return Err(RunError::TargetDelayOutOfRange);
    }
    let profiling: bool = mode == RunMode::Profile;
    if options.synthetic && !profiling {
        return Err(RunError::SyntheticOutsideProfiling);
    }
    if options.synthetic && options.display_id.is_some() {
        return Err(RunError::DisplayWithSynthetic);
    }
    if options.synthetic && options.audio {
        return Err(RunError::AudioWithSynthetic);
    }
    if options.extend && options.display_id.is_some() {
        return Err(RunError::ExtendWithDisplay);
    }
    if options.extend && options.synthetic {
        return Err(RunError::ExtendWithSynthetic);
    }
    Ok(())
}

/// How a command is carried out.
#[derive(Clone, Copy, Debug, PartialEq, Eq, Structural)]
pub enum SessionKind {
    /// One session for all receivers.
    Shared,
    /// A session of its own for each receiver, each with an extended display.
    Extended,
    /// A series of profiling sessions.
    AutoTune,
}

/// Why a profiling command was refused.
#[derive(Debug)]
pub enum ProfileError {
    Hosts(HostError),
    DurationMissing,
    ExtendWithDisplay,
    ExtendWithSynthetic,
}

/// Whether each receiver gets an extended display of its own.
pub open spec fn extends_each(options: MirrorOptions) -> bool {
    options.extend && options.cast_hosts@.len() > 1
}

/// Whether an extended display is asked for together with one that is there.
pub open spec fn extends_and_selects(options: MirrorOptions) -> bool {
    options.extend && options.display_id is Some
}

/// How a cast command is carried out. Extended displays are not created where a display was
/// selected, whatever the number of receivers.
pub fn plan_cast(options: &MirrorOptions) -> (result: Result<SessionKind, RunError>)
    ensures
        match (result, host_refusal(options.cast_hosts@)) {
            (Err(RunError::Hosts(error)), Some(refusal)) => error == refusal,
            (Err(RunError::ExtendWithDisplay), None) => extends_and_selects(*options),
            (Ok(kind), None) => {
                &&& !extends_and_selects(*options)
                &&& kind == if extends_each(*options) {
                    SessionKind::Extended
                } else {
                    SessionKind::Shared
                }
            },
            _ => false,
        },
{
    if let Err(error) = validate_cast_hosts(options.cast_hosts.as_slice()) {
        return Err(RunError::Hosts(error));
    }
    if options.extend && options.display_id.is_some() {
        return Err(RunError::ExtendWithDisplay);
    }
    if options.extend && options.cast_hosts.len() > 1 {
        Ok(SessionKind::Extended)
    } else {
        Ok(SessionKind::Shared)
    }
}

/// How a profiling command is carried out. It needs a fixed duration. Extended displays are not
/// created where a display was selected, nor for synthetic frames; a tuning run has checks of its
/// own.
pub fn plan_profile(options: &MirrorOptions, auto_tune: bool) -> (result: Result<
    SessionKind,
    ProfileError,
>)
    ensures
        match (result, host_refusal(options.cast_hosts@)) {
            (Err(ProfileError::Hosts(error)), Some(refusal)) => error == refusal,
            (Err(ProfileError::DurationMissing), None) => options.duration is None,
            (Err(ProfileError::ExtendWithDisplay), None) => options.duration is Some && !auto_tune
                && extends_and_selects(*options),
            (Err(ProfileError::ExtendWithSynthetic), None) => options.duration is Some && !auto_tune
                && !extends_and_selects(*options) && options.extend && options.synthetic,
            (Ok(kind), None) => {
                &&& options.duration is Some
                &&& auto_tune || !(extends_and_selects(*options) || (options.extend
                    && options.synthetic))
                &&& kind == if auto_tune {
                    SessionKind::AutoTune
                } else if extends_each(*options) {
                    SessionKind::Extended
                } else {
                    SessionKind::Shared
                }
            },
            _ => false,
        },
{
    if let Err(error) = validate_cast_hosts(options.cast_hosts.as_slice()) {
        return Err(ProfileError::Hosts(error));
    }
    if options.duration.is_none() {
        return Err(ProfileError::DurationMissing);
    }
    if auto_tune {
        return Ok(SessionKind::AutoTune);
    }
    if options.extend && options.display_id.is_some() {
        return Err(ProfileError::ExtendWithDisplay);
    }
    if options.extend && options.synthetic {
        return Err(ProfileError::ExtendWithSynthetic);
    }
    if options.extend && options.cast_hosts.len() > 1 {
        Ok(SessionKind::Extended)
    } else {
        Ok(SessionKind::Shared)
    }
}

/// The options of one receiver's session among several on extended displays: its host alone, and
/// the display that was created for it.
pub fn worker_options(options: &MirrorOptions, host: usize, display_id: u32) -> (worker: MirrorOptions)
    requires
        host < options.cast_hosts@.len(),
    ensures
        worker.cast_hosts@ == seq![options.cast_hosts@[host as int]],
        worker == (MirrorOptions {
            cast_hosts: worker.cast_hosts,
            extend: false,
            display_id: Some(display_id),
            ..*options
        }),
{
    let mut cast_hosts: Vec<IpAddr> = Vec::new();
    cast_hosts.push(options.cast_hosts[host].clone());
    assert(cast_hosts@ =~= seq![options.cast_hosts@[host as int]]);
    MirrorOptions {
        cast_hosts,
        cast_port: options.cast_port,
        display_id: Some(display_id),
        extend: false,
        fps: options.fps,
        width: options.width,
        height: options.height,
        bitrate: options.bitrate,
        target_delay: options.target_delay,
        duration: options.duration,
        synthetic: options.synthetic,
        max_frame_age: options.max_frame_age,
        adaptive_bitrate: options.adaptive_bitrate,
        prioritize_encoding_speed: options.prioritize_encoding_speed,
        audio: options.audio,
    }
}

/// The stream that a session sends.
#[derive(Clone, Copy, Debug)]
pub struct StreamPlan {
    pub width: u32,
    pub height: u32,
    pub level: H264Level,
}

/// Sizes the stream: even dimensions, and the lowest level that carries it.
pub fn plan_stream(options: &MirrorOptions) -> (result: Result<StreamPlan, LevelExceeded>)
    requires
        options.bitrate > 0,
    ensures
        ({
            let width = (options.width - options.width % 2) as u32;
            let height = (options.height - options.height % 2) as u32;
            match (
                result,
                lowest_level(0, demand_of(width, height, options.fps, options.bitrate as u64)),
            ) {
                (Ok(plan), Some(index)) => plan.width == width && plan.height == height
                    && plan.level.name@ == level_name(index) && plan.level.codec_parameter@
                    == level_codec_parameter(index),
                (Err(_), None) => true,
                _ => false,
            }
        }),
{
    let width: u32 = even(options.width);
    let height: u32 = even(options.height);
    match H264Level::for_stream(width, height, options.fps, options.bitrate as u64) {
        Ok(level) => Ok(StreamPlan { width, height, level }),
        Err(error) => Err(error),
    }
}

/// Where the captured display comes from.
#[derive(Clone, Copy, Debug, PartialEq, Eq, Structural)]
pub enum DisplayPlan {
    /// A display that was handed in is used.
    Given,
    /// A temporary display is created.
    Create,
    /// An existing display is captured.
    Existing,
}

/// A temporary display was both handed in and asked for.
#[derive(Clone, Copy, Debug, PartialEq, Eq, Structural)]
pub struct DisplayOwnedTwice {}

/// Where the captured display comes from.
pub fn plan_display(extend: bool, given: bool) -> (result: Result<DisplayPlan, DisplayOwnedTwice>)
    ensures
        result == if extend && given {
            Err(DisplayOwnedTwice {  })
        } else if extend {
            Ok::<DisplayPlan, DisplayOwnedTwice>(DisplayPlan::Create)
        } else if given {
            Ok::<DisplayPlan, DisplayOwnedTwice>(DisplayPlan::Given)
        } else {
            Ok::<DisplayPlan, DisplayOwnedTwice>(DisplayPlan::Existing)
        },
{
    if extend && given {
        Err(DisplayOwnedTwice {  })
    } else if extend {
        Ok(DisplayPlan::Create)
    } else if given {
        Ok(DisplayPlan::Given)
    } else {
        Ok(DisplayPlan::Existing)
    }
}

/// The index of the display to capture: the one with the wanted ID, or the first one.
pub fn select_display(displays: &[u32], wanted: Option<u32>) -> (index: Option<usize>)
    ensures
        match index {
            Some(index) => index < displays@.len() && match wanted {
                Some(id) => displays@[index as int] == id && forall|i: int|
                    0 <= i < index ==> displays@[i] != id,
                None => index == 0,
            },
            None => match wanted {
                Some(id) => forall|i: int| 0 <= i < displays@.len() ==> displays@[i] != id,
                None => displays@.len() == 0,
            },
        },
{
    match wanted {
        None => if displays.len() > 0 {
            Some(0)
        } else {
            None
        },
        Some(id) => {
            let mut index: usize = 0;
            while index < displays.len()
                invariant
                    index <= displays@.len(),
                    wanted == Some(id),
                    forall|i: int| 0 <= i < index ==> displays@[i] != id,
                decreases displays@.len() - index,
            {
                if displays[index] == id {
                    return Some(index);
                }
                index = index + 1;
            }
            None
        },
    }
}

/// The counters and the rate control that a session starts with.
pub fn start_counters(
    requested_fps: u32,
    effective_fps: u32,
    bitrate: u64,
    adaptive: bool,
    receivers: usize,
    counters: &mut MirrorCounters,
) -> (rate: AdaptiveRateControl)
    requires
        receivers > 0,
    ensures
        rate.well_formed(),
        rate@ == (RateState {
            enabled: adaptive,
            minimum: floor_for(bitrate) as u64,
            maximum: bitrate,
            target: bitrate,
            reports: no_reports(receivers as nat),
            healthy_rounds: 0,
        }),
        *final(counters) == (MirrorCounters {
            requested_frame_rate: requested_fps as u64,
            effective_frame_rate: effective_fps as u64,
            ..*old(counters)
        }).rate_initialized(bitrate),
{
    counters.requested_frame_rate = requested_fps as u64;
    counters.effective_frame_rate = effective_fps as u64;
    counters.initialize_rate(bitrate);
    AdaptiveRateControl::new_group(bitrate, adaptive, receivers)
}

/// A receiver while the session runs.
pub struct TargetHealth {
    /// The receiver's address as text.
    pub host: String,
    pub failure: Option<String>,
}

/// What a look at the running session leads to.
#[derive(Debug)]
pub enum RunTick {
    /// Time is up, or the user stopped the session.
    Finish,
    /// The session fails with this message.
    Fail(String),
    Continue,
}

/// Whether the session ends by itself: the user stopped it, or its time is over.
pub open spec fn run_is_over(interrupted: bool, elapsed: u128, duration: Option<u128>) -> bool {
    interrupted || match duration {
        Some(duration) => elapsed >= duration,
        None => false,
    }
}

/// The position of the first receiver from `start` on that has failed, or the number of receivers.
pub open spec fn first_failed(targets: Seq<TargetHealth>, start: int) -> int
    decreases targets.len() - start,
{
    if start >= targets.len() {
        targets.len() as int
    } else if targets[start].failure is Some {
        start
    } else {
        first_failed(targets, start + 1)
    }
}

/// The failure that is reported is that of the first receiver that failed.
pub proof fn lemma_the_first_failed_receiver_counts(targets: Seq<TargetHealth>, start: int)
    requires
        0 <= start <= targets.len(),
    ensures
        start <= first_failed(targets, start) <= targets.len(),
        first_failed(targets, start) < targets.len() ==> targets[first_failed(
            targets,
            start,
        )].failure is Some,
        forall|i: int|
            start <= i < first_failed(targets, start) ==> (#[trigger] targets[i]).failure is None,
    decreases targets.len() - start,
{
    if start < targets.len() && targets[start].failure is None {
        lemma_the_first_failed_receiver_counts(targets, start + 1);
    }
}

/// A run lasts until it is interrupted or its time is up, and once it is over it stays over.
pub proof fn lemma_runs_last_their_time(elapsed: u128, later: u128, duration: u128)
    ensures
        run_is_over(true, elapsed, Some(duration)),
        run_is_over(true, elapsed, None),
        !run_is_over(false, elapsed, None),
        elapsed < duration ==> !run_is_over(false, elapsed, Some(duration)),
        run_is_over(false, duration, Some(duration)),
        elapsed <= later && run_is_over(false, elapsed, Some(duration)) ==> run_is_over(
            false,
            later,
            Some(duration),
        ),
{
}

/// The message of a receiver's failure.
pub open spec fn target_message(target: TargetHealth) -> Seq<char> {
    "Cast Streaming control connection to "@ + target.host@ + " failed: "@ + (
    target.failure->0)@
}

/// Looks at a running session: at its end first, then at the pipeline, then at the receivers and
/// the display. What is reported is taken out.
pub fn run_tick(
    interrupted: bool,
    elapsed: u128,
    duration: Option<u128>,
    failure: &mut Option<String>,
    targets: &mut Vec<TargetHealth>,
    display_failure: Option<String>,
) -> (tick: RunTick)
    ensures
        final(targets)@.len() == old(targets)@.len(),
        if run_is_over(interrupted, elapsed, duration) {
            &&& tick is Finish
            &&& *final(failure) == *old(failure)
            &&& final(targets)@ == old(targets)@
        } else if *old(failure) is Some {
            &&& tick matches RunTick::Fail(message)
            &&& message@ == "mirroring pipeline failed: "@ + ((*old(failure))->0)@
            &&& *final(failure) is None
            &&& final(targets)@ == old(targets)@
        } else {
            let failed = first_failed(old(targets)@, 0);
            &&& *final(failure) is None
            &&& if failed < old(targets)@.len() {
                &&& tick matches RunTick::Fail(message)
                &&& message@ == target_message(old(targets)@[failed])
                &&& final(targets)@ == old(targets)@.update(
                    failed,
                    TargetHealth { failure: None, ..old(targets)@[failed] },
                )
            } else {
                &&& final(targets)@ == old(targets)@
                &&& match display_failure {
                    Some(error) => tick matches RunTick::Fail(message) && message == error,
                    None => tick is Continue,
                }
            }
        },
{
    if interrupted {
        return RunTick::Finish;
    }
    if let Some(duration) = duration {
        if elapsed >= duration {
            return RunTick::Finish;
        }
    }
    if let Some(error) = take_failure(failure) {
        return RunTick::Fail("mirroring pipeline failed: ".to_owned().concat(error.as_str()));
    }
    let mut index: usize = 0;
    while index < targets.len()
        invariant
            index <= targets@.len(),
            targets@ == old(targets)@,
            *failure is None,
            *old(failure) is None,
            !run_is_over(interrupted, elapsed, duration),
            first_failed(old(targets)@, 0) == first_failed(old(targets)@, index as int),
        decreases targets@.len() - index,
    {
        if targets[index].failure.is_some() {
            let host: String = targets[index].host.clone();
            let error: Option<String> = targets[index].failure.take();
            assert(targets@ =~= old(targets)@.update(
                index as int,
                TargetHealth { failure: None, ..old(targets)@[index as int] },
            ));
            if let Some(error) = error {
                let message: String = "Cast Streaming control connection to ".to_owned().concat(
                    host.as_str(),
                ).concat(" failed: ").concat(error.as_str());
                return RunTick::Fail(message);
            }
        }
        index = index + 1;
    }
    match display_failure {
        Some(error) => RunTick::Fail(error),
        None => RunTick::Continue,
    }
}

/// The errors with which the parts of a session ended.
pub struct SessionEnd {
    /// The error of the running session, or the pipeline's failure where it had none.
    pub run: Option<String>,
    pub input: Option<String>,
    pub output: Option<String>,
    /// The errors of the senders, in the order in which they were stopped.
    pub senders: Vec<Option<String>>,
    pub display: Option<String>,
    pub profile: Option<String>,
}

impl SessionEnd {
    /// The error that the session reports: that of the run before those of the input, the output,
    /// the senders and the display, and the profile's last.
    pub open spec fn error(self) -> Option<String> {
        first_error(
            seq![
                self.run,
                self.input,
                self.output,
                first_error(self.senders@),
                self.display,
                self.profile,
            ],
        )
    }

    /// Whether the other sessions of a group have to stop too.
    pub open spec fn stops_the_group(self) -> bool {
        self.run is Some || self.input is Some || self.output is Some || first_error(
            self.senders@,
        ) is Some
    }

    /// The result of the session, and whether the other sessions of a group have to stop.
    pub fn outcome(self) -> (result: (Option<String>, bool))
        ensures
            result.0 == self.error(),
            result.1 == self.stops_the_group(),
    {
        proof {
            reveal_with_fuel(first_error, 7);
            let all = seq![
                self.run,
                self.input,
                self.output,
                first_error(self.senders@),
                self.display,
                self.profile,
            ];
            assert(all.drop_first() =~= seq![
                self.input,
                self.output,
                first_error(self.senders@),
                self.display,
                self.profile,
            ]);
            assert(all.drop_first().drop_first() =~= seq![
                self.output,
                first_error(self.senders@),
                self.display,
                self.profile,
            ]);
            assert(all.drop_first().drop_first().drop_first() =~= seq![
                first_error(self.senders@),
                self.display,
                self.profile,
            ]);
            assert(all.drop_first().drop_first().drop_first().drop_first() =~= seq![
                self.display,
                self.profile,
            ]);
            assert(all.drop_first().drop_first().drop_first().drop_first().drop_first() =~= seq![
                self.profile,
            ]);
        }
        let end: SessionEnd = self;
        let senders: Option<String> = first_of(end.senders);
        let stops: bool = end.run.is_some() || end.input.is_some() || end.output.is_some()
            || senders.is_some();
        let error: Option<String> = if end.run.is_some() {
            end.run
        } else if end.input.is_some() {
            end.input
        } else if end.output.is_some() {
            end.output
        } else if senders.is_some() {
            senders
        } else if end.display.is_some() {
            end.display
        } else {
            end.profile
        };
        (error, stops)
    }
}

/// The error of a run that ended without one of its own, where the pipeline failed meanwhile.
pub fn run_error(run: Option<String>, failure: &mut Option<String>) -> (error: Option<String>)
    ensures
        match run {
            Some(own) => error == Some(own) && *final(failure) == *old(failure),
            None => *final(failure) is None && match *old(failure) {
                Some(text) => error matches Some(message) && message@
                    == "mirroring pipeline failed: "@ + text@,
                None => error is None,
            },
        },
{
    if run.is_some() {
        return run;
    }
    match take_failure(failure) {
        Some(text) => Some("mirroring pipeline failed: ".to_owned().concat(text.as_str())),
        None => None,
    }
}

/// What a finished session prints.
#[derive(Clone, Copy, Debug, PartialEq, Eq, Structural)]
pub struct ReportPlan {
    /// A summary of each receiver's cast.
    pub cast_summary: bool,
    /// The profile of each receiver.
    pub receiver_profile: bool,
    /// A recommendation with each receiver's profile.
    pub receiver_recommendation: bool,
    /// The profile of the group.
    pub group_profile: bool,
}

/// What a finished session prints.
pub fn plan_report(mode: RunMode, presentation: ProfilePresentation, receivers: usize) -> (plan: ReportPlan)
    ensures
        ({
            let profiling = mode == RunMode::Profile;
            let grouped = receivers > 1 || presentation == ProfilePresentation::GroupedTarget;
            plan == ReportPlan {
                cast_summary: !profiling,
                receiver_profile: profiling && presentation != ProfilePresentation::AutoTuneTrial,
                receiver_recommendation: profiling && presentation
                    != ProfilePresentation::AutoTuneTrial && !grouped,
                group_profile: profiling && presentation == ProfilePresentation::Detailed && grouped,
            }
        }),
{
    let profiling: bool = mode == RunMode::Profile;
    let grouped: bool = receivers > 1 || presentation == ProfilePresentation::GroupedTarget;
    let trial: bool = presentation == ProfilePresentation::AutoTuneTrial;
    ReportPlan {
        cast_summary: !profiling,
        receiver_profile: profiling && !trial,
        receiver_recommendation: profiling && !trial && !grouped,
        group_profile: profiling && presentation == ProfilePresentation::Detailed && grouped,
    }
}

/// What the summary of a cast says beyond the counters themselves.
#[derive(Clone, Copy, Debug)]
pub struct CastSummary {
    /// The requested and the effective frame rate, where the receiver lowered it.
    pub capped: Option<(u64, u64)>,
    /// The mean time until a frame was complete, where one was measured.
    pub average_micros: Option<u64>,
}

/// Sums a cast up.
pub fn cast_summary(counters: &MirrorCounters) -> (summary: CastSummary)
    ensures
        summary.capped == if counters.requested_frame_rate != counters.effective_frame_rate {
            Some((counters.requested_frame_rate, counters.effective_frame_rate))
        } else {
            None
        },
        summary.average_micros == if counters.checkpoint_samples == 0 {
            None
        } else {
            Some(counters.checkpoint_latency_micros / counters.checkpoint_samples)
        },
{
    CastSummary {
        capped: if counters.requested_frame_rate != counters.effective_frame_rate {
            Some((counters.requested_frame_rate, counters.effective_frame_rate))
        } else {
            None
        },
        average_micros: if counters.checkpoint_samples == 0 {
            None
        } else {
            Some(counters.checkpoint_latency_micros / counters.checkpoint_samples)
        },
    }
}

/// Whether a session draws the live graph: only a single receiver that is measured by itself.
pub fn draws_graph(mode: RunMode, presentation: ProfilePresentation, receivers: usize) -> (result: bool)
    ensures
        result == (mode == RunMode::Profile && receivers == 1 && presentation
            != ProfilePresentation::GroupedTarget),
{
    mode == RunMode::Profile && receivers == 1 && presentation != ProfilePresentation::GroupedTarget
}

/// How the workers of a group on extended displays present their measurements.
pub fn worker_presentation(mode: RunMode, presentation: ProfilePresentation) -> (own: ProfilePresentation)
    ensures
        own == if mode == RunMode::Profile && presentation == ProfilePresentation::Detailed {
            ProfilePresentation::GroupedTarget
        } else {
            presentation
        },
{
    if mode == RunMode::Profile && presentation == ProfilePresentation::Detailed {
        ProfilePresentation::GroupedTarget
    } else {
        presentation
    }
}

} // verus!
