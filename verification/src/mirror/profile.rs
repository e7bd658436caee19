//! What a profile of a session says: distributions of every stage, recommendations and the worst
//! of a group of receivers.

use vstd::prelude::*;

use crate::float64::Double;
use crate::mirror::latency::{
    distribution_of, recommend_latency, recommended, sum_of, total, LatencyDistribution,
    LatencyRecommendations,
};
use crate::mirror::options::{
    desktop_command, recommended_command, source_argument, source_command_argument,
    tuning_arguments, tuning_arguments_of, MirrorOptions,
};
use crate::mirror::stats::{
    larger, larger_of, smaller, smaller_of, LatencySample, MirrorCounters, MirrorStats,
};
use crate::network::IpAddr;
use crate::synthetic::SyntheticPhase;
use crate::text::{lemma_separated_texts_go_on, separated};

verus! {

/// A value that samples are looked at for.
#[derive(Clone, Copy, Debug, PartialEq, Eq, Structural)]
pub enum Stage {
    Pipeline,
    Transport,
    /// Everything before the transport.
    Processing,
    CaptureAge,
    /// From the composition of the screen to the acknowledgement.
    CompositedToAck,
    /// The pipeline of the frames that carry a composition time.
    TimestampedPipeline,
    QueueWait,
    Encode,
    Prepare,
    SenderLock,
    Send,
    KeyframePipeline,
    KeyframeBytes,
    InFlightFrames,
    InFlightBytes,
    PhasePipeline(SyntheticPhase),
    PhaseTransport(SyntheticPhase),
    PhaseBytes(SyntheticPhase),
}

/// What a sample says of a stage.
pub open spec fn stage_value(sample: LatencySample, stage: Stage) -> Option<u64> {
    match stage {
        Stage::Pipeline => Some(sample.pipeline_micros),
        Stage::Transport => Some(sample.transport_micros),
        Stage::Processing => Some(
            if sample.pipeline_micros >= sample.transport_micros {
                (sample.pipeline_micros - sample.transport_micros) as u64
            } else {
                0
            },
        ),
        Stage::CaptureAge => sample.capture_age_micros,
        Stage::CompositedToAck => match sample.capture_age_micros {
            Some(age) => Some(
                if age + sample.pipeline_micros <= u64::MAX {
                    (age + sample.pipeline_micros) as u64
                } else {
                    u64::MAX
                },
            ),
            None => None,
        },
        Stage::TimestampedPipeline => if sample.capture_age_micros is Some {
            Some(sample.pipeline_micros)
        } else {
            None
        },
        Stage::QueueWait => Some(sample.queue_wait_micros),
        Stage::Encode => Some(sample.encode_micros),
        Stage::Prepare => Some(sample.prepare_micros),
        Stage::SenderLock => Some(sample.sender_lock_wait_micros),
        Stage::Send => Some(sample.send_micros),
        Stage::KeyframePipeline => if sample.keyframe {
            Some(sample.pipeline_micros)
        } else {
            None
        },
        Stage::KeyframeBytes => if sample.keyframe {
            Some(sample.encoded_bytes)
        } else {
            None
        },
        Stage::InFlightFrames => Some(sample.in_flight_frames),
        Stage::InFlightBytes => Some(sample.in_flight_bytes),
        Stage::PhasePipeline(phase) => if sample.synthetic_phase == Some(phase) {
            Some(sample.pipeline_micros)
        } else {
            None
        },
        Stage::PhaseTransport(phase) => if sample.synthetic_phase == Some(phase) {
            Some(sample.transport_micros)
        } else {
            None
        },
        Stage::PhaseBytes(phase) => if sample.synthetic_phase == Some(phase) {
            Some(sample.encoded_bytes)
        } else {
            None
        },
    }
}

/// What the samples say of a stage, in their order.
pub open spec fn stage_values(samples: Seq<LatencySample>, stage: Stage) -> Seq<u64>
    decreases samples.len(),
{
    if samples.len() == 0 {
        Seq::empty()
    } else {
        let rest = stage_values(samples.drop_last(), stage);
        match stage_value(samples.last(), stage) {
            Some(value) => rest.push(value),
            None => rest,
        }
    }
}

/// What samples say of a stage is what each of them says, in their order.
pub proof fn lemma_stages_are_read_sample_by_sample(
    first: Seq<LatencySample>,
    second: Seq<LatencySample>,
    sample: LatencySample,
    stage: Stage,
)
    ensures
        stage_values(first + second, stage) == stage_values(first, stage) + stage_values(
            second,
            stage,
        ),
        stage_values(seq![sample], stage) == match stage_value(sample, stage) {
            Some(value) => seq![value],
            None => Seq::empty(),
        },
    decreases second.len(),
{
    assert(seq![sample].drop_last() =~= Seq::<LatencySample>::empty());
    assert(stage_values(Seq::<LatencySample>::empty(), stage) =~= Seq::<u64>::empty());
    assert(stage_values(seq![sample], stage) =~= match stage_value(sample, stage) {
        Some(value) => seq![value],
        None => Seq::<u64>::empty(),
    });
    if second.len() == 0 {
        assert(first + second =~= first);
        assert(stage_values(first + second, stage) =~= stage_values(first, stage) + stage_values(
            second,
            stage,
        ));
    } else {
        lemma_stages_are_read_sample_by_sample(first, second.drop_last(), sample, stage);
        assert((first + second).drop_last() =~= first + second.drop_last());
        assert(stage_values(first + second, stage) =~= stage_values(first, stage) + stage_values(
            second,
            stage,
        ));
    }
}

/// The stages of a sample fit together: processing and transport make up the pipeline, and with
/// the age of the capture they reach from the screen to the acknowledgement. Keyframes and phases
/// count only where the sample has them.
pub proof fn lemma_stages_fit_together(sample: LatencySample, phase: SyntheticPhase)
    requires
        sample.transport_micros <= sample.pipeline_micros,
    ensures
        stage_value(sample, Stage::Pipeline) == Some(sample.pipeline_micros),
        stage_value(sample, Stage::Transport) == Some(sample.transport_micros),
        stage_value(sample, Stage::Processing) matches Some(processing) && processing
            + sample.transport_micros == sample.pipeline_micros,
        stage_value(sample, Stage::CaptureAge) == sample.capture_age_micros,
        sample.capture_age_micros matches Some(age) ==> (age + sample.pipeline_micros <= u64::MAX
            ==> (stage_value(sample, Stage::CompositedToAck) matches Some(whole) && whole == age
            + sample.pipeline_micros)) && stage_value(sample, Stage::TimestampedPipeline) == Some(
            sample.pipeline_micros,
        ),
        sample.capture_age_micros is None ==> stage_value(sample, Stage::CompositedToAck) is None
            && stage_value(sample, Stage::TimestampedPipeline) is None,
        stage_value(sample, Stage::KeyframePipeline) is Some <==> sample.keyframe,
        stage_value(sample, Stage::KeyframeBytes) is Some <==> sample.keyframe,
        sample.keyframe ==> stage_value(sample, Stage::KeyframePipeline) == Some(
            sample.pipeline_micros,
        ) && stage_value(sample, Stage::KeyframeBytes) == Some(sample.encoded_bytes),
        stage_value(sample, Stage::PhasePipeline(phase)) is Some <==> sample.synthetic_phase == Some(
            phase,
        ),
        sample.synthetic_phase == Some(phase) ==> stage_value(sample, Stage::PhasePipeline(phase))
            == Some(sample.pipeline_micros) && stage_value(sample, Stage::PhaseTransport(phase))
            == Some(sample.transport_micros) && stage_value(sample, Stage::PhaseBytes(phase))
            == Some(sample.encoded_bytes),
        stage_value(sample, Stage::QueueWait) == Some(sample.queue_wait_micros),
        stage_value(sample, Stage::Encode) == Some(sample.encode_micros),
        stage_value(sample, Stage::Prepare) == Some(sample.prepare_micros),
        stage_value(sample, Stage::SenderLock) == Some(sample.sender_lock_wait_micros),
        stage_value(sample, Stage::Send) == Some(sample.send_micros),
        stage_value(sample, Stage::InFlightFrames) == Some(sample.in_flight_frames),
        stage_value(sample, Stage::InFlightBytes) == Some(sample.in_flight_bytes),
{
}

/// Whether every sample says something of a stage.
pub open spec fn on_every_sample(stage: Stage) -> bool {
    match stage {
        Stage::Pipeline => true,
        Stage::Transport => true,
        Stage::Processing => true,
        Stage::QueueWait => true,
        Stage::Encode => true,
        Stage::Prepare => true,
        Stage::SenderLock => true,
        Stage::Send => true,
        Stage::InFlightFrames => true,
        Stage::InFlightBytes => true,
        _ => false,
    }
}

proof fn lemma_values_of_every_sample(samples: Seq<LatencySample>, stage: Stage)
    requires
        on_every_sample(stage),
    ensures
        stage_values(samples, stage).len() == samples.len(),
    decreases samples.len(),
{
    if samples.len() > 0 {
        lemma_values_of_every_sample(samples.drop_last(), stage);
    }
}

fn phase_is(sample: &LatencySample, phase: SyntheticPhase) -> (result: bool)
    ensures
        result == (sample.synthetic_phase == Some(phase)),
{
    match sample.synthetic_phase {
        Some(own) => own == phase,
        None => false,
    }
}

fn value_of(sample: &LatencySample, stage: Stage) -> (value: Option<u64>)
    ensures
        value == stage_value(*sample, stage),
{
    match stage {
        Stage::Pipeline => Some(sample.pipeline_micros),
        Stage::Transport => Some(sample.transport_micros),
        Stage::Processing => Some(sample.pipeline_micros.saturating_sub(sample.transport_micros)),
        Stage::CaptureAge => sample.capture_age_micros,
        Stage::CompositedToAck => match sample.capture_age_micros {
            Some(age) => Some(age.saturating_add(sample.pipeline_micros)),
            None => None,
        },
        Stage::TimestampedPipeline => if sample.capture_age_micros.is_some() {
            Some(sample.pipeline_micros)
        } else {
            None
        },
        Stage::QueueWait => Some(sample.queue_wait_micros),
        Stage::Encode => Some(sample.encode_micros),
        Stage::Prepare => Some(sample.prepare_micros),
        Stage::SenderLock => Some(sample.sender_lock_wait_micros),
        Stage::Send => Some(sample.send_micros),
        Stage::KeyframePipeline => if sample.keyframe {
            Some(sample.pipeline_micros)
        } else {
            None
        },
        Stage::KeyframeBytes => if sample.keyframe {
            Some(sample.encoded_bytes)
        } else {
            None
        },
        Stage::InFlightFrames => Some(sample.in_flight_frames),
        Stage::InFlightBytes => Some(sample.in_flight_bytes),
        Stage::PhasePipeline(phase) => if phase_is(sample, phase) {
            Some(sample.pipeline_micros)
        } else {
            None
        },
        Stage::PhaseTransport(phase) => if phase_is(sample, phase) {
            Some(sample.transport_micros)
        } else {
            None
        },
        Stage::PhaseBytes(phase) => if phase_is(sample, phase) {
            Some(sample.encoded_bytes)
        } else {
            None
        },
    }
}

/// What the samples say of a stage, in their order.
pub fn values_of(samples: &[LatencySample], stage: Stage) -> (values: Vec<u64>)
    ensures
        values@ == stage_values(samples@, stage),
{
    let mut values: Vec<u64> = Vec::new();
    let mut index: usize = 0;
    assert(samples@.take(0) =~= Seq::<LatencySample>::empty());
    while index < samples.len()
        invariant
            index <= samples@.len(),
            values@ == stage_values(samples@.take(index as int), stage),
        decreases samples@.len() - index,
    {
        assert(samples@.take(index + 1).drop_last() =~= samples@.take(index as int));
        if let Some(value) = value_of(&samples[index], stage) {
            values.push(value);
        }
        index = index + 1;
    }
    assert(samples@.take(index as int) =~= samples@);
    values
}

/// The distribution of a stage.
pub fn stage_distribution(samples: &[LatencySample], stage: Stage) -> (distribution: Option<
    LatencyDistribution,
>)
    ensures
        distribution == distribution_of(stage_values(samples@, stage)),
        on_every_sample(stage) && samples@.len() > 0 ==> distribution is Some,
{
    proof {
        if on_every_sample(stage) {
            lemma_values_of_every_sample(samples@, stage);
        }
    }
    let values: Vec<u64> = values_of(samples, stage);
    LatencyDistribution::from_values(values.as_slice())
}

fn certain_distribution(samples: &[LatencySample], stage: Stage) -> (distribution: LatencyDistribution)
    requires
        on_every_sample(stage),
        samples@.len() > 0,
    ensures
        distribution_of(stage_values(samples@, stage)) == Some(distribution),
{
    match stage_distribution(samples, stage) {
        Some(distribution) => distribution,
        None => LatencyDistribution {
            count: 0,
            average_micros: 0,
            p50_micros: 0,
            p95_micros: 0,
            p99_micros: 0,
            max_micros: 0,
        },
    }
}

/// The largest of some values, or zero.
pub open spec fn largest(values: Seq<u64>) -> u64
    decreases values.len(),
{
    if values.len() == 0 {
        0
    } else {
        larger(largest(values.drop_last()), values.last())
    }
}

/// The largest of some values is one of them, and none is larger.
pub proof fn lemma_the_largest_value(values: Seq<u64>)
    ensures
        forall|i: int| 0 <= i < values.len() ==> #[trigger] values[i] <= largest(values),
        values.len() > 0 ==> values.contains(largest(values)),
        values.len() == 0 ==> largest(values) == 0,
    decreases values.len(),
{
    if values.len() > 0 {
        let front = values.drop_last();
        lemma_the_largest_value(front);
        assert forall|i: int| 0 <= i < values.len() implies #[trigger] values[i] <= largest(values) by {
            if i < front.len() {
                assert(front[i] == values[i]);
            }
        }
        if largest(values) == values.last() {
            assert(values[values.len() - 1] == largest(values));
        } else if front.len() > 0 {
            let i = choose|i: int| 0 <= i < front.len() && front[i] == largest(front);
            assert(values[i] == largest(values));
        }
    }
}

/// The largest value of a stage, or zero.
pub fn stage_maximum(samples: &[LatencySample], stage: Stage) -> (maximum: u64)
    ensures
        maximum == largest(stage_values(samples@, stage)),
{
    let values: Vec<u64> = values_of(samples, stage);
    let mut maximum: u64 = 0;
    let mut index: usize = 0;
    assert(values@.take(0) =~= Seq::<u64>::empty());
    while index < values.len()
        invariant
            index <= values@.len(),
            maximum == largest(values@.take(index as int)),
        decreases values@.len() - index,
    {
        assert(values@.take(index + 1).drop_last() =~= values@.take(index as int));
        maximum = larger_of(maximum, values[index]);
        index = index + 1;
    }
    assert(values@.take(index as int) =~= values@);
    maximum
}

/// What the samples and counters of one receiver come to, before rates are worked out.
#[derive(Clone, Copy, Debug, PartialEq, Eq, Structural)]
pub struct ProfileCounts {
    pub pipeline: LatencyDistribution,
    pub recommendations: LatencyRecommendations,
    pub frames: u64,
    pub retransmissions: u64,
    pub packets: u64,
    pub raw_drops: u64,
    pub raw_submitted: u64,
    pub requested_fps: u32,
    pub effective_fps: u32,
    pub final_target_bitrate: u64,
}

/// A frame rate as far as 32 bits hold it.
pub open spec fn rate_of(counter: u64) -> u32 {
    if counter <= u32::MAX {
        counter as u32
    } else {
        u32::MAX
    }
}

/// The raw frames that were dropped, as far as they were submitted.
pub open spec fn dropped_frames(counters: MirrorCounters) -> u64 {
    let drops = if counters.raw_frames_replaced + counters.raw_frames_expired <= u64::MAX {
        counters.raw_frames_replaced + counters.raw_frames_expired
    } else {
        u64::MAX as int
    };
    smaller(drops as u64, counters.raw_frames_submitted)
}

/// What a receiver's statistics come to; nothing without a latency sample.
pub open spec fn profile_of(counters: MirrorCounters, samples: Seq<LatencySample>) -> Option<
    ProfileCounts,
> {
    match distribution_of(stage_values(samples, Stage::Pipeline)) {
        None => None,
        Some(pipeline) => {
            let fps = rate_of(counters.effective_frame_rate);
            let effective_fps = if fps == 0 {
                1
            } else {
                fps
            };
            Some(
                ProfileCounts {
                    pipeline,
                    recommendations: recommended(
                        pipeline,
                        effective_fps,
                        counters.retransmissions,
                        counters.rtp_packets,
                    ),
                    frames: counters.frames,
                    retransmissions: counters.retransmissions,
                    packets: counters.rtp_packets,
                    raw_drops: dropped_frames(counters),
                    raw_submitted: counters.raw_frames_submitted,
                    requested_fps: rate_of(counters.requested_frame_rate),
                    effective_fps,
                    final_target_bitrate: counters.current_target_bitrate,
                },
            )
        },
    }
}

/// A profile counts no more drops than frames that were submitted, has a rate of at least one
/// frame, and takes its other counts as they are.
pub proof fn lemma_profiles_take_the_counts(counters: MirrorCounters, samples: Seq<LatencySample>)
    ensures
        (profile_of(counters, samples) is Some) == (stage_values(samples, Stage::Pipeline).len() > 0),
        profile_of(counters, samples) matches Some(profile) ==> {
            &&& profile.frames == counters.frames
            &&& profile.retransmissions == counters.retransmissions
            &&& profile.packets == counters.rtp_packets
            &&& profile.raw_submitted == counters.raw_frames_submitted
            &&& profile.raw_drops <= profile.raw_submitted
            &&& counters.raw_frames_replaced + counters.raw_frames_expired
                <= counters.raw_frames_submitted ==> profile.raw_drops
                == counters.raw_frames_replaced + counters.raw_frames_expired
            &&& profile.effective_fps >= 1
            &&& 1 <= counters.effective_frame_rate <= u32::MAX ==> profile.effective_fps
                == counters.effective_frame_rate
            &&& counters.requested_frame_rate <= u32::MAX ==> profile.requested_fps
                == counters.requested_frame_rate
            &&& profile.final_target_bitrate == counters.current_target_bitrate
        },
{
}

fn saturating_rate(counter: u64) -> (rate: u32)
    ensures
        rate == rate_of(counter),
{
    if counter <= u32::MAX as u64 {
        counter as u32
    } else {
        u32::MAX
    }
}

/// Sums a receiver's statistics up; nothing without a latency sample.
pub fn collect_profile_result(stats: &MirrorStats) -> (result: Option<ProfileCounts>)
    ensures
        result == profile_of(stats.counters, stats.latency_samples@),
{
    let pipeline: LatencyDistribution = match stage_distribution(
        stats.latency_samples.as_slice(),
        Stage::Pipeline,
    ) {
        Some(pipeline) => pipeline,
        None => {
            return None;
        },
    };
    let counters: MirrorCounters = stats.counters;
    let raw_drops: u64 = smaller_of(
        counters.raw_frames_replaced.saturating_add(counters.raw_frames_expired),
        counters.raw_frames_submitted,
    );
    let fps: u32 = saturating_rate(counters.effective_frame_rate);
    let effective_fps: u32 = if fps == 0 {
        1
    } else {
        fps
    };
    let recommendations: LatencyRecommendations = recommend_latency(
        pipeline,
        effective_fps,
        counters.retransmissions,
        counters.rtp_packets,
    );
    Some(
        ProfileCounts {
            pipeline,
            recommendations,
            frames: counters.frames,
            retransmissions: counters.retransmissions,
            packets: counters.rtp_packets,
            raw_drops,
            raw_submitted: counters.raw_frames_submitted,
            requested_fps: saturating_rate(counters.requested_frame_rate),
            effective_fps,
            final_target_bitrate: counters.current_target_bitrate,
        },
    )
}

/// What one profile measured.
#[derive(Clone, Copy, Debug, PartialEq, Eq, Structural)]
pub struct ProfileRunResult {
    /// In nanoseconds.
    pub sampled_for: u128,
    pub pipeline: LatencyDistribution,
    pub recommendations: LatencyRecommendations,
    pub retransmission_percent: Double,
    pub raw_drop_percent: Double,
    pub frame_rate_shortfall_percent: Double,
    pub measured_fps: Double,
    pub requested_fps: u32,
    pub effective_fps: u32,
    pub final_target_bitrate: u64,
    pub score_ms: Double,
}

pub open spec fn smaller_rate(a: u32, b: u32) -> u32 {
    if a <= b {
        a
    } else {
        b
    }
}

pub open spec fn larger_rate(a: u32, b: u32) -> u32 {
    if a >= b {
        a
    } else {
        b
    }
}

/// The worse of two profiles in every respect.
pub open spec fn worse(a: ProfileRunResult, b: ProfileRunResult) -> ProfileRunResult {
    ProfileRunResult {
        sampled_for: if a.sampled_for <= b.sampled_for {
            a.sampled_for
        } else {
            b.sampled_for
        },
        pipeline: LatencyDistribution {
            count: if a.pipeline.count <= b.pipeline.count {
                a.pipeline.count
            } else {
                b.pipeline.count
            },
            average_micros: larger(a.pipeline.average_micros, b.pipeline.average_micros),
            p50_micros: larger(a.pipeline.p50_micros, b.pipeline.p50_micros),
            p95_micros: larger(a.pipeline.p95_micros, b.pipeline.p95_micros),
            p99_micros: larger(a.pipeline.p99_micros, b.pipeline.p99_micros),
            max_micros: larger(a.pipeline.max_micros, b.pipeline.max_micros),
        },
        recommendations: LatencyRecommendations {
            aggressive_ms: larger(a.recommendations.aggressive_ms, b.recommendations.aggressive_ms),
            balanced_ms: larger(a.recommendations.balanced_ms, b.recommendations.balanced_ms),
            resilient_ms: larger(a.recommendations.resilient_ms, b.recommendations.resilient_ms),
        },
        retransmission_percent: a.retransmission_percent.spec_larger(b.retransmission_percent),
        raw_drop_percent: a.raw_drop_percent.spec_larger(b.raw_drop_percent),
        frame_rate_shortfall_percent: a.frame_rate_shortfall_percent.spec_larger(
            b.frame_rate_shortfall_percent,
        ),
        measured_fps: a.measured_fps.spec_smaller(b.measured_fps),
        requested_fps: larger_rate(a.requested_fps, b.requested_fps),
        effective_fps: smaller_rate(a.effective_fps, b.effective_fps),
        final_target_bitrate: smaller(a.final_target_bitrate, b.final_target_bitrate),
        score_ms: a.score_ms.spec_larger(b.score_ms),
    }
}

/// The worst of some profiles in every respect.
pub open spec fn worst(results: Seq<ProfileRunResult>) -> ProfileRunResult
    decreases results.len(),
{
    if results.len() <= 1 {
        results[0]
    } else {
        worse(worst(results.drop_last()), results.last())
    }
}

/// The worst of a group is measured on its receivers: each recommendation and each latency is that
/// of one of them.
pub proof fn lemma_the_worst_is_someones(results: Seq<ProfileRunResult>)
    requires
        results.len() > 0,
    ensures
        exists|i: int|
            0 <= i < results.len() && (#[trigger] results[i]).recommendations.balanced_ms == worst(
                results,
            ).recommendations.balanced_ms,
        exists|i: int|
            0 <= i < results.len() && (#[trigger] results[i]).recommendations.aggressive_ms == worst(
                results,
            ).recommendations.aggressive_ms,
        exists|i: int|
            0 <= i < results.len() && (#[trigger] results[i]).recommendations.resilient_ms == worst(
                results,
            ).recommendations.resilient_ms,
        exists|i: int|
            0 <= i < results.len() && (#[trigger] results[i]).pipeline.p99_micros == worst(
                results,
            ).pipeline.p99_micros,
        exists|i: int|
            0 <= i < results.len() && (#[trigger] results[i]).effective_fps == worst(
                results,
            ).effective_fps,
        exists|i: int|
            0 <= i < results.len() && (#[trigger] results[i]).final_target_bitrate == worst(
                results,
            ).final_target_bitrate,
    decreases results.len(),
{
    let last = results.len() - 1;
    if results.len() == 1 {
        assert(results[0] == worst(results));
    } else {
        let front = results.drop_last();
        lemma_the_worst_is_someones(front);
        let before = worst(front);
        let after = worst(results);
        assert(after == worse(before, results[last]));
        let b = choose|i: int|
            0 <= i < front.len() && (#[trigger] front[i]).recommendations.balanced_ms
                == before.recommendations.balanced_ms;
        assert(results[b].recommendations.balanced_ms == before.recommendations.balanced_ms);
        let a = choose|i: int|
            0 <= i < front.len() && (#[trigger] front[i]).recommendations.aggressive_ms
                == before.recommendations.aggressive_ms;
        assert(results[a].recommendations.aggressive_ms == before.recommendations.aggressive_ms);
        let r = choose|i: int|
            0 <= i < front.len() && (#[trigger] front[i]).recommendations.resilient_ms
                == before.recommendations.resilient_ms;
        assert(results[r].recommendations.resilient_ms == before.recommendations.resilient_ms);
        let p = choose|i: int|
            0 <= i < front.len() && (#[trigger] front[i]).pipeline.p99_micros
                == before.pipeline.p99_micros;
        assert(results[p].pipeline.p99_micros == before.pipeline.p99_micros);
        let f = choose|i: int|
            0 <= i < front.len() && (#[trigger] front[i]).effective_fps == before.effective_fps;
        assert(results[f].effective_fps == before.effective_fps);
        let t = choose|i: int|
            0 <= i < front.len() && (#[trigger] front[i]).final_target_bitrate
                == before.final_target_bitrate;
        assert(results[t].final_target_bitrate == before.final_target_bitrate);
    }
}

/// A group without measurements.
#[derive(Clone, Copy, Debug, PartialEq, Eq, Structural)]
pub struct NoMeasurements {}

fn worse_of(a: &ProfileRunResult, b: &ProfileRunResult) -> (result: ProfileRunResult)
    ensures
        result == worse(*a, *b),
{
    ProfileRunResult {
        sampled_for: if a.sampled_for <= b.sampled_for {
            a.sampled_for
        } else {
            b.sampled_for
        },
        pipeline: LatencyDistribution {
            count: if a.pipeline.count <= b.pipeline.count {
                a.pipeline.count
            } else {
                b.pipeline.count
            },
            average_micros: larger_of(a.pipeline.average_micros, b.pipeline.average_micros),
            p50_micros: larger_of(a.pipeline.p50_micros, b.pipeline.p50_micros),
            p95_micros: larger_of(a.pipeline.p95_micros, b.pipeline.p95_micros),
            p99_micros: larger_of(a.pipeline.p99_micros, b.pipeline.p99_micros),
            max_micros: larger_of(a.pipeline.max_micros, b.pipeline.max_micros),
        },
        recommendations: LatencyRecommendations {
            aggressive_ms: larger_of(
                a.recommendations.aggressive_ms,
                b.recommendations.aggressive_ms,
            ),
            balanced_ms: larger_of(a.recommendations.balanced_ms, b.recommendations.balanced_ms),
            resilient_ms: larger_of(a.recommendations.resilient_ms, b.recommendations.resilient_ms),
        },
        retransmission_percent: a.retransmission_percent.larger(b.retransmission_percent),
        raw_drop_percent: a.raw_drop_percent.larger(b.raw_drop_percent),
        frame_rate_shortfall_percent: a.frame_rate_shortfall_percent.larger(
            b.frame_rate_shortfall_percent,
        ),
        measured_fps: a.measured_fps.smaller(b.measured_fps),
        requested_fps: if a.requested_fps >= b.requested_fps {
            a.requested_fps
        } else {
            b.requested_fps
        },
        effective_fps: if a.effective_fps <= b.effective_fps {
            a.effective_fps
        } else {
            b.effective_fps
        },
        final_target_bitrate: smaller_of(a.final_target_bitrate, b.final_target_bitrate),
        score_ms: a.score_ms.larger(b.score_ms),
    }
}

/// The worst of a group of receivers in every respect: what is recommended to the group has to
/// suit each of them.
pub fn aggregate_profile_results(results: &[ProfileRunResult]) -> (result: Result<
    ProfileRunResult,
    NoMeasurements,
>)
    ensures
        result is Err <==> results@.len() == 0,
        result matches Ok(aggregate) ==> aggregate == worst(results@),
{
    if results.len() == 0 {
        return Err(NoMeasurements {  });
    }
    let mut aggregate: ProfileRunResult = results[0];
    let mut index: usize = 1;
    assert(results@.take(1)[0] == results@[0]);
    while index < results.len()
        invariant
            1 <= index <= results@.len(),
            aggregate == worst(results@.take(index as int)),
        decreases results@.len() - index,
    {
        assert(results@.take(index + 1).drop_last() =~= results@.take(index as int));
        aggregate = worse_of(&aggregate, &results[index]);
        index = index + 1;
    }
    assert(results@.take(index as int) =~= results@);
    Ok(aggregate)
}

/// The recommendation to a group protects every receiver in it. A score that is no number stands
/// back behind one that is.
pub proof fn lemma_the_worst_receiver_governs(results: Seq<ProfileRunResult>, receiver: int)
    requires
        0 <= receiver < results.len(),
    ensures
        worst(results).recommendations.aggressive_ms
            >= results[receiver].recommendations.aggressive_ms,
        worst(results).recommendations.balanced_ms >= results[receiver].recommendations.balanced_ms,
        worst(results).recommendations.resilient_ms
            >= results[receiver].recommendations.resilient_ms,
        worst(results).pipeline.p95_micros >= results[receiver].pipeline.p95_micros,
        worst(results).pipeline.p99_micros >= results[receiver].pipeline.p99_micros,
        worst(results).effective_fps <= results[receiver].effective_fps,
        worst(results).final_target_bitrate <= results[receiver].final_target_bitrate,
        results[receiver].score_ms.is_number() ==> worst(results).score_ms.is_number() && worst(
            results,
        ).score_ms.order >= results[receiver].score_ms.order,
    decreases results.len(),
{
    if results.len() > 1 && receiver < results.len() - 1 {
        lemma_the_worst_receiver_governs(results.drop_last(), receiver);
    }
}

/// Everything that the report of one receiver shows, before it is put into words.
pub struct ProfileReport {
    pub pipeline: LatencyDistribution,
    pub transport: LatencyDistribution,
    pub processing: LatencyDistribution,
    pub capture_age: Option<LatencyDistribution>,
    pub composited_to_ack: Option<LatencyDistribution>,
    pub timestamped_callback_to_ack: Option<LatencyDistribution>,
    pub queue_wait: LatencyDistribution,
    pub encode: LatencyDistribution,
    pub prepare: LatencyDistribution,
    pub sender_lock: LatencyDistribution,
    pub send: LatencyDistribution,
    pub keyframes: Option<LatencyDistribution>,
    pub largest_keyframe_bytes: u64,
    pub sample_peak_frames: u64,
    pub sample_peak_bytes: u64,
    pub recommendations: LatencyRecommendations,
    /// The command that uses the balanced recommendation.
    pub command: String,
    /// Whether the profile is too short to rely on.
    pub short: bool,
}

/// Whether a profile is too short to rely on: under ten seconds, or under five seconds of frames.
pub open spec fn too_short(sampled_for: u128, count: usize, fps: u32) -> bool {
    sampled_for < 10_000_000_000 || count < fps * 5
}

impl ProfileReport {
    /// Whether this is the report of these samples and options.
    pub open spec fn reports(
        self,
        counters: MirrorCounters,
        samples: Seq<LatencySample>,
        options: MirrorOptions,
        sampled_for: u128,
    ) -> bool {
        &&& Some(self.pipeline) == distribution_of(stage_values(samples, Stage::Pipeline))
        &&& Some(self.transport) == distribution_of(stage_values(samples, Stage::Transport))
        &&& Some(self.processing) == distribution_of(stage_values(samples, Stage::Processing))
        &&& self.capture_age == distribution_of(stage_values(samples, Stage::CaptureAge))
        &&& self.composited_to_ack == distribution_of(stage_values(samples, Stage::CompositedToAck))
        &&& self.timestamped_callback_to_ack == distribution_of(
            stage_values(samples, Stage::TimestampedPipeline),
        )
        &&& Some(self.queue_wait) == distribution_of(stage_values(samples, Stage::QueueWait))
        &&& Some(self.encode) == distribution_of(stage_values(samples, Stage::Encode))
        &&& Some(self.prepare) == distribution_of(stage_values(samples, Stage::Prepare))
        &&& Some(self.sender_lock) == distribution_of(stage_values(samples, Stage::SenderLock))
        &&& Some(self.send) == distribution_of(stage_values(samples, Stage::Send))
        &&& self.keyframes == distribution_of(stage_values(samples, Stage::KeyframePipeline))
        &&& self.largest_keyframe_bytes == largest(stage_values(samples, Stage::KeyframeBytes))
        &&& self.sample_peak_frames == largest(stage_values(samples, Stage::InFlightFrames))
        &&& self.sample_peak_bytes == largest(stage_values(samples, Stage::InFlightBytes))
        &&& self.recommendations == recommended(
            self.pipeline,
            options.fps,
            counters.retransmissions,
            counters.rtp_packets,
        )
        &&& self.command@ == desktop_command(
            options,
            source_argument(options.extend, options.display_id),
            self.recommendations.balanced_ms,
            options.fps,
            tuning_arguments_of(options),
        )
        &&& self.short == too_short(sampled_for, self.pipeline.count, options.fps)
    }
}

/// Works a report out; there is none without a latency sample.
pub fn profile_report(stats: &MirrorStats, options: &MirrorOptions, sampled_for: u128) -> (report: Option<
    ProfileReport,
>)
    ensures
        report is None <==> stats.latency_samples@.len() == 0,
        report matches Some(report) ==> report.reports(
            stats.counters,
            stats.latency_samples@,
            *options,
            sampled_for,
        ),
{
    let samples: &[LatencySample] = stats.latency_samples.as_slice();
    if samples.len() == 0 {
        return None;
    }
    let pipeline: LatencyDistribution = certain_distribution(samples, Stage::Pipeline);
    let recommendations: LatencyRecommendations = recommend_latency(
        pipeline,
        options.fps,
        stats.counters.retransmissions,
        stats.counters.rtp_packets,
    );
    let source: String = source_command_argument(options.extend, options.display_id);
    let tuning: String = tuning_arguments(options);
    let command: String = recommended_command(
        options,
        source.as_str(),
        recommendations.balanced_ms,
        options.fps,
        tuning.as_str(),
    );
    Some(
        ProfileReport {
            pipeline,
            transport: certain_distribution(samples, Stage::Transport),
            processing: certain_distribution(samples, Stage::Processing),
            capture_age: stage_distribution(samples, Stage::CaptureAge),
            composited_to_ack: stage_distribution(samples, Stage::CompositedToAck),
            timestamped_callback_to_ack: stage_distribution(samples, Stage::TimestampedPipeline),
            queue_wait: certain_distribution(samples, Stage::QueueWait),
            encode: certain_distribution(samples, Stage::Encode),
            prepare: certain_distribution(samples, Stage::Prepare),
            sender_lock: certain_distribution(samples, Stage::SenderLock),
            send: certain_distribution(samples, Stage::Send),
            keyframes: stage_distribution(samples, Stage::KeyframePipeline),
            largest_keyframe_bytes: stage_maximum(samples, Stage::KeyframeBytes),
            sample_peak_frames: stage_maximum(samples, Stage::InFlightFrames),
            sample_peak_bytes: stage_maximum(samples, Stage::InFlightBytes),
            recommendations,
            command,
            short: sampled_for < 10_000_000_000 || (pipeline.count as u64) < options.fps as u64 * 5,
        },
    )
}

/// What the report of a synthetic workload shows of one phase.
#[derive(Clone, Copy, Debug, PartialEq, Eq, Structural)]
pub struct PhaseReport {
    pub pipeline: LatencyDistribution,
    pub transport: LatencyDistribution,
    pub encoded_bytes: u128,
    pub largest_frame_bytes: u64,
    pub packets: u64,
    pub retransmissions: u64,
}

/// What the report shows of one phase; nothing where no frame of it was acknowledged.
pub open spec fn phase_report_of(
    counters: MirrorCounters,
    samples: Seq<LatencySample>,
    phase: SyntheticPhase,
) -> Option<PhaseReport> {
    match distribution_of(stage_values(samples, Stage::PhasePipeline(phase))) {
        None => None,
        Some(pipeline) => Some(
            PhaseReport {
                pipeline,
                transport: distribution_of(
                    stage_values(samples, Stage::PhaseTransport(phase)),
                )->0,
                encoded_bytes: total(stage_values(samples, Stage::PhaseBytes(phase))) as u128,
                largest_frame_bytes: largest(stage_values(samples, Stage::PhaseBytes(phase))),
                packets: counters.synthetic_phase_packets.of(phase),
                retransmissions: counters.synthetic_phase_retransmissions.of(phase),
            },
        ),
    }
}

proof fn lemma_phase_values_match(samples: Seq<LatencySample>, phase: SyntheticPhase)
    ensures
        stage_values(samples, Stage::PhaseTransport(phase)).len() == stage_values(
            samples,
            Stage::PhasePipeline(phase),
        ).len(),
    decreases samples.len(),
{
    if samples.len() > 0 {
        lemma_phase_values_match(samples.drop_last(), phase);
    }
}

/// What the report shows of one phase.
pub fn phase_report(stats: &MirrorStats, phase: SyntheticPhase) -> (report: Option<PhaseReport>)
    ensures
        report == phase_report_of(stats.counters, stats.latency_samples@, phase),
{
    let samples: &[LatencySample] = stats.latency_samples.as_slice();
    proof {
        lemma_phase_values_match(samples@, phase);
    }
    match (
        stage_distribution(samples, Stage::PhasePipeline(phase)),
        stage_distribution(samples, Stage::PhaseTransport(phase)),
    ) {
        (Some(pipeline), Some(transport)) => {
            let bytes: Vec<u64> = values_of(samples, Stage::PhaseBytes(phase));
            Some(
                PhaseReport {
                    pipeline,
                    transport,
                    encoded_bytes: sum_of(bytes.as_slice()),
                    largest_frame_bytes: stage_maximum(samples, Stage::PhaseBytes(phase)),
                    packets: stats.counters.synthetic_phase_packets.get(phase),
                    retransmissions: stats.counters.synthetic_phase_retransmissions.get(phase),
                },
            )
        },
        _ => None,
    }
}

/// What a worker for one receiver of a group came back with.
pub enum WorkerResult {
    /// The profiles of the worker's receivers; none where it only cast.
    Done(Vec<(IpAddr, ProfileRunResult)>),
    Failed(String),
}

/// The texts with a separator between them.
pub open spec fn joined(texts: Seq<Seq<char>>) -> Seq<char>
    decreases texts.len(),
{
    if texts.len() == 0 {
        Seq::empty()
    } else if texts.len() == 1 {
        texts[0]
    } else {
        joined(texts.drop_last()) + "; "@ + texts.last()
    }
}

/// The failures of some workers, in their order.
pub open spec fn failures_of(results: Seq<WorkerResult>) -> Seq<Seq<char>>
    decreases results.len(),
{
    if results.len() == 0 {
        Seq::empty()
    } else {
        match results.last() {
            WorkerResult::Failed(message) => failures_of(results.drop_last()).push(message@),
            WorkerResult::Done(_) => failures_of(results.drop_last()),
        }
    }
}

/// The profiles of some workers, in their order.
pub open spec fn profiles_of(results: Seq<WorkerResult>) -> Seq<(IpAddr, ProfileRunResult)>
    decreases results.len(),
{
    if results.len() == 0 {
        Seq::empty()
    } else {
        match results.last() {
            WorkerResult::Done(profiles) => profiles_of(results.drop_last()) + profiles@,
            WorkerResult::Failed(_) => profiles_of(results.drop_last()),
        }
    }
}

/// The failures are listed in the order of the workers, and the profiles too: the results of two
/// groups one after the other give what the first gives, and behind it what the second gives.
pub proof fn lemma_workers_are_listed_in_order(first: Seq<WorkerResult>, second: Seq<WorkerResult>)
    ensures
        failures_of(first + second) == failures_of(first) + failures_of(second),
        profiles_of(first + second) == profiles_of(first) + profiles_of(second),
        second.len() == 1 ==> match second[0] {
            WorkerResult::Failed(message) => failures_of(second) == seq![message@] && profiles_of(
                second,
            ).len() == 0,
            WorkerResult::Done(profiles) => failures_of(second).len() == 0 && profiles_of(second)
                == profiles@,
        },
    decreases second.len(),
{
    if second.len() == 0 {
        assert(first + second =~= first);
        assert(failures_of(first) + failures_of(second) =~= failures_of(first));
        assert(profiles_of(first) + profiles_of(second) =~= profiles_of(first));
    } else {
        let front = second.drop_last();
        lemma_workers_are_listed_in_order(first, front);
        assert((first + second).drop_last() =~= first + front);
        assert((first + second).last() == second.last());
        match second.last() {
            WorkerResult::Failed(message) => {
                assert(failures_of(first) + failures_of(second) =~= (failures_of(first)
                    + failures_of(front)).push(message@));
            },
            WorkerResult::Done(profiles) => {
                assert(profiles_of(first) + (profiles_of(front) + profiles@) =~= (profiles_of(first)
                    + profiles_of(front)) + profiles@);
            },
        }
        if second.len() == 1 {
            assert(front =~= Seq::empty());
            assert(failures_of(front) =~= Seq::empty());
            assert(profiles_of(front) =~= Seq::empty());
            match second[0] {
                WorkerResult::Failed(message) => {
                    assert(failures_of(second) =~= seq![message@]);
                },
                WorkerResult::Done(profiles) => {
                    assert(profiles_of(second) =~= profiles@);
                },
            }
        }
    }
}

/// Texts that are joined stand in their order, with a semicolon between two.
pub proof fn lemma_joined_texts_are_separated(texts: Seq<Seq<char>>)
    ensures
        joined(texts) == separated(texts, "; "@),
    decreases texts.len(),
{
    if texts.len() == 1 {
        assert(texts =~= seq![texts[0]]);
    } else if texts.len() > 1 {
        lemma_joined_texts_are_separated(texts.drop_last());
        lemma_separated_texts_go_on(texts.drop_last(), "; "@, texts.last());
        assert(texts.drop_last().push(texts.last()) =~= texts);
    }
}

/// Puts the results of a group's workers together. One failure fails the group, and every failure
/// is named.
pub fn collect_workers(results: Vec<WorkerResult>) -> (result: Result<
    Vec<(IpAddr, ProfileRunResult)>,
    String,
>)
    ensures
        match result {
            Ok(profiles) => failures_of(results@).len() == 0 && profiles@ == profiles_of(results@),
            Err(message) => failures_of(results@).len() > 0 && message@
                == "multi-receiver cast stopped: "@ + joined(failures_of(results@)),
        },
{
    let ghost all = results@;
    let mut results: Vec<WorkerResult> = results;
    let mut failures: String = String::new();
    let mut failed: bool = false;
    let mut profiles: Vec<(IpAddr, ProfileRunResult)> = Vec::new();
    let ghost mut done: int = 0;
    assert(all.take(0) =~= Seq::<WorkerResult>::empty());
    assert(all.skip(0) =~= all);
    while results.len() > 0
        invariant
            0 <= done <= all.len(),
            results@ == all.skip(done),
            profiles@ == profiles_of(all.take(done)),
            failed == (failures_of(all.take(done)).len() > 0),
            failures@ == joined(failures_of(all.take(done))),
        decreases results@.len(),
    {
        let result: WorkerResult = results.remove(0);
        proof {
            assert(all.take(done + 1).drop_last() =~= all.take(done));
            assert(all.skip(done).remove(0) =~= all.skip(done + 1));
            assert(result == all[done]);
        }
        let ghost before = failures_of(all.take(done));
        match result {
            WorkerResult::Done(more) => {
                let mut more: Vec<(IpAddr, ProfileRunResult)> = more;
                profiles.append(&mut more);
            },
            WorkerResult::Failed(message) => {
                assert(before.push(message@).drop_last() =~= before);
                if failed {
                    failures = failures.concat("; ").concat(message.as_str());
                } else {
                    failures = message;
                }
                failed = true;
            },
        }
        proof {
            done = done + 1;
        }
    }
    assert(all.take(done) =~= all);
    if failed {
        Err("multi-receiver cast stopped: ".to_owned().concat(failures.as_str()))
    } else {
        Ok(profiles)
    }
}

} // verus!
