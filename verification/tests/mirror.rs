use std::time::Duration;

use cast::clock::{MediaClock, MediaTimestamp};
use cast::crypto::encrypt_frame;
use cast::fanout::EncodedAudioFrame;
use cast::float32::Single;
use cast::float64::Double;
use cast::h264::H264Level;
use cast::mirror::feedback::{
    expand_frame_id_after, expand_frame_id_at_or_before, parse_cast_feedback,
    rate_window_is_congested, RtcpError,
};
use cast::mirror::latency::{
    percentile, progress_bar, recommend_latency, round_target_delay, sort_values,
    LatencyDistribution, LatencyRecommendations, LiveLatencyGraph,
};
use cast::mirror::negotiation::{
    accept_answer, answer_display_frame_rate, collect_group, control_end, control_step, muted_after,
    negotiated_group_frame_rate, negotiation_step, parse_answer, stale_sessions, volume_request,
    AnswerData, AnswerMessage, CastStreamingOfferMessage, ControlEnd, ControlStep, FrameRateField,
    NegotiationError, NegotiationMessage, NegotiationResult, NegotiationStep, OfferMaterial,
    RunningApplication, StreamMaterial, StreamOffer, StreamingPayload, VideoParameters,
    VolumeRequest, AUDIO_BITRATE, CAST_STREAMING_APP_ID, OFFER_RANDOM_BYTES,
};
use cast::mirror::options::{
    host_command_arguments, recommended_command, source_command_argument, tuning_arguments,
    validate_cast_hosts, HostError, MirrorOptions,
};
use cast::mirror::pipeline::{
    audio_frame, capture_age_micros, choose_surface, count_refused_bitrate, keyframe_interval,
    record_encoder_settings, MirrorPipeline, PackageError, SurfaceChoice,
};
use cast::mirror::profile::{
    aggregate_profile_results, collect_profile_result, collect_workers, phase_report,
    profile_report, stage_maximum, values_of, NoMeasurements, ProfileRunResult, Stage,
    WorkerResult,
};
use cast::mirror::rtp::{
    frame_pacing, pause_after, CastRtpSender, FrameTimings, StoredFrame, StreamSetup,
    IPV4_PACKET_SIZE, PACKET_OVERHEAD, RTP_AAC_PAYLOAD_TYPE, RTP_H264_PAYLOAD_TYPE,
};
use cast::mirror::session::{
    cast_summary, draws_graph, plan_cast, plan_display, plan_profile, plan_report, plan_stream,
    run_error, run_tick, select_display, start_counters, validate_run, worker_options,
    worker_presentation, DisplayOwnedTwice, DisplayPlan, ProfileError, ProfilePresentation,
    RunError, RunMode, RunTick, SessionEnd, SessionKind, TargetHealth,
};
use cast::mirror::stats::{
    larger_of, merge_capture_stats, smaller_of, LatencySample, MirrorCounters, MirrorStats,
};
use cast::mirror::tuning::{
    auto_tune_step, better_deadline, combined_tuning_config, plan_auto_tune, select_tuning_winner,
    winning_command, AutoTuneError, AutoTuneStep, RawFrameDeadline, TrialOutcome, TuningConfig,
    TuningEntry,
};
use cast::network::IpAddr;
use cast::output::ReceiverVolumeCommand;
use cast::rate_control::AdaptiveRateControl;
use cast::synthetic::{frame_offset, SyntheticPhase};

const NOISE_MARGIN: f64 = 5.0;

fn double(value: f64) -> Double {
    let bits = value.to_bits() as i64;
    Double { order: if bits < 0 { bits ^ i64::MAX } else { bits } }
}

fn host(last: u8) -> IpAddr {
    IpAddr::V4(192, 0, 2, last)
}

fn options() -> MirrorOptions {
    MirrorOptions {
        cast_hosts: vec![host(1)],
        cast_port: 8009,
        display_id: None,
        extend: false,
        fps: 30,
        width: 1280,
        height: 720,
        bitrate: 6_000_000,
        target_delay: 200_000_000,
        duration: None,
        synthetic: false,
        max_frame_age: None,
        adaptive_bitrate: true,
        prioritize_encoding_speed: true,
        audio: false,
    }
}

fn timings() -> FrameTimings {
    FrameTimings {
        pipeline_started_at: 0,
        capture_age_micros: None,
        queue_wait_micros: 0,
        encode_micros: 0,
        prepare_micros: 0,
        sender_lock_wait_micros: 0,
    }
}

#[test]
fn profile_recommendation_preserves_the_capture_source() {
    assert_eq!(source_command_argument(true, Some(42)), " --extend");
    assert_eq!(source_command_argument(false, Some(42)), " --display 42");
    assert_eq!(source_command_argument(false, None), "");
    assert_eq!(host_command_arguments(&[host(1), host(2)]), " --host 192.0.2.1 --host 192.0.2.2");
}

#[test]
fn expands_truncated_cast_frame_ids_across_wraparound() {
    assert_eq!(expand_frame_id_at_or_before(4, 260), 260);
    assert_eq!(expand_frame_id_at_or_before(250, 260), 250);
    assert_eq!(expand_frame_id_after(5, 260), 261);
    assert_eq!(expand_frame_id_after(250, 260), 506);
}

#[test]
fn computes_nearest_rank_latency_percentiles() {
    let values: Vec<u64> = (1_u64..=100).map(|value| value * 1_000).collect();
    let distribution = LatencyDistribution::from_values(&values).unwrap();
    assert_eq!(distribution.count, 100);
    assert_eq!(distribution.average_micros, 50_500);
    assert_eq!(distribution.p50_micros, 50_000);
    assert_eq!(distribution.p95_micros, 95_000);
    assert_eq!(distribution.p99_micros, 99_000);
    assert_eq!(distribution.max_micros, 100_000);
}

#[test]
fn values_are_sorted_before_they_are_ranked() {
    assert_eq!(sort_values(&[3, 1, 2, 1]), [1, 1, 2, 3]);
    assert_eq!(percentile(&[1, 2, 3], 50), 2);
    assert_eq!(percentile(&[1, 2, 3], 0), 1);
    assert!(LatencyDistribution::from_values(&[]).is_none());
}

#[test]
fn recommends_latency_with_frame_and_loss_headroom() {
    let distribution = LatencyDistribution {
        count: 1_000,
        average_micros: 30_000,
        p50_micros: 20_000,
        p95_micros: 70_000,
        p99_micros: 110_000,
        max_micros: 150_000,
    };
    assert_eq!(
        recommend_latency(distribution, 30, 6, 4_500),
        LatencyRecommendations { aggressive_ms: 100, balanced_ms: 200, resilient_ms: 250 }
    );
    assert_eq!(round_target_delay(151), 200);
    assert_eq!(round_target_delay(5_001), 5_000);
}

fn combine(baseline: f64, fixed: f64, quality: f64, one_frame: f64, disabled: f64) -> TuningConfig {
    let (deadline, _) = better_deadline(double(one_frame), double(disabled));
    let score = if deadline == RawFrameDeadline::OneFrame { one_frame } else { disabled };
    combined_tuning_config(
        fixed + NOISE_MARGIN < baseline,
        quality + NOISE_MARGIN < baseline,
        deadline,
        score + NOISE_MARGIN < baseline,
    )
}

#[test]
fn combines_only_independent_improvements_outside_the_noise_margin() {
    assert_eq!(
        combine(100.0, 90.0, 96.0, 92.0, 90.0),
        TuningConfig {
            adaptive_bitrate: false,
            prioritize_encoding_speed: true,
            raw_frame_deadline: RawFrameDeadline::Disabled,
        }
    );
    assert_eq!(
        combine(100.0, 95.0, 95.0, 95.0, 110.0),
        TuningConfig::default_controls(),
        "an exact five-millisecond difference remains inside the noise margin"
    );
}

fn winner(entries: &[(TuningConfig, f64)]) -> usize {
    let minimum = entries.iter().map(|entry| entry.1).min_by(f64::total_cmp).unwrap();
    let entries: Vec<TuningEntry> = entries
        .iter()
        .map(|entry| TuningEntry {
            config: entry.0,
            score: double(entry.1),
            within_margin: entry.1 <= minimum + NOISE_MARGIN,
        })
        .collect();
    select_tuning_winner(&entries)
}

#[test]
fn winner_prefers_defaults_when_scores_are_within_noise_margin() {
    let baseline = TuningConfig::default_controls();
    let fixed = TuningConfig { adaptive_bitrate: false, ..baseline };
    assert_eq!(winner(&[(baseline, 103.0), (fixed, 100.0)]), 0);
    assert_eq!(winner(&[(baseline, 106.0), (fixed, 100.0)]), 1);
}

#[test]
fn tuning_arguments_reproduce_the_profiled_controls() {
    let config = TuningConfig {
        adaptive_bitrate: false,
        prioritize_encoding_speed: false,
        raw_frame_deadline: RawFrameDeadline::OneFrame,
    };
    assert_eq!(
        config.command_arguments(30),
        " --max-frame-age-ms 34 --fixed-bitrate --quality-priority"
    );
    assert_eq!(config.deviation_count(), 3);
    let mut tuned = options();
    config.apply(&mut tuned, 30);
    assert_eq!(
        tuning_arguments(&tuned),
        " --max-frame-age-ms 34 --fixed-bitrate --quality-priority"
    );
    assert!(winning_command(&options(), config, 200, 30).contains("--fixed-bitrate"));
    assert!(!config.description().is_empty());
}

#[test]
fn renders_a_fixed_width_latency_sparkline() {
    let mut graph = LiveLatencyGraph::new(60_000_000_000, false, 30);
    graph.history.extend([Some(10), Some(25), None, Some(50)]);
    let (sparkline, scale) = graph.sparkline();
    assert_eq!(sparkline.chars().count(), 44);
    assert_eq!(scale, 50);
    assert!(sparkline.ends_with("▃▅·█"));
}

#[test]
fn latency_graphs_are_drawn_once_a_second() {
    let mut graph = LiveLatencyGraph::new(60_000_000_000, true, 30);
    assert!(graph.take_due(1_000_000_000));
    assert!(!graph.take_due(1_000_000_001));
    let frame = graph.draw(&[sample(30_000)], 1_000_000_000);
    assert_eq!(frame.interval_p95, Some(30));
    assert_eq!(frame.overall.unwrap().count, 1);
    assert_eq!((frame.elapsed_seconds, frame.duration_seconds), (1, 60));
    assert_eq!(frame.phase, Some(SyntheticPhase::Static));
    let again = graph.draw(&[sample(30_000)], 2_000_000_000);
    assert_eq!(again.interval_p95, None);
    assert_eq!(progress_bar(30, 60, 10).chars().count(), 10);
    let wide = progress_bar(30_000_000, 60_000_000, 0x1_0002);
    assert_eq!(wide.chars().filter(|part| *part == '\u{2588}').count(), 0x8001);
    assert_eq!(wide.chars().count(), 0x1_0002);
}

#[test]
fn reads_the_receiver_selected_frame_rate() {
    assert_eq!(answer_display_frame_rate(&FrameRateField::Text("30".to_owned())), Some(30));
    assert_eq!(answer_display_frame_rate(&FrameRateField::Text("60/1".to_owned())), Some(60));
    assert_eq!(answer_display_frame_rate(&FrameRateField::Number(Some(24))), Some(24));
    assert_eq!(answer_display_frame_rate(&FrameRateField::Text("60/0".to_owned())), Some(60));
    assert_eq!(answer_display_frame_rate(&FrameRateField::Text("60/x".to_owned())), None);
    assert_eq!(answer_display_frame_rate(&FrameRateField::Other), None);
}

fn material() -> OfferMaterial {
    OfferMaterial {
        sequence_number: 1,
        sender_ssrc: 50_001,
        aes_key: [1; 16],
        aes_iv_mask: [2; 16],
        audio: Some(StreamMaterial {
            sender_ssrc: 100_001,
            aes_key: [3; 16],
            aes_iv_mask: [4; 16],
        }),
    }
}

#[test]
fn audio_offer_keeps_audio_at_index_zero_and_video_at_one() {
    let offer = CastStreamingOfferMessage::new(
        &material(),
        VideoParameters {
            width: 1280,
            height: 720,
            fps: 30,
            bitrate: 6_000_000,
            target_delay: 200_000_000,
            level: H264Level::for_stream(1280, 720, 30, 6_000_000).unwrap(),
        },
    );
    let streams = &offer.offer.supported_streams;
    let StreamOffer::Audio(audio) = &streams[0] else {
        panic!("audio comes first");
    };
    assert_eq!(audio.index, 0);
    assert_eq!(audio.stream_type, "audio_source");
    assert_eq!(audio.codec_name, "aac");
    assert_eq!(audio.codec_parameter, "mp4a.40.2");
    assert_eq!(audio.bit_rate, AUDIO_BITRATE);
    assert_eq!(audio.rtp_payload_type, RTP_AAC_PAYLOAD_TYPE);
    assert_eq!(audio.aes_key, "03".repeat(16));
    let StreamOffer::Video(video) = &streams[1] else {
        panic!("video comes second");
    };
    assert_eq!(video.index, 1);
    assert_eq!(video.stream_type, "video_source");
    assert_eq!(video.rtp_payload_type, RTP_H264_PAYLOAD_TYPE);
    assert_eq!(video.target_delay, 200);
    assert_eq!(video.level, "3.1");
    assert_eq!(video.ssrc, 50_001);
}

#[test]
fn offers_are_drawn_from_random_bytes() {
    let bytes: Vec<u8> = (0..OFFER_RANDOM_BYTES as u8).collect();
    let first = OfferMaterial::from_bytes(&bytes, true);
    assert!(first.audio.is_some());
    assert!(OfferMaterial::from_bytes(&bytes, false).audio.is_none());
    let second = OfferMaterial::random(true).unwrap();
    assert_ne!(first.aes_key, second.aes_key);
}

fn answer(send_indexes: Vec<u32>, ssrcs: Vec<u32>, udp_port: u32) -> AnswerData {
    AnswerData { udp_port, send_indexes, ssrcs, frame_rate: None }
}

fn message(kind: &str, sequence_number: u32, result: &str, data: Option<AnswerData>) -> StreamingPayload {
    StreamingPayload::Message(AnswerMessage {
        message_type: kind.to_owned(),
        sequence_number,
        result: result.to_owned(),
        answer: data,
        error: "nope".to_owned(),
    })
}

#[test]
fn answers_are_matched_to_their_offer() {
    assert!(matches!(
        parse_answer(StreamingPayload::Binary, 1),
        Err(NegotiationError::BinaryMessage)
    ));
    assert!(matches!(
        parse_answer(StreamingPayload::Malformed, 1),
        Err(NegotiationError::MalformedAnswer)
    ));
    assert!(matches!(parse_answer(message("PING", 1, "ok", None), 1), Ok(None)));
    assert!(matches!(parse_answer(message("ANSWER", 2, "ok", None), 1), Ok(None)));
    assert!(matches!(
        parse_answer(message("ANSWER", 1, "error", None), 1),
        Err(NegotiationError::Rejected(_))
    ));
    assert!(matches!(
        parse_answer(message("ANSWER", 1, "ok", None), 1),
        Err(NegotiationError::MissingAnswerBody)
    ));
    let data = answer(vec![1], vec![7], 5_000);
    assert!(matches!(parse_answer(message("ANSWER", 1, "ok", Some(data)), 1), Ok(Some(_))));
    assert!(matches!(negotiation_step(NegotiationMessage::Ping, 1), NegotiationStep::Pong));
    assert!(matches!(
        negotiation_step(NegotiationMessage::Close, 1),
        NegotiationStep::Fail(NegotiationError::ReceiverClosed)
    ));
}

#[test]
fn transports_follow_the_answer() {
    let material = material();
    let both = answer(vec![0, 1], vec![70, 71], 5_000);
    let transport = accept_answer(&material, &both, "session".to_owned()).unwrap();
    assert_eq!(transport.udp_port, 5_000);
    assert_eq!(transport.receiver_ssrc, 71);
    assert_eq!(transport.audio.unwrap().receiver_ssrc, 70);
    let video = answer(vec![1], vec![71], 5_000);
    assert!(accept_answer(&material, &video, "s".to_owned()).unwrap().audio.is_none());
    let refused = |data: AnswerData| accept_answer(&material, &data, "s".to_owned()).err();
    assert!(matches!(
        refused(answer(vec![0], vec![70], 5_000)),
        Some(NegotiationError::VideoNotSelected)
    ));
    assert!(matches!(
        refused(answer(vec![0, 1], vec![70], 5_000)),
        Some(NegotiationError::MissingVideoSsrc)
    ));
    assert!(matches!(
        refused(answer(vec![1], vec![71], 70_000)),
        Some(NegotiationError::InvalidUdpPort)
    ));
}

#[test]
fn groups_start_together_or_not_at_all() {
    let transport = || {
        let data = answer(vec![1], vec![71], 5_000);
        accept_answer(&material(), &data, "s".to_owned()).unwrap()
    };
    let group = collect_group(
        &[host(1), host(2)],
        vec![
            NegotiationResult::Started(transport()),
            NegotiationResult::Failed("refused".to_owned()),
        ],
    );
    assert_eq!(group.started.len(), 1);
    assert!(group.error.unwrap().contains("refused"));
    let group = collect_group(&[host(1)], vec![NegotiationResult::Started(transport())]);
    assert!(group.error.is_none());
    let group = collect_group(&[host(1)], vec![NegotiationResult::Vanished]);
    assert!(group.error.is_some());
}

#[test]
fn stale_sessions_are_those_of_the_streaming_application() {
    let application = |app: &str, session: &str| RunningApplication {
        app_id: app.to_owned(),
        session_id: session.to_owned(),
    };
    let running = [application(CAST_STREAMING_APP_ID, "one"), application("CC1AD845", "two")];
    assert_eq!(stale_sessions(&running), ["one"]);
}

#[test]
fn control_messages_are_answered_or_end_the_session() {
    assert_eq!(control_step(&NegotiationMessage::Ping), ControlStep::Pong);
    assert_eq!(control_step(&NegotiationMessage::Close), ControlStep::Closed);
    assert_eq!(
        control_step(&NegotiationMessage::Streaming(StreamingPayload::Binary)),
        ControlStep::Wait
    );
    assert_eq!(control_step(&NegotiationMessage::Other), ControlStep::Wait);
}

#[test]
fn volume_commands_become_requests() {
    let level = Single { bits: 0.5f32.to_bits() };
    assert_eq!(
        volume_request(ReceiverVolumeCommand::SetLevel(level), false),
        VolumeRequest::Level(level)
    );
    assert_eq!(
        volume_request(ReceiverVolumeCommand::ToggleMute, true),
        VolumeRequest::Muted(false)
    );
    assert!(muted_after(false, Some(true)));
    assert!(muted_after(true, None));
    assert_eq!(control_end(true, true), ControlEnd::Planned);
    assert_eq!(control_end(true, false), ControlEnd::Failure);
    assert_eq!(control_end(false, false), ControlEnd::Negotiation);
}

fn quarter(fps: u32) -> u64 {
    Duration::from_nanos(frame_offset(1, fps)).div_f64(4.0).as_nanos() as u64
}

#[test]
fn bounds_frame_aware_packet_pacing() {
    assert!(frame_pacing(16, false, quarter(30)).is_none());
    let delta = frame_pacing(17, false, quarter(30)).unwrap();
    assert!(Duration::from_nanos(delta.interval) <= Duration::from_millis(5));
    assert!(frame_pacing(24, true, quarter(30)).is_none());
    let keyframe = frame_pacing(49, true, quarter(30)).unwrap();
    assert!(Duration::from_nanos(keyframe.interval) <= Duration::from_millis(3));
}

#[test]
fn bursts_are_parted_by_pauses() {
    let pacing = frame_pacing(33, false, quarter(30));
    let pauses: Vec<usize> = (0..33).filter(|position| pause_after(*position, 33, pacing) > 0).collect();
    assert_eq!(pauses, [15, 31]);
    assert_eq!(pause_after(15, 33, None), 0);
}

#[test]
fn shared_capture_uses_the_slowest_negotiated_frame_rate() {
    assert_eq!(negotiated_group_frame_rate(&[Some(60), Some(30), None], 60), 30);
    assert_eq!(negotiated_group_frame_rate(&[None], 60), 60);
}

fn profile(
    p95_micros: u64,
    p99_micros: u64,
    balanced_ms: u64,
    retransmission_percent: f64,
    measured_fps: f64,
    effective_fps: u32,
    score_ms: f64,
) -> ProfileRunResult {
    ProfileRunResult {
        sampled_for: 10_000_000_000,
        pipeline: LatencyDistribution {
            count: 100,
            average_micros: p95_micros / 2,
            p50_micros: p95_micros / 3,
            p95_micros,
            p99_micros,
            max_micros: p99_micros + 10_000,
        },
        recommendations: LatencyRecommendations {
            aggressive_ms: balanced_ms.saturating_sub(50),
            balanced_ms,
            resilient_ms: balanced_ms + 50,
        },
        retransmission_percent: double(retransmission_percent),
        raw_drop_percent: double(retransmission_percent / 2.0),
        frame_rate_shortfall_percent: double(30.0 - measured_fps),
        measured_fps: double(measured_fps),
        requested_fps: 60,
        effective_fps,
        final_target_bitrate: u64::from(effective_fps) * 100_000,
        score_ms: double(score_ms),
    }
}

#[test]
fn profile_group_aggregation_keeps_worst_receiver_metrics() {
    let aggregate = aggregate_profile_results(&[
        profile(80_000, 100_000, 150, 0.1, 59.0, 60, 90.0),
        profile(120_000, 180_000, 250, 2.0, 28.0, 30, 160.0),
    ])
    .unwrap();
    assert_eq!(aggregate.pipeline.p95_micros, 120_000);
    assert_eq!(aggregate.pipeline.p99_micros, 180_000);
    assert_eq!(aggregate.recommendations.balanced_ms, 250);
    assert_eq!(aggregate.retransmission_percent, double(2.0));
    assert_eq!(aggregate.measured_fps, double(28.0));
    assert_eq!(aggregate.effective_fps, 30);
    assert_eq!(aggregate.final_target_bitrate, 3_000_000);
    assert_eq!(aggregate.score_ms, double(160.0));
    assert_eq!(aggregate_profile_results(&[]).err(), Some(NoMeasurements {}));
}

#[test]
fn workers_are_collected_or_the_first_failure_is() {
    let done = || WorkerResult::Done(vec![(host(1), profile(1, 2, 50, 0.0, 30.0, 30, 1.0))]);
    assert_eq!(collect_workers(vec![done(), done()]).unwrap().len(), 2);
    let failed = WorkerResult::Failed("worker".to_owned());
    assert!(collect_workers(vec![done(), failed]).err().unwrap().contains("worker"));
}

#[test]
fn receiver_groups_reject_duplicate_hosts() {
    assert!(validate_cast_hosts(&[]).is_err());
    assert!(validate_cast_hosts(&[host(1), host(1)]).is_err());
    assert!(validate_cast_hosts(&[host(1)]).is_ok());
    assert!(matches!(validate_cast_hosts(&[]), Err(HostError::Missing)));
    assert!(matches!(validate_cast_hosts(&[host(1), host(1)]), Err(HostError::Duplicate(_))));
}

#[test]
fn congestion_detection_does_not_lower_an_unused_bitrate_ceiling() {
    let (congested, binding) = rate_window_is_congested(
        6_000_000,
        900_000,
        20,
        180_000,
        150_000_000,
        6,
        7,
        100 * 1024,
        180 * 1024,
    );
    assert!(!binding);
    assert!(!congested);

    let (congested, binding) = rate_window_is_congested(
        6_000_000,
        4_000_000,
        3,
        100_000,
        150_000_000,
        3,
        7,
        80 * 1024,
        180 * 1024,
    );
    assert!(binding);
    assert!(congested);
}

fn setup() -> StreamSetup {
    StreamSetup {
        ipv4: true,
        sender_ssrc: 50_001,
        receiver_ssrc: 50_002,
        aes_key: [1; 16],
        aes_iv_mask: [2; 16],
        rate_control_target: 0,
        fps: 30,
        frame_quarter: quarter(30),
        target_delay: 100_000_000,
        payload_type: RTP_H264_PAYLOAD_TYPE,
    }
}

#[test]
fn packetizes_a_cast_h264_frame() {
    let mut sender = CastRtpSender::new(setup(), 0).unwrap();
    let frame = StoredFrame {
        frame_id: 0,
        referenced_frame_id: 0,
        rtp_timestamp: 90_000,
        keyframe: true,
        encrypted_data: vec![7; 2_000],
        pipeline_started_at: 0,
        sent_at: 0,
        capture_age_micros: None,
        queue_wait_micros: 0,
        encode_micros: 0,
        prepare_micros: 0,
        sender_lock_wait_micros: 0,
        send_micros: 0,
        in_flight_frames: 1,
        in_flight_bytes: 2_000,
        synthetic_phase: None,
    };
    let packet = sender.packetize(&frame, 0, 2, 1_449);
    assert_eq!(packet[0], 0x80);
    assert_eq!(packet[1], 101);
    assert_eq!(&packet[4..8], &90_000_u32.to_be_bytes());
    assert_eq!(&packet[8..12], &50_001_u32.to_be_bytes());
    assert_eq!(packet[12], 0xc0);
    assert_eq!(packet[13], 0);
    assert_eq!(&packet[14..16], &[0, 0]);
    assert_eq!(&packet[16..18], &[0, 1]);
    assert_eq!(packet[18], 0);
    assert_eq!(packet.len(), 19 + 1_449);
}

struct Sent {
    sender: CastRtpSender,
    stats: MirrorStats,
    shared: MirrorCounters,
    rate: AdaptiveRateControl,
}

impl Sent {
    fn handle(
        &mut self,
        packet: &[u8],
        now: u64,
        outgoing: &mut Vec<Vec<u8>>,
    ) -> Result<(), RtcpError> {
        let shared = &mut self.shared;
        self.sender.handle_rtcp(packet, now, &mut self.stats, shared, &mut self.rate, outgoing)
    }
}

fn sent_frame(data: &[u8]) -> (Sent, Vec<Vec<u8>>) {
    let mut sent = Sent {
        sender: CastRtpSender::with_sequence_number(setup(), 7, 0),
        stats: MirrorStats::new(),
        shared: MirrorCounters::new(),
        rate: AdaptiveRateControl::new(6_000_000, true),
    };
    let transmission = sent
        .sender
        .begin_frame(90_000, true, data, timings(), None, 1_000, &mut sent.stats.counters)
        .unwrap();
    let packets = transmission.packets;
    sent.sender.complete_frame(transmission.frame, 5, &mut sent.stats.counters);
    (sent, packets)
}

#[test]
fn sent_frames_can_be_put_together_and_decrypted() {
    let data: Vec<u8> = (0..4_000u32).map(|value| value as u8).collect();
    let (sent, packets) = sent_frame(&data);
    assert_eq!(packets.len(), 4_000usize.div_ceil(IPV4_PACKET_SIZE - PACKET_OVERHEAD));
    let mut joined = Vec::new();
    for (number, packet) in packets.iter().enumerate() {
        assert_eq!(&packet[2..4], &(7 + number as u16).to_be_bytes());
        joined.extend_from_slice(&packet[19..]);
    }
    assert_eq!(encrypt_frame(&joined, 0, &[1; 16], &[2; 16]), data);
    assert_eq!(sent.stats.counters.frames, 1);
    assert_eq!(sent.stats.counters.keyframes, 1);
    assert_eq!(sent.stats.counters.rtp_packets, packets.len() as u64);
    assert_eq!(sent.sender.in_flight_bytes(), 4_000);
}

fn feedback(checkpoint: u8, losses: &[(u8, u16, u8)]) -> Vec<u8> {
    let mut packet = vec![0x8f, 206, 0, 4 + losses.len() as u8];
    packet.extend(50_002u32.to_be_bytes());
    packet.extend(50_001u32.to_be_bytes());
    packet.extend(b"CAST");
    packet.extend([checkpoint, losses.len() as u8, 0, 100]);
    for (frame, first, mask) in losses {
        packet.push(*frame);
        packet.extend(first.to_be_bytes());
        packet.push(*mask);
    }
    packet
}

#[test]
fn lost_packets_are_sent_again_until_they_are_acknowledged() {
    let data = vec![9; 4_000];
    let (mut sent, packets) = sent_frame(&data);
    let mut outgoing = Vec::new();
    let lost = feedback(255, &[(0, 1, 0)]);
    sent.handle(&lost, 50_000_000, &mut outgoing).unwrap();
    assert_eq!(outgoing.len(), 1);
    assert_eq!(&outgoing[0][4..], &packets[1][4..]);
    assert_eq!(sent.stats.counters.retransmissions, 1);

    let acknowledged = feedback(0, &[]);
    outgoing.clear();
    sent.handle(&acknowledged, 60_000_000, &mut outgoing).unwrap();
    assert!(outgoing.is_empty());
    assert_eq!(sent.sender.in_flight_bytes(), 0);
    assert_eq!(sent.stats.latency_samples.len(), 1);
    assert_eq!(sent.stats.counters.receiver_playout_delay_ms, 100);
}

#[test]
fn bitrate_changes_are_counted_for_the_group() {
    let (mut sent, _) = sent_frame(&vec![9; 400_000]);
    sent.shared.initialize_rate(6_000_000);
    let mut outgoing = Vec::new();
    sent.handle(&feedback(0, &[]), 1_500_000_000, &mut outgoing).unwrap();
    assert_eq!(sent.rate.target_bitrate(), 4_800_000);
    assert_eq!(sent.shared.adaptive_bitrate_decreases, 1);
    assert_eq!(sent.shared.current_target_bitrate, 4_800_000);
    assert_eq!(sent.stats.counters.adaptive_bitrate_decreases, 0);
    assert_eq!(sent.stats.counters.checkpoint_samples, 1);
}

#[test]
fn broken_feedback_is_told_apart() {
    let (mut sent, _) = sent_frame(&[1, 2, 3]);
    let parsed = parse_cast_feedback(&sent.sender, &feedback(0, &[(0, 1, 0)])).unwrap().unwrap();
    assert_eq!(parsed.checkpoint, 0);
    let mut other = feedback(0, &[]);
    other[11] = 9;
    assert!(parse_cast_feedback(&sent.sender, &other).unwrap().is_none());
    let mut outgoing = Vec::new();
    let mut handle = |packet: &[u8]| sent.handle(packet, 0, &mut outgoing).err();
    assert_eq!(handle(&[0x0f, 206, 0, 4]), Some(RtcpError::MalformedVersion));
    assert_eq!(handle(&[0x8f, 206, 0, 4, 1]), Some(RtcpError::TruncatedPacket));
    let mut unnamed = feedback(0, &[]);
    unnamed[12] = b'X';
    assert_eq!(handle(&unnamed), Some(RtcpError::MissingCastIdentifier));
    let mut cut = feedback(0, &[]);
    cut[17] = 3;
    assert_eq!(handle(&cut), Some(RtcpError::TruncatedLossFields));
    assert_eq!(handle(&[0x8f, 206, 0, 1, 0, 0, 0, 1]), Some(RtcpError::TruncatedFeedback));
}

#[test]
fn sender_reports_come_at_intervals() {
    let mut sender = CastRtpSender::with_sequence_number(setup(), 7, 0);
    let report = sender.take_sender_report(90_000, 0, 0x0102_0304_0506_0708).unwrap();
    assert_eq!(report[1], 200);
    assert_eq!(&report[4..8], &50_001u32.to_be_bytes());
    assert_eq!(&report[8..16], &[1, 2, 3, 4, 5, 6, 7, 8]);
    assert!(sender.take_sender_report(90_000, 100_000_000, 0).is_none());
    assert!(sender.take_sender_report(90_000, 500_000_000, 0).is_some());
}

fn sample(pipeline_micros: u64) -> LatencySample {
    LatencySample {
        pipeline_micros,
        transport_micros: pipeline_micros / 2,
        capture_age_micros: None,
        queue_wait_micros: 1,
        encode_micros: 2,
        prepare_micros: 3,
        sender_lock_wait_micros: 4,
        send_micros: 5,
        in_flight_frames: 6,
        in_flight_bytes: 7,
        keyframe: pipeline_micros > 30_000,
        encoded_bytes: 8,
        synthetic_phase: Some(SyntheticPhase::Static),
    }
}

fn measured() -> MirrorStats {
    let mut stats = MirrorStats::new();
    stats.latency_samples = vec![sample(20_000), sample(40_000)];
    stats.counters.frames = 2;
    stats.counters.rtp_packets = 10;
    stats.counters.effective_frame_rate = 30;
    stats
}

#[test]
fn profiles_are_made_of_the_samples() {
    let stats = measured();
    let counts = collect_profile_result(&stats).unwrap();
    assert_eq!(counts.frames, 2);
    assert_eq!(counts.pipeline.max_micros, 40_000);
    assert_eq!(values_of(&stats.latency_samples, Stage::KeyframePipeline), [40_000]);
    assert_eq!(stage_maximum(&stats.latency_samples, Stage::InFlightBytes), 7);
    let report = profile_report(&stats, &options(), 60_000_000_000).unwrap();
    assert!(report.capture_age.is_none());
    assert!(report.command.contains("--host 192.0.2.1"));
    assert_eq!(phase_report(&stats, SyntheticPhase::Static).unwrap().encoded_bytes, 16);
    assert!(phase_report(&stats, SyntheticPhase::SceneCuts).is_none());
    assert!(collect_profile_result(&MirrorStats::new()).is_none());
}

#[test]
fn capture_counts_are_copied_to_every_receiver() {
    let mut source = MirrorStats::new();
    source.counters.raw_frames_submitted = 7;
    let mut target = MirrorStats::new();
    target.counters.frames = 3;
    merge_capture_stats(&source, &mut target);
    assert_eq!(target.counters.raw_frames_submitted, 7);
    assert_eq!(target.counters.frames, 3);
    assert_eq!((larger_of(3, 4), smaller_of(3, 4)), (4, 3));
}

#[test]
fn runs_are_checked_in_order() {
    assert!(validate_run(&options(), RunMode::Cast).is_ok());
    let check = |options: MirrorOptions| validate_run(&options, RunMode::Cast).err();
    let broken = MirrorOptions { cast_hosts: vec![], ..options() };
    assert!(matches!(check(broken), Some(RunError::Hosts(HostError::Missing))));
    let broken = MirrorOptions { bitrate: 0, ..options() };
    assert!(matches!(check(broken), Some(RunError::BitrateNotPositive)));
    let broken = MirrorOptions { target_delay: 5_000_000_001, ..options() };
    assert!(matches!(check(broken), Some(RunError::TargetDelayOutOfRange)));
    let broken = MirrorOptions { synthetic: true, ..options() };
    assert!(matches!(check(broken), Some(RunError::SyntheticOutsideProfiling)));
    let broken = MirrorOptions { extend: true, display_id: Some(1), ..options() };
    assert!(matches!(check(broken), Some(RunError::ExtendWithDisplay)));
    let check = |options: MirrorOptions| validate_run(&options, RunMode::Profile).err();
    let broken = MirrorOptions { synthetic: true, display_id: Some(1), ..options() };
    assert!(matches!(check(broken), Some(RunError::DisplayWithSynthetic)));
    let broken = MirrorOptions { synthetic: true, audio: true, ..options() };
    assert!(matches!(check(broken), Some(RunError::AudioWithSynthetic)));
    let broken = MirrorOptions { synthetic: true, extend: true, ..options() };
    assert!(matches!(check(broken), Some(RunError::ExtendWithSynthetic)));
}

#[test]
fn sessions_are_planned_from_the_options() {
    assert_eq!(plan_cast(&options()).unwrap(), SessionKind::Shared);
    let two = || MirrorOptions { cast_hosts: vec![host(1), host(2)], extend: true, ..options() };
    assert_eq!(plan_cast(&two()).unwrap(), SessionKind::Extended);
    assert!(matches!(plan_profile(&options(), false), Err(ProfileError::DurationMissing)));
    let timed = MirrorOptions { duration: Some(60_000_000_000), ..options() };
    assert_eq!(plan_profile(&timed, true).unwrap(), SessionKind::AutoTune);
    let worker = worker_options(&two(), 1, 42);
    assert_eq!(worker.cast_hosts[0].text(), "192.0.2.2");
    let plan = plan_stream(&MirrorOptions { width: 1281, ..options() }).unwrap();
    assert_eq!((plan.width, plan.height, plan.level.name), (1280, 720, "3.1"));
    assert_eq!(plan_display(true, true), Err(DisplayOwnedTwice {}));
    assert_eq!(plan_display(true, false), Ok(DisplayPlan::Create));
    assert_eq!(select_display(&[5, 7], Some(7)), Some(1));
    assert_eq!(select_display(&[5, 7], Some(8)), None);
    assert_eq!(select_display(&[5, 7], None), Some(0));
}

#[test]
fn extended_groups_select_no_display() {
    let two = MirrorOptions {
        cast_hosts: vec![host(1), host(2)],
        extend: true,
        display_id: Some(42),
        duration: Some(60_000_000_000),
        ..options()
    };
    assert!(matches!(plan_cast(&two), Err(RunError::ExtendWithDisplay)));
    assert!(matches!(plan_profile(&two, false), Err(ProfileError::ExtendWithDisplay)));
    assert_eq!(plan_profile(&two, true).unwrap(), SessionKind::AutoTune);
    let one = MirrorOptions { cast_hosts: vec![host(1)], ..two };
    assert!(matches!(plan_cast(&one), Err(RunError::ExtendWithDisplay)));
    assert!(matches!(plan_profile(&one, false), Err(ProfileError::ExtendWithDisplay)));
    let synthetic = MirrorOptions { synthetic: true, display_id: None, ..one };
    assert!(matches!(plan_profile(&synthetic, false), Err(ProfileError::ExtendWithSynthetic)));
    let plain = MirrorOptions { synthetic: false, ..synthetic };
    assert_eq!(plan_profile(&plain, false).unwrap(), SessionKind::Shared);
}

#[test]
fn running_sessions_are_watched() {
    let mut counters = MirrorCounters::new();
    let rate = start_counters(60, 30, 6_000_000, true, 2, &mut counters);
    assert_eq!(rate.target_bitrate(), 6_000_000);
    assert_eq!(counters.effective_frame_rate, 30);
    let mut failure = None;
    let mut targets = vec![TargetHealth { host: "192.0.2.1".to_owned(), failure: None }];
    assert!(matches!(
        run_tick(false, 0, None, &mut failure, &mut targets, None),
        RunTick::Continue
    ));
    assert!(matches!(run_tick(true, 0, None, &mut failure, &mut targets, None), RunTick::Finish));
    assert!(matches!(
        run_tick(false, 9, Some(9), &mut failure, &mut targets, None),
        RunTick::Finish
    ));
    targets[0].failure = Some("gone".to_owned());
    let RunTick::Fail(message) = run_tick(false, 0, None, &mut failure, &mut targets, None) else {
        panic!("the receiver is gone");
    };
    assert!(message.contains("gone"));
    failure = Some("capture".to_owned());
    assert!(run_error(None, &mut failure).unwrap().contains("capture"));
}

#[test]
fn the_first_problem_of_a_session_is_reported() {
    let end = SessionEnd {
        run: None,
        input: None,
        output: Some("audio".to_owned()),
        senders: vec![Some("sender".to_owned())],
        display: None,
        profile: None,
    };
    assert!(end.outcome().0.unwrap().contains("audio"));
    let plan = plan_report(RunMode::Profile, ProfilePresentation::Detailed, 2);
    assert!(plan.group_profile && !plan.cast_summary);
    assert!(draws_graph(RunMode::Profile, ProfilePresentation::Detailed, 1));
    assert_eq!(
        worker_presentation(RunMode::Cast, ProfilePresentation::Detailed),
        ProfilePresentation::Detailed
    );
    let summary = cast_summary(&measured().counters);
    assert_eq!(summary.average_micros, None);
}

#[test]
fn frames_are_packaged_from_their_first_keyframe_on() {
    let mut pipeline = MirrorPipeline::new(30, 6_000_000);
    let delta = [0, 0, 0, 1, 0x41];
    assert!(pipeline.package(&delta, 0, None, timings(), None).unwrap().is_none());
    assert!(!pipeline.has_reference_frame());
    let key = [0, 0, 0, 1, 0x65];
    assert!(MirrorPipeline::is_keyframe(&key).unwrap());
    let sets = Some((vec![0x67], vec![0x68]));
    let frame = pipeline.package(&key, 3_000, sets, timings(), None).unwrap().unwrap();
    assert!(frame.keyframe);
    assert_eq!(frame.data, [0, 0, 0, 1, 0x67, 0, 0, 0, 1, 0x68, 0, 0, 0, 1, 0x65]);
    let next = pipeline.package(&delta, 6_000, None, timings(), None).unwrap().unwrap();
    assert_eq!(next.data, delta);
    assert!(!next.keyframe);
    let stray = Some((vec![0x27], vec![0x28]));
    let next = pipeline.package(&delta, 6_000, stray, timings(), None).unwrap().unwrap();
    assert_eq!((next.data, next.keyframe), (delta.to_vec(), false));
    assert!(matches!(
        pipeline.package(&key, 9_000, None, timings(), None),
        Err(PackageError::ParameterSetsMissing)
    ));
    assert!(matches!(
        pipeline.package(&[0, 0, 0], 9_000, None, timings(), None),
        Err(PackageError::Unit(_))
    ));
    assert!(pipeline.package(&[], 9_000, None, timings(), None).unwrap().is_none());
    let mut clock = MediaClock::new();
    assert_eq!(pipeline.normalized_timestamp(&mut clock, MediaTimestamp::new(0, 30)), 0);
    assert_eq!(pipeline.normalized_timestamp(&mut clock, MediaTimestamp::new(0, 30)), 3_000);
    assert_eq!(MirrorPipeline::encoder_time(7), Ok(7));
    assert!(MirrorPipeline::encoder_time(u64::MAX).is_err());
    assert_eq!(pipeline.bitrate_request(6_000_000), None);
    assert_eq!(pipeline.bitrate_request(4_800_000), Some(4_800_000));
}

#[test]
fn pipelines_choose_and_age_their_surfaces() {
    assert_eq!(choose_surface(true, false), SurfaceChoice::Fresh);
    assert_eq!(choose_surface(false, true), SurfaceChoice::Repeat);
    assert_eq!(choose_surface(false, false), SurfaceChoice::Skip);
    assert_eq!(capture_age_micros(3_000, 1_000, 125, 3), Some(83));
    assert_eq!(capture_age_micros(1_000, 3_000, 125, 3), None);
    assert_eq!(keyframe_interval(30), Some(30));
    let mut counters = MirrorCounters::new();
    record_encoder_settings(&mut counters, true, true, false);
    assert!(counters.vt_max_frame_delay_applied);
    count_refused_bitrate(&mut counters);
    assert_eq!(counters.adaptive_bitrate_apply_failures, 1);
    let unit = EncodedAudioFrame { timestamp: 48_000, data: vec![1] };
    assert_eq!(audio_frame(unit, 9).rtp_timestamp, 48_000);
}

#[test]
fn tuning_runs_its_trials_in_order() {
    let base = MirrorOptions { synthetic: true, ..options() };
    assert_eq!(plan_auto_tune(&base, 60_000_000_000), Ok(10_000_000_000));
    assert_eq!(plan_auto_tune(&base, 59_000_000_000), Err(AutoTuneError::TooShort));
    assert_eq!(plan_auto_tune(&options(), 60_000_000_000), Err(AutoTuneError::NotSynthetic));
    let fixed = MirrorOptions { synthetic: true, adaptive_bitrate: false, ..options() };
    assert_eq!(plan_auto_tune(&fixed, 60_000_000_000), Err(AutoTuneError::ControlsSet));
    let shown = MirrorOptions { synthetic: true, display_id: Some(1), ..options() };
    assert_eq!(plan_auto_tune(&shown, 60_000_000_000), Err(AutoTuneError::DisplaySelected));
    let wide = MirrorOptions { synthetic: true, extend: true, ..options() };
    assert_eq!(plan_auto_tune(&wide, 60_000_000_000), Err(AutoTuneError::Extended));
    let mut outcomes = Vec::new();
    let AutoTuneStep::Trial { index, config, .. } = auto_tune_step(&outcomes, 30, false) else {
        panic!("the first trial comes first");
    };
    assert_eq!((index, config), (0, TuningConfig::default_controls()));
    outcomes.push(TrialOutcome { config, effective_fps: 30, score: double(10.0) });
    assert!(matches!(
        auto_tune_step(&outcomes, 30, true),
        AutoTuneStep::Stopped { completed: 1 }
    ));
    assert!(recommended_command(&options(), "", 200, 30, "").contains("--host 192.0.2.1"));
}
