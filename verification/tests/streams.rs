use cast::crypto::encrypt_frame;
use cast::failure::{first_of, report_stream_error, store_failure, take_failure};
use cast::fanout::{
    fan_out_audio, fan_out_video, EncodedAudioFrame, EncodedAudioSink, EncodedVideoFrame,
    EncodedVideoSink, Reason, SenderQueue, SinkError, TakenAudio, TakenVideo, SENDER_QUEUE_FRAMES,
};
use cast::frame_queue::{LatestFrameQueue, QueueStep};
use cast::h264::{
    avcc_contains_nal_type, avcc_to_annex_b, AvccError, H264Level, LevelExceeded,
};
use cast::mirror::rtp::FrameTimings;
use cast::mirror::stats::MirrorCounters;
use cast::random::random_bytes;
use cast::rate_control::{AdaptiveRateControl, RateWindowHealth, MINIMUM_TARGET_BITRATE};
use cast::synthetic::{
    frame_at_elapsed, frame_offset, phase_for_frame, resolve_max_frame_age, SyntheticPhase,
    SyntheticSchedule, SyntheticSlot, SYNTHETIC_SURFACE_POOL_SIZE,
};

fn video_frame(data: Vec<u8>) -> EncodedVideoFrame {
    EncodedVideoFrame {
        rtp_timestamp: 90_000,
        keyframe: true,
        data,
        timings: FrameTimings {
            pipeline_started_at: 0,
            capture_age_micros: Some(1),
            queue_wait_micros: 2,
            encode_micros: 3,
            prepare_micros: 4,
            sender_lock_wait_micros: 0,
        },
        synthetic_phase: Some(SyntheticPhase::SceneCuts),
    }
}

struct FakeSink {
    frames: Vec<EncodedVideoFrame>,
    fail: bool,
}

impl EncodedVideoSink for FakeSink {
    fn taken(&self) -> TakenVideo {
        unreachable!("contracts are not run")
    }

    fn takes(&self) -> bool {
        !self.fail
    }

    fn refusal(&self) -> Reason {
        unreachable!("contracts are not run")
    }

    fn submit_video(&mut self, frame: EncodedVideoFrame) -> Result<(), SinkError> {
        if self.fail {
            return Err(SinkError { message: "fake receiver failed".to_owned() });
        }
        self.frames.push(frame);
        Ok(())
    }
}

#[test]
fn encoded_frames_fan_out_in_order_and_propagate_failure() {
    let frame = video_frame(vec![0, 0, 0, 1, 0x65]);
    let mut outputs = vec![
        FakeSink { frames: Vec::new(), fail: false },
        FakeSink { frames: Vec::new(), fail: false },
    ];
    fan_out_video(&mut outputs, &frame).unwrap();
    assert_eq!(outputs[0].frames[0].rtp_timestamp, 90_000);
    assert_eq!(outputs[1].frames[0].data, frame.data);

    let mut outputs = vec![FakeSink { frames: Vec::new(), fail: true }];
    let error = fan_out_video(&mut outputs, &frame).unwrap_err();
    assert!(error.message.contains("fake receiver failed"));
}

#[test]
fn outputs_behind_a_refusing_one_are_left_alone() {
    let frame = video_frame(vec![0, 0, 0, 1, 0x65]);
    let mut outputs = vec![
        SenderQueue::new("192.0.2.1".to_owned()),
        SenderQueue::new("192.0.2.2".to_owned()),
        SenderQueue::new("192.0.2.3".to_owned()),
    ];
    outputs[1].connected = false;
    let error = fan_out_video(&mut outputs, &frame).unwrap_err().message;
    assert_eq!(error, "Cast sender worker for 192.0.2.2 stopped unexpectedly");
    assert_eq!(outputs[0].waiting.len(), 1);
    assert_eq!(outputs[1].waiting.len(), 0);
    assert_eq!(outputs[2].waiting.len(), 0);
}

struct FakeAudioSink {
    frames: Vec<EncodedAudioFrame>,
}

impl EncodedAudioSink for FakeAudioSink {
    fn taken(&self) -> TakenAudio {
        unreachable!("contracts are not run")
    }

    fn takes(&self) -> bool {
        true
    }

    fn refusal(&self) -> Reason {
        unreachable!("contracts are not run")
    }

    fn submit_audio(&mut self, frame: EncodedAudioFrame) -> Result<(), SinkError> {
        self.frames.push(frame);
        Ok(())
    }
}

#[test]
fn encoded_audio_uses_the_same_multi_receiver_boundary() {
    let frame = EncodedAudioFrame { timestamp: 48_000, data: vec![0x11, 0x90] };
    let mut outputs =
        vec![FakeAudioSink { frames: Vec::new() }, FakeAudioSink { frames: Vec::new() }];
    fan_out_audio(&mut outputs, &frame).unwrap();
    assert_eq!(outputs[0].frames[0].timestamp, 48_000);
    assert_eq!(outputs[1].frames[0].data, vec![0x11, 0x90]);
}

#[test]
fn sender_fanout_fails_when_a_receiver_stalls_or_disconnects() {
    let mut output = SenderQueue::new("192.0.2.1".to_owned());
    for _ in 0..SENDER_QUEUE_FRAMES {
        output.submit_video(video_frame(vec![1, 2, 3])).unwrap();
    }
    let error = output.submit_video(video_frame(vec![1, 2, 3])).unwrap_err().message;
    assert!(error.contains("fell more than"));

    let mut output = SenderQueue::new("192.0.2.1".to_owned());
    output.connected = false;
    let error = output.submit_video(video_frame(vec![1, 2, 3])).unwrap_err().message;
    assert!(error.contains("stopped unexpectedly"));
}

#[test]
fn sender_queues_are_drained_in_order() {
    let mut output = SenderQueue::new("192.0.2.1".to_owned());
    output.submit_video(video_frame(vec![1])).unwrap();
    output.submit_video(video_frame(vec![2])).unwrap();
    assert_eq!(output.next().unwrap().data, [1]);
    assert_eq!(output.next().unwrap().data, [2]);
    assert!(output.next().is_none());
}

fn pending(queue: &mut LatestFrameQueue<u64>) -> (u64, u64) {
    match queue.next() {
        QueueStep::Frame(pending) => (pending.frame, pending.submitted_at),
        _ => panic!("no frame was pending"),
    }
}

#[test]
fn latest_frame_worker_replaces_pending_frames_and_expires_stale_deltas() {
    let mut queue = LatestFrameQueue::new();
    let mut processed = Vec::new();
    let age = Some(1_000_000u128);
    assert!(queue.submit(1u64, 0).unwrap().is_none());
    let (frame, submitted_at) = pending(&mut queue);
    if queue.judge(Some(0), submitted_at, 0, false, age).is_some() {
        processed.push(frame);
    }
    queue.submit(2, 1).unwrap();
    assert_eq!(queue.submit(3, 2).unwrap(), Some(2));
    let (frame, submitted_at) = pending(&mut queue);
    if queue.judge(Some(0), submitted_at, 5_000_000, true, age).is_some() {
        processed.push(frame);
    }
    assert_eq!(processed, [1]);
    assert!(queue.stop().is_none());
    assert_eq!(queue.metrics.snapshot(), (3, 1, 1));
}

#[test]
fn latest_frame_worker_reports_backend_failures_and_stops_accepting_frames() {
    let mut queue = LatestFrameQueue::new();
    let mut failure = None;
    queue.submit(1u64, 0).unwrap();
    let (_, submitted_at) = pending(&mut queue);
    assert!(queue.judge(None, submitted_at, 0, false, None).is_some());
    store_failure(&mut failure, "fake encoder failure");
    queue.stop();
    assert!(failure.as_deref().is_some_and(|message| message.contains("fake encoder failure")));
    assert_eq!(queue.metrics.snapshot(), (1, 0, 0));
    assert!(queue.submit(2, 1).is_err());
    assert!(matches!(queue.next(), QueueStep::Stop));
}

#[test]
fn desktop_adaptive_rate_control_decreases_fast_and_increases_slowly() {
    let mut counters = MirrorCounters::new();
    let mut rate = AdaptiveRateControl::new(6_000_000, true);
    counters.initialize_rate(rate.target_bitrate());
    assert_eq!(counters.current_target_bitrate, 6_000_000);
    let congested = RateWindowHealth { congested: true, acknowledged_bps: 3_000_000 };
    counters.apply_rate_change(rate.report_window(0, congested));
    assert_eq!(rate.target_bitrate(), 4_800_000);
    for _ in 0..3 {
        let healthy = RateWindowHealth { congested: false, acknowledged_bps: 4_800_000 };
        counters.apply_rate_change(rate.report_window(0, healthy));
    }
    assert_eq!(rate.target_bitrate(), 5_040_000);
    assert_eq!(counters.adaptive_bitrate_decreases, 1);
    assert_eq!(counters.adaptive_bitrate_increases, 1);
}

#[test]
fn grouped_rate_control_waits_for_every_receiver_and_uses_congestion() {
    let mut rate = AdaptiveRateControl::new_group(6_000_000, true, 2);
    let healthy = RateWindowHealth { congested: false, acknowledged_bps: 6_000_000 };
    rate.report_window(0, healthy);
    assert_eq!(rate.target_bitrate(), 6_000_000);
    let congested = RateWindowHealth { congested: true, acknowledged_bps: 3_000_000 };
    rate.report_window(1, congested);
    assert_eq!(rate.target_bitrate(), 4_800_000);
}

#[test]
fn mirror_adaptive_rate_control_decreases_fast_and_increases_slowly() {
    let mut rate = AdaptiveRateControl::new(6_000_000, true);
    rate.decrease();
    assert_eq!(rate.target_bitrate(), 4_800_000);
    rate.increase();
    assert_eq!(rate.target_bitrate(), 5_040_000);
}

#[test]
fn grouped_rate_control_uses_the_worst_receiver() {
    let mut rate = AdaptiveRateControl::new_group(6_000_000, true, 2);
    let healthy = RateWindowHealth { congested: false, acknowledged_bps: 6_000_000 };
    let congested = RateWindowHealth { congested: true, acknowledged_bps: 3_000_000 };

    rate.report_window(0, healthy);
    assert_eq!(rate.target_bitrate(), 6_000_000);
    rate.report_window(1, congested);
    assert_eq!(rate.target_bitrate(), 4_800_000);

    for _ in 0..3 {
        rate.report_window(0, healthy);
        rate.report_window(1, healthy);
    }
    assert_eq!(rate.target_bitrate(), 5_040_000);
}

#[test]
fn rates_stay_within_their_bounds() {
    let mut rate = AdaptiveRateControl::new(1_000_000, true);
    for _ in 0..50 {
        rate.decrease();
    }
    assert_eq!(rate.target_bitrate(), MINIMUM_TARGET_BITRATE);
    for _ in 0..100 {
        rate.increase();
    }
    assert_eq!(rate.target_bitrate(), 1_000_000);
    let mut fixed = AdaptiveRateControl::new(1_000_000, false);
    assert!(fixed.decrease().is_none());
    assert_eq!(fixed.target_bitrate(), 1_000_000);
}

#[test]
fn synthetic_cycle_visits_each_phase_and_repeats() {
    let fps = 30;
    assert_eq!(phase_for_frame(0, fps).0, SyntheticPhase::Static);
    assert_eq!(phase_for_frame(75, fps).0, SyntheticPhase::PartialMotion);
    assert_eq!(phase_for_frame(150, fps).0, SyntheticPhase::FullMotion);
    assert_eq!(phase_for_frame(225, fps).0, SyntheticPhase::SceneCuts);
    assert_eq!(phase_for_frame(300, fps).0, SyntheticPhase::Static);
}

#[test]
fn synthetic_frames_keep_their_schedule() {
    assert_eq!(frame_offset(30, 30), 1_000_000_000);
    assert_eq!(frame_offset(1, 30), 33_333_333);
    assert_eq!(frame_at_elapsed(1_000_000_000, 30), 30);
    assert_eq!(resolve_max_frame_age(Some(0), 30), None);
    assert_eq!(resolve_max_frame_age(Some(7_000_000), 30), Some(7_000_000));
    assert_eq!(SyntheticPhase::FullMotion.index(), 2);
    assert_eq!(SyntheticPhase::Static.label(), "static");
}

#[test]
fn synthetic_surfaces_are_drawn_from_a_pool() {
    let mut counters = MirrorCounters::new();
    let mut schedule = SyntheticSchedule::new(30);
    let mut taken = Vec::new();
    for frame in 0..SYNTHETIC_SURFACE_POOL_SIZE as u64 {
        assert_eq!(schedule.due_at(), frame_offset(frame, 30));
        match schedule.begin(&mut counters) {
            SyntheticSlot::Render { frame_index, surface } => {
                assert_eq!(frame_index, frame);
                assert!(!taken.contains(&surface));
                taken.push(surface);
                schedule.submitted(u128::from(frame_offset(frame, 30)), &mut counters);
            }
            SyntheticSlot::Skip => panic!("a surface was free"),
        }
    }
    assert!(matches!(schedule.begin(&mut counters), SyntheticSlot::Skip));
    assert_eq!(counters.synthetic_skipped_frames, 1);
    assert_eq!(counters.synthetic_generated_frames, SYNTHETIC_SURFACE_POOL_SIZE as u64);
    schedule.recycle(taken[0]);
    assert!(matches!(schedule.begin(&mut counters), SyntheticSlot::Render { .. }));
    assert_eq!(SyntheticSchedule::presentation_value(7), Ok(7));
    assert!(SyntheticSchedule::presentation_value(u64::MAX).is_err());
}

#[test]
fn selects_h264_levels_without_platform_encoder_types() {
    assert_eq!(H264Level::for_stream(1280, 720, 30, 6_000_000).unwrap().name, "3.1");
    assert_eq!(
        H264Level::for_stream(1280, 720, 60, 6_000_000).unwrap().codec_parameter,
        "avc1.420020"
    );
    assert_eq!(H264Level::for_stream(1920, 1080, 30, 6_000_000).unwrap().name, "4.0");
    assert!(H264Level::for_stream(7680, 4320, 120, 250_000_000).is_err());
}

#[test]
fn selects_a_valid_h264_level_for_720p60() {
    assert_eq!(H264Level::for_stream(1280, 720, 30, 6_000_000).unwrap().name, "3.1");
    assert_eq!(H264Level::for_stream(1280, 720, 60, 6_000_000).unwrap().name, "3.2");
    assert_eq!(H264Level::for_stream(1920, 1080, 30, 6_000_000).unwrap().name, "4.0");
}

#[test]
fn exceeded_levels_name_the_stream() {
    assert_eq!(
        H264Level::for_stream(7680, 4320, 120, 250_000_000).err(),
        Some(LevelExceeded { width: 7680, height: 4320, fps: 120, bitrate: 250_000_000 })
    );
}

#[test]
fn detects_idr_in_avcc() {
    let data = [0, 0, 0, 2, 0x65, 0xaa, 0, 0, 0, 1, 0x41];
    assert!(avcc_contains_nal_type(&data, 5).unwrap());
    assert!(!avcc_contains_nal_type(&data, 7).unwrap());
}

#[test]
fn rejects_truncated_avcc() {
    assert!(avcc_contains_nal_type(&[0, 0, 0, 4, 0x65], 5).is_err());
}

#[test]
fn broken_avcc_is_told_apart() {
    assert_eq!(avcc_to_annex_b(&[0, 0, 0], None), Err(AvccError::TruncatedLength));
    assert_eq!(avcc_to_annex_b(&[0, 0, 0, 4, 0x65], None), Err(AvccError::InvalidLength(4)));
    assert_eq!(avcc_to_annex_b(&[], None), Ok(Vec::new()));
}

#[test]
fn converts_avcc_to_annex_b_and_prepends_parameter_sets() {
    let avcc = [0, 0, 0, 2, 0x65, 0xaa, 0, 0, 0, 1, 0x41];
    let sps = vec![0x67, 0x42];
    let pps = vec![0x68, 0xce];
    assert_eq!(
        avcc_to_annex_b(&avcc, Some((&sps, &pps))).unwrap(),
        [
            0, 0, 0, 1, 0x67, 0x42, 0, 0, 0, 1, 0x68, 0xce, 0, 0, 0, 1, 0x65, 0xaa, 0, 0, 0, 1,
            0x41,
        ]
    );
}

#[test]
fn cast_frame_encryption_round_trips() {
    let key = [0x11; 16];
    let mask = [0x22; 16];
    let plaintext = b"a Cast Streaming H.264 frame";
    let encrypted = encrypt_frame(plaintext, 513, &key, &mask);
    assert_ne!(encrypted, plaintext);
    assert_eq!(encrypt_frame(&encrypted, 513, &key, &mask), plaintext);
    assert_ne!(
        encrypted,
        encrypt_frame(plaintext, 514, &key, &mask),
        "the frame ID must alter the AES-CTR nonce"
    );
}

#[test]
fn frames_are_encrypted_from_their_own_counter() {
    let key = [
        0x2b, 0x7e, 0x15, 0x16, 0x28, 0xae, 0xd2, 0xa6, 0xab, 0xf7, 0x15, 0x88, 0x09, 0xcf, 0x4f,
        0x3c,
    ];
    // With this mask the first counter block of frame 0xf8f9fafb is that of a published vector.
    let mask = [
        0xf0, 0xf1, 0xf2, 0xf3, 0xf4, 0xf5, 0xf6, 0xf7, 0x00, 0x00, 0x00, 0x00, 0xfc, 0xfd, 0xfe,
        0xff,
    ];
    let plaintext = [
        0x6b, 0xc1, 0xbe, 0xe2, 0x2e, 0x40, 0x9f, 0x96, 0xe9, 0x3d, 0x7e, 0x11, 0x73, 0x93, 0x17,
        0x2a,
    ];
    assert_eq!(
        encrypt_frame(&plaintext, 0xf8f9_fafb, &key, &mask),
        [
            0x87, 0x4d, 0x61, 0x91, 0xb6, 0x20, 0xe3, 0x26, 0x1b, 0xef, 0x68, 0x64, 0x99, 0x0d,
            0xb6, 0xce,
        ]
    );
}

#[test]
fn random_bytes_come_in_the_wanted_number() {
    let first = random_bytes(32).unwrap();
    assert_eq!(first.len(), 32);
    assert_ne!(first, random_bytes(32).unwrap());
    assert_ne!(first, vec![0; 32]);
    assert!(random_bytes(0).unwrap().is_empty());
}

#[test]
fn first_runtime_failure_is_preserved_for_clean_session_termination() {
    let mut failure = None;
    store_failure(&mut failure, "encoder stopped");
    store_failure(&mut failure, "later PipeWire error");
    assert_eq!(failure.as_deref(), Some("encoder stopped"));
    assert_eq!(take_failure(&mut failure).as_deref(), Some("encoder stopped"));
    assert!(take_failure(&mut failure).is_none());
}

#[test]
fn startup_stream_errors_do_not_leak_into_runtime_failure_state() {
    let mut startup = true;
    let mut failure = None;
    let told = report_stream_error(&mut startup, false, &mut failure, "no target node available");
    assert_eq!(told.as_deref(), Some("no target node available"));
    assert!(report_stream_error(&mut startup, false, &mut failure, "disconnected").is_none());
    assert!(failure.is_none());
}

#[test]
fn running_stream_errors_reach_runtime_failure_state() {
    let mut startup = false;
    let mut failure = None;
    assert!(report_stream_error(&mut startup, true, &mut failure, "disconnected").is_none());
    assert_eq!(failure.as_deref(), Some("PipeWire audio stream error: disconnected"));
}

#[test]
fn the_first_of_several_errors_counts() {
    assert_eq!(first_of(vec![None, Some("a".to_owned()), Some("b".to_owned())]).unwrap(), "a");
    assert!(first_of(vec![None, None]).is_none());
}
