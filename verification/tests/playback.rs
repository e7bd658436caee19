use cast::float32::Single;
use cast::playback::{
    buffered_media, control_error, detailed_media_failure, emit_status, emit_status_entry,
    handle_buffered_message, is_detailed_terminal_message, load_failure, loaded_session,
    needs_interrupt, next_message, next_phase, normalized_duration, seek_buffered_playback, seek_resume_state,
    seek_target, shutdown_outcome, terminal_message, toggle_buffered_playback, BufferedMediaLoad,
    BufferedPlaybackSnapshot, DoneSignal, Emission, HlsSegmentFormat, HlsVideoSegmentFormat,
    IdleReason, InvalidSeekOffset, MediaControl, MediaErrorCode, MediaFailureKind, MediaLoad,
    MediaSessionCommand, MediaSessionEvent, PlaybackEnd, PlaybackState, PlaybackStatus,
    PlayerState, ReceiverMessage, ResumeState, SeekRefusal, SessionEvent, SessionPhase,
    StatusEntry, ToggleAction,
};

fn single(value: f32) -> Single {
    Single { bits: value.to_bits() }
}

fn status_entry(state: PlayerState, idle_reason: Option<IdleReason>) -> StatusEntry {
    StatusEntry {
        media_session_id: 7,
        content_id: None,
        media_duration: None,
        playback_rate: single(1.0),
        player_state: state,
        idle_reason,
        current_time: Some(single(12.5)),
        supported_media_commands: 3,
    }
}

fn event(emission: Emission) -> MediaSessionEvent {
    emission.event.unwrap()
}

#[test]
fn emits_every_status_update_and_retains_reported_duration() {
    let mut snapshot = BufferedPlaybackSnapshot::new(None);
    let mut first = status_entry(PlayerState::Buffering, None);
    first.content_id = Some("video".to_owned());
    first.media_duration = Some(single(90.0));
    let emission = emit_status_entry(&first, &mut snapshot);
    assert!(!emission.terminal);
    assert_eq!(
        event(emission),
        MediaSessionEvent::Status(PlaybackStatus {
            state: PlaybackState::Buffering,
            current_time: Some(single(12.5)),
            duration: Some(single(90.0)),
            playback_rate: single(1.0),
            can_pause: true,
            can_seek: true,
        })
    );

    let mut second = status_entry(PlayerState::Buffering, None);
    second.current_time = Some(single(13.0));
    let emission = emit_status_entry(&second, &mut snapshot);
    assert!(!emission.terminal);
    assert_eq!(
        event(emission),
        MediaSessionEvent::Status(PlaybackStatus {
            state: PlaybackState::Buffering,
            current_time: Some(single(13.0)),
            duration: Some(single(90.0)),
            playback_rate: single(1.0),
            can_pause: true,
            can_seek: true,
        })
    );

    let emission = emit_status_entry(&status_entry(PlayerState::Playing, None), &mut snapshot);
    assert!(!emission.terminal);
    assert_eq!(
        event(emission),
        MediaSessionEvent::Status(PlaybackStatus {
            state: PlaybackState::Playing,
            current_time: Some(single(12.5)),
            duration: Some(single(90.0)),
            playback_rate: single(1.0),
            can_pause: true,
            can_seek: true,
        })
    );
}

#[test]
fn keeps_the_source_duration_instead_of_a_receiver_buffer_window() {
    let mut snapshot = BufferedPlaybackSnapshot::new(normalized_duration(Some(single(600.0))));
    let mut entry = status_entry(PlayerState::Playing, None);
    entry.content_id = Some("video".to_owned());
    entry.media_duration = Some(single(30.0));
    let emission = emit_status_entry(&entry, &mut snapshot);
    assert!(!emission.terminal);
    let MediaSessionEvent::Status(status) = event(emission) else {
        panic!("expected playback status");
    };
    assert_eq!(status.duration, Some(single(600.0)));
}

#[test]
fn maps_idle_reasons_to_terminal_events() {
    for (reason, expected) in [
        (IdleReason::Finished, MediaSessionEvent::Ended(PlaybackEnd::Finished)),
        (IdleReason::Cancelled, MediaSessionEvent::Ended(PlaybackEnd::Cancelled)),
        (IdleReason::Interrupted, MediaSessionEvent::Ended(PlaybackEnd::Interrupted)),
    ] {
        let mut snapshot = BufferedPlaybackSnapshot::new(None);
        let emission =
            emit_status_entry(&status_entry(PlayerState::Idle, Some(reason)), &mut snapshot);
        assert!(emission.terminal);
        assert_eq!(event(emission), expected);
    }
}

#[test]
fn describes_incremental_fmp4_hls_as_buffered_media() {
    let media = buffered_media(&BufferedMediaLoad {
        url: "http://127.0.0.1/private/index.m3u8".to_owned(),
        content_type: "application/x-mpegURL".to_owned(),
        duration: Some(single(90.0)),
        fmp4_hls: true,
        interactive: false,
    });
    assert!(!media.live);
    assert_eq!(media.duration, Some(single(90.0)));
    assert_eq!(media.hls_segment_format, Some(HlsSegmentFormat::Fmp4));
    assert_eq!(media.hls_video_segment_format, Some(HlsVideoSegmentFormat::Fmp4));
}

#[test]
fn relative_seek_targets_are_clamped_to_media_bounds() {
    let duration = Some(single(100.0));
    assert_eq!(seek_target(single(5.0 + -10.0), duration), single(0.0));
    assert_eq!(seek_target(single(50.0 + 10.0), duration), single(60.0));
    assert_eq!(seek_target(single(80.0 + 60.0), duration), single(100.0));
    assert_eq!(seek_target(single(80.0 + 60.0), None), single(140.0));
}

#[test]
fn seeking_preserves_the_current_play_pause_state() {
    assert_eq!(
        seek_resume_state(Some(PlaybackState::Playing)),
        Some(ResumeState::PlaybackStart)
    );
    assert_eq!(seek_resume_state(Some(PlaybackState::Paused)), Some(ResumeState::PlaybackPause));
    assert_eq!(seek_resume_state(Some(PlaybackState::Buffering)), None);
}

#[test]
fn classifies_actionable_receiver_errors() {
    assert_eq!(
        detailed_media_failure(MediaErrorCode::MediaNetwork, "MEDIA_ERROR").kind,
        MediaFailureKind::Network
    );
    assert_eq!(
        detailed_media_failure(MediaErrorCode::MediaDecode, "MEDIA_ERROR").kind,
        MediaFailureKind::Decode
    );
    assert_eq!(
        detailed_media_failure(MediaErrorCode::MediaSrcNotSupported, "MEDIA_ERROR").kind,
        MediaFailureKind::Unsupported
    );
    assert_eq!(
        detailed_media_failure(MediaErrorCode::Generic, "MEDIA_ERROR").kind,
        MediaFailureKind::Other
    );
}

#[test]
fn prioritizes_detailed_errors_over_generic_status_updates() {
    let error = ReceiverMessage::Error {
        code: MediaErrorCode::MediaSrcNotSupported,
        message_type: "MEDIA_ERROR".to_owned(),
    };
    assert!(is_detailed_terminal_message(&error));
    assert!(is_detailed_terminal_message(&ReceiverMessage::Close));
    assert!(!is_detailed_terminal_message(&ReceiverMessage::Status(Vec::new())));
    assert_eq!(
        terminal_message(&[ReceiverMessage::Ping, ReceiverMessage::Status(Vec::new()), error]),
        Some(2)
    );
}

#[test]
fn messages_are_handled_in_order_unless_one_ends_the_session() {
    let plain = [ReceiverMessage::Ping, ReceiverMessage::Status(Vec::new())];
    assert_eq!(next_message(&plain, 0, false), Some(0));
    assert_eq!(next_message(&plain, 1, false), Some(1));
    assert_eq!(next_message(&plain, 1, true), None);
    assert_eq!(next_message(&plain, 2, false), None);
    let closing = [ReceiverMessage::Ping, ReceiverMessage::Close, ReceiverMessage::Other];
    assert_eq!(next_message(&closing, 0, false), Some(1));
    assert_eq!(next_message(&closing, 1, true), None);
    assert_eq!(next_message(&closing, 1, false), None);
}

#[test]
fn messages_are_answered_and_reported() {
    let mut snapshot = BufferedPlaybackSnapshot::new(None);
    let handled = handle_buffered_message(&ReceiverMessage::Ping, 7, &mut snapshot);
    assert!(handled.pong && handled.emission.event.is_none());
    let handled = handle_buffered_message(&ReceiverMessage::Close, 7, &mut snapshot);
    assert!(handled.emission.terminal);
    let handled = load_failure(&ReceiverMessage::LoadFailed { request_id: 3 });
    assert!(handled.emission.terminal);
    assert!(matches!(handled.emission.event, Some(MediaSessionEvent::Failed(_))));
}

#[test]
fn statuses_of_other_sessions_are_passed_over() {
    let mut snapshot = BufferedPlaybackSnapshot::new(None);
    let entries = [status_entry(PlayerState::Playing, None)];
    assert!(emit_status(&entries, 8, &mut snapshot).event.is_none());
    assert!(emit_status(&entries, 7, &mut snapshot).event.is_some());
}

#[test]
fn the_loaded_session_is_found_by_its_address() {
    let mut entry = status_entry(PlayerState::Playing, None);
    entry.content_id = Some("http://a/b".to_owned());
    assert_eq!(loaded_session(&[entry], &"http://a/b".to_owned()), Some(7));
    let entry = status_entry(PlayerState::Playing, None);
    assert_eq!(loaded_session(&[entry], &"http://a/b".to_owned()), Some(7));
    assert_eq!(loaded_session(&[], &"http://a/b".to_owned()), None);
}

#[test]
fn durations_have_to_be_positive_numbers() {
    assert_eq!(normalized_duration(Some(single(1.5))), Some(single(1.5)));
    assert_eq!(normalized_duration(Some(single(0.0))), None);
    assert_eq!(normalized_duration(Some(single(f32::NAN))), None);
    assert_eq!(normalized_duration(Some(single(f32::INFINITY))), None);
    assert_eq!(normalized_duration(None), None);
}

#[test]
fn seek_offsets_have_to_be_numbers() {
    assert!(matches!(
        MediaSessionCommand::seek_by(single(-10.0)),
        Ok(MediaSessionCommand::SeekBy(_))
    ));
    for refused in [f32::NAN, f32::INFINITY, 0.0, -0.0] {
        assert_eq!(
            MediaSessionCommand::seek_by(single(refused)).err(),
            Some(InvalidSeekOffset {}),
            "{refused}"
        );
    }
}

#[test]
fn playback_is_toggled_by_its_state() {
    let mut snapshot = BufferedPlaybackSnapshot::new(None);
    assert_eq!(toggle_buffered_playback(&snapshot), ToggleAction::NotReady);
    snapshot.state = Some(PlaybackState::Playing);
    assert_eq!(toggle_buffered_playback(&snapshot), ToggleAction::PauseUnsupported);
    snapshot.supported_media_commands = 3;
    assert_eq!(toggle_buffered_playback(&snapshot), ToggleAction::Pause);
    snapshot.state = Some(PlaybackState::Paused);
    assert_eq!(toggle_buffered_playback(&snapshot), ToggleAction::Play);
    assert!(ToggleAction::NotReady.refusal().is_some());
    assert!(ToggleAction::Play.refusal().is_none());
}

#[test]
fn seeks_are_refused_with_a_reason() {
    let mut snapshot = BufferedPlaybackSnapshot::new(Some(single(100.0)));
    assert_eq!(seek_buffered_playback(&snapshot).err(), Some(SeekRefusal::Unsupported));
    snapshot.supported_media_commands = 2;
    assert_eq!(seek_buffered_playback(&snapshot).err(), Some(SeekRefusal::NotReady));
    snapshot.state = Some(PlaybackState::Paused);
    assert_eq!(seek_buffered_playback(&snapshot).err(), Some(SeekRefusal::PositionUnknown));
    snapshot.current_time = Some(single(5.0));
    let plan = seek_buffered_playback(&snapshot).unwrap();
    assert_eq!(plan.resume, ResumeState::PlaybackPause);
    assert_eq!(plan.current_time, single(5.0));
    let MediaSessionEvent::ControlError { control, detail } =
        control_error(MediaControl::Seek, SeekRefusal::NotReady.detail())
    else {
        panic!("expected a control error");
    };
    assert_eq!(control, MediaControl::Seek);
    assert_eq!(detail, SeekRefusal::NotReady.detail());
}

#[test]
fn sessions_end_by_stopping_the_receiver() {
    assert_eq!(next_phase(SessionPhase::Messages, SessionEvent::Terminal), SessionPhase::Stop);
    assert_eq!(next_phase(SessionPhase::Stop, SessionEvent::Done), SessionPhase::Stop);
    assert_eq!(
        next_phase(SessionPhase::Command, SessionEvent::Disconnected),
        SessionPhase::Leave
    );
}

#[test]
fn loads_name_their_segment_formats() {
    let plain = MediaLoad::cast_url("http://a/m.mp4", "video/mp4", false).description();
    assert_eq!(plain.content_id, "http://a/m.mp4");
    assert_eq!(plain.hls_segment_format, None);
    let load = MediaLoad::cast_url("http://a/m.mp4", "video/mp4", false);
    assert_eq!(load.start_position(), Some(single(0.0)));
    let load = MediaLoad::cast_fmp4_hls("http://a/live.m3u8");
    assert_eq!(load.start_position(), None);
    let live = load.description();
    assert!(live.live);
    assert_eq!(live.hls_video_segment_format, Some(HlsVideoSegmentFormat::Fmp4));
    let stream = MediaLoad::cast_url_with_hls_video_format(
        "http://a/i.m3u8",
        "application/x-mpegURL",
        false,
        HlsVideoSegmentFormat::Mpeg2Ts,
    )
    .description();
    assert_eq!(stream.hls_video_segment_format, Some(HlsVideoSegmentFormat::Mpeg2Ts));
    let file = BufferedMediaLoad::file("u".to_owned(), "video/mp4".to_owned(), None, true);
    assert!(!file.fmp4_hls && file.interactive);
    assert!(BufferedMediaLoad::fmp4_hls("u".to_owned(), None, false).fmp4_hls);
}

#[test]
fn late_workers_are_interrupted() {
    assert!(needs_interrupt(&DoneSignal::Late));
    assert!(!needs_interrupt(&DoneSignal::Reported(Ok(()))));
    assert_eq!(shutdown_outcome(DoneSignal::Reported(Ok(())), false, None), Ok(()));
    assert!(shutdown_outcome(DoneSignal::Reported(Ok(())), true, None).is_err());
    assert_eq!(
        shutdown_outcome(DoneSignal::Late, false, Some(Err("late".to_owned()))),
        Err("late".to_owned())
    );
}
