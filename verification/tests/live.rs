use cast::binary64::Binary64;
use cast::clock::{MediaClock, MediaTimestamp};
use cast::fanout::EncodedAudioFrame;
use cast::hls::{
    id3_timestamp, master_playlist, push_synchsafe, video_timestamp, video_to_audio_timestamp,
    HlsStore, Segment, SegmentDuration, ACCESS_UNIT_SAMPLES, RETAINED_SEGMENTS, SAMPLE_RATE,
    TIMESCALE,
};
use cast::hls_http::{answer_text, handle_http, routed_response, HlsRoute};
use cast::live::{
    advance_timestamp, after_start, avc_codec_string, display_for, interface_order,
    live_keyframe_interval, live_tick, loopback_for, offers_audio, route_is_taken, start_error,
    startup_tick, stats_line, store_for, stores_for, validate_live, validate_serve_only,
    HlsTarget, LiveEnd, LiveError, LiveOptions, LivePipeline, LiveRefusal, LiveTick,
    ReceiverHealth, StartFailure, StartStep, STARTUP_TIMEOUT,
};
use cast::mirror::options::{validate_cast_hosts, HostError};
use cast::network::IpAddr;

fn seconds(ticks: u64) -> SegmentDuration {
    SegmentDuration::between(0, ticks)
}

fn segment(sequence: u64, duration: SegmentDuration, video: Vec<u8>) -> Segment {
    Segment { sequence, duration, video, audio: None }
}

#[test]
fn builds_codec_string_from_sps() {
    assert_eq!(avc_codec_string(&[0x67, 0x42, 0xe0, 0x1f]), Some("avc1.42E01F".into()));
    assert_eq!(avc_codec_string(&[0x67, 0x42]), None);
}

#[test]
fn advances_a_stalled_capture_timestamp_by_one_frame() {
    assert_eq!(advance_timestamp(Some(90_000), 90_000, 3_000), 93_000);
    assert_eq!(advance_timestamp(Some(90_000), 90_001, 3_000), 90_001);
}

#[test]
fn selects_a_half_second_live_keyframe_interval() {
    assert_eq!(live_keyframe_interval(30), 15);
    assert_eq!(live_keyframe_interval(60), 30);
    assert_eq!(live_keyframe_interval(1), 1);
}

#[test]
fn playlist_references_available_segments() {
    let mut state = HlsStore::new(false);
    state.init = Some(vec![1]);
    state.segments.push_back(segment(7, seconds(TIMESCALE), vec![2]));
    state.next_sequence = 8;
    let value = state.playlist();
    assert!(value.contains("#EXT-X-MEDIA-SEQUENCE:7"));
    assert!(value.contains("#EXTINF:1.000,"));
    assert!(value.contains("segment-7.m4s"));
}

#[test]
fn playlist_advertises_only_the_latest_live_window() {
    let mut state = HlsStore::new(false);
    state.init = Some(vec![1]);
    for sequence in 0..10 {
        state.segments.push_back(segment(sequence, seconds(TIMESCALE / 2), vec![sequence as u8]));
    }
    state.next_sequence = 10;

    let value = state.playlist();
    assert!(value.contains("#EXT-X-MEDIA-SEQUENCE:2"));
    assert!(!value.contains("segment-1.m4s"));
    assert!(value.contains("segment-2.m4s"));
    assert!(value.contains("segment-9.m4s"));
}

#[test]
fn master_playlist_describes_the_video_variant() {
    let value = master_playlist("avc1.42001F", 1280, 720, 30, 6_000_000, false);
    assert!(value.contains("BANDWIDTH=6000000"));
    assert!(value.contains("CODECS=\"avc1.42001F\""));
    assert!(value.contains("RESOLUTION=1280x720"));
    assert!(value.contains("FRAME-RATE=30.000"));
    assert!(value.ends_with("live.m3u8\n"));
}

fn store_with_init(data: Vec<u8>) -> HlsStore {
    let mut store = HlsStore::new(false);
    store.set_init(data, "avc1.42001F", 1280, 720, 30, 6_000_000);
    store
}

fn two_routes() -> Vec<HlsRoute> {
    vec![
        HlsRoute { name: "alpha".to_owned(), store: 0, audio: false },
        HlsRoute { name: "bravo".to_owned(), store: 1, audio: false },
    ]
}

#[test]
fn multiplexed_routes_are_private_and_isolated() {
    let mut stores = vec![store_with_init(vec![1, 2, 3]), store_with_init(vec![4, 5, 6])];
    let routes = two_routes();
    assert_eq!(routed_response(&routes, &mut stores, "/alpha/init.mp4").unwrap().data, [1, 2, 3]);
    assert_eq!(routed_response(&routes, &mut stores, "/bravo/init.mp4").unwrap().data, [4, 5, 6]);
    assert!(routed_response(&routes, &mut stores, "/alphax/init.mp4").is_none());
    assert_eq!(stores[0].stats().init_segments, 1);
    assert_eq!(stores[1].stats().init_segments, 1);
}

#[test]
fn requests_are_answered_with_a_head_and_bytes() {
    let mut stores = vec![store_with_init(vec![1, 2, 3]), store_with_init(vec![4])];
    stores[0].push_segment(vec![9, 9], seconds(TIMESCALE), 0, TIMESCALE);
    let routes = two_routes();
    let answer = handle_http(&routes, &mut stores, b"GET /alpha/segment-0.m4s HTTP/1.1\r\n\r\n");
    assert!(answer.head.starts_with("HTTP/1.1 200 OK"));
    assert_eq!(answer.data, [9, 9]);
    let answer = handle_http(&routes, &mut stores, b"GET /bravo/segment-0.m4s HTTP/1.1\r\n\r\n");
    assert!(answer.head.starts_with("HTTP/1.1 404"));
    let strange = [b"GET /alpha/\xff HTTP/1.1\r\n".as_slice(), b"\r\n"].concat();
    assert!(handle_http(&routes, &mut stores, &strange).head.starts_with("HTTP/1.1 404"));
    let posted = answer_text(&routes, &mut stores, "POST /alpha/live.m3u8 HTTP/1.1\r\n\r\n");
    assert!(posted.head.starts_with("HTTP/1.1 405"));
}

#[test]
fn audio_master_and_packed_aac_timestamp_are_well_formed() {
    let value = master_playlist("avc1.42001F", 1280, 720, 30, 6_000_000, true);
    assert!(value.contains("#EXT-X-MEDIA:TYPE=AUDIO"));
    assert!(value.contains("CODECS=\"avc1.42001F,mp4a.40.2\""));
    assert!(value.contains("AUDIO=\"audio\""));

    let tag = id3_timestamp(90_000);
    assert_eq!(&tag[..6], b"ID3\x04\0\0");
    assert!(tag.windows(4).any(|window| window == b"PRIV"));
    assert!(tag
        .windows(b"com.apple.streaming.transportStreamTimestamp".len())
        .any(|window| window == b"com.apple.streaming.transportStreamTimestamp"));
    assert_eq!(&tag[tag.len() - 8..], &90_000_u64.to_be_bytes());
}

#[test]
fn audio_segments_publish_in_lockstep_with_video() {
    let mut store = HlsStore::new(true);
    store.set_init(vec![1], "avc1.42001F", 1280, 720, 30, 6_000_000);
    store.push_segment(vec![2], seconds(TIMESCALE), 0, TIMESCALE);
    assert_eq!(store.segments.len(), 0);

    for timestamp in (0..SAMPLE_RATE as u64).step_by(ACCESS_UNIT_SAMPLES) {
        store.push_audio(EncodedAudioFrame { timestamp, data: vec![0xff, 0xf1] });
    }
    assert_eq!(store.segments.len(), 1);
    let segment = store.segments.front().unwrap();
    assert_eq!(segment.video, [2]);
    let audio = segment.audio.as_ref().unwrap();
    assert!(audio.starts_with(b"ID3"));
    assert!(audio.ends_with(&[0xff, 0xf1]));
    assert!(offers_audio(true, &store));
    assert!(!offers_audio(false, &store));
    assert!(store.audio_playlist().contains("#EXTINF:1.000,"));
}

#[test]
fn receivers_are_started_once_more_without_audio() {
    let mut route = HlsRoute { name: "alpha".to_owned(), store: 0, audio: true };
    assert_eq!(after_start(&mut route, true, true), StartStep::Done);
    assert!(route.audio);
    assert_eq!(after_start(&mut route, true, false), StartStep::RetryVideoOnly);
    assert!(!route.audio);
    assert_eq!(after_start(&mut route, false, false), StartStep::Fail);
}

#[test]
fn extended_receivers_have_stores_and_displays_of_their_own() {
    assert_eq!((stores_for(false, 3), stores_for(true, 3)), (1, 3));
    assert_eq!((store_for(false, 2), store_for(true, 2)), (0, 2));
    let shared = LiveOptions { display_id: Some(9), ..options() };
    assert_eq!(display_for(&shared, 0, &[]), Some(9));
    let extended = LiveOptions { extend: true, display_id: None, ..options() };
    assert_eq!(display_for(&extended, 1, &[40, 41]), Some(41));
}

#[test]
fn listed_audio_segments_can_be_fetched() {
    let mut stores = vec![HlsStore::new(true)];
    stores[0].push_segment(vec![2], seconds(TIMESCALE), 0, TIMESCALE);
    for timestamp in (0..SAMPLE_RATE as u64).step_by(ACCESS_UNIT_SAMPLES) {
        stores[0].push_audio(EncodedAudioFrame { timestamp, data: vec![0xff, 0xf1] });
    }
    let audio = stores[0].segments[0].audio.clone().unwrap();
    let routes = vec![HlsRoute { name: "alpha".to_owned(), store: 0, audio: true }];
    let body = routed_response(&routes, &mut stores, "/alpha/audio-0.aac").unwrap();
    assert_eq!((body.content_type, body.data), ("audio/aac", audio));
    let body = routed_response(&routes, &mut stores, "/alpha/segment-0.m4s").unwrap();
    assert_eq!(body.data, [2]);
}

#[test]
fn segments_without_audio_are_published_once_it_is_disabled() {
    let mut store = HlsStore::new(true);
    store.set_init(vec![1], "avc1.42001F", 1280, 720, 30, 6_000_000);
    store.push_segment(vec![2], seconds(TIMESCALE), 0, TIMESCALE);
    assert!(!store.is_ready(1));
    store.disable_audio();
    assert!(store.is_ready(1));
    assert!(store.segments[0].audio.is_none());
}

#[test]
fn old_segments_are_dropped() {
    let mut store = store_with_init(vec![1]);
    for number in 0..RETAINED_SEGMENTS as u64 + 5 {
        store.push_segment(vec![0], seconds(TIMESCALE), number, number + 1);
    }
    assert_eq!(store.segments.len(), RETAINED_SEGMENTS);
    assert_eq!(store.segments[0].sequence, 5);
    assert_eq!(store.find_segment(7), 2);
    assert_eq!(store.find_segment(1), RETAINED_SEGMENTS);
}

#[test]
fn times_are_converted_between_clocks() {
    assert_eq!(video_to_audio_timestamp(90_000), 48_000);
    assert_eq!(video_timestamp(48_000), 90_000);
    let mut output = Vec::new();
    push_synchsafe(&mut output, 0x1ff);
    assert_eq!(output, [0, 0, 3, 0x7f]);
}

#[test]
fn durations_are_those_of_double_precision() {
    let third = Binary64::from_integer(1).divided_by(Binary64::from_integer(3));
    let expected = (1.0f64 / 3.0).to_bits();
    assert_eq!(third.mantissa, (expected & 0xf_ffff_ffff_ffff) | 0x10_0000_0000_0000);
    for (start, end) in [(0u64, 30_030u64), (7, 135_007), (0, 1), (3, 45_002)] {
        let value = ((end - start) as f64 / TIMESCALE as f64).max(0.001);
        let mut store = HlsStore::new(false);
        store.init = Some(vec![1]);
        store.segments.push_back(segment(0, SegmentDuration::between(start, end), vec![]));
        store.next_sequence = 1;
        let listed = format!("#EXTINF:{:.3},", value);
        assert!(store.playlist().contains(&listed), "{} lacks {listed}", store.playlist());
    }
}

#[test]
fn group_validation_rejects_duplicates_and_multi_host_serve_only() {
    let first = || IpAddr::V4(192, 0, 2, 10);
    let second = || IpAddr::V4(192, 0, 2, 20);
    assert!(validate_cast_hosts(&[first(), second()]).is_ok());
    assert!(validate_cast_hosts(&[first(), first()]).is_err());
    assert!(validate_serve_only(&[first()], true).is_ok());
    assert!(validate_serve_only(&[first(), second()], true).is_err());
    assert!(validate_serve_only(&[first(), second()], false).is_ok());
}

fn options() -> LiveOptions {
    LiveOptions {
        cast_hosts: vec![IpAddr::V4(192, 0, 2, 10)],
        cast_port: 8009,
        display_id: None,
        extend: false,
        http_port: 0,
        fps: 30,
        width: 1280,
        height: 720,
        bitrate: 6_000_000,
        duration: None,
        serve_only: false,
        audio: false,
    }
}

#[test]
fn live_options_are_checked_in_order() {
    assert!(validate_live(&options()).is_ok());
    let broken = LiveOptions { bitrate: 0, extend: true, display_id: Some(1), ..options() };
    assert!(matches!(validate_live(&broken), Err(LiveRefusal::BitrateNotPositive)));
    let broken = LiveOptions { extend: true, display_id: Some(1), ..options() };
    assert!(matches!(validate_live(&broken), Err(LiveRefusal::ExtendWithDisplay)));
    let broken = LiveOptions { cast_hosts: vec![], ..options() };
    assert!(matches!(validate_live(&broken), Err(LiveRefusal::Hosts(HostError::Missing))));
    let two = vec![IpAddr::V4(192, 0, 2, 10), IpAddr::V4(192, 0, 2, 20)];
    let broken = LiveOptions { cast_hosts: two, serve_only: true, ..options() };
    assert!(matches!(validate_live(&broken), Err(LiveRefusal::ServeOnlyNeedsOneHost)));
}

fn target(last: u8, interface: u8, store: usize) -> HlsTarget {
    HlsTarget {
        host: IpAddr::V4(192, 0, 2, last),
        serve_ip: IpAddr::V4(10, 0, 0, interface),
        route: format!("route{last}"),
        store,
    }
}

#[test]
fn interfaces_are_served_once_and_sorted() {
    assert_eq!(interface_order(&[target(1, 9, 0), target(2, 3, 0), target(3, 9, 0)]).len(), 2);
    assert!(route_is_taken(&["a".to_owned()], &"a".to_owned()));
    assert!(!route_is_taken(&["a".to_owned()], &"b".to_owned()));
    assert_eq!(loopback_for(&IpAddr::V4(10, 0, 0, 1)).text(), "127.0.0.1");
}

#[test]
fn startup_waits_for_every_store() {
    let mut failure = None;
    assert!(matches!(startup_tick(true, &mut failure, vec![], 0), LiveTick::Done));
    assert!(matches!(startup_tick(false, &mut failure, vec![None], 0), LiveTick::Wait));
    assert!(matches!(
        startup_tick(false, &mut failure, vec![None], STARTUP_TIMEOUT),
        LiveTick::Fail(_)
    ));
    failure = Some("capture ended".to_owned());
    assert!(matches!(startup_tick(false, &mut failure, vec![], 0), LiveTick::Fail(_)));
}

#[test]
fn sessions_run_until_something_ends_them() {
    let mut failure = None;
    assert!(matches!(live_tick(true, 0, None, &mut failure, vec![], &[]), LiveTick::Done));
    assert!(matches!(live_tick(false, 5, Some(5), &mut failure, vec![], &[]), LiveTick::Done));
    assert!(matches!(live_tick(false, 4, Some(5), &mut failure, vec![], &[]), LiveTick::Wait));
    let gone =
        ReceiverHealth { host: "192.0.2.1".to_owned(), failure: Some("closed".to_owned()) };
    let LiveTick::Fail(message) = live_tick(false, 0, None, &mut failure, vec![], &[gone]) else {
        panic!("the receiver is gone");
    };
    assert!(message.contains("192.0.2.1") && message.contains("closed"));
    let end = LiveEnd {
        run: None,
        captures: vec![None, Some("capture".to_owned())],
        receivers: vec![Some("receiver".to_owned())],
        displays: vec![],
    };
    assert!(end.outcome(&mut failure).unwrap().contains("capture"));
}

#[test]
fn failed_receivers_are_listed() {
    assert!(start_error(&[]).is_none());
    let failures = [
        StartFailure { host: "192.0.2.1".to_owned(), error: "refused".to_owned() },
        StartFailure { host: "192.0.2.2".to_owned(), error: "silent".to_owned() },
    ];
    let message = start_error(&failures).unwrap();
    assert!(message.contains("192.0.2.1") && message.contains("silent"));
}

#[test]
fn stores_are_reported_once() {
    let targets = [target(1, 1, 0), target(2, 1, 0)];
    let stats = store_with_init(vec![1]).stats();
    assert!(stats_line(&targets, 0, stats).is_some());
    assert!(stats_line(&targets, 1, stats).is_none());
}

fn keyframe(fill: u8, size: usize) -> Vec<u8> {
    let mut data = vec![0, 0, 0, size as u8, 0x65];
    data.resize(4 + size, fill);
    data
}

#[test]
fn live_segments_hold_the_encoded_frames() {
    let mut pipeline = LivePipeline::new(30, 640, 360, 1_000_000);
    let mut clock = MediaClock::new();
    let mut store = HlsStore::new(false);
    let sets = || Some((vec![0x67, 0x42, 0xe0, 0x1f], vec![0x68, 0xce]));
    let mut flushed = 0;
    for number in 0..120i64 {
        let time = MediaTimestamp::new(number, 30);
        let timestamp = pipeline.normalized_timestamp(&mut clock, time);
        assert_eq!(timestamp, number as u64 * 3_000);
        let data = if number % 15 == 0 {
            keyframe(0xab, 40)
        } else {
            vec![0, 0, 0, 3, 0x41, 0xcd, number as u8]
        };
        assert!(pipeline.has_room(data.len()));
        let own = if pipeline.needs_parameter_sets(&data).unwrap() { sets() } else { None };
        if pipeline.add_frame(&data, timestamp, own, &mut store).unwrap().is_some() {
            flushed += 1;
        }
    }
    assert!(flushed > 1);
    assert_eq!(store.segments.len(), flushed);
    let init = store.init.as_ref().unwrap();
    assert_eq!(&init[4..8], b"ftyp");
    assert!(init.windows(4).any(|window| window == b"moov"));
    let metadata = store.metadata.as_ref().unwrap();
    assert_eq!(metadata.codec, "avc1.42E01F");
    let first = &store.segments[0].video;
    assert!(first.windows(4).any(|window| window == b"moof"));
    assert!(first.windows(4).any(|window| window == b"mdat"));
    assert!(first.windows(8).any(|window| window == [0xab; 8]));
    assert_eq!(store.segments[1].sequence, 1);
}

#[test]
fn live_streams_begin_with_their_parameter_sets() {
    let mut pipeline = LivePipeline::new(30, 640, 360, 1_000_000);
    let mut clock = MediaClock::new();
    let mut store = HlsStore::new(false);
    let timestamp = pipeline.normalized_timestamp(&mut clock, MediaTimestamp::new(0, 30));
    assert!(matches!(
        pipeline.add_frame(&keyframe(1, 9), timestamp, None, &mut store),
        Err(LiveError::ParameterSetsMissing)
    ));
    assert!(matches!(
        pipeline.add_frame(&[0, 0], timestamp, None, &mut store),
        Err(LiveError::Frame(_))
    ));
}
