use cast::float64::Double;
use cast::media::{
    audio_start, compatible_dimensions, container_family, frame_duration, hls_options,
    keyframe_distance, monotonic_packet_timestamps, plan, positive_or, remux_step,
    resampled_capacity, route_packet, AudioFrames, AudioInfo, CodecId, CompatibilityMode,
    ContainerFamily, CopiedPacket, CopiedStream, MediaInfo, PacketRoute, PixelFormat,
    PreparationPlan, PresentationTimeMissing, RemuxStep, TranscodeTracks, VideoInfo,
};

fn media(container: &str, video: (CodecId, &str), audio: Option<(CodecId, &str)>) -> MediaInfo {
    MediaInfo {
        container: container.to_owned(),
        video: VideoInfo {
            stream_index: 0,
            codec: video.0,
            codec_name: video.1.to_owned(),
            width: 1920,
            height: 1080,
            pixel_format: PixelFormat::Yuv420p,
        },
        audio: audio.map(|codec| AudioInfo {
            stream_index: 1,
            codec: codec.0,
            codec_name: codec.1.to_owned(),
            sample_rate: 48_000,
            channels: 2,
        }),
    }
}

const H264: (CodecId, &str) = (CodecId::H264, "h264");
const HEVC: (CodecId, &str) = (CodecId::Other, "hevc");
const VP9: (CodecId, &str) = (CodecId::Vp9, "vp9");
const AAC: (CodecId, &str) = (CodecId::Aac, "aac");
const OPUS: (CodecId, &str) = (CodecId::Opus, "opus");
const EAC3: (CodecId, &str) = (CodecId::Other, "eac3");

#[test]
fn identifies_container_families_from_ffmpeg_names() {
    assert_eq!(container_family("mov,mp4,m4a,3gp,3g2,mj2"), ContainerFamily::Mp4);
    assert_eq!(container_family("matroska,webm"), ContainerFamily::WebM);
    assert_eq!(container_family("avi"), ContainerFamily::Other);
}

#[test]
fn directly_serves_conservative_mp4_and_webm_combinations() {
    assert_eq!(
        plan(&media("mov,mp4", H264, Some(AAC)), CompatibilityMode::Auto).unwrap(),
        PreparationPlan::Direct { content_type: "video/mp4".to_owned() }
    );
    assert_eq!(
        plan(&media("matroska,webm", VP9, Some(OPUS)), CompatibilityMode::Auto).unwrap(),
        PreparationPlan::Direct { content_type: "video/webm".to_owned() }
    );
}

#[test]
fn remuxes_compatible_streams_from_an_incompatible_container() {
    assert!(matches!(
        plan(&media("matroska", H264, Some(AAC)), CompatibilityMode::Auto).unwrap(),
        PreparationPlan::Remux { .. }
    ));
}

#[test]
fn transcodes_incompatible_video_or_audio() {
    let PreparationPlan::Transcode { tracks, .. } =
        plan(&media("matroska", HEVC, Some(OPUS)), CompatibilityMode::Auto).unwrap()
    else {
        panic!("incompatible media was not selected for transcoding");
    };
    assert_eq!(tracks, TranscodeTracks::all(true));
}

#[test]
fn transcodes_only_the_incompatible_track() {
    let PreparationPlan::Transcode { tracks: audio_only, .. } =
        plan(&media("matroska", H264, Some(EAC3)), CompatibilityMode::Auto).unwrap()
    else {
        panic!("incompatible audio was not selected for transcoding");
    };
    assert_eq!(audio_only, TranscodeTracks { video: false, audio: true });

    let PreparationPlan::Transcode { tracks: video_only, .. } =
        plan(&media("matroska", HEVC, Some(AAC)), CompatibilityMode::Auto).unwrap()
    else {
        panic!("incompatible video was not selected for transcoding");
    };
    assert_eq!(video_only, TranscodeTracks { video: true, audio: false });
}

#[test]
fn repairs_small_backward_encoder_timestamp_jumps() {
    let mut last_dts = None;
    assert_eq!(
        monotonic_packet_timestamps(Some(100), Some(100), &mut last_dts),
        (Some(100), Some(100))
    );
    assert_eq!(last_dts, Some(100));
    assert_eq!(
        monotonic_packet_timestamps(Some(84), Some(84), &mut last_dts),
        (Some(101), Some(101))
    );
    assert_eq!(last_dts, Some(101));
    assert_eq!(
        monotonic_packet_timestamps(Some(220), Some(225), &mut last_dts),
        (Some(220), Some(225))
    );
    assert_eq!(last_dts, Some(220));
}

#[test]
fn never_mode_rejects_non_direct_media() {
    assert!(plan(&media("matroska", H264, Some(AAC)), CompatibilityMode::Never).is_err());
}

#[test]
fn normalizes_oversized_otherwise_compatible_video() {
    let mut input = media("mov,mp4", H264, Some(AAC));
    input.video.width = 3840;
    input.video.height = 2160;
    assert!(matches!(
        plan(&input, CompatibilityMode::Auto).unwrap(),
        PreparationPlan::Transcode { .. }
    ));
}

#[test]
fn compatibility_dimensions_preserve_size_or_fit_inside_1080p() {
    assert_eq!(compatible_dimensions(1280, 720), (1280, 720));
    assert_eq!(compatible_dimensions(3840, 2160), (1920, 1080));
    assert_eq!(compatible_dimensions(1080, 1920), (608, 1080));
}

#[test]
fn pictures_that_fit_lose_at_most_an_odd_row_or_column() {
    assert_eq!(compatible_dimensions(1919, 1079), (1918, 1078));
    assert_eq!(compatible_dimensions(2, 1080), (2, 1080));
    assert_eq!(compatible_dimensions(u32::MAX, u32::MAX), (1080, 1080));
}

#[test]
fn pictures_that_are_too_large_fill_one_direction() {
    assert_eq!(compatible_dimensions(4096, 1716).0, 1920);
    assert_eq!(compatible_dimensions(1921, 2), (1920, 2));
    assert_eq!(compatible_dimensions(3, 40_000), (2, 1080));
    assert_eq!(compatible_dimensions(0, u32::MAX).1, 1080);
}

#[test]
fn dimensions_agree_with_double_precision() {
    for (width, height) in [(1921u32, 1081u32), (4096, 1716), (3, 40_000), (65_535, 17), (2560, 1440)]
    {
        let scale = (1920.0 / f64::from(width)).min(1080.0 / f64::from(height)).min(1.0);
        let even = |value: f64| (value.round() as u32).max(2) & !1;
        let expected = (even(f64::from(width) * scale), even(f64::from(height) * scale));
        assert_eq!(compatible_dimensions(width, height), expected, "{width}x{height}");
    }
}

#[test]
fn plans_are_described_and_forced() {
    assert_eq!(CompatibilityMode::default(), CompatibilityMode::Auto);
    let PreparationPlan::Transcode { tracks, reasons } =
        plan(&media("mov,mp4", H264, Some(AAC)), CompatibilityMode::Always).unwrap()
    else {
        panic!("transcoding was asked for");
    };
    assert_eq!(tracks, TranscodeTracks::all(true));
    let described = PreparationPlan::Transcode { tracks, reasons }.description();
    assert!(described.contains("transcod"));
}

#[test]
fn copied_packets_get_the_decode_times_they_lack() {
    let packet = |number, pts, dts| CopiedPacket { number, pts, dts, duration: 10 };
    let mut stream = CopiedStream::new();
    let written = stream.write_packet(packet(0, Some(0), Some(0))).unwrap();
    assert_eq!(written[0].dts, Some(0));
    assert_eq!(
        stream.write_packet(packet(1, None, None)).err(),
        Some(PresentationTimeMissing {})
    );
    let mut rest = stream.write_packet(packet(2, Some(20), Some(0))).unwrap();
    rest.extend(stream.finish_pending());
    assert!(rest.iter().all(|packet| packet.dts > Some(0)));
}

#[test]
fn rates_become_durations() {
    assert_eq!(positive_or(5, 1), 5);
    assert_eq!(positive_or(-5, 1), 1);
    assert_eq!(frame_duration((30, 1), (1, 90_000)), 3_000);
    assert_eq!(frame_duration((30_000, 1_001), (1, 90_000)), 3_003);
    assert_eq!(keyframe_distance((30, 1)), 60);
    assert_eq!(audio_start(90_000, (1, 90_000)), 48_000);
    assert_eq!(resampled_capacity(44_100, 44_100), 48_000 + 256);
}

#[test]
fn audio_is_cut_into_frames() {
    let mut frames = AudioFrames { next_pts: None, frame_size: 1024 };
    frames.start_at(Some(0), (1, 48_000));
    assert_eq!(frames.next_frame(1023, false), None);
    assert_eq!(frames.next_frame(1500, false), Some((1024, 0)));
    assert_eq!(frames.next_frame(476, true), Some((476, 1024)));
    assert_eq!(frames.next_frame(0, true), None);
}

#[test]
fn packets_go_where_their_stream_does() {
    let info = media("matroska", HEVC, Some(AAC));
    let tracks = TranscodeTracks { video: true, audio: false };
    assert_eq!(route_packet(true, 0, &info, tracks), PacketRoute::Cancelled);
    assert_eq!(route_packet(false, 0, &info, tracks), PacketRoute::EncodeVideo);
    assert_eq!(route_packet(false, 1, &info, tracks), PacketRoute::CopyAudio);
    assert_eq!(route_packet(false, 2, &info, tracks), PacketRoute::Ignore);
    assert_eq!(remux_step(false, 2, &info, true, true), RemuxStep::Skip);
    assert_eq!(remux_step(false, 0, &info, false, true), RemuxStep::TimesMissing);
    assert_eq!(remux_step(false, 0, &info, true, true), RemuxStep::Write);
    assert_eq!(remux_step(true, 0, &info, true, true), RemuxStep::Cancelled);
    let options = hls_options("/tmp/segment-%d.m4s", tracks);
    assert_eq!(options.len(), 7);
    assert_eq!((options[1].key, options[1].value.as_str()), ("hls_time", "2"));
    assert_eq!(options[5].value, "/tmp/segment-%d.m4s");
    assert_eq!(options[6].value, "independent_segments+temp_file");
    let copied = hls_options("a", TranscodeTracks { video: false, audio: true });
    assert_eq!((copied[6].key, copied[6].value.as_str()), ("hls_flags", "temp_file"));
}

#[test]
fn measurements_are_compared_by_their_place() {
    let (low, high) = (Double { order: -1 }, Double { order: 4 });
    assert_eq!(low.larger(high), high);
    assert_eq!(low.smaller(high), low);
}

#[test]
fn measurements_that_are_no_numbers_give_way() {
    let place = |value: f64| {
        let bits = value.to_bits() as i64;
        Double { order: if bits < 0 { bits ^ i64::MAX } else { bits } }
    };
    let values = [0.0, 1.5, -2.0, f64::INFINITY, f64::NEG_INFINITY, f64::NAN, -f64::NAN];
    for left in values {
        for right in values {
            let (larger, smaller) = (left.max(right), left.min(right));
            if larger.is_nan() {
                assert_eq!(place(left).larger(place(right)), place(right));
                assert_eq!(place(left).smaller(place(right)), place(right));
            } else {
                assert_eq!(place(left).larger(place(right)), place(larger));
                assert_eq!(place(left).smaller(place(right)), place(smaller));
            }
        }
    }
}
