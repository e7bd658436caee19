use cast::encoder::{
    encoder_options, encoder_surface, packet_timestamp, try_provider_candidates, EmptySettings,
    EncoderOption, EncoderSurface, EncodingPriority, H264Provider, LinuxEncoderControl,
    LinuxVideoEncoder, SearchStep, ZeroBitrate,
};
use cast::bytes::even;
use cast::monitors::{
    resolve_backend, select_monitor, sort_monitors, validate_source_options, Backend,
    BackendPreference, Monitor, SourceConflict,
};
use cast::picture::{
    composite_cursor, validate_frame, CapturedFrame, CursorImage, CursorPixelFormat, FrameError,
    RawPixelFormat,
};

#[test]
fn encoder_dimensions_are_even() {
    assert_eq!(even(1920), 1920);
    assert_eq!(even(1921), 1920);
}

#[test]
fn cursor_metadata_is_composited_and_clipped() {
    let mut frame = CapturedFrame {
        data: vec![0; 4 * 4 * 4],
        stride: 16,
        width: 4,
        height: 4,
        format: RawPixelFormat::Bgrx,
        timestamp: 0,
        cursor: None,
    };
    let cursor = CursorImage {
        position: (0, 0),
        hotspot: (1, 1),
        width: 2,
        height: 2,
        stride: 8,
        format: CursorPixelFormat::Bgra,
        pixels: vec![1, 1, 1, 255, 1, 1, 1, 255, 1, 1, 1, 255, 1, 1, 1, 255],
    };
    composite_cursor(&mut frame, &cursor);
    assert_eq!(&frame.data[..4], &[1, 1, 1, 0]);
    assert!(frame.data[4..].iter().all(|value| *value == 0));
}

#[test]
fn cursor_color_layout_and_alpha_are_converted_to_the_frame_layout() {
    let mut frame = CapturedFrame {
        data: vec![10, 20, 30, 0],
        stride: 4,
        width: 1,
        height: 1,
        format: RawPixelFormat::Rgbx,
        timestamp: 0,
        cursor: None,
    };
    let cursor = CursorImage {
        position: (0, 0),
        hotspot: (0, 0),
        width: 1,
        height: 1,
        stride: 4,
        format: CursorPixelFormat::Argb,
        pixels: vec![128, 110, 120, 130],
    };
    composite_cursor(&mut frame, &cursor);
    assert_eq!(frame.data, [60, 70, 80, 0]);
}

#[test]
fn transparent_cursors_and_short_rows_draw_nothing() {
    let picture: Vec<u8> = (0..16).collect();
    let mut frame = CapturedFrame {
        data: picture.clone(),
        stride: 8,
        width: 2,
        height: 2,
        format: RawPixelFormat::Bgra,
        timestamp: 0,
        cursor: None,
    };
    let mut cursor = CursorImage {
        position: (0, 0),
        hotspot: (0, 0),
        width: 2,
        height: 2,
        stride: 8,
        format: CursorPixelFormat::Rgba,
        pixels: vec![9, 9, 9, 0].repeat(4),
    };
    composite_cursor(&mut frame, &cursor);
    assert_eq!(frame.data, picture);
    cursor.pixels = vec![9, 9, 9, 255].repeat(4);
    cursor.stride = 7;
    composite_cursor(&mut frame, &cursor);
    assert_eq!(frame.data, picture);
}

#[test]
fn frames_have_to_hold_their_rows() {
    assert_eq!(validate_frame(4, 2, 16, 32), Ok(()));
    assert_eq!(validate_frame(0, 2, 16, 32), Err(FrameError::Empty));
    assert_eq!(validate_frame(4, 2, usize::MAX, 32), Err(FrameError::TooLarge));
    assert_eq!(validate_frame(4, 2, 15, 32), Err(FrameError::Short));
    assert_eq!(validate_frame(4, 2, 16, 31), Err(FrameError::Short));
}

#[test]
fn control_requests_validate_bitrate_and_coalesce_restarts() {
    let mut control = LinuxEncoderControl::new(6_000_000);
    assert!(control.set_bitrate(0).is_err());
    control.set_bitrate(4_800_000).unwrap();
    control.set_bitrate(4_800_000).unwrap();
    assert_eq!(control.generation, 1);
    assert!(control.force_keyframe);
}

#[test]
fn encoder_control_boundary_supports_rate_and_keyframe_requests() {
    let mut encoder = LinuxEncoderControl { bitrate: 6_000_000, generation: 0, force_keyframe: false };
    encoder.set_bitrate(4_800_000).unwrap();
    encoder.force_keyframe();
    assert_eq!(encoder.bitrate, 4_800_000);
    assert!(encoder.take_keyframe());
    assert!(!encoder.take_keyframe());
}

#[test]
fn keyframe_requests_count_once() {
    let mut control = LinuxEncoderControl::new(6_000_000);
    assert_eq!(control.set_bitrate(0), Err(ZeroBitrate));
    assert!(control.take_keyframe());
    assert!(!control.take_keyframe());
    control.force_keyframe();
    assert!(control.take_keyframe());
}

fn option(options: &[EncoderOption], key: &str) -> Option<&'static str> {
    options.iter().find(|option| option.key == key).map(|option| option.value)
}

#[test]
fn encoding_priority_selects_distinct_provider_options() {
    let fast_nvenc = encoder_options("h264_nvenc", EncodingPriority::Speed);
    let quality_nvenc = encoder_options("h264_nvenc", EncodingPriority::Quality);
    assert_eq!(option(&fast_nvenc, "preset"), Some("p1"));
    assert_eq!(option(&quality_nvenc, "preset"), Some("p5"));
    assert_eq!(option(&fast_nvenc, "profile"), Some("baseline"));

    let fast_vaapi = encoder_options("h264_vaapi", EncodingPriority::Speed);
    let quality_vaapi = encoder_options("h264_vaapi", EncodingPriority::Quality);
    assert_eq!(option(&fast_vaapi, "quality"), Some("7"));
    assert_eq!(option(&quality_vaapi, "quality"), Some("1"));
    assert_eq!(option(&fast_vaapi, "profile"), Some("constrained_baseline"));

    let fast_openh264 = encoder_options("libopenh264", EncodingPriority::Speed);
    let quality_openh264 = encoder_options("libopenh264", EncodingPriority::Quality);
    assert_eq!(option(&fast_openh264, "rc_mode"), Some("bitrate"));
    assert_eq!(option(&quality_openh264, "rc_mode"), Some("quality"));
    assert_eq!(option(&fast_openh264, "profile"), Some("constrained_baseline"));
    assert_ne!(
        EncodingPriority::from_speed_priority(true),
        EncodingPriority::from_speed_priority(false)
    );
}

#[test]
fn automatic_provider_open_falls_through_in_priority_order() {
    let candidates = ["h264_nvenc", "h264_vaapi", "libopenh264"];
    let mut attempted = Vec::new();
    let mut attempts = Vec::new();
    let selected = loop {
        match try_provider_candidates(H264Provider::Auto, &candidates, &attempts) {
            SearchStep::Open(index) => {
                let name = candidates[index];
                attempted.push(name);
                attempts.push(if name == "libopenh264" {
                    None
                } else {
                    Some("simulated provider open failure".to_owned())
                });
            }
            SearchStep::Opened(index) => break candidates[index],
            SearchStep::Failed(error) => panic!("{error}"),
        }
    };
    assert_eq!(selected, "libopenh264");
    assert_eq!(attempted, ["h264_nvenc", "h264_vaapi", "libopenh264"]);
}

#[test]
fn explicit_provider_open_preserves_the_root_error_without_fallback() {
    let candidates = ["h264_nvenc"];
    let mut attempted = Vec::new();
    let mut attempts = Vec::new();
    let error = loop {
        match try_provider_candidates(H264Provider::Nvenc, &candidates, &attempts) {
            SearchStep::Open(index) => {
                attempted.push(candidates[index]);
                attempts.push(Some("driver rejected the encoder".to_owned()));
            }
            SearchStep::Opened(_) => panic!("nothing was opened"),
            SearchStep::Failed(error) => break error,
        }
    };
    assert_eq!(attempted, ["h264_nvenc"]);
    assert!(error.contains("requested Linux H.264 provider"));
    assert!(error.contains("driver rejected the encoder"));
}

#[test]
fn every_failed_provider_is_named() {
    let failed = |text: &str| Some(text.to_owned());
    let SearchStep::Failed(error) =
        try_provider_candidates(H264Provider::Auto, &["a", "b"], &[failed("x"), failed("y")])
    else {
        panic!("both candidates failed");
    };
    assert_eq!(error, "no detected Linux H.264 provider could be opened: a: x; b: y");
}

#[test]
fn encoders_are_opened_again_when_the_source_changes() {
    assert_eq!(
        LinuxVideoEncoder::new(0, 48, 30, 1, RawPixelFormat::Bgra, EncodingPriority::Speed),
        Err(EmptySettings)
    );
    let (mut encoder, mut control, settings) = LinuxVideoEncoder::new(
        64,
        64,
        30,
        1_000_000,
        RawPixelFormat::Bgra,
        EncodingPriority::Speed,
    )
    .unwrap();
    assert_eq!(settings.bitrate, 1_000_000);
    let same = encoder.accept(&control, 64, 64, 256, 64 * 256, RawPixelFormat::Bgra);
    assert_eq!(same, Ok(None));
    assert!(control.take_keyframe());
    assert_eq!(encoder.stamp(0), 0);
    assert_eq!(encoder.stamp(0), 1);

    control.set_bitrate(800_000).unwrap();
    let generation = control.generation;
    let reopen = encoder
        .accept(&control, 80, 48, 320, 48 * 320, RawPixelFormat::Bgra)
        .unwrap()
        .unwrap();
    assert_eq!((reopen.source_width, reopen.bitrate), (80, 800_000));
    encoder.reopened(&mut control, generation, reopen);
    assert_eq!(encoder.accept(&control, 80, 48, 320, 48 * 320, RawPixelFormat::Bgra), Ok(None));
    assert!(control.take_keyframe());
    assert_eq!(encoder.stamp(6_000), 6_000);
    assert!(encoder.is_for(64, 64, RawPixelFormat::Bgra));
    assert_eq!(
        encoder.accept(&control, 80, 48, 319, 48 * 320, RawPixelFormat::Bgra),
        Err(FrameError::Short)
    );
}

#[test]
fn packets_are_stamped_with_what_they_carry() {
    assert_eq!(packet_timestamp(Some(5), Some(4)), 5);
    assert_eq!(packet_timestamp(None, Some(4)), 4);
    assert_eq!(packet_timestamp(Some(-5), Some(4)), 0);
    assert_eq!(packet_timestamp(None, None), 0);
    assert_eq!(encoder_surface("h264_vaapi", false), (EncoderSurface::Nv12, true));
    assert_eq!(encoder_surface("libopenh264", false), (EncoderSurface::Yuv420p, false));
    assert_eq!(encoder_surface("h264_nvenc", true), (EncoderSurface::Nv12, false));
}

fn monitor(name: &str, x: i16, y: i16, primary: bool) -> Monitor {
    Monitor { name: name.to_owned(), x, y, width: 1920, height: 1080, primary }
}

#[test]
fn monitor_geometry_is_xrandr_compatible() {
    assert_eq!(monitor("DP-1", -1920, 40, false).geometry(), "1920x1080-1920+40");
}

#[test]
fn monitors_are_listed_primary_first() {
    let mut monitors = vec![
        monitor("C", 0, 1080, false),
        monitor("B", 1920, 0, false),
        monitor("D", 0, 0, false),
        monitor("A", 3840, 0, true),
        monitor("B2", 0, 0, false),
    ];
    sort_monitors(&mut monitors);
    let names: Vec<&str> = monitors.iter().map(|monitor| monitor.name.as_str()).collect();
    assert_eq!(names, ["A", "B2", "D", "B", "C"]);
    assert_eq!(select_monitor(&monitors, None), Some(0));
    assert_eq!(select_monitor(&monitors, Some("B")), Some(3));
    assert_eq!(select_monitor(&monitors, Some("E")), None);
    assert_eq!(select_monitor(&[], None), None);
}

#[test]
fn capture_backends_follow_the_session() {
    assert_eq!(BackendPreference::default(), BackendPreference::Auto);
    assert_eq!(resolve_backend(BackendPreference::Auto, "X11", false), Backend::X11);
    assert_eq!(resolve_backend(BackendPreference::Auto, "wayland", true), Backend::X11);
    assert_eq!(resolve_backend(BackendPreference::Auto, "wayland", false), Backend::Portal);
    assert_eq!(resolve_backend(BackendPreference::Portal, "x11", true), Backend::Portal);
    assert_eq!(
        validate_source_options(Backend::X11, true, true, false),
        Err(SourceConflict::ChooserWithX11)
    );
    assert_eq!(
        validate_source_options(Backend::Portal, true, true, false),
        Err(SourceConflict::DisplayWithPortal)
    );
    assert_eq!(validate_source_options(Backend::X11, true, false, false), Ok(true));
    assert_eq!(validate_source_options(Backend::X11, true, false, true), Ok(false));
}
