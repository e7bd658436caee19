use cast::audio::{
    adts_header, decode_interleaved_stereo, decode_samples, first_audio_timestamp, frame_packet,
    is_requested_format, packet_timestamp, AccessUnit, AudioBufferError, AudioCommand,
    AudioPipeline, AudioSubmitter, CapturedFormat, CapturedPcm, ChannelLayout, FormatError, PacketTooLarge,
    PlaneError, SampleCursor, TruncatedStereoBuffer, MAX_CONTINUOUS_SILENCE_SAMPLES,
};
use cast::float32::Single;
use cast::hls::ACCESS_UNIT_SAMPLES;

fn single(value: f32) -> Single {
    Single { bits: value.to_bits() }
}

fn silence(frames: usize) -> Vec<Single> {
    vec![single(0.0); frames * 2]
}

#[test]
fn audio_adts_header_describes_aac_lc_stereo_at_48_khz() {
    let header = adts_header(100).unwrap();
    assert_eq!(&header[..2], &[0xff, 0xf1]);
    assert_eq!((header[2] >> 2) & 0xf, 3);
    assert_eq!(((header[2] & 1) << 2) | (header[3] >> 6), 2);
    let length = (usize::from(header[3] & 3) << 11)
        | (usize::from(header[4]) << 3)
        | usize::from(header[5] >> 5);
    assert_eq!(length, 107);
}

#[test]
fn linux_audio_adts_header_describes_aac_lc_stereo_at_48_khz() {
    let header = adts_header(100).unwrap();
    assert_eq!(&header[..2], &[0xff, 0xf1]);
    assert_eq!((header[2] >> 2) & 0xf, 3);
    assert_eq!(((header[2] & 1) << 2) | (header[3] >> 6), 2);
}

#[test]
fn adts_headers_are_exact_and_bounded() {
    assert_eq!(adts_header(100).unwrap(), [0xff, 0xf1, 0x4c, 0x80, 0x0d, 0x7f, 0xfc]);
    assert_eq!(adts_header(0x1fff - 7).unwrap()[3..6], [0x83, 0xff, 0xff]);
    assert_eq!(adts_header(0x1fff - 6), Err(PacketTooLarge {}));
    assert_eq!(adts_header(usize::MAX), Err(PacketTooLarge {}));
}

#[test]
fn framed_packets_carry_their_header() {
    let packet = frame_packet(&[1, 2, 3]).unwrap();
    assert_eq!(packet.len(), 10);
    assert_eq!(&packet[7..], &[1, 2, 3]);
    assert_eq!((usize::from(packet[4]) << 3) | usize::from(packet[5] >> 5), 10);
    assert_eq!(frame_packet(&vec![0; 0x2000]), Err(PacketTooLarge {}));
}

#[test]
fn pcm_pipeline_repairs_gaps_and_rejects_partial_stereo_frames() {
    let mut pipeline = AudioPipeline::new();
    let mut frames: Vec<AccessUnit> = Vec::new();
    frames.extend(pipeline.push_pcm(0, &silence(ACCESS_UNIT_SAMPLES)).unwrap());
    assert_eq!(pipeline.next_sample, ACCESS_UNIT_SAMPLES as u64);
    frames.extend(
        pipeline
            .push_pcm((ACCESS_UNIT_SAMPLES * 2) as u64, &silence(ACCESS_UNIT_SAMPLES))
            .unwrap(),
    );
    assert_eq!(pipeline.next_sample, (ACCESS_UNIT_SAMPLES * 3) as u64);
    frames.extend(
        pipeline
            .push_pcm(
                (ACCESS_UNIT_SAMPLES * 2 + ACCESS_UNIT_SAMPLES / 2) as u64,
                &silence(ACCESS_UNIT_SAMPLES),
            )
            .unwrap(),
    );
    assert_eq!(
        pipeline.next_sample,
        (ACCESS_UNIT_SAMPLES * 3 + ACCESS_UNIT_SAMPLES / 2) as u64
    );
    assert!(!frames.is_empty());
    assert!(pipeline.push_pcm(0, &[single(0.0)]).is_err());
}

#[test]
fn access_units_keep_the_samples_and_their_places() {
    let mut pipeline = AudioPipeline::new();
    let pcm: Vec<Single> = (0..ACCESS_UNIT_SAMPLES)
        .flat_map(|index| [single(index as f32), single(-(index as f32))])
        .collect();
    let units = pipeline.push_pcm(48, &pcm).unwrap();
    assert_eq!(units.len(), 1);
    assert_eq!(units[0].left.len(), ACCESS_UNIT_SAMPLES);
    assert_eq!(units[0].left[48], single(0.0));
    assert_eq!(units[0].left[49], single(1.0));
    assert_eq!(units[0].right[50], single(-2.0));
    assert_eq!(pipeline.next_sample, 48 + ACCESS_UNIT_SAMPLES as u64);
    assert_eq!(pipeline.push_pcm(0, &[single(0.0)]).err(), Some(TruncatedStereoBuffer {}));
}

#[test]
fn long_gaps_are_skipped_rather_than_filled() {
    let mut pipeline = AudioPipeline::new();
    pipeline.push_pcm(0, &silence(ACCESS_UNIT_SAMPLES)).unwrap();
    let units = pipeline.advance_to(MAX_CONTINUOUS_SILENCE_SAMPLES * 4);
    assert_eq!(pipeline.next_sample, MAX_CONTINUOUS_SILENCE_SAMPLES * 4);
    assert!(units.len() as u64 * ACCESS_UNIT_SAMPLES as u64 <= MAX_CONTINUOUS_SILENCE_SAMPLES * 2);
}

#[test]
fn first_audio_buffer_preserves_its_offset_from_the_shared_epoch() {
    assert_eq!(first_audio_timestamp(24_000, 480), 23_520);
    assert_eq!(first_audio_timestamp(240, 480), 0);
}

#[test]
fn bounded_capture_queue_records_overflow_as_a_runtime_failure() {
    let mut failure = None;
    let mut submitter = AudioSubmitter::new(1);
    submitter.submit_pcm(0, silence(1), &mut failure);
    submitter.submit_pcm(1, silence(1), &mut failure);
    assert_eq!(failure.as_deref(), Some("audio capture queue is full"));
    assert!(matches!(
        submitter.take(),
        Some(AudioCommand::Sample(CapturedPcm { timestamp: 0, .. }))
    ));
    assert!(submitter.take().is_none());
}

#[test]
fn a_stopped_audio_worker_is_a_runtime_failure() {
    let mut failure = None;
    let mut submitter: AudioSubmitter<u8> = AudioSubmitter::new(4);
    submitter.submit(7, &mut failure);
    assert!(matches!(submitter.take(), Some(AudioCommand::Sample(7))));
    submitter.advance_to(480, &mut failure);
    assert!(failure.is_none());
    assert!(matches!(submitter.take(), Some(AudioCommand::AdvanceTo(480))));
    submitter.running = false;
    submitter.advance_to(960, &mut failure);
    assert!(failure.is_some());
}

#[test]
fn samples_are_read_little_endian() {
    let mut bytes = 0.5f32.to_le_bytes().to_vec();
    bytes.extend((-2.0f32).to_le_bytes());
    assert_eq!(decode_samples(&bytes, 2).unwrap(), [single(0.5), single(-2.0)]);
    let (left, right) = decode_interleaved_stereo(&bytes, 1).unwrap();
    assert_eq!((left[0], right[0]), (single(0.5), single(-2.0)));
    assert_eq!(decode_samples(&bytes, 3), Err(AudioBufferError::Truncated));
    assert_eq!(decode_samples(&bytes, usize::MAX), Err(AudioBufferError::TooLarge));
    assert_eq!(
        decode_interleaved_stereo(&bytes, usize::MAX / 2).err(),
        Some(AudioBufferError::TooLarge)
    );
}

#[test]
fn captured_formats_are_recognised_or_refused() {
    let planar = CapturedFormat {
        rate_matches: true,
        channels: 2,
        bits: 32,
        is_float: true,
        is_big_endian: false,
        flags: Some(0x20),
        buffers: 2,
    };
    assert_eq!(planar.layout(), Ok(ChannelLayout::Planar));
    let interleaved = CapturedFormat { flags: Some(0), buffers: 1, ..planar };
    assert_eq!(interleaved.layout(), Ok(ChannelLayout::Interleaved));
    let mono = CapturedFormat { channels: 1, ..planar };
    assert_eq!(mono.layout(), Err(FormatError::UnsupportedFormat));
    let odd = CapturedFormat { buffers: 3, ..planar };
    assert_eq!(odd.layout(), Err(FormatError::UnsupportedLayout));
}

#[test]
fn packets_fall_back_to_the_sample_clock() {
    assert_eq!(packet_timestamp(Some(1024), 7), 1024);
    assert_eq!(packet_timestamp(None, 7), 7);
}

#[test]
fn stream_buffers_are_cut_and_counted() {
    let mut cursor = SampleCursor { next: None };
    let mut plane = vec![0u8; 4];
    for value in [0.25f32, 0.5, 0.75, 1.0] {
        plane.extend(value.to_le_bytes());
    }
    let (timestamp, samples) = cursor.read(&plane, 4, 16, 24_000).unwrap();
    assert_eq!(timestamp, 23_998);
    assert_eq!(samples, [single(0.25), single(0.5), single(0.75), single(1.0)]);
    let (timestamp, _) = cursor.read(&plane, 4, 16, 90_000).unwrap();
    assert_eq!(timestamp, 24_000);
    assert_eq!(cursor.read(&plane, 8, 16, 0), Err(PlaneError::Truncated));
    assert_eq!(cursor.read(&plane, 4, 12, 0), Err(PlaneError::PartialFrames));
    assert!(is_requested_format(true, 48_000, 2));
    assert!(!is_requested_format(true, 44_100, 2));
}
