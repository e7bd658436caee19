use cast::capture::{
    after_attempt, duration_ticks, frame_deadline, has_bitrate, CaptureAttempt, CaptureEpoch,
    EpochCounter, RunningCapture, StopStep, DISPLAY_PATIENCE,
};
use cast::clock::{
    duration_micros, elapsed, elapsed_micros, micros_to_millis_ceil, ntp_timestamp, MediaClock,
    MediaTimestamp,
};

#[test]
fn audio_media_clock_uses_one_epoch_across_timebases() {
    let mut clock = MediaClock::new();
    assert_eq!(clock.ticks(MediaTimestamp::new(10, 1), 90_000), Some(0));
    assert_eq!(clock.ticks(MediaTimestamp::new(21, 2), 48_000), Some(24_000));
    assert_eq!(clock.ticks(MediaTimestamp::new(11, 1), 90_000), Some(90_000));
}

#[test]
fn desktop_media_clock_uses_one_epoch_across_timebases() {
    let mut clock = MediaClock::new();
    assert_eq!(clock.ticks(MediaTimestamp::new(10, 1), 90_000), Some(0));
    assert_eq!(clock.ticks(MediaTimestamp::new(21, 2), 48_000), Some(24_000));
    assert_eq!(clock.ticks(MediaTimestamp::new(11, 1), 90_000), Some(90_000));
    assert_eq!(clock.ticks(MediaTimestamp::invalid(), 90_000), None);
}

#[test]
fn one_epoch_maps_audio_video_and_extended_sources_without_rebasing() {
    assert_eq!(duration_ticks(250_000_000, 90_000), 22_500);
    assert_eq!(duration_ticks(250_000_000, 48_000), 12_000);
    assert_eq!(duration_ticks(2_000_000_000, 90_000), 180_000);

    let mut counter = EpochCounter::new();
    let session = CaptureEpoch::new(5, &mut counter);
    let extended_source = session.clone();
    assert!(session.shares_origin_with(&extended_source));
    assert!(!session.shares_origin_with(&CaptureEpoch::new(5, &mut counter)));
    assert!(!session.shares_origin_with(&CaptureEpoch::new(6, &mut counter)));
    assert_eq!(session.ticks(1_000_000_005, 90_000), 90_000);
}

#[test]
fn spans_are_rounded_and_never_negative() {
    assert_eq!(duration_micros(1_999), 1);
    assert_eq!(duration_micros(u128::MAX), u64::MAX);
    assert_eq!(elapsed(7, 12), 5);
    assert_eq!(elapsed(12, 7), 0);
    assert_eq!(elapsed_micros(1_000, 6_500), 5);
    assert_eq!(micros_to_millis_ceil(1_001), 2);
    assert_eq!(micros_to_millis_ceil(1_000), 1);
}

#[test]
fn ntp_time_counts_from_its_own_epoch() {
    assert_eq!(ntp_timestamp(0, 0), 2_208_988_800 << 32);
    assert_eq!(ntp_timestamp(0, 500_000_000), (2_208_988_800 << 32) | 0x8000_0000);
}

#[test]
fn temporary_displays_are_waited_for() {
    assert_eq!(after_attempt(true, 0, u64::MAX), CaptureAttempt::Started);
    assert_eq!(after_attempt(false, 10, 10 + DISPLAY_PATIENCE - 1), CaptureAttempt::Retry);
    assert_eq!(after_attempt(false, 10, 10 + DISPLAY_PATIENCE), CaptureAttempt::GiveUp);
}

#[test]
fn captures_stop_once_and_keep_the_display_on_failure() {
    let mut capture = RunningCapture::new(true);
    assert!(capture.begin_stop());
    assert!(!capture.begin_stop());
    assert_eq!(capture.finish_stop(true), StopStep::Fail);
    assert_eq!(capture.finish_stop(false), StopStep::RemoveDisplay);
    assert_eq!(capture.finish_stop(false), StopStep::Done);
    assert!(!capture.begin_stop());
}

#[test]
fn frame_deadlines_round_up() {
    assert_eq!(frame_deadline(30), 34);
    assert_eq!(frame_deadline(1000), 1);
    assert!(has_bitrate(1));
    assert!(!has_bitrate(0));
}

/// A capture that is stopped as the library says.
struct TestCapture<'a> {
    state: RunningCapture,
    stopped: &'a std::cell::Cell<bool>,
    fail: bool,
}

impl<'a> TestCapture<'a> {
    fn new(stopped: &'a std::cell::Cell<bool>, fail: bool) -> Self {
        TestCapture { state: RunningCapture::new(false), stopped, fail }
    }

    fn source_description(&self) -> &str {
        "test source"
    }

    fn check(&self) -> Result<(), String> {
        if self.fail {
            return Err("test failure".to_owned());
        }
        Ok(())
    }

    fn stop(&mut self) -> Result<(), String> {
        if !self.state.begin_stop() {
            return Ok(());
        }
        self.stopped.set(true);
        let result = self.check();
        match self.state.finish_stop(result.is_err()) {
            StopStep::Fail => result,
            StopStep::Done => Ok(()),
            StopStep::RemoveDisplay => panic!("there is no display"),
        }
    }
}

impl Drop for TestCapture<'_> {
    fn drop(&mut self) {
        self.stop().unwrap();
    }
}

#[test]
fn running_capture_exposes_description_and_propagates_failures() {
    let stopped = std::cell::Cell::new(false);
    let mut capture = TestCapture::new(&stopped, true);
    assert_eq!(capture.source_description(), "test source");
    assert_eq!(capture.check().unwrap_err(), "test failure");
    assert_eq!(capture.stop().unwrap_err(), "test failure");
    assert!(stopped.get());
}

#[test]
fn running_capture_stops_on_drop() {
    let stopped = std::cell::Cell::new(false);
    {
        let _capture = TestCapture::new(&stopped, false);
    }
    assert!(stopped.get());
}
