//! From captured surfaces to encoded frames: timestamps, bitrate requests and packaging.

use vstd::prelude::*;

use crate::clock::{media_ticks, MediaClock, MediaTimestamp};
use crate::fanout::{EncodedAudioFrame, EncodedVideoFrame};
use crate::h264::{annex_b_of, avcc_contains_nal_type, avcc_to_annex_b, contains_nal_from, AvccError};
use crate::mirror::rtp::FrameTimings;
use crate::mirror::stats::MirrorCounters;
use crate::synthetic::SyntheticPhase;

verus! {

/// The ticks of the video clock in one second.
pub const RTP_VIDEO_TIMEBASE: u64 = 90_000;

/// The NAL unit type of a keyframe slice.
pub const KEYFRAME_NAL_TYPE: u8 = 5;

/// Where the surface of a frame comes from.
#[derive(Clone, Copy, Debug, PartialEq, Eq, Structural)]
pub enum SurfaceChoice {
    Fresh,
    /// Nothing new was captured: the last surface is encoded once more.
    Repeat,
    /// Nothing was captured yet.
    Skip,
}

/// Where the surface of a frame comes from.
pub fn choose_surface(fresh: bool, has_previous: bool) -> (choice: SurfaceChoice)
    ensures
        choice == if fresh {
            SurfaceChoice::Fresh
        } else if has_previous {
            SurfaceChoice::Repeat
        } else {
            SurfaceChoice::Skip
        },
{
    if fresh {
        SurfaceChoice::Fresh
    } else if has_previous {
        SurfaceChoice::Repeat
    } else {
        SurfaceChoice::Skip
    }
}

/// How long ago a frame was composed, in microseconds: the clock's ticks since then, scaled by
/// the clock's ratio of nanoseconds to ticks. Nothing where the clock does not give one.
pub fn capture_age_micros(now: u64, display_time: u64, numerator: u32, denominator: u32) -> (age: Option<
    u64,
>)
    ensures
        age == if now < display_time || denominator == 0 {
            None
        } else {
            let micros = (now - display_time) * numerator / denominator as int / 1000;
            if micros <= u64::MAX {
                Some(micros as u64)
            } else {
                None
            }
        },
{
    if now < display_time || denominator == 0 {
        return None;
    }
    let ticks: u64 = now - display_time;
    assert(0 <= ticks * numerator <= 0xffff_ffff_ffff_ffff * 0xffff_ffff) by (nonlinear_arith)
        requires
            0 <= ticks <= 0xffff_ffff_ffff_ffff,
            0 <= numerator <= 0xffff_ffff,
    ;
    let micros: u128 = ticks as u128 * numerator as u128 / denominator as u128 / 1_000;
    if micros <= u64::MAX as u128 {
        Some(micros as u64)
    } else {
        None
    }
}

/// A timestamp that the encoder cannot hold.
#[derive(Clone, Copy, Debug, PartialEq, Eq, Structural)]
pub struct TimestampOutOfRange {}

/// Why an access unit cannot be packaged.
#[derive(Clone, Copy, Debug, PartialEq, Eq, Structural)]
pub enum PackageError {
    Unit(AvccError),
    /// A keyframe came without its parameter sets.
    ParameterSetsMissing,
}

/// The state of the encoding side between two frames.
pub struct MirrorPipeline {
    pub parameter_sets: Option<(Vec<u8>, Vec<u8>)>,
    pub last_timestamp: Option<u64>,
    pub fps: u32,
    pub encoder_bitrate: i32,
}

/// The sum of two numbers, or the largest one that there is.
pub open spec fn sum_or_last(a: u64, b: u64) -> u64 {
    if a + b <= u64::MAX {
        (a + b) as u64
    } else {
        u64::MAX
    }
}

/// The timestamp of a frame: what the capture clock says, but always after the frame before.
pub open spec fn next_timestamp(last: Option<u64>, ticks: Option<u64>, step: u64) -> u64 {
    let candidate = match (ticks, last) {
        (Some(ticks), _) => ticks,
        (None, Some(last)) => sum_or_last(last, step),
        (None, None) => 0,
    };
    match last {
        Some(last) => if candidate <= last {
            sum_or_last(last, step)
        } else {
            candidate
        },
        None => candidate,
    }
}

/// Timestamps rise from frame to frame, as long as the clock has room for one more step.
pub proof fn lemma_timestamps_rise(last: u64, ticks: Option<u64>, step: u64)
    requires
        step > 0,
        last + step <= u64::MAX,
    ensures
        next_timestamp(Some(last), ticks, step) > last,
{
}

/// A frame is stamped with what the clock says. Where that would not come after the frame before,
/// or the clock says nothing, it comes one step behind it, and the first frame starts at zero.
pub proof fn lemma_frames_are_stamped_by_the_clock(last: u64, ticks: u64, step: u64)
    ensures
        next_timestamp(None, Some(ticks), step) == ticks,
        next_timestamp(None, None, step) == 0,
        ticks > last ==> next_timestamp(Some(last), Some(ticks), step) == ticks,
        ticks <= last && last + step <= u64::MAX ==> next_timestamp(Some(last), Some(ticks), step)
            == last + step,
        step > 0 && last + step <= u64::MAX ==> next_timestamp(Some(last), None, step) == last + step,
{
}

impl MirrorPipeline {
    pub fn new(fps: u32, bitrate: i32) -> (pipeline: Self)
        ensures
            pipeline.parameter_sets is None,
            pipeline.last_timestamp is None,
            pipeline.fps == fps,
            pipeline.encoder_bitrate == bitrate,
    {
        MirrorPipeline {
            parameter_sets: None,
            last_timestamp: None,
            fps,
            encoder_bitrate: bitrate,
        }
    }

    /// Whether a frame went out that later ones can refer to.
    pub fn has_reference_frame(&self) -> (result: bool)
        ensures
            result == (self.parameter_sets is Some),
    {
        self.parameter_sets.is_some()
    }

    /// The timestamp of the next frame on the video clock.
    pub fn normalized_timestamp(&mut self, clock: &mut MediaClock, time: MediaTimestamp) -> (timestamp:
        u64)
        requires
            old(self).fps > 0,
            old(clock).well_formed(),
        ensures
            final(clock).well_formed(),
            final(clock).origin == if time.usable() {
                Some(old(clock).origin_with(time))
            } else {
                old(clock).origin
            },
            timestamp == next_timestamp(
                old(self).last_timestamp,
                if time.usable() {
                    media_ticks(old(clock).origin_with(time), time, RTP_VIDEO_TIMEBASE)
                } else {
                    None
                },
                RTP_VIDEO_TIMEBASE / old(self).fps as u64,
            ),
            *final(self) == (MirrorPipeline {
                last_timestamp: Some(timestamp),
                ..*old(self)
            }),
    {
        let step: u64 = RTP_VIDEO_TIMEBASE / self.fps as u64;
        let candidate: u64 = match clock.ticks(time, RTP_VIDEO_TIMEBASE) {
            Some(ticks) => ticks,
            None => match self.last_timestamp {
                Some(last) => last.saturating_add(step),
                None => 0,
            },
        };
        let timestamp: u64 = match self.last_timestamp {
            Some(last) => if candidate <= last {
                last.saturating_add(step)
            } else {
                candidate
            },
            None => candidate,
        };
        self.last_timestamp = Some(timestamp);
        timestamp
    }

    /// The timestamp as the encoder takes it.
    pub fn encoder_time(timestamp: u64) -> (result: Result<i64, TimestampOutOfRange>)
        ensures
            result is Ok <==> timestamp <= i64::MAX,
            result matches Ok(time) ==> time == timestamp,
    {
        if timestamp <= i64::MAX as u64 {
            Ok(timestamp as i64)
        } else {
            Err(TimestampOutOfRange {  })
        }
    }

    /// The bitrate that the encoder has to be asked for, where the target has moved.
    pub fn bitrate_request(&mut self, target: u64) -> (request: Option<i32>)
        ensures
            ({
                let wanted = if target <= i32::MAX {
                    target as i32
                } else {
                    i32::MAX
                };
                &&& request == if wanted == old(self).encoder_bitrate {
                    None
                } else {
                    Some(wanted)
                }
                &&& *final(self) == (MirrorPipeline { encoder_bitrate: wanted, ..*old(self) })
            }),
    {
        let wanted: i32 = if target <= i32::MAX as u64 {
            target as i32
        } else {
            i32::MAX
        };
        if wanted == self.encoder_bitrate {
            return None;
        }
        self.encoder_bitrate = wanted;
        Some(wanted)
    }

    /// Whether an encoded access unit is a keyframe. The encoder's parameter sets have to be
    /// fetched for one.
    pub fn is_keyframe(data: &[u8]) -> (result: Result<bool, AvccError>)
        ensures
            result == contains_nal_from(data@, 0, KEYFRAME_NAL_TYPE),
    {
        avcc_contains_nal_type(data, KEYFRAME_NAL_TYPE)
    }

    /// The parameter sets that are known once this frame's are.
    pub open spec fn sets_with(self, keyframe: bool, own: Option<(Vec<u8>, Vec<u8>)>) -> Option<
        (Vec<u8>, Vec<u8>),
    > {
        if keyframe {
            own
        } else {
            self.parameter_sets
        }
    }

    /// Packages an encoded access unit for the receivers. A keyframe carries its own parameter
    /// sets, `own_sets`, in front; without them it cannot be sent. Of another frame they are not
    /// looked at. Where the encoder gave nothing, and before the first keyframe, there is no
    /// frame.
    pub fn package(
        &mut self,
        data: &[u8],
        timestamp: u64,
        own_sets: Option<(Vec<u8>, Vec<u8>)>,
        timings: FrameTimings,
        synthetic_phase: Option<SyntheticPhase>,
    ) -> (result: Result<Option<EncodedVideoFrame>, PackageError>)
        ensures
            data@.len() == 0 ==> (result matches Ok(None)) && *final(self) == *old(self),
            data@.len() > 0 ==> match contains_nal_from(data@, 0, KEYFRAME_NAL_TYPE) {
                Err(error) => result matches Err(PackageError::Unit(refusal)) && refusal == error
                    && *final(self) == *old(self),
                Ok(keyframe) => if keyframe && own_sets is None {
                    result matches Err(PackageError::ParameterSetsMissing) && *final(self)
                        == *old(self)
                } else {
                    let sets = old(self).sets_with(keyframe, own_sets);
                    let converted = annex_b_of(
                        data@,
                        match own_sets {
                            Some((sps, pps)) => if keyframe {
                                Some((sps@, pps@))
                            } else {
                                None
                            },
                            None => None,
                        },
                    );
                    &&& *final(self) == (MirrorPipeline { parameter_sets: sets, ..*old(self) })
                    &&& match result {
                        Ok(None) => sets is None,
                        Ok(Some(frame)) => {
                            &&& sets is Some
                            &&& converted == Ok::<Seq<u8>, AvccError>(frame.data@)
                            &&& frame.rtp_timestamp == timestamp % 0x1_0000_0000
                            &&& frame.keyframe == keyframe
                            &&& frame.timings == timings
                            &&& frame.synthetic_phase == synthetic_phase
                        },
                        Err(PackageError::Unit(error)) => sets is Some && converted == Err::<
                            Seq<u8>,
                            AvccError,
                        >(error),
                        Err(PackageError::ParameterSetsMissing) => false,
                    }
                },
            },
    {
        if data.len() == 0 {
            return Ok(None);
        }
        let keyframe: bool = match Self::is_keyframe(data) {
            Ok(keyframe) => keyframe,
            Err(error) => {
                return Err(PackageError::Unit(error));
            },
        };
        if keyframe {
            if own_sets.is_none() {
                return Err(PackageError::ParameterSetsMissing);
            }
            self.parameter_sets = own_sets;
        }
        let converted: Result<Vec<u8>, AvccError> = match &self.parameter_sets {
            None => {
                return Ok(None);
            },
            Some((sps, pps)) => if keyframe {
                avcc_to_annex_b(data, Some((sps, pps)))
            } else {
                avcc_to_annex_b(data, None)
            },
        };
        match converted {
            Ok(annex_b) => Ok(
                Some(
                    EncodedVideoFrame {
                        rtp_timestamp: (timestamp % 0x1_0000_0000) as u32,
                        keyframe,
                        data: annex_b,
                        timings,
                        synthetic_phase,
                    },
                ),
            ),
            Err(error) => Err(PackageError::Unit(error)),
        }
    }
}

/// An encoded audio frame as the senders take it: every one can be decoded by itself.
pub fn audio_frame(frame: EncodedAudioFrame, now: u64) -> (sent: EncodedVideoFrame)
    ensures
        sent.data@ == frame.data@,
        sent.rtp_timestamp == frame.timestamp % 0x1_0000_0000,
        sent.keyframe,
        sent.synthetic_phase is None,
        sent.timings == (FrameTimings {
            pipeline_started_at: now,
            capture_age_micros: None,
            queue_wait_micros: 0,
            encode_micros: 0,
            prepare_micros: 0,
            sender_lock_wait_micros: 0,
        }),
{
    EncodedVideoFrame {
        rtp_timestamp: (frame.timestamp % 0x1_0000_0000) as u32,
        keyframe: true,
        data: frame.data,
        timings: FrameTimings {
            pipeline_started_at: now,
            capture_age_micros: None,
            queue_wait_micros: 0,
            encode_micros: 0,
            prepare_micros: 0,
            sender_lock_wait_micros: 0,
        },
        synthetic_phase: None,
    }
}

/// Notes which low-latency settings the encoder accepted.
pub fn record_encoder_settings(
    counters: &mut MirrorCounters,
    frame_delay_accepted: bool,
    speed_accepted: bool,
    prioritize_speed: bool,
)
    ensures
        *final(counters) == (MirrorCounters {
            vt_max_frame_delay_applied: frame_delay_accepted || old(
                counters,
            ).vt_max_frame_delay_applied,
            vt_speed_priority_applied: if speed_accepted {
                prioritize_speed
            } else {
                old(counters).vt_speed_priority_applied
            },
            ..*old(counters)
        }),
{
    if frame_delay_accepted {
        counters.vt_max_frame_delay_applied = true;
    }
    if speed_accepted {
        counters.vt_speed_priority_applied = prioritize_speed;
    }
}

/// The encoder's keyframe interval in frames: one second, where the encoder can hold it.
pub fn keyframe_interval(fps: u32) -> (interval: Option<i32>)
    ensures
        interval == if fps <= i32::MAX {
            Some(fps as i32)
        } else {
            None
        },
{
    if fps <= i32::MAX as u32 {
        Some(fps as i32)
    } else {
        None
    }
}

/// Counts a bitrate that the encoder refused.
pub fn count_refused_bitrate(counters: &mut MirrorCounters)
    ensures
        *final(counters) == (MirrorCounters {
            adaptive_bitrate_apply_failures: old(
                counters,
            ).adaptive_bitrate_apply_failures.wrapping_add(1),
            ..*old(counters)
        }),
{
    counters.adaptive_bitrate_apply_failures =
    counters.adaptive_bitrate_apply_failures.wrapping_add(1);
}

} // verus!
