//! Counters and samples of one mirroring session.

use vstd::prelude::*;

use crate::rate_control::RateChange;
use crate::synthetic::SyntheticPhase;

verus! {

/// One counter for each phase of the synthetic workload.
#[derive(Clone, Copy, Debug, PartialEq, Eq, Structural)]
pub struct PhaseCounts {
    pub static_frames: u64,
    pub partial_motion: u64,
    pub full_motion: u64,
    pub scene_cuts: u64,
}

impl PhaseCounts {
    pub open spec fn of(self, phase: SyntheticPhase) -> u64 {
        match phase {
            SyntheticPhase::Static => self.static_frames,
            SyntheticPhase::PartialMotion => self.partial_motion,
            SyntheticPhase::FullMotion => self.full_motion,
            SyntheticPhase::SceneCuts => self.scene_cuts,
        }
    }

    /// The counts with one more in a phase; a full counter starts over.
    pub open spec fn with_one_more(self, phase: Option<SyntheticPhase>) -> PhaseCounts {
        match phase {
            None => self,
            Some(SyntheticPhase::Static) => PhaseCounts {
                static_frames: self.static_frames.wrapping_add(1),
                ..self
            },
            Some(SyntheticPhase::PartialMotion) => PhaseCounts {
                partial_motion: self.partial_motion.wrapping_add(1),
                ..self
            },
            Some(SyntheticPhase::FullMotion) => PhaseCounts {
                full_motion: self.full_motion.wrapping_add(1),
                ..self
            },
            Some(SyntheticPhase::SceneCuts) => PhaseCounts {
                scene_cuts: self.scene_cuts.wrapping_add(1),
                ..self
            },
        }
    }

    pub fn get(&self, phase: SyntheticPhase) -> (count: u64)
        ensures
            count == self.of(phase),
    {
        match phase {
            SyntheticPhase::Static => self.static_frames,
            SyntheticPhase::PartialMotion => self.partial_motion,
            SyntheticPhase::FullMotion => self.full_motion,
            SyntheticPhase::SceneCuts => self.scene_cuts,
        }
    }

    pub fn count(&mut self, phase: Option<SyntheticPhase>)
        ensures
            *final(self) == old(self).with_one_more(phase),
    {
        match phase {
            None => {},
            Some(SyntheticPhase::Static) => {
                self.static_frames = self.static_frames.wrapping_add(1);
            },
            Some(SyntheticPhase::PartialMotion) => {
                self.partial_motion = self.partial_motion.wrapping_add(1);
            },
            Some(SyntheticPhase::FullMotion) => {
                self.full_motion = self.full_motion.wrapping_add(1);
            },
            Some(SyntheticPhase::SceneCuts) => {
                self.scene_cuts = self.scene_cuts.wrapping_add(1);
            },
        }
    }
}

/// The timings of one acknowledged frame.
#[derive(Clone, Copy, Debug, PartialEq, Eq, Structural)]
pub struct LatencySample {
    pub pipeline_micros: u64,
    pub transport_micros: u64,
    pub capture_age_micros: Option<u64>,
    pub queue_wait_micros: u64,
    pub encode_micros: u64,
    pub prepare_micros: u64,
    pub sender_lock_wait_micros: u64,
    pub send_micros: u64,
    pub in_flight_frames: u64,
    pub in_flight_bytes: u64,
    pub keyframe: bool,
    pub encoded_bytes: u64,
    pub synthetic_phase: Option<SyntheticPhase>,
}

/// The counters of a session. They wrap around when they are full.
#[derive(Clone, Copy, Debug, PartialEq, Eq, Structural)]
pub struct MirrorCounters {
    pub requested_frame_rate: u64,
    pub effective_frame_rate: u64,
    pub raw_frames_submitted: u64,
    pub raw_frames_replaced: u64,
    pub raw_frames_expired: u64,
    pub frames: u64,
    pub keyframes: u64,
    pub encoded_bytes: u64,
    pub max_frame_bytes: u64,
    pub rtp_packets: u64,
    pub retransmissions: u64,
    pub feedback_packets: u64,
    pub nacks: u64,
    pub checkpoint_samples: u64,
    pub checkpoint_latency_micros: u64,
    pub max_checkpoint_latency_micros: u64,
    pub receiver_playout_delay_ms: u64,
    pub current_in_flight_frames: u64,
    pub max_in_flight_frames: u64,
    pub current_in_flight_bytes: u64,
    pub max_in_flight_bytes: u64,
    pub history_evictions: u64,
    pub pacing_sleep_micros: u64,
    pub max_pacing_sleep_micros: u64,
    pub adaptive_bitrate_increases: u64,
    pub adaptive_bitrate_decreases: u64,
    pub adaptive_bitrate_apply_failures: u64,
    pub current_target_bitrate: u64,
    pub minimum_target_bitrate: u64,
    pub vt_max_frame_delay_applied: bool,
    pub vt_speed_priority_applied: bool,
    pub synthetic_generated_frames: u64,
    pub synthetic_skipped_frames: u64,
    pub synthetic_phase_packets: PhaseCounts,
    pub synthetic_phase_retransmissions: PhaseCounts,
}

pub open spec fn no_phase_counts() -> PhaseCounts {
    PhaseCounts { static_frames: 0, partial_motion: 0, full_motion: 0, scene_cuts: 0 }
}

/// Counting a frame of a phase adds one to the count of that phase and to no other.
pub proof fn lemma_phases_are_counted_apart(
    counts: PhaseCounts,
    phase: SyntheticPhase,
    other: SyntheticPhase,
)
    ensures
        counts.with_one_more(Some(phase)).of(phase) == counts.of(phase).wrapping_add(1),
        phase != other ==> counts.with_one_more(Some(phase)).of(other) == counts.of(other),
        counts.with_one_more(None) == counts,
        counts.of(SyntheticPhase::Static) == counts.static_frames,
        counts.of(SyntheticPhase::PartialMotion) == counts.partial_motion,
        counts.of(SyntheticPhase::FullMotion) == counts.full_motion,
        counts.of(SyntheticPhase::SceneCuts) == counts.scene_cuts,
{
}

pub open spec fn no_counters() -> MirrorCounters {
    MirrorCounters {
        requested_frame_rate: 0,
        effective_frame_rate: 0,
        raw_frames_submitted: 0,
        raw_frames_replaced: 0,
        raw_frames_expired: 0,
        frames: 0,
        keyframes: 0,
        encoded_bytes: 0,
        max_frame_bytes: 0,
        rtp_packets: 0,
        retransmissions: 0,
        feedback_packets: 0,
        nacks: 0,
        checkpoint_samples: 0,
        checkpoint_latency_micros: 0,
        max_checkpoint_latency_micros: 0,
        receiver_playout_delay_ms: 0,
        current_in_flight_frames: 0,
        max_in_flight_frames: 0,
        current_in_flight_bytes: 0,
        max_in_flight_bytes: 0,
        history_evictions: 0,
        pacing_sleep_micros: 0,
        max_pacing_sleep_micros: 0,
        adaptive_bitrate_increases: 0,
        adaptive_bitrate_decreases: 0,
        adaptive_bitrate_apply_failures: 0,
        current_target_bitrate: 0,
        minimum_target_bitrate: 0,
        vt_max_frame_delay_applied: false,
        vt_speed_priority_applied: false,
        synthetic_generated_frames: 0,
        synthetic_skipped_frames: 0,
        synthetic_phase_packets: no_phase_counts(),
        synthetic_phase_retransmissions: no_phase_counts(),
    }
}

/// Nothing is counted at first.
pub proof fn lemma_counting_starts_at_zero(phase: SyntheticPhase)
    ensures
        no_counters().requested_frame_rate == 0,
        no_counters().effective_frame_rate == 0,
        no_counters().raw_frames_submitted == 0,
        no_counters().raw_frames_replaced == 0,
        no_counters().raw_frames_expired == 0,
        no_counters().frames == 0,
        no_counters().keyframes == 0,
        no_counters().encoded_bytes == 0,
        no_counters().max_frame_bytes == 0,
        no_counters().rtp_packets == 0,
        no_counters().retransmissions == 0,
        no_counters().feedback_packets == 0,
        no_counters().nacks == 0,
        no_counters().checkpoint_samples == 0,
        no_counters().checkpoint_latency_micros == 0,
        no_counters().max_checkpoint_latency_micros == 0,
        no_counters().receiver_playout_delay_ms == 0,
        no_counters().current_in_flight_frames == 0,
        no_counters().max_in_flight_frames == 0,
        no_counters().current_in_flight_bytes == 0,
        no_counters().max_in_flight_bytes == 0,
        no_counters().history_evictions == 0,
        no_counters().pacing_sleep_micros == 0,
        no_counters().max_pacing_sleep_micros == 0,
        no_counters().adaptive_bitrate_increases == 0,
        no_counters().adaptive_bitrate_decreases == 0,
        no_counters().adaptive_bitrate_apply_failures == 0,
        no_counters().current_target_bitrate == 0,
        no_counters().minimum_target_bitrate == 0,
        no_counters().synthetic_generated_frames == 0,
        no_counters().synthetic_skipped_frames == 0,
        !no_counters().vt_max_frame_delay_applied,
        !no_counters().vt_speed_priority_applied,
        no_counters().synthetic_phase_packets.of(phase) == 0,
        no_counters().synthetic_phase_retransmissions.of(phase) == 0,
{
}

/// The larger of two counter values.
pub open spec fn larger(a: u64, b: u64) -> u64 {
    if a >= b {
        a
    } else {
        b
    }
}

/// The smaller of two counter values.
pub open spec fn smaller(a: u64, b: u64) -> u64 {
    if a <= b {
        a
    } else {
        b
    }
}

/// The larger of two numbers.
pub fn larger_of(a: u64, b: u64) -> (result: u64)
    ensures
        result == larger(a, b),
{
    if a >= b {
        a
    } else {
        b
    }
}

/// The smaller of two numbers.
pub fn smaller_of(a: u64, b: u64) -> (result: u64)
    ensures
        result == smaller(a, b),
{
    if a <= b {
        a
    } else {
        b
    }
}

impl MirrorCounters {
    /// Every counter at zero.
    pub fn new() -> (counters: Self)
        ensures
            counters == no_counters(),
    {
        let phases: PhaseCounts = PhaseCounts {
            static_frames: 0,
            partial_motion: 0,
            full_motion: 0,
            scene_cuts: 0,
        };
        MirrorCounters {
            requested_frame_rate: 0,
            effective_frame_rate: 0,
            raw_frames_submitted: 0,
            raw_frames_replaced: 0,
            raw_frames_expired: 0,
            frames: 0,
            keyframes: 0,
            encoded_bytes: 0,
            max_frame_bytes: 0,
            rtp_packets: 0,
            retransmissions: 0,
            feedback_packets: 0,
            nacks: 0,
            checkpoint_samples: 0,
            checkpoint_latency_micros: 0,
            max_checkpoint_latency_micros: 0,
            receiver_playout_delay_ms: 0,
            current_in_flight_frames: 0,
            max_in_flight_frames: 0,
            current_in_flight_bytes: 0,
            max_in_flight_bytes: 0,
            history_evictions: 0,
            pacing_sleep_micros: 0,
            max_pacing_sleep_micros: 0,
            adaptive_bitrate_increases: 0,
            adaptive_bitrate_decreases: 0,
            adaptive_bitrate_apply_failures: 0,
            current_target_bitrate: 0,
            minimum_target_bitrate: 0,
            vt_max_frame_delay_applied: false,
            vt_speed_priority_applied: false,
            synthetic_generated_frames: 0,
            synthetic_skipped_frames: 0,
            synthetic_phase_packets: phases,
            synthetic_phase_retransmissions: phases,
        }
    }

    /// The counters once a group starts at `bitrate`.
    pub open spec fn rate_initialized(self, bitrate: u64) -> MirrorCounters {
        MirrorCounters {
            current_target_bitrate: bitrate,
            minimum_target_bitrate: bitrate,
            ..self
        }
    }

    /// The counters once a target took effect.
    pub open spec fn rate_changed(self, change: Option<RateChange>) -> MirrorCounters {
        match change {
            None => self,
            Some(change) => MirrorCounters {
                current_target_bitrate: change.bitrate,
                minimum_target_bitrate: smaller(self.minimum_target_bitrate, change.bitrate),
                adaptive_bitrate_increases: if change.increase {
                    self.adaptive_bitrate_increases.wrapping_add(1)
                } else {
                    self.adaptive_bitrate_increases
                },
                adaptive_bitrate_decreases: if change.increase {
                    self.adaptive_bitrate_decreases
                } else {
                    self.adaptive_bitrate_decreases.wrapping_add(1)
                },
                ..self
            },
        }
    }

    pub fn initialize_rate(&mut self, bitrate: u64)
        ensures
            *final(self) == old(self).rate_initialized(bitrate),
    {
        self.current_target_bitrate = bitrate;
        self.minimum_target_bitrate = bitrate;
    }

    pub fn apply_rate_change(&mut self, change: Option<RateChange>)
        ensures
            *final(self) == old(self).rate_changed(change),
    {
        if let Some(change) = change {
            self.current_target_bitrate = change.bitrate;
            self.minimum_target_bitrate = smaller_of(self.minimum_target_bitrate, change.bitrate);
            if change.increase {
                self.adaptive_bitrate_increases = self.adaptive_bitrate_increases.wrapping_add(1);
            } else {
                self.adaptive_bitrate_decreases = self.adaptive_bitrate_decreases.wrapping_add(1);
            }
        }
    }

    /// What a receiver's own counters become when the shared capture's are merged into them.
    pub open spec fn with_capture(self, source: MirrorCounters) -> MirrorCounters {
        MirrorCounters {
            requested_frame_rate: source.requested_frame_rate,
            effective_frame_rate: source.effective_frame_rate,
            raw_frames_submitted: source.raw_frames_submitted,
            raw_frames_replaced: source.raw_frames_replaced,
            raw_frames_expired: source.raw_frames_expired,
            adaptive_bitrate_increases: source.adaptive_bitrate_increases,
            adaptive_bitrate_decreases: source.adaptive_bitrate_decreases,
            adaptive_bitrate_apply_failures: source.adaptive_bitrate_apply_failures,
            current_target_bitrate: source.current_target_bitrate,
            minimum_target_bitrate: source.minimum_target_bitrate,
            synthetic_generated_frames: source.synthetic_generated_frames,
            synthetic_skipped_frames: source.synthetic_skipped_frames,
            vt_max_frame_delay_applied: source.vt_max_frame_delay_applied,
            vt_speed_priority_applied: source.vt_speed_priority_applied,
            ..self
        }
    }
}

/// The counters and samples of one mirroring session.
pub struct MirrorStats {
    pub counters: MirrorCounters,
    pub latency_samples: Vec<LatencySample>,
    pub synthetic_render_micros: Vec<u64>,
}

impl MirrorStats {
    /// A session that has seen nothing yet.
    pub fn new() -> (stats: Self)
        ensures
            stats.counters == no_counters(),
            stats.latency_samples@ == Seq::<LatencySample>::empty(),
            stats.synthetic_render_micros@ == Seq::<u64>::empty(),
    {
        MirrorStats {
            counters: MirrorCounters::new(),
            latency_samples: Vec::new(),
            synthetic_render_micros: Vec::new(),
        }
    }
}

/// Copies what the shared capture counted into the statistics of one receiver.
pub fn merge_capture_stats(source: &MirrorStats, target: &mut MirrorStats)
    ensures
        final(target).counters == old(target).counters.with_capture(source.counters),
        final(target).latency_samples == old(target).latency_samples,
        final(target).synthetic_render_micros@ == source.synthetic_render_micros@,
{
    let counters: MirrorCounters = source.counters;
    target.counters = MirrorCounters {
        requested_frame_rate: counters.requested_frame_rate,
        effective_frame_rate: counters.effective_frame_rate,
        raw_frames_submitted: counters.raw_frames_submitted,
        raw_frames_replaced: counters.raw_frames_replaced,
        raw_frames_expired: counters.raw_frames_expired,
        adaptive_bitrate_increases: counters.adaptive_bitrate_increases,
        adaptive_bitrate_decreases: counters.adaptive_bitrate_decreases,
        adaptive_bitrate_apply_failures: counters.adaptive_bitrate_apply_failures,
        current_target_bitrate: counters.current_target_bitrate,
        minimum_target_bitrate: counters.minimum_target_bitrate,
        synthetic_generated_frames: counters.synthetic_generated_frames,
        synthetic_skipped_frames: counters.synthetic_skipped_frames,
        vt_max_frame_delay_applied: counters.vt_max_frame_delay_applied,
        vt_speed_priority_applied: counters.vt_speed_priority_applied,
        ..target.counters
    };
    let mut renders: Vec<u64> = Vec::new();
    let mut index: usize = 0;
    while index < source.synthetic_render_micros.len()
        invariant
            index <= source.synthetic_render_micros@.len(),
            renders@ == source.synthetic_render_micros@.take(index as int),
        decreases source.synthetic_render_micros@.len() - index,
    {
        renders.push(source.synthetic_render_micros[index]);
        index = index + 1;
        assert(renders@ =~= source.synthetic_render_micros@.take(index as int));
    }
    assert(renders@ =~= source.synthetic_render_micros@);
    target.synthetic_render_micros = renders;
}

/// Merging the capture's counts twice is the same as merging them once.
pub proof fn lemma_merging_capture_counts_is_idempotent(target: MirrorCounters, source: MirrorCounters)
    ensures
        target.with_capture(source).with_capture(source) == target.with_capture(source),
{
}

/// A change of the rate is the target from now on, counts once, up or down, and is kept where no
/// lower one came before.
pub proof fn lemma_changes_of_the_rate_are_counted(counters: MirrorCounters, change: RateChange)
    ensures
        ({
            let after = counters.rate_changed(Some(change));
            &&& after.current_target_bitrate == change.bitrate
            &&& after.minimum_target_bitrate <= change.bitrate
            &&& after.minimum_target_bitrate <= counters.minimum_target_bitrate
            &&& after.minimum_target_bitrate == change.bitrate || after.minimum_target_bitrate
                == counters.minimum_target_bitrate
            &&& change.increase ==> after.adaptive_bitrate_increases
                == counters.adaptive_bitrate_increases.wrapping_add(1)
                && after.adaptive_bitrate_decreases == counters.adaptive_bitrate_decreases
            &&& !change.increase ==> after.adaptive_bitrate_decreases
                == counters.adaptive_bitrate_decreases.wrapping_add(1)
                && after.adaptive_bitrate_increases == counters.adaptive_bitrate_increases
            &&& after.frames == counters.frames
            &&& after.rtp_packets == counters.rtp_packets
            &&& after.retransmissions == counters.retransmissions
        }),
        counters.rate_changed(None) == counters,
        counters.rate_initialized(change.bitrate).current_target_bitrate == change.bitrate,
        counters.rate_initialized(change.bitrate).minimum_target_bitrate == change.bitrate,
{
}

} // verus!
