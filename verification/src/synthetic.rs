//! The repeatable synthetic workload: its phases, and the schedule that renders them.

use vstd::prelude::*;

use crate::mirror::stats::MirrorCounters;

verus! {

/// The length of one pass through every phase.
pub const SYNTHETIC_CYCLE_SECONDS: u64 = 10;

pub const SYNTHETIC_WORKLOAD_NAME: &'static str = "synthetic-v1";

/// What a synthetic frame shows.
#[derive(Clone, Copy, Debug, PartialEq, Eq, Structural)]
pub enum SyntheticPhase {
    Static,
    PartialMotion,
    FullMotion,
    SceneCuts,
}

/// The phases in the order in which a cycle visits them.
pub open spec fn phase_at(position: int) -> SyntheticPhase {
    if position == 0 {
        SyntheticPhase::Static
    } else if position == 1 {
        SyntheticPhase::PartialMotion
    } else if position == 2 {
        SyntheticPhase::FullMotion
    } else {
        SyntheticPhase::SceneCuts
    }
}

impl SyntheticPhase {
    pub open spec fn position(self) -> int {
        match self {
            SyntheticPhase::Static => 0,
            SyntheticPhase::PartialMotion => 1,
            SyntheticPhase::FullMotion => 2,
            SyntheticPhase::SceneCuts => 3,
        }
    }

    pub fn label(self) -> (label: &'static str)
        ensures
            label@ == match self {
                SyntheticPhase::Static => "static"@,
                SyntheticPhase::PartialMotion => "partial motion"@,
                SyntheticPhase::FullMotion => "full motion"@,
                SyntheticPhase::SceneCuts => "scene cuts"@,
            },
    {
        match self {
            SyntheticPhase::Static => "static",
            SyntheticPhase::PartialMotion => "partial motion",
            SyntheticPhase::FullMotion => "full motion",
            SyntheticPhase::SceneCuts => "scene cuts",
        }
    }

    pub fn index(self) -> (index: usize)
        ensures
            index == self.position(),
            index < 4,
            phase_at(index as int) == self,
    {
        match self {
            SyntheticPhase::Static => 0,
            SyntheticPhase::PartialMotion => 1,
            SyntheticPhase::FullMotion => 2,
            SyntheticPhase::SceneCuts => 3,
        }
    }
}

/// The frames of one cycle. A rate of zero counts as one frame per second.
pub open spec fn cycle_frames(fps: u32) -> int {
    (if fps == 0 {
        1
    } else {
        fps as int
    }) * SYNTHETIC_CYCLE_SECONDS
}

/// The quarter of its cycle that a frame falls into.
pub open spec fn quarter_of(frame_index: int, fps: u32) -> int {
    (frame_index % cycle_frames(fps)) * 4 / cycle_frames(fps)
}

/// The phase of a frame, and how many frames it comes after the start of that phase.
pub fn phase_for_frame(frame_index: u64, fps: u32) -> (result: (SyntheticPhase, u64))
    ensures
        0 <= quarter_of(frame_index as int, fps) < 4,
        result.0 == phase_at(quarter_of(frame_index as int, fps)),
        result.1 == frame_index as int % cycle_frames(fps) - quarter_of(frame_index as int, fps)
            * cycle_frames(fps) / 4,
{
    let rate: u64 = if fps == 0 {
        1
    } else {
        fps as u64
    };
    let cycle: u64 = rate * SYNTHETIC_CYCLE_SECONDS;
    let position: u64 = frame_index % cycle;
    assert(position < cycle <= 42_949_672_950);
    let phase_index: u64 = position * 4 / cycle;
    assert(phase_index < 4 && phase_index * cycle <= position * 4) by (nonlinear_arith)
        requires
            phase_index == position * 4 / (cycle as int),
            0 <= position < cycle,
    ;
    assert(phase_index * cycle <= 3 * cycle) by (nonlinear_arith)
        requires
            phase_index < 4,
            0 <= cycle,
    ;
    let phase_start: u64 = phase_index * cycle / 4;
    let phase: SyntheticPhase = if phase_index == 0 {
        SyntheticPhase::Static
    } else if phase_index == 1 {
        SyntheticPhase::PartialMotion
    } else if phase_index == 2 {
        SyntheticPhase::FullMotion
    } else {
        SyntheticPhase::SceneCuts
    };
    (phase, position - phase_start)
}

/// The workload repeats: a frame one cycle later shows the same phase.
pub proof fn lemma_the_cycle_repeats(frame_index: int, fps: u32)
    requires
        0 <= frame_index,
    ensures
        quarter_of(frame_index + cycle_frames(fps), fps) == quarter_of(frame_index, fps),
{
    vstd::arithmetic::div_mod::lemma_mod_add_multiples_vanish(frame_index, cycle_frames(fps));
}

/// Every cycle visits each phase: the first frame of each quarter shows the phase of that quarter.
pub proof fn lemma_the_cycle_visits_each_phase(quarter: int, cycle: int, fps: u32)
    requires
        0 <= quarter < 4,
        0 <= cycle,
    ensures
        quarter_of(cycle * cycle_frames(fps) + (quarter * cycle_frames(fps) + 3) / 4, fps) == quarter,
{
    let frames = cycle_frames(fps);
    let offset = (quarter * frames + 3) / 4;
    assert(0 <= quarter * frames <= 3 * frames && quarter * frames + frames == (quarter + 1) * frames)
        by (nonlinear_arith)
        requires
            0 <= quarter < 4,
            frames > 0,
    ;
    assert(quarter * frames <= offset * 4 < (quarter + 1) * frames);
    assert(0 <= offset < frames);
    vstd::arithmetic::div_mod::lemma_mod_multiples_vanish(cycle, offset, frames);
    vstd::arithmetic::div_mod::lemma_small_mod(offset as nat, frames as nat);
    assert(frames * cycle + offset == cycle * frames + offset) by (nonlinear_arith);
    assert(offset * 4 / frames == quarter) by (nonlinear_arith)
        requires
            quarter * frames <= offset * 4 < (quarter + 1) * frames,
            frames > 0,
    ;
}

/// A cycle lasts ten seconds and visits still pictures, partial motion, full motion and scene
/// cuts, in this order.
pub proof fn lemma_the_order_of_the_phases(fps: u32)
    ensures
        phase_at(0) == SyntheticPhase::Static,
        phase_at(1) == SyntheticPhase::PartialMotion,
        phase_at(2) == SyntheticPhase::FullMotion,
        phase_at(3) == SyntheticPhase::SceneCuts,
        forall|phase: SyntheticPhase| phase_at(#[trigger] phase.position()) == phase,
        fps > 0 ==> cycle_frames(fps) == 10 * fps,
{
}

/// A frame is due when its share of the time has passed, and not before: between two frames lies
/// the length of one.
pub proof fn lemma_frames_are_due_in_their_time(frame_index: u64, fps: u32)
    requires
        fps > 0,
        frame_index <= 0xffff_ffff,
    ensures
        offset_of(frame_index, fps) * fps <= frame_index * 1_000_000_000 < (offset_of(
            frame_index,
            fps,
        ) + 1) * fps,
        frame_due((offset_of(frame_index, fps) + 1) as u128, fps) >= frame_index,
{
    let nanos = frame_index * 1_000_000_000;
    let rate = fps as int;
    let offset = nanos / rate;
    assert(0 <= offset <= nanos && offset * rate <= nanos < (offset + 1) * rate)
        by (nonlinear_arith)
        requires
            offset == nanos / rate,
            rate > 0,
            nanos >= 0,
    ;
    let later = (offset + 1) * rate;
    assert(later / 1_000_000_000 >= frame_index);
}

/// The surfaces that the generator renders into in turn.
pub const SYNTHETIC_SURFACE_POOL_SIZE: usize = 3;

/// When a frame is due, in nanoseconds after the first one.
pub open spec fn offset_of(frame_index: u64, fps: u32) -> u64 {
    let nanos = frame_index * 1_000_000_000 / (if fps == 0 {
        1
    } else {
        fps as int
    });
    if nanos <= u64::MAX {
        nanos as u64
    } else {
        u64::MAX
    }
}

/// The frame that is due after this many nanoseconds.
pub open spec fn frame_due(elapsed: u128, fps: u32) -> u64 {
    let frame = elapsed * fps / 1_000_000_000;
    if frame <= u64::MAX {
        frame as u64
    } else {
        u64::MAX
    }
}

/// When a frame is due, in nanoseconds after the first one. A rate of zero counts as one frame
/// per second.
pub fn frame_offset(frame_index: u64, fps: u32) -> (nanos: u64)
    ensures
        nanos == offset_of(frame_index, fps),
{
    let rate: u128 = if fps == 0 {
        1
    } else {
        fps as u128
    };
    let nanos: u128 = frame_index as u128 * 1_000_000_000 / rate;
    if nanos <= u64::MAX as u128 {
        nanos as u64
    } else {
        u64::MAX
    }
}

/// The frame that is due after this many nanoseconds.
pub fn frame_at_elapsed(elapsed: u128, fps: u32) -> (frame: u64)
    requires
        elapsed <= crate::clock::LONGEST_SPAN,
    ensures
        frame == frame_due(elapsed, fps),
{
    assert(0 <= elapsed * fps <= crate::clock::LONGEST_SPAN * 0x1_0000_0000) by (nonlinear_arith)
        requires
            0 <= elapsed <= crate::clock::LONGEST_SPAN,
            0 <= fps <= 0x1_0000_0000,
    ;
    let frame: u128 = elapsed * fps as u128 / 1_000_000_000;
    if frame <= u64::MAX as u128 {
        frame as u64
    } else {
        u64::MAX
    }
}

/// The age at which raw frames expire: what was configured, never where that is zero, and two
/// frame periods where nothing was.
pub fn resolve_max_frame_age(configured: Option<u128>, fps: u32) -> (age: Option<u128>)
    ensures
        age == match configured {
            Some(age) => if age == 0 {
                None
            } else {
                Some(age)
            },
            None => Some(offset_of(2, fps) as u128),
        },
{
    match configured {
        Some(age) => if age == 0 {
            None
        } else {
            Some(age)
        },
        None => Some(frame_offset(2, fps) as u128),
    }
}

/// What the generator does with the slot that is due.
#[derive(Clone, Copy, Debug, PartialEq, Eq, Structural)]
pub enum SyntheticSlot {
    /// Every surface is still in use: the slot passes without a frame.
    Skip,
    /// Render this frame into this surface.
    Render { frame_index: u64, surface: usize },
}

/// A frame number that the presentation clock cannot hold.
#[derive(Clone, Copy, Debug, PartialEq, Eq, Structural)]
pub struct TimestampExceeded {}

/// The schedule of the synthetic workload: which frame comes next, and which surfaces are free.
pub struct SyntheticSchedule {
    fps: u32,
    frame_index: u64,
    free_surfaces: Vec<usize>,
}

/// A schedule as the frame that comes next and the free surfaces, the one used next at the end.
#[verifier::ext_equal]
pub struct ScheduleState {
    pub fps: u32,
    pub frame_index: u64,
    pub free: Seq<usize>,
}

impl ScheduleState {
    /// Every free surface is one of the pool, and none is free twice.
    pub open spec fn well_formed(self) -> bool {
        &&& forall|i: int| 0 <= i < self.free.len() ==> #[trigger] self.free[i] < SYNTHETIC_SURFACE_POOL_SIZE
        &&& self.free.no_duplicates()
    }
}

impl View for SyntheticSchedule {
    type V = ScheduleState;

    closed spec fn view(&self) -> ScheduleState {
        ScheduleState {
            fps: self.fps,
            frame_index: self.frame_index,
            free: self.free_surfaces@,
        }
    }
}

/// The number after this one; the last one stays.
pub open spec fn following(frame_index: u64) -> u64 {
    if frame_index < u64::MAX {
        (frame_index + 1) as u64
    } else {
        frame_index
    }
}

impl SyntheticSchedule {
    pub open spec fn well_formed(&self) -> bool {
        self@.well_formed()
    }

    /// A schedule at its first frame, with every surface free.
    pub fn new(fps: u32) -> (schedule: Self)
        ensures
            schedule.well_formed(),
            schedule@ == (ScheduleState { fps, frame_index: 0, free: seq![0usize, 1usize, 2usize] }),
    {
        let mut free_surfaces: Vec<usize> = Vec::new();
        free_surfaces.push(0);
        free_surfaces.push(1);
        free_surfaces.push(2);
        assert(free_surfaces@ =~= seq![0usize, 1usize, 2usize]);
        SyntheticSchedule { fps, frame_index: 0, free_surfaces }
    }

    /// When the next frame is due, in nanoseconds after the start.
    pub fn due_at(&self) -> (nanos: u64)
        ensures
            nanos == offset_of(self@.frame_index, self@.fps),
    {
        frame_offset(self.frame_index, self.fps)
    }

    /// Takes back a surface that the encoder has released.
    pub fn recycle(&mut self, surface: usize)
        requires
            old(self).well_formed(),
            surface < SYNTHETIC_SURFACE_POOL_SIZE,
            !old(self)@.free.contains(surface),
        ensures
            final(self).well_formed(),
            final(self)@ == (ScheduleState { free: old(self)@.free.push(surface), ..old(self)@ }),
    {
        self.free_surfaces.push(surface);
        proof {
            let before = old(self)@.free;
            assert forall|i: int, j: int|
                0 <= i < self@.free.len() && 0 <= j < self@.free.len() && i != j implies self@.free[i]
                != self@.free[j] by {
                if i == before.len() {
                    assert(before.contains(before[j]));
                } else if j == before.len() {
                    assert(before.contains(before[i]));
                }
            }
        }
    }

    /// Takes the slot that is due. Without a free surface it is skipped and counted.
    pub fn begin(&mut self, counters: &mut MirrorCounters) -> (slot: SyntheticSlot)
        requires
            old(self).well_formed(),
        ensures
            final(self).well_formed(),
            if old(self)@.free.len() == 0 {
                &&& slot is Skip
                &&& final(self)@ == (ScheduleState {
                    frame_index: following(old(self)@.frame_index),
                    ..old(self)@
                })
                &&& *final(counters) == (MirrorCounters {
                    synthetic_skipped_frames: old(counters).synthetic_skipped_frames.wrapping_add(1),
                    ..*old(counters)
                })
            } else {
                &&& slot == SyntheticSlot::Render {
                    frame_index: old(self)@.frame_index,
                    surface: old(self)@.free.last(),
                }
                &&& final(self)@ == (ScheduleState {
                    free: old(self)@.free.drop_last(),
                    ..old(self)@
                })
                &&& *final(counters) == *old(counters)
            },
    {
        match self.free_surfaces.pop() {
            Some(surface) => SyntheticSlot::Render { frame_index: self.frame_index, surface },
            None => {
                counters.synthetic_skipped_frames = counters.synthetic_skipped_frames.wrapping_add(
                    1,
                );
                self.frame_index = self.frame_index.saturating_add(1);
                SyntheticSlot::Skip
            },
        }
    }

    /// The presentation time of a frame, in frames.
    pub fn presentation_value(frame_index: u64) -> (result: Result<i64, TimestampExceeded>)
        ensures
            result is Ok <==> frame_index <= i64::MAX,
            result matches Ok(value) ==> value == frame_index,
    {
        if frame_index <= i64::MAX as u64 {
            Ok(frame_index as i64)
        } else {
            Err(TimestampExceeded {  })
        }
    }

    /// Counts a frame that the encoder took, and moves on to the frame that is due now. Slots
    /// that passed meanwhile are counted as skipped.
    pub fn submitted(&mut self, elapsed: u128, counters: &mut MirrorCounters)
        requires
            elapsed <= crate::clock::LONGEST_SPAN,
        ensures
            ({
                let next = following(old(self)@.frame_index);
                let due = frame_due(elapsed, old(self)@.fps);
                &&& final(self)@ == ScheduleState {
                    frame_index: if due > next {
                        due
                    } else {
                        next
                    },
                    ..old(self)@
                }
                &&& *final(counters) == MirrorCounters {
                    synthetic_generated_frames: old(counters).synthetic_generated_frames.wrapping_add(
                        1,
                    ),
                    synthetic_skipped_frames: if due > next {
                        old(counters).synthetic_skipped_frames.wrapping_add((due - next) as u64)
                    } else {
                        old(counters).synthetic_skipped_frames
                    },
                    ..*old(counters)
                }
            }),
    {
        counters.synthetic_generated_frames = counters.synthetic_generated_frames.wrapping_add(1);
        let next_frame: u64 = self.frame_index.saturating_add(1);
        let frame_due_now: u64 = frame_at_elapsed(elapsed, self.fps);
        if frame_due_now > next_frame {
            counters.synthetic_skipped_frames = counters.synthetic_skipped_frames.wrapping_add(
                frame_due_now - next_frame,
            );
            self.frame_index = frame_due_now;
        } else {
            self.frame_index = next_frame;
        }
    }
}

/// Every slot of the schedule is either a frame or counted as skipped: a skipped slot and a
/// submitted frame each move the schedule by as many slots as the two counts grow together.
pub proof fn lemma_every_slot_is_accounted_for(
    frame_index: u64,
    generated: u64,
    skipped: u64,
    elapsed: u128,
    fps: u32,
)
    requires
        frame_index < u64::MAX,
        generated + skipped == frame_index,
    ensures
        generated + (skipped + 1) == following(frame_index),
        ({
            let next = following(frame_index);
            let due = frame_due(elapsed, fps);
            let after = if due > next {
                due
            } else {
                next
            };
            (generated + 1) + (skipped + (after - next)) == after
        }),
{
}

/// The clock and the schedule agree: the frame that is due at the moment of a frame's slot is not
/// a later one.
pub proof fn lemma_frames_are_not_due_early(frame_index: u64, fps: u32)
    requires
        fps > 0,
        frame_index * 1_000_000_000 / (fps as int) <= u64::MAX,
    ensures
        frame_due(offset_of(frame_index, fps) as u128, fps) <= frame_index,
{
    let nanos = frame_index * 1_000_000_000;
    let rate = fps as int;
    let offset = nanos / rate;
    assert(offset >= 0 && offset * rate <= nanos) by (nonlinear_arith)
        requires
            offset == nanos / rate,
            rate > 0,
            nanos >= 0,
    ;
    assert(offset * rate / 1_000_000_000 <= frame_index);
}

} // verus!
