//! Desktop audio: from captured samples to access units, and the framing of encoded audio.

use std::collections::VecDeque;

use vstd::prelude::*;
use vstd::seq_lib::lemma_flatten_concat;

use crate::bytes::push_bytes;
use crate::failure::store_failure;
use crate::float32::Single;
use crate::hls::{ACCESS_UNIT_SAMPLES, SAMPLE_RATE};

verus! {

/// The channels of captured audio.
pub const CHANNELS: u32 = 2;

/// The commands that may wait for the encoder.
pub const AUDIO_QUEUE_CAPACITY: usize = 64;

/// The longest gap that is filled with silence: two seconds.
pub const MAX_CONTINUOUS_SILENCE_SAMPLES: u64 = 96_000;

/// The samples of both channels that are encoded together, from sample `timestamp` on.
#[derive(Debug)]
pub struct AccessUnit {
    pub timestamp: u64,
    pub left: Vec<Single>,
    pub right: Vec<Single>,
}

#[verifier::ext_equal]
pub struct AccessUnitView {
    pub timestamp: u64,
    pub left: Seq<Single>,
    pub right: Seq<Single>,
}

impl View for AccessUnit {
    type V = AccessUnitView;

    open spec fn view(&self) -> AccessUnitView {
        AccessUnitView { timestamp: self.timestamp, left: self.left@, right: self.right@ }
    }
}

/// Some access units by their samples.
pub open spec fn unit_views(units: Seq<AccessUnit>) -> Seq<AccessUnitView> {
    units.map_values(|unit: AccessUnit| unit@)
}

/// The samples that wait for the encoder. They start with sample `fifo_start`, and the next one to
/// come is `next_sample`.
pub struct AudioPipeline {
    pub left: Vec<Single>,
    pub right: Vec<Single>,
    pub fifo_start: u64,
    pub next_sample: u64,
}

#[verifier::ext_equal]
pub struct PipelineView {
    pub left: Seq<Single>,
    pub right: Seq<Single>,
    pub fifo_start: u64,
    pub next_sample: u64,
}

impl View for AudioPipeline {
    type V = PipelineView;

    open spec fn view(&self) -> PipelineView {
        PipelineView {
            left: self.left@,
            right: self.right@,
            fifo_start: self.fifo_start,
            next_sample: self.next_sample,
        }
    }
}

/// The sum of two sample counts, or the last one that there is.
pub open spec fn later(sample: u64, count: int) -> u64 {
    if sample + count <= u64::MAX {
        (sample + count) as u64
    } else {
        u64::MAX
    }
}

/// So many samples of silence.
pub open spec fn silence(count: nat) -> Seq<Single> {
    Seq::new(count, |i: int| Single { bits: 0 })
}

impl PipelineView {
    /// Whether both channels have as many samples.
    pub open spec fn even(self) -> bool {
        self.left.len() == self.right.len()
    }

    /// Whether both channels have as many samples, and fewer than an access unit takes.
    pub open spec fn well_formed(self) -> bool {
        self.even() && self.left.len() < ACCESS_UNIT_SAMPLES
    }

    /// Whether the waiting samples reach up to the next one.
    pub open spec fn aligned(self) -> bool {
        self.fifo_start + self.left.len() == self.next_sample
    }

    /// The first access unit.
    pub open spec fn first_unit(self) -> AccessUnitView {
        AccessUnitView {
            timestamp: self.fifo_start,
            left: self.left.take(ACCESS_UNIT_SAMPLES as int),
            right: self.right.take(ACCESS_UNIT_SAMPLES as int),
        }
    }

    /// What waits after the first access unit.
    pub open spec fn after_unit(self) -> PipelineView {
        PipelineView {
            left: self.left.skip(ACCESS_UNIT_SAMPLES as int),
            right: self.right.skip(ACCESS_UNIT_SAMPLES as int),
            fifo_start: later(self.fifo_start, ACCESS_UNIT_SAMPLES as int),
            next_sample: self.next_sample,
        }
    }

    /// The whole access units that wait.
    pub open spec fn units(self) -> Seq<AccessUnitView>
        decreases self.left.len(),
    {
        if self.left.len() >= ACCESS_UNIT_SAMPLES {
            seq![self.first_unit()] + self.after_unit().units()
        } else {
            Seq::empty()
        }
    }

    /// What waits after the whole access units.
    pub open spec fn rest(self) -> PipelineView
        decreases self.left.len(),
    {
        if self.left.len() >= ACCESS_UNIT_SAMPLES {
            self.after_unit().rest()
        } else {
            self
        }
    }

    /// What waits once a gap was filled with silence. A long gap is skipped instead: what waited is
    /// dropped, and one access unit of silence leads up to its end.
    pub open spec fn silenced(self, frames: u64) -> PipelineView {
        if frames > MAX_CONTINUOUS_SILENCE_SAMPLES {
            let target = later(self.next_sample, frames as int);
            let start = (target - ACCESS_UNIT_SAMPLES) as u64;
            PipelineView {
                left: silence(ACCESS_UNIT_SAMPLES as nat),
                right: silence(ACCESS_UNIT_SAMPLES as nat),
                fifo_start: start,
                next_sample: target,
            }
        } else {
            PipelineView {
                left: self.left + silence(frames as nat),
                right: self.right + silence(frames as nat),
                fifo_start: self.fifo_start,
                next_sample: later(self.next_sample, frames as int),
            }
        }
    }

    /// What waits before samples that start at `timestamp` are added: a gap before them is filled
    /// and encoded.
    pub open spec fn reaching(self, timestamp: u64) -> PipelineView {
        if timestamp > self.next_sample {
            self.silenced((timestamp - self.next_sample) as u64).rest()
        } else {
            self
        }
    }

    /// The access units that the silence before samples completes.
    pub open spec fn reached_units(self, timestamp: u64) -> Seq<AccessUnitView> {
        if timestamp > self.next_sample {
            self.silenced((timestamp - self.next_sample) as u64).units()
        } else {
            Seq::empty()
        }
    }

    /// How many samples of a buffer came before.
    pub open spec fn overlap(self, timestamp: u64, frames: int) -> int {
        if timestamp >= self.next_sample {
            0
        } else if self.next_sample - timestamp < frames {
            self.next_sample - timestamp
        } else {
            frames
        }
    }

    /// What waits once samples that start at `timestamp` were added. Those that came before are
    /// left out.
    pub open spec fn extended(
        self,
        timestamp: u64,
        left: Seq<Single>,
        right: Seq<Single>,
    ) -> PipelineView {
        let trim = self.overlap(timestamp, left.len() as int);
        PipelineView {
            left: self.left + left.skip(trim),
            right: self.right + right.skip(trim),
            fifo_start: self.fifo_start,
            next_sample: later(self.next_sample, left.len() - trim),
        }
    }

    /// What waits after samples that start at `timestamp`.
    pub open spec fn fed(self, timestamp: u64, left: Seq<Single>, right: Seq<Single>) -> PipelineView {
        self.reaching(timestamp).extended(timestamp, left, right).rest()
    }

    /// The access units that samples that start at `timestamp` complete.
    pub open spec fn fed_units(
        self,
        timestamp: u64,
        left: Seq<Single>,
        right: Seq<Single>,
    ) -> Seq<AccessUnitView> {
        self.reached_units(timestamp) + self.reaching(timestamp).extended(
            timestamp,
            left,
            right,
        ).units()
    }

    /// The end of the access unit that a sample lies in, where it starts none.
    pub open spec fn aligned_end(timestamp: u64) -> u64 {
        (later(timestamp, ACCESS_UNIT_SAMPLES - 1) / ACCESS_UNIT_SAMPLES as u64
            * ACCESS_UNIT_SAMPLES) as u64
    }
}

proof fn lemma_rest(view: PipelineView)
    requires
        view.even(),
    ensures
        view.rest().well_formed(),
        view.rest().next_sample == view.next_sample,
        view.aligned() ==> view.rest().aligned(),
    decreases view.left.len(),
{
    if view.left.len() >= ACCESS_UNIT_SAMPLES {
        lemma_rest(view.after_unit());
    }
}

/// Samples that leave a gap, or overlap with those before, keep the pipeline aligned: the waiting
/// samples reach up to the next one. The next sample is the one after the latest that came, so
/// none is encoded twice.
pub proof fn lemma_the_pipeline_stays_aligned(
    view: PipelineView,
    timestamp: u64,
    left: Seq<Single>,
    right: Seq<Single>,
)
    requires
        view.well_formed(),
        view.aligned(),
        left.len() == right.len(),
        timestamp + left.len() <= u64::MAX,
    ensures
        view.fed(timestamp, left, right).well_formed(),
        view.fed(timestamp, left, right).aligned(),
        view.fed(timestamp, left, right).next_sample == if timestamp + left.len()
            > view.next_sample {
            timestamp + left.len()
        } else {
            view.next_sample as int
        },
{
    if timestamp > view.next_sample {
        lemma_rest(view.silenced((timestamp - view.next_sample) as u64));
    }
    lemma_rest(view.reaching(timestamp).extended(timestamp, left, right));
}

/// The left samples of some access units, one unit after the other.
pub open spec fn left_of(units: Seq<AccessUnitView>) -> Seq<Single> {
    units.map_values(|unit: AccessUnitView| unit.left).flatten()
}

/// The right samples of some access units, one unit after the other.
pub open spec fn right_of(units: Seq<AccessUnitView>) -> Seq<Single> {
    units.map_values(|unit: AccessUnitView| unit.right).flatten()
}

proof fn lemma_joined_units(first: Seq<AccessUnitView>, second: Seq<AccessUnitView>)
    ensures
        left_of(first + second) == left_of(first) + left_of(second),
        right_of(first + second) == right_of(first) + right_of(second),
{
    let left = |unit: AccessUnitView| unit.left;
    let right = |unit: AccessUnitView| unit.right;
    assert((first + second).map_values(left) =~= first.map_values(left) + second.map_values(left));
    assert((first + second).map_values(right) =~= first.map_values(right) + second.map_values(
        right,
    ));
    lemma_flatten_concat(first.map_values(left), second.map_values(left));
    lemma_flatten_concat(first.map_values(right), second.map_values(right));
}

proof fn lemma_one_unit(unit: AccessUnitView)
    ensures
        left_of(seq![unit]) == unit.left,
        right_of(seq![unit]) == unit.right,
{
    let left = seq![unit].map_values(|unit: AccessUnitView| unit.left);
    let right = seq![unit].map_values(|unit: AccessUnitView| unit.right);
    assert(left =~= seq![unit.left]);
    assert(right =~= seq![unit.right]);
    left.lemma_flatten_one_element();
    right.lemma_flatten_one_element();
}

/// Access units hold the samples that waited, 1024 of each channel and in their order, none twice
/// and none left out; each tells the sample that it starts with, and fewer samples than an access
/// unit takes go on waiting.
pub proof fn lemma_access_units_hold_the_samples(view: PipelineView)
    requires
        view.even(),
    ensures
        left_of(view.units()) + view.rest().left == view.left,
        right_of(view.units()) + view.rest().right == view.right,
        view.rest().left.len() < 1024,
        forall|k: int|
            0 <= k < view.units().len() ==> (#[trigger] view.units()[k]).left.len() == 1024
                && view.units()[k].right.len() == 1024,
        view.fifo_start + view.left.len() <= u64::MAX ==> forall|k: int|
            0 <= k < view.units().len() ==> (#[trigger] view.units()[k]).timestamp
                == view.fifo_start + 1024 * k,
        view.fifo_start + view.left.len() <= u64::MAX ==> view.rest().fifo_start == view.fifo_start
            + 1024 * view.units().len(),
    decreases view.left.len(),
{
    if view.left.len() >= ACCESS_UNIT_SAMPLES {
        let next = view.after_unit();
        let unit = view.first_unit();
        let units = view.units();
        lemma_access_units_hold_the_samples(next);
        lemma_joined_units(seq![unit], next.units());
        lemma_one_unit(unit);
        assert(units == seq![unit] + next.units());
        assert(view.left =~= unit.left + next.left);
        assert(view.right =~= unit.right + next.right);
        assert(left_of(units) + view.rest().left =~= unit.left + (left_of(next.units())
            + next.rest().left));
        assert(right_of(units) + view.rest().right =~= unit.right + (right_of(next.units())
            + next.rest().right));
        assert forall|k: int| 0 <= k < units.len() implies (#[trigger] units[k]).left.len() == 1024
            && units[k].right.len() == 1024 by {
            if k > 0 {
                assert(units[k] == next.units()[k - 1]);
            }
        }
        if view.fifo_start + view.left.len() <= u64::MAX {
            assert forall|k: int| 0 <= k < units.len() implies (#[trigger] units[k]).timestamp
                == view.fifo_start + 1024 * k by {
                if k > 0 {
                    assert(units[k] == next.units()[k - 1]);
                }
            }
        }
    } else {
        assert(left_of(view.units()) =~= Seq::<Single>::empty()) by {
            assert(view.units().map_values(|unit: AccessUnitView| unit.left) =~= Seq::<
                Seq<Single>,
            >::empty());
        }
        assert(right_of(view.units()) =~= Seq::<Single>::empty()) by {
            assert(view.units().map_values(|unit: AccessUnitView| unit.right) =~= Seq::<
                Seq<Single>,
            >::empty());
        }
    }
}

/// Every sample that comes is encoded at its place: behind what waited, after silence where there
/// is a gap of at most two seconds, and without the part that came before. A longer gap is skipped
/// up to its last 1024 samples.
pub proof fn lemma_samples_keep_their_place(
    view: PipelineView,
    timestamp: u64,
    left: Seq<Single>,
    right: Seq<Single>,
)
    requires
        view.well_formed(),
        left.len() == right.len(),
    ensures
        ({
            let heard_left = left_of(view.fed_units(timestamp, left, right)) + view.fed(
                timestamp,
                left,
                right,
            ).left;
            let heard_right = right_of(view.fed_units(timestamp, left, right)) + view.fed(
                timestamp,
                left,
                right,
            ).right;
            let gap = timestamp - view.next_sample;
            &&& gap == 0 ==> heard_left == view.left + left && heard_right == view.right + right
            &&& 0 < gap <= 96_000 ==> heard_left == view.left + silence(gap as nat) + left
                && heard_right == view.right + silence(gap as nat) + right
            &&& gap > 96_000 ==> heard_left == silence(1024) + left && heard_right == silence(1024)
                + right
            &&& gap < 0 && -gap <= left.len() ==> heard_left == view.left + left.skip(-gap)
                && heard_right == view.right + right.skip(-gap)
            &&& gap < 0 && -gap >= left.len() ==> heard_left == view.left && heard_right
                == view.right
        }),
{
    let gap = timestamp - view.next_sample;
    let filled = if gap > 0 {
        view.silenced(gap as u64)
    } else {
        view
    };
    let reached = view.reaching(timestamp);
    let fed = reached.extended(timestamp, left, right);
    let trim = reached.overlap(timestamp, left.len() as int);
    lemma_rest(filled);
    lemma_access_units_hold_the_samples(filled);
    lemma_access_units_hold_the_samples(fed);
    lemma_joined_units(view.reached_units(timestamp), fed.units());
    if gap > 0 {
        assert(view.reached_units(timestamp) == filled.units());
        assert(reached == filled.rest());
        assert(left_of(filled.units()) + (reached.left + left.skip(trim)) =~= filled.left
            + left.skip(trim)) by {
            assert(filled.left == left_of(filled.units()) + reached.left);
        }
        assert(right_of(filled.units()) + (reached.right + right.skip(trim)) =~= filled.right
            + right.skip(trim)) by {
            assert(filled.right == right_of(filled.units()) + reached.right);
        }
    } else {
        assert(left_of(view.reached_units(timestamp)) =~= Seq::<Single>::empty()) by {
            assert(view.reached_units(timestamp).map_values(|unit: AccessUnitView| unit.left)
                =~= Seq::<Seq<Single>>::empty());
        }
        assert(right_of(view.reached_units(timestamp)) =~= Seq::<Single>::empty()) by {
            assert(view.reached_units(timestamp).map_values(|unit: AccessUnitView| unit.right)
                =~= Seq::<Seq<Single>>::empty());
        }
    }
    let heard_left = left_of(view.fed_units(timestamp, left, right)) + view.fed(
        timestamp,
        left,
        right,
    ).left;
    let heard_right = right_of(view.fed_units(timestamp, left, right)) + view.fed(
        timestamp,
        left,
        right,
    ).right;
    assert(heard_left =~= left_of(view.reached_units(timestamp)) + fed.left);
    assert(heard_right =~= right_of(view.reached_units(timestamp)) + fed.right);
    assert(heard_left =~= filled.left + left.skip(trim));
    assert(heard_right =~= filled.right + right.skip(trim));
    assert(left.skip(0) =~= left);
    assert(right.skip(0) =~= right);
    if gap < 0 && -gap >= left.len() {
        assert(left.skip(left.len() as int) =~= Seq::<Single>::empty());
        assert(right.skip(left.len() as int) =~= Seq::<Single>::empty());
    }
}

/// Audio is filled up to the end of an access unit: the first multiple of 1024 that is not before
/// the sample.
pub proof fn lemma_ends_are_aligned(timestamp: u64)
    requires
        timestamp <= u64::MAX - 1024,
    ensures
        PipelineView::aligned_end(timestamp) % 1024 == 0,
        timestamp <= PipelineView::aligned_end(timestamp) < timestamp + 1024,
{
}

/// A copy of a range of samples.
fn copy_samples(samples: &[Single], start: usize, end: usize) -> (copy: Vec<Single>)
    requires
        start <= end <= samples@.len(),
    ensures
        copy@ == samples@.subrange(start as int, end as int),
{
    let mut copy: Vec<Single> = Vec::new();
    let mut index: usize = start;
    while index < end
        invariant
            start <= index <= end <= samples@.len(),
            copy@ == samples@.subrange(start as int, index as int),
        decreases end - index,
    {
        copy.push(samples[index]);
        index = index + 1;
        assert(copy@ =~= samples@.subrange(start as int, index as int));
    }
    copy
}

fn push_samples(target: &mut Vec<Single>, samples: &[Single], start: usize)
    requires
        start <= samples@.len(),
    ensures
        final(target)@ == old(target)@ + samples@.skip(start as int),
{
    let mut index: usize = start;
    assert(target@ =~= old(target)@ + samples@.subrange(start as int, start as int));
    while index < samples.len()
        invariant
            start <= index <= samples@.len(),
            target@ == old(target)@ + samples@.subrange(start as int, index as int),
        decreases samples@.len() - index,
    {
        target.push(samples[index]);
        index = index + 1;
        assert(target@ =~= old(target)@ + samples@.subrange(start as int, index as int));
    }
    assert(samples@.subrange(start as int, index as int) =~= samples@.skip(start as int));
}

fn push_zeros(target: &mut Vec<Single>, count: u64)
    ensures
        final(target)@ == old(target)@ + silence(count as nat),
{
    let mut added: u64 = 0;
    assert(target@ =~= old(target)@ + silence(0));
    while added < count
        invariant
            added <= count,
            target@ == old(target)@ + silence(added as nat),
        decreases count - added,
    {
        target.push(Single { bits: 0 });
        added = added + 1;
        assert(target@ =~= old(target)@ + silence(added as nat));
    }
}

/// A buffer ended in the middle of a stereo frame.
#[derive(Clone, Copy, Debug, PartialEq, Eq, Structural)]
pub struct TruncatedStereoBuffer {}

/// The samples of one channel of interleaved stereo.
pub open spec fn channel(pcm: Seq<Single>, offset: int) -> Seq<Single> {
    Seq::new((pcm.len() / 2) as nat, |i: int| pcm[2 * i + offset])
}

fn split_channels(pcm: &[Single]) -> (channels: (Vec<Single>, Vec<Single>))
    requires
        pcm@.len() % 2 == 0,
    ensures
        channels.0@ == channel(pcm@, 0),
        channels.1@ == channel(pcm@, 1),
{
    let mut left: Vec<Single> = Vec::new();
    let mut right: Vec<Single> = Vec::new();
    let count: usize = pcm.len();
    let frames: usize = count / 2;
    let mut index: usize = 0;
    while index < frames
        invariant
            index <= frames,
            2 * frames == count == pcm@.len(),
            left@ == channel(pcm@, 0).take(index as int),
            right@ == channel(pcm@, 1).take(index as int),
        decreases frames - index,
    {
        left.push(pcm[2 * index]);
        right.push(pcm[2 * index + 1]);
        index = index + 1;
        assert(left@ =~= channel(pcm@, 0).take(index as int));
        assert(right@ =~= channel(pcm@, 1).take(index as int));
    }
    assert(channel(pcm@, 0).take(index as int) =~= channel(pcm@, 0));
    assert(channel(pcm@, 1).take(index as int) =~= channel(pcm@, 1));
    (left, right)
}

impl AudioPipeline {
    pub fn new() -> (pipeline: Self)
        ensures
            pipeline@ == (PipelineView {
                left: Seq::empty(),
                right: Seq::empty(),
                fifo_start: 0,
                next_sample: 0,
            }),
    {
        AudioPipeline { left: Vec::new(), right: Vec::new(), fifo_start: 0, next_sample: 0 }
    }

    /// Takes interleaved stereo samples that start at `captured_at`, and gives the access units
    /// that they complete.
    pub fn push_pcm(&mut self, captured_at: u64, pcm: &[Single]) -> (result: Result<
        Vec<AccessUnit>,
        TruncatedStereoBuffer,
    >)
        requires
            old(self)@.well_formed(),
        ensures
            final(self)@.well_formed(),
            match result {
                Ok(units) => {
                    &&& pcm@.len() % 2 == 0
                    &&& unit_views(units@) == old(self)@.fed_units(
                        captured_at,
                        channel(pcm@, 0),
                        channel(pcm@, 1),
                    )
                    &&& final(self)@ == old(self)@.fed(
                        captured_at,
                        channel(pcm@, 0),
                        channel(pcm@, 1),
                    )
                },
                Err(_) => pcm@.len() % 2 == 1 && *final(self) == *old(self),
            },
    {
        if pcm.len() % 2 != 0 {
            return Err(TruncatedStereoBuffer {  });
        }
        let (left, right) = split_channels(pcm);
        Ok(self.push_frames(captured_at, left.as_slice(), right.as_slice()))
    }

    /// Takes samples of both channels that start at `timestamp`, and gives the access units that
    /// they complete.
    pub fn push_frames(&mut self, timestamp: u64, left: &[Single], right: &[Single]) -> (units: Vec<
        AccessUnit,
    >)
        requires
            old(self)@.well_formed(),
            left@.len() == right@.len(),
        ensures
            final(self)@.well_formed(),
            unit_views(units@) == old(self)@.fed_units(timestamp, left@, right@),
            final(self)@ == old(self)@.fed(timestamp, left@, right@),
    {
        let ghost before = self@;
        let mut units: Vec<AccessUnit> = Vec::new();
        assert(unit_views(units@) =~= Seq::empty());
        if timestamp > self.next_sample {
            self.push_silence(timestamp - self.next_sample, &mut units);
        }
        assert(unit_views(units@) =~= before.reached_units(timestamp));
        let ghost reached = self@;
        let trim: usize = if timestamp >= self.next_sample {
            0
        } else if self.next_sample - timestamp < left.len() as u64 {
            (self.next_sample - timestamp) as usize
        } else {
            left.len()
        };
        push_samples(&mut self.left, left, trim);
        push_samples(&mut self.right, right, trim);
        self.next_sample = self.next_sample.saturating_add((left.len() - trim) as u64);
        assert(self@ =~= reached.extended(timestamp, left@, right@));
        self.drain(&mut units);
        units
    }

    /// Fills up to the end of the access unit that a sample lies in, and gives the access units
    /// that are complete.
    pub fn advance_to(&mut self, timestamp: u64) -> (units: Vec<AccessUnit>)
        requires
            old(self)@.well_formed(),
        ensures
            final(self)@.well_formed(),
            unit_views(units@) == old(self)@.reached_units(PipelineView::aligned_end(timestamp)),
            final(self)@ == old(self)@.reaching(PipelineView::aligned_end(timestamp)),
    {
        let ghost before = self@;
        let aligned: u64 = timestamp.saturating_add(ACCESS_UNIT_SAMPLES as u64 - 1)
            / ACCESS_UNIT_SAMPLES as u64 * ACCESS_UNIT_SAMPLES as u64;
        let mut units: Vec<AccessUnit> = Vec::new();
        assert(unit_views(units@) =~= Seq::empty());
        if aligned > self.next_sample {
            self.push_silence(aligned - self.next_sample, &mut units);
        }
        assert(unit_views(units@) =~= before.reached_units(aligned));
        units
    }

    fn push_silence(&mut self, frames: u64, units: &mut Vec<AccessUnit>)
        requires
            old(self)@.even(),
        ensures
            final(self)@ == old(self)@.silenced(frames).rest(),
            final(self)@.well_formed(),
            unit_views(final(units)@) == unit_views(old(units)@) + old(self)@.silenced(
                frames,
            ).units(),
    {
        let ghost before = self@;
        if frames > MAX_CONTINUOUS_SILENCE_SAMPLES {
            let target: u64 = self.next_sample.saturating_add(frames);
            self.left = Vec::new();
            self.right = Vec::new();
            self.fifo_start = target - ACCESS_UNIT_SAMPLES as u64;
            self.next_sample = target;
            push_zeros(&mut self.left, ACCESS_UNIT_SAMPLES as u64);
            push_zeros(&mut self.right, ACCESS_UNIT_SAMPLES as u64);
        } else {
            push_zeros(&mut self.left, frames);
            push_zeros(&mut self.right, frames);
            self.next_sample = self.next_sample.saturating_add(frames);
        }
        assert(self@ =~= before.silenced(frames));
        self.drain(units);
    }

    /// Takes the whole access units out.
    fn drain(&mut self, units: &mut Vec<AccessUnit>)
        requires
            old(self)@.even(),
        ensures
            final(self)@ == old(self)@.rest(),
            final(self)@.well_formed(),
            unit_views(final(units)@) == unit_views(old(units)@) + old(self)@.units(),
    {
        let ghost before = self@;
        proof {
            lemma_rest(before);
        }
        assert(unit_views(units@) + before.units() =~= unit_views(old(units)@) + before.units());
        while self.left.len() >= ACCESS_UNIT_SAMPLES
            invariant
                self@.even(),
                self@.rest() == before.rest(),
                unit_views(units@) + self@.units() == unit_views(old(units)@) + before.units(),
            decreases self.left@.len(),
        {
            let ghost current = self@;
            let ghost given = units@;
            let left: Vec<Single> = copy_samples(self.left.as_slice(), 0, ACCESS_UNIT_SAMPLES);
            let right: Vec<Single> = copy_samples(self.right.as_slice(), 0, ACCESS_UNIT_SAMPLES);
            assert(left@ =~= current.left.take(ACCESS_UNIT_SAMPLES as int));
            assert(right@ =~= current.right.take(ACCESS_UNIT_SAMPLES as int));
            let unit: AccessUnit = AccessUnit { timestamp: self.fifo_start, left, right };
            assert(unit@ == current.first_unit());
            self.fifo_start = self.fifo_start.saturating_add(ACCESS_UNIT_SAMPLES as u64);
            self.left =
            copy_samples(self.left.as_slice(), ACCESS_UNIT_SAMPLES, self.left.len());
            self.right =
            copy_samples(self.right.as_slice(), ACCESS_UNIT_SAMPLES, self.right.len());
            assert(self@ =~= current.after_unit());
            units.push(unit);
            assert(unit_views(units@) =~= unit_views(given).push(current.first_unit()));
            assert(unit_views(given) + (seq![current.first_unit()] + self@.units())
                =~= unit_views(units@) + self@.units());
        }
        assert(unit_views(units@) + self@.units() =~= unit_views(units@));
    }
}

/// Why a captured buffer was refused.
#[derive(Clone, Copy, Debug, PartialEq, Eq, Structural)]
pub enum AudioBufferError {
    TooLarge,
    Truncated,
}

/// The sample whose four bytes, least significant first, stand at `offset`.
pub open spec fn sample_at(bytes: Seq<u8>, offset: int) -> Single {
    Single {
        bits: (bytes[offset] + bytes[offset + 1] * 0x100 + bytes[offset + 2] * 0x1_0000
            + bytes[offset + 3] * 0x100_0000) as u32,
    }
}

/// The samples at the start of some bytes.
pub open spec fn samples_of(bytes: Seq<u8>, count: int) -> Seq<Single> {
    Seq::new(count as nat, |i: int| sample_at(bytes, 4 * i))
}

/// Reads so many samples.
pub fn decode_samples(bytes: &[u8], count: usize) -> (result: Result<Vec<Single>, AudioBufferError>)
    ensures
        match result {
            Ok(samples) => 4 * count <= bytes@.len() && samples@ == samples_of(
                bytes@,
                count as int,
            ),
            Err(AudioBufferError::TooLarge) => 4 * count > usize::MAX,
            Err(AudioBufferError::Truncated) => 4 * count <= usize::MAX && bytes@.len() < 4 * count,
        },
{
    if count > usize::MAX / 4 {
        return Err(AudioBufferError::TooLarge);
    }
    if bytes.len() < 4 * count {
        return Err(AudioBufferError::Truncated);
    }
    let total: usize = bytes.len();
    let mut samples: Vec<Single> = Vec::new();
    let mut index: usize = 0;
    while index < count
        invariant
            index <= count,
            4 * count <= total == bytes@.len(),
            samples@ == samples_of(bytes@, index as int),
        decreases count - index,
    {
        let base: usize = 4 * index;
        let bits: u32 = bytes[base] as u32 + bytes[base + 1] as u32 * 0x100 + bytes[base
            + 2] as u32 * 0x1_0000 + bytes[base + 3] as u32 * 0x100_0000;
        samples.push(Single { bits });
        index = index + 1;
        assert(samples@ =~= samples_of(bytes@, index as int));
    }
    Ok(samples)
}

/// Reads so many frames of interleaved stereo, channel by channel.
pub fn decode_interleaved_stereo(bytes: &[u8], frames: usize) -> (result: Result<
    (Vec<Single>, Vec<Single>),
    AudioBufferError,
>)
    ensures
        match result {
            Ok((left, right)) => {
                &&& 8 * frames <= bytes@.len()
                &&& left@ == channel(samples_of(bytes@, 2 * frames), 0)
                &&& right@ == channel(samples_of(bytes@, 2 * frames), 1)
            },
            Err(AudioBufferError::TooLarge) => 8 * frames > usize::MAX,
            Err(AudioBufferError::Truncated) => 8 * frames <= usize::MAX && bytes@.len() < 8
                * frames,
        },
{
    if frames > usize::MAX / 2 {
        return Err(AudioBufferError::TooLarge);
    }
    match decode_samples(bytes, 2 * frames) {
        Ok(samples) => Ok(split_channels(samples.as_slice())),
        Err(error) => Err(error),
    }
}

/// What is known of the format of captured audio.
#[derive(Clone, Copy, Debug)]
pub struct CapturedFormat {
    /// Whether the sample rate is the expected one, give or take half a sample.
    pub rate_matches: bool,
    pub channels: u32,
    pub bits: u32,
    pub is_float: bool,
    pub is_big_endian: bool,
    pub flags: Option<u32>,
    pub buffers: usize,
}

/// How the channels of a captured buffer lie in memory.
#[derive(Clone, Copy, Debug, PartialEq, Eq, Structural)]
pub enum ChannelLayout {
    Planar,
    Interleaved,
}

/// Why captured audio cannot be used.
#[derive(Clone, Copy, Debug, PartialEq, Eq, Structural)]
pub enum FormatError {
    UnsupportedFormat,
    UnsupportedLayout,
}

impl CapturedFormat {
    /// Whether the samples are stereo, single-precision and little-endian at the expected rate.
    pub open spec fn supported(self) -> bool {
        self.rate_matches && self.channels == CHANNELS && self.bits == 32 && self.is_float
            && !self.is_big_endian
    }

    /// Whether each channel has a buffer of its own.
    pub open spec fn non_interleaved(self) -> bool {
        match self.flags {
            Some(flags) => flags / 32 % 2 == 1,
            None => false,
        }
    }

    /// How the channels lie in memory, where they can be used.
    pub fn layout(self) -> (result: Result<ChannelLayout, FormatError>)
        ensures
            result == if !self.supported() {
                Err::<ChannelLayout, FormatError>(FormatError::UnsupportedFormat)
            } else if self.non_interleaved() && self.buffers == 2 {
                Ok(ChannelLayout::Planar)
            } else if !self.non_interleaved() && self.buffers == 1 {
                Ok(ChannelLayout::Interleaved)
            } else {
                Err(FormatError::UnsupportedLayout)
            },
    {
        if !self.rate_matches || self.channels != CHANNELS || self.bits != 32 || !self.is_float
            || self.is_big_endian {
            return Err(FormatError::UnsupportedFormat);
        }
        let non_interleaved: bool = match self.flags {
            Some(flags) => flags / 32 % 2 == 1,
            None => false,
        };
        if non_interleaved && self.buffers == 2 {
            Ok(ChannelLayout::Planar)
        } else if !non_interleaved && self.buffers == 1 {
            Ok(ChannelLayout::Interleaved)
        } else {
            Err(FormatError::UnsupportedLayout)
        }
    }
}

/// The layout of the channels is the sixth of the flags.
pub proof fn lemma_layouts_are_read_in_the_flags(format: CapturedFormat, flags: u32)
    requires
        format.flags == Some(flags),
    ensures
        format.non_interleaved() <==> flags & 0x20 == 0x20,
{
    assert(flags & 0x20 == 0x20 <==> flags / 32 % 2 == 1) by (bit_vector);
}

/// An encoded packet that its header cannot describe.
#[derive(Clone, Copy, Debug, PartialEq, Eq, Structural)]
pub struct PacketTooLarge {}

/// The header in front of an encoded packet: low-complexity AAC, stereo at 48 kHz, and the length
/// of the frame with its header in 13 bits.
pub open spec fn adts_bytes(frame_length: int) -> Seq<u8> {
    seq![
        0xffu8,
        0xf1u8,
        0x4cu8,
        (0x80 + frame_length / 2048) as u8,
        (frame_length / 8 % 256) as u8,
        (frame_length % 8 * 32 + 31) as u8,
        0xfcu8,
    ]
}

/// The header in front of an encoded packet.
pub fn adts_header(payload_length: usize) -> (result: Result<Vec<u8>, PacketTooLarge>)
    ensures
        match result {
            Ok(header) => payload_length + 7 <= 0x1fff && header@ == adts_bytes(payload_length + 7),
            Err(_) => payload_length + 7 > 0x1fff,
        },
{
    if payload_length > 0x1fff - 7 {
        return Err(PacketTooLarge {  });
    }
    let frame_length: usize = payload_length + 7;
    let mut header: Vec<u8> = Vec::new();
    header.push(0xff);
    header.push(0xf1);
    header.push(0x4c);
    header.push((0x80 + frame_length / 2048) as u8);
    header.push((frame_length / 8 % 256) as u8);
    header.push((frame_length % 8 * 32 + 31) as u8);
    header.push(0xfc);
    assert(header@ =~= adts_bytes(payload_length + 7));
    Ok(header)
}

/// The length of a frame is read back from its header.
pub proof fn lemma_frame_length_is_read_back(frame_length: int)
    requires
        0 <= frame_length <= 0x1fff,
    ensures
        ({
            let header = adts_bytes(frame_length);
            header[3] % 4 * 2048 + header[4] * 8 + header[5] / 32 == frame_length
        }),
{
}

/// The header of a packet is that of ADTS: the sync word, low-complexity AAC without a checksum,
/// 48 kHz, two channels, and the length of the frame with its header.
pub proof fn lemma_packet_headers_read_back(frame_length: int)
    requires
        7 <= frame_length <= 0x1fff,
    ensures
        ({
            let header = adts_bytes(frame_length);
            &&& header.len() == 7
            &&& header[0] * 16 + header[1] / 16 == 0xfff
            &&& header[1] % 2 == 1
            &&& header[1] / 2 % 8 == 0
            &&& header[2] / 64 + 1 == 2
            &&& header[2] / 4 % 16 == 3
            &&& header[2] % 2 * 4 + header[3] / 64 == 2
            &&& header[3] % 4 * 2048 + header[4] * 8 + header[5] / 32 == frame_length
            &&& header[5] % 32 * 64 + header[6] / 4 == 0x7ff
            &&& header[6] % 4 == 0
        }),
{
}

/// A sample is read back from its four bytes, of which the first counts least.
pub proof fn lemma_samples_read_back(bits: u32, bytes: Seq<u8>, i: int, count: int)
    requires
        0 <= i < count,
        4 * count <= bytes.len(),
        bytes[4 * i] == bits % 256,
        bytes[4 * i + 1] == bits / 256 % 256,
        bytes[4 * i + 2] == bits / 0x1_0000 % 256,
        bytes[4 * i + 3] == bits / 0x100_0000,
    ensures
        samples_of(bytes, count)[i] == (Single { bits }),
        samples_of(bytes, count).len() == count,
{
}

/// Interleaved samples go to the channels in turn: the first of each pair left, the second right.
pub proof fn lemma_channels_take_turns(pcm: Seq<Single>, i: int)
    requires
        0 <= i < pcm.len(),
    ensures
        pcm.len() % 2 == 0 ==> channel(pcm, 0).len() == channel(pcm, 1).len() && 2 * channel(
            pcm,
            0,
        ).len() == pcm.len(),
        pcm.len() % 2 == 0 && i % 2 == 0 ==> channel(pcm, 0)[i / 2] == pcm[i],
        pcm.len() % 2 == 0 && i % 2 == 1 ==> channel(pcm, 1)[i / 2] == pcm[i],
{
}

/// An encoded packet behind its header.
pub fn frame_packet(payload: &[u8]) -> (result: Result<Vec<u8>, PacketTooLarge>)
    ensures
        match result {
            Ok(framed) => payload@.len() + 7 <= 0x1fff && framed@ == adts_bytes(
                payload@.len() as int + 7,
            ) + payload@,
            Err(_) => payload@.len() + 7 > 0x1fff,
        },
{
    match adts_header(payload.len()) {
        Ok(header) => {
            let mut framed: Vec<u8> = header;
            push_bytes(&mut framed, payload);
            Ok(framed)
        },
        Err(error) => Err(error),
    }
}

/// The first sample of an encoded packet: what the encoder says, where that is a sample, or else
/// that of the access unit that went in.
pub fn packet_timestamp(pts: Option<i64>, timestamp: u64) -> (result: u64)
    ensures
        result == match pts {
            Some(pts) => if pts >= 0 {
                pts as u64
            } else {
                timestamp
            },
            None => timestamp,
        },
{
    match pts {
        Some(pts) => if pts >= 0 {
            pts as u64
        } else {
            timestamp
        },
        None => timestamp,
    }
}

/// The first sample of the first buffer, given the sample at which the buffer ends.
pub fn first_audio_timestamp(buffer_end: u64, frames: u64) -> (timestamp: u64)
    ensures
        timestamp == if buffer_end >= frames {
            (buffer_end - frames) as u64
        } else {
            0
        },
{
    if buffer_end >= frames {
        buffer_end - frames
    } else {
        0
    }
}

/// Why a buffer of the audio service cannot be read.
#[derive(Clone, Copy, Debug, PartialEq, Eq, Structural)]
pub enum PlaneError {
    Truncated,
    PartialFrames,
}

/// Where the next buffer of the audio service starts.
pub struct SampleCursor {
    pub next: Option<u64>,
}

impl SampleCursor {
    /// The sample at which a buffer of so many frames starts that ends at `buffer_end`, as far as
    /// no buffer came before.
    pub open spec fn start_of(self, buffer_end: u64, frames: int) -> u64 {
        match self.next {
            Some(next) => next,
            None => if buffer_end >= frames {
                (buffer_end - frames) as u64
            } else {
                0
            },
        }
    }

    /// Reads the samples of a buffer, and the sample that it starts at. Buffers follow each other
    /// without a gap.
    pub fn read(&mut self, plane: &[u8], offset: u32, size: u32, buffer_end: u64) -> (result: Result<
        (u64, Vec<Single>),
        PlaneError,
    >)
        ensures
            match result {
                Ok((timestamp, pcm)) => {
                    &&& offset + size <= plane@.len()
                    &&& size % 8 == 0
                    &&& pcm@ == samples_of(
                        plane@.subrange(offset as int, offset + size),
                        size as int / 4,
                    )
                    &&& timestamp == old(self).start_of(buffer_end, size as int / 8)
                    &&& final(self).next == Some(later(timestamp, size as int / 8))
                },
                Err(PlaneError::Truncated) => offset + size > plane@.len() && *final(self) == *old(
                    self,
                ),
                Err(PlaneError::PartialFrames) => offset + size <= plane@.len() && size % 8 != 0
                    && *final(self) == *old(self),
            },
    {
        if offset as u64 + size as u64 > plane.len() as u64 {
            return Err(PlaneError::Truncated);
        }
        if size % 8 != 0 {
            return Err(PlaneError::PartialFrames);
        }
        let ghost bytes = plane@.subrange(offset as int, offset + size);
        let mut pcm: Vec<Single> = Vec::new();
        let count: usize = size as usize / 4;
        let total: usize = plane.len();
        let mut index: usize = 0;
        while index < count
            invariant
                *self == *old(self),
                index <= count,
                count == size as int / 4,
                size % 8 == 0,
                offset + size <= total == plane@.len(),
                bytes == plane@.subrange(offset as int, offset + size),
                pcm@ == samples_of(bytes, index as int),
            decreases count - index,
        {
            let base: usize = offset as usize + 4 * index;
            assert(bytes[4 * index] == plane@[base as int]);
            assert(bytes[4 * index + 1] == plane@[base + 1]);
            assert(bytes[4 * index + 2] == plane@[base + 2]);
            assert(bytes[4 * index + 3] == plane@[base + 3]);
            let bits: u32 = plane[base] as u32 + plane[base + 1] as u32 * 0x100 + plane[base
                + 2] as u32 * 0x1_0000 + plane[base + 3] as u32 * 0x100_0000;
            pcm.push(Single { bits });
            index = index + 1;
            assert(pcm@ =~= samples_of(bytes, index as int));
        }
        let frames: u64 = size as u64 / 8;
        let timestamp: u64 = match self.next {
            Some(next) => next,
            None => first_audio_timestamp(buffer_end, frames),
        };
        self.next = Some(timestamp.saturating_add(frames));
        Ok((timestamp, pcm))
    }
}

/// The first buffer ends where its last sample was captured, and every later one goes on where the
/// one before it ended.
pub proof fn lemma_buffers_follow_each_other(next: u64, buffer_end: u64, frames: int)
    requires
        0 <= frames,
    ensures
        (SampleCursor { next: Some(next) }).start_of(buffer_end, frames) == next,
        frames <= buffer_end ==> (SampleCursor { next: None }).start_of(buffer_end, frames) + frames
            == buffer_end,
        frames > buffer_end ==> (SampleCursor { next: None }).start_of(buffer_end, frames) == 0,
{
}

/// Whether the audio service delivers what was asked for.
pub fn is_requested_format(is_single_little_endian: bool, rate: u32, channels: u32) -> (result: bool)
    ensures
        result == (is_single_little_endian && rate == SAMPLE_RATE && channels == CHANNELS),
{
    is_single_little_endian && rate == SAMPLE_RATE && channels == CHANNELS
}

/// What the encoder is asked to do.
#[derive(Debug)]
pub enum AudioCommand<S> {
    /// Encode a captured buffer.
    Sample(S),
    /// Fill up with silence to a sample.
    AdvanceTo(u64),
}

/// A captured buffer of interleaved samples, and the sample that it starts at.
#[derive(Debug)]
pub struct CapturedPcm {
    pub timestamp: u64,
    pub interleaved: Vec<Single>,
}

/// The commands that wait for the encoder, with captured buffers of one kind.
pub struct AudioSubmitter<S> {
    pub commands: VecDeque<AudioCommand<S>>,
    pub capacity: usize,
    /// Whether the encoder still takes commands.
    pub running: bool,
}

impl<S> AudioSubmitter<S> {
    pub fn new(capacity: usize) -> (submitter: Self)
        ensures
            submitter.commands@ == Seq::<AudioCommand<S>>::empty(),
            submitter.capacity == capacity,
            submitter.running,
    {
        AudioSubmitter { commands: VecDeque::new(), capacity, running: true }
    }

    /// Hands a captured buffer over. Where there is no room, or nobody takes it, the session
    /// fails.
    pub fn submit(&mut self, sample: S, failure: &mut Option<String>)
        ensures
            old(self).sends(
                *final(self),
                AudioCommand::Sample(sample),
                *old(failure),
                *final(failure),
                "audio capture queue is full"@,
            ),
    {
        self.try_send(AudioCommand::Sample(sample), "audio capture queue is full", failure)
    }

    /// Asks for audio up to a sample.
    pub fn advance_to(&mut self, timestamp: u64, failure: &mut Option<String>)
        ensures
            old(self).sends(
                *final(self),
                AudioCommand::AdvanceTo(timestamp),
                *old(failure),
                *final(failure),
                "audio capture queue is full while aligning an HLS segment"@,
            ),
    {
        self.try_send(
            AudioCommand::AdvanceTo(timestamp),
            "audio capture queue is full while aligning an HLS segment",
            failure,
        )
    }

    /// Whether a command was added, or why not was noted. The first failure stays.
    pub open spec fn sends(
        self,
        after: AudioSubmitter<S>,
        command: AudioCommand<S>,
        failure_before: Option<String>,
        failure_after: Option<String>,
        full_message: Seq<char>,
    ) -> bool {
        &&& after.capacity == self.capacity
        &&& after.running == self.running
        &&& if self.running && self.commands@.len() < self.capacity {
            after.commands@ == self.commands@.push(command) && failure_after == failure_before
        } else {
            &&& after.commands@ == self.commands@
            &&& match failure_before {
                Some(failure) => failure_after == failure_before,
                None => failure_after matches Some(text) && text@ == if self.running {
                    full_message
                } else {
                    "audio encoder worker stopped unexpectedly"@
                },
            }
        }
    }

    fn try_send(&mut self, command: AudioCommand<S>, full_message: &str, failure: &mut Option<String>)
        ensures
            old(self).sends(
                *final(self),
                command,
                *old(failure),
                *final(failure),
                full_message@,
            ),
    {
        if !self.running {
            store_failure(failure, "audio encoder worker stopped unexpectedly");
        } else if self.commands.len() >= self.capacity {
            store_failure(failure, full_message);
        } else {
            self.commands.push_back(command);
        }
    }

    /// Takes the next command.
    pub fn take(&mut self) -> (command: Option<AudioCommand<S>>)
        ensures
            final(self).capacity == old(self).capacity,
            final(self).running == old(self).running,
            match command {
                Some(command) => old(self).commands@.len() > 0 && command == old(self).commands@[0]
                    && final(self).commands@ == old(self).commands@.drop_first(),
                None => old(self).commands@.len() == 0 && final(self).commands@ == old(
                    self,
                ).commands@,
            },
    {
        let ghost before = self.commands@;
        let command: Option<AudioCommand<S>> = self.commands.pop_front();
        proof {
            if before.len() > 0 {
                assert(self.commands@ =~= before.drop_first());
            }
        }
        command
    }
}

impl AudioSubmitter<CapturedPcm> {
    /// Hands captured samples over.
    pub fn submit_pcm(&mut self, timestamp: u64, interleaved: Vec<Single>, failure: &mut Option<String>)
        ensures
            old(self).sends(
                *final(self),
                AudioCommand::Sample(CapturedPcm { timestamp, interleaved }),
                *old(failure),
                *final(failure),
                "audio capture queue is full"@,
            ),
    {
        self.submit(CapturedPcm { timestamp, interleaved }, failure)
    }
}

} // verus!
