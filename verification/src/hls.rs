//! The live stream that receivers fetch over HTTP: segments, playlists and private routes.

use std::collections::VecDeque;

use vstd::prelude::*;
use vstd::seq_lib::lemma_flatten_concat;
use vstd::utf8::{encode_utf8, is_ascii_chars, is_ascii_chars_encode_utf8};

use crate::binary64::{integer, quotient, Binary64};
use crate::bytes::{be32, be32_at, be64, lemma_be32_round_trip, push_be64, push_bytes};
use crate::fanout::EncodedAudioFrame;
use crate::text::{decimal, digit, push_decimal};

verus! {

/// The ticks of the video clock in one second.
pub const TIMESCALE: u64 = 90_000;

/// The audio samples in one second.
pub const SAMPLE_RATE: u32 = 48_000;

/// The bits of encoded audio in one second.
pub const AUDIO_BITRATE: u32 = 192_000;

/// The samples of one encoded audio frame.
pub const ACCESS_UNIT_SAMPLES: usize = 1024;

/// The segments that a playlist lists.
pub const PLAYLIST_WINDOW_SEGMENTS: usize = 8;

/// The segments that can be fetched.
pub const RETAINED_SEGMENTS: usize = 32;

/// The segments that have to be there before the stream starts.
pub const STARTUP_SEGMENTS: usize = 1;

/// How long a segment plays.
#[derive(Clone, Copy, Debug)]
pub struct SegmentDuration {
    pub seconds: Binary64,
}

/// The seconds between two ticks of the video clock, and at least a thousandth of one.
pub open spec fn seconds_between(start: u64, end: u64) -> Binary64 {
    let ticks = if end < start + 90 {
        90
    } else {
        end - start
    };
    quotient(integer(ticks), integer(TIMESCALE as int))
}

impl SegmentDuration {
    pub open spec fn well_formed(self) -> bool {
        self.seconds.normal() && -1000 <= self.seconds.exponent <= 0
    }

    /// How long a segment from tick `start` up to tick `end` plays.
    pub fn between(start: u64, end: u64) -> (duration: Self)
        ensures
            duration.well_formed(),
            duration.seconds == seconds_between(start, end),
    {
        let ticks: u64 = if end < start || end - start < 90 {
            90
        } else {
            end - start
        };
        SegmentDuration {
            seconds: Binary64::from_integer(ticks).divided_by(Binary64::from_integer(TIMESCALE)),
        }
    }
}

/// A number of thousandths as a decimal fraction with three digits.
pub open spec fn three_decimals(thousandths: int) -> Seq<char> {
    decimal((thousandths / 1000) as nat) + seq![
        '.',
        digit(thousandths / 100 % 10),
        digit(thousandths / 10 % 10),
        digit(thousandths % 10),
    ]
}

fn push_three_decimals(text: &mut String, thousandths: u64)
    ensures
        final(text)@ == old(text)@ + three_decimals(thousandths as int),
{
    push_decimal(text, thousandths / 1000);
    text.push('.');
    text.push((48 + (thousandths / 100 % 10) as u8) as char);
    text.push((48 + (thousandths / 10 % 10) as u8) as char);
    text.push((48 + (thousandths % 10) as u8) as char);
    assert(text@ =~= old(text)@ + three_decimals(thousandths as int));
}

/// A product, or the largest number that there is.
pub open spec fn product_or_last(a: u64, b: u64) -> u64 {
    if a * b <= u64::MAX {
        (a * b) as u64
    } else {
        u64::MAX
    }
}

fn multiply(a: u64, b: u64) -> (result: u64)
    ensures
        result == product_or_last(a, b),
{
    assert(0 <= a * b <= 0xffff_ffff_ffff_ffff * 0xffff_ffff_ffff_ffff) by (nonlinear_arith)
        requires
            0 <= a <= 0xffff_ffff_ffff_ffff,
            0 <= b <= 0xffff_ffff_ffff_ffff,
    ;
    let full: u128 = a as u128 * b as u128;
    if full <= u64::MAX as u128 {
        full as u64
    } else {
        u64::MAX
    }
}

/// The audio sample that plays at a tick of the video clock.
pub open spec fn audio_time(timestamp: u64) -> u64 {
    product_or_last(timestamp, SAMPLE_RATE as u64) / TIMESCALE
}

/// The tick of the video clock at which an audio sample plays.
pub open spec fn video_time(timestamp: u64) -> u64 {
    product_or_last(timestamp, TIMESCALE) / SAMPLE_RATE as u64
}

/// The audio sample that plays at a tick of the video clock.
pub fn video_to_audio_timestamp(timestamp: u64) -> (samples: u64)
    ensures
        samples == audio_time(timestamp),
{
    multiply(timestamp, SAMPLE_RATE as u64) / TIMESCALE
}

/// The tick of the video clock at which an audio sample plays.
pub fn video_timestamp(timestamp: u64) -> (ticks: u64)
    ensures
        ticks == video_time(timestamp),
{
    multiply(timestamp, TIMESCALE) / SAMPLE_RATE as u64
}

/// Later frames never map to earlier audio samples.
pub proof fn lemma_audio_time_is_monotonic(earlier: u64, later: u64)
    requires
        earlier <= later,
    ensures
        audio_time(earlier) <= audio_time(later),
{
}

/// A length in four bytes of seven bits each.
pub open spec fn synchsafe_bytes(value: int) -> Seq<u8> {
    let held = if value <= 0x0fff_ffff {
        value
    } else {
        0x0fff_ffff
    };
    seq![
        (held / 0x20_0000) as u8,
        (held / 0x4000 % 128) as u8,
        (held / 128 % 128) as u8,
        (held % 128) as u8,
    ]
}

/// Appends a length in four bytes of seven bits each.
pub fn push_synchsafe(output: &mut Vec<u8>, value: usize)
    ensures
        final(output)@ == old(output)@ + synchsafe_bytes(value as int),
{
    let held: u32 = if value <= 0x0fff_ffff {
        value as u32
    } else {
        0x0fff_ffff
    };
    output.push((held / 0x20_0000) as u8);
    output.push((held / 0x4000 % 128) as u8);
    output.push((held / 128 % 128) as u8);
    output.push((held % 128) as u8);
    assert(output@ =~= old(output)@ + synchsafe_bytes(value as int));
}

/// A length of up to 28 bits is read back from its four bytes, none of which has its highest bit
/// set.
pub proof fn lemma_synchsafe_round_trips(value: int)
    requires
        0 <= value <= 0x0fff_ffff,
    ensures
        ({
            let bytes = synchsafe_bytes(value);
            &&& bytes.len() == 4
            &&& forall|i: int| 0 <= i < 4 ==> #[trigger] bytes[i] < 128
            &&& bytes[0] * 0x20_0000 + bytes[1] * 0x4000 + bytes[2] * 128 + bytes[3] == value
        }),
{
}

/// The owner of the timestamp in front of a packed audio segment.
pub open spec fn timestamp_owner() -> Seq<u8> {
    encode_utf8("com.apple.streaming.transportStreamTimestamp"@)
}

/// What the private frame in front of a packed audio segment holds.
pub open spec fn private_timestamp(timestamp: u64) -> Seq<u8> {
    timestamp_owner() + seq![0u8] + be64((timestamp % 0x2_0000_0000) as u64)
}

/// The private frame in front of a packed audio segment.
pub open spec fn private_frame(timestamp: u64) -> Seq<u8> {
    seq![0x50u8, 0x52u8, 0x49u8, 0x56u8] + synchsafe_bytes(
        private_timestamp(timestamp).len() as int,
    ) + seq![0u8, 0u8] + private_timestamp(timestamp)
}

/// The tag in front of a packed audio segment: the low 33 bits of the tick at which it starts.
pub open spec fn timestamp_tag(timestamp: u64) -> Seq<u8> {
    seq![0x49u8, 0x44u8, 0x33u8, 4u8, 0u8, 0u8] + synchsafe_bytes(
        private_frame(timestamp).len() as int,
    ) + private_frame(timestamp)
}

/// The tag in front of a packed audio segment that starts at a tick of the video clock.
pub fn id3_timestamp(timestamp: u64) -> (tag: Vec<u8>)
    ensures
        tag@ == timestamp_tag(timestamp),
{
    let mut private: Vec<u8> = Vec::new();
    push_bytes(&mut private, "com.apple.streaming.transportStreamTimestamp".as_bytes());
    private.push(0);
    push_be64(&mut private, timestamp % 0x2_0000_0000);
    assert(private@ =~= private_timestamp(timestamp));
    let mut frame: Vec<u8> = Vec::new();
    frame.push(0x50);
    frame.push(0x52);
    frame.push(0x49);
    frame.push(0x56);
    push_synchsafe(&mut frame, private.len());
    frame.push(0);
    frame.push(0);
    push_bytes(&mut frame, private.as_slice());
    assert(frame@ =~= private_frame(timestamp));
    let mut tag: Vec<u8> = Vec::new();
    tag.push(0x49);
    tag.push(0x44);
    tag.push(0x33);
    tag.push(4);
    tag.push(0);
    tag.push(0);
    push_synchsafe(&mut tag, frame.len());
    push_bytes(&mut tag, frame.as_slice());
    assert(tag@ =~= timestamp_tag(timestamp));
    tag
}

/// What the playlists say of the video.
pub struct HlsMetadata {
    pub codec: String,
    pub width: u32,
    pub height: u32,
    pub fps: u32,
    pub bandwidth: u32,
}

/// A segment that can be fetched.
pub struct Segment {
    pub sequence: u64,
    pub duration: SegmentDuration,
    pub video: Vec<u8>,
    pub audio: Option<Vec<u8>>,
}

/// A segment whose audio is not complete yet. It plays from tick `start` up to tick `end`.
pub struct PendingSegment {
    pub duration: SegmentDuration,
    pub start: u64,
    pub end: u64,
    pub video: Vec<u8>,
}

#[verifier::ext_equal]
pub struct SegmentView {
    pub sequence: u64,
    pub duration: SegmentDuration,
    pub video: Seq<u8>,
    pub audio: Option<Seq<u8>>,
}

#[verifier::ext_equal]
pub struct PendingView {
    pub duration: SegmentDuration,
    pub start: u64,
    pub end: u64,
    pub video: Seq<u8>,
}

impl View for Segment {
    type V = SegmentView;

    open spec fn view(&self) -> SegmentView {
        SegmentView {
            sequence: self.sequence,
            duration: self.duration,
            video: self.video@,
            audio: match self.audio {
                Some(audio) => Some(audio@),
                None => None,
            },
        }
    }
}

impl View for PendingSegment {
    type V = PendingView;

    open spec fn view(&self) -> PendingView {
        PendingView {
            duration: self.duration,
            start: self.start,
            end: self.end,
            video: self.video@,
        }
    }
}

/// The segments of a stream and what was asked of it.
pub struct HlsStore {
    pub metadata: Option<HlsMetadata>,
    pub init: Option<Vec<u8>>,
    pub segments: VecDeque<Segment>,
    pub pending_segments: VecDeque<PendingSegment>,
    pub audio_frames: VecDeque<EncodedAudioFrame>,
    /// The first audio sample that is still missing.
    pub audio_watermark: u64,
    pub audio_enabled: bool,
    pub next_sequence: u64,
    pub playlist_requests: u64,
    pub init_requests: u64,
    pub segment_requests: u64,
}

/// The segments of a stream by their bytes.
#[verifier::ext_equal]
pub struct StoreView {
    pub segments: Seq<SegmentView>,
    pub pending: Seq<PendingView>,
    pub audio: Seq<(u64, Seq<u8>)>,
    pub watermark: u64,
    pub audio_enabled: bool,
    pub next_sequence: u64,
}

impl View for HlsStore {
    type V = StoreView;

    open spec fn view(&self) -> StoreView {
        StoreView {
            segments: self.segments@.map_values(|segment: Segment| segment@),
            pending: self.pending_segments@.map_values(|segment: PendingSegment| segment@),
            audio: self.audio_frames@.map_values(|frame: EncodedAudioFrame| frame@),
            watermark: self.audio_watermark,
            audio_enabled: self.audio_enabled,
            next_sequence: self.next_sequence,
        }
    }
}

/// The sum of a sample and the length of an audio frame, or the last sample that there is.
pub open spec fn frame_end(timestamp: u64) -> u64 {
    if timestamp + ACCESS_UNIT_SAMPLES <= u64::MAX {
        (timestamp + ACCESS_UNIT_SAMPLES) as u64
    } else {
        u64::MAX
    }
}

/// The audio frames without those at the front that end before a sample.
pub open spec fn without_ended(frames: Seq<(u64, Seq<u8>)>, start: u64) -> Seq<(u64, Seq<u8>)>
    decreases frames.len(),
{
    if frames.len() > 0 && frame_end(frames[0].0) <= start {
        without_ended(frames.drop_first(), start)
    } else {
        frames
    }
}

/// The bytes of the audio frames at the front that start before a sample.
pub open spec fn bytes_before(frames: Seq<(u64, Seq<u8>)>, end: u64) -> Seq<u8>
    decreases frames.len(),
{
    if frames.len() > 0 && frames[0].0 < end {
        frames[0].1 + bytes_before(frames.drop_first(), end)
    } else {
        Seq::empty()
    }
}

/// The audio frames without those at the front that start before a sample.
pub open spec fn without_started(frames: Seq<(u64, Seq<u8>)>, end: u64) -> Seq<(u64, Seq<u8>)>
    decreases frames.len(),
{
    if frames.len() > 0 && frames[0].0 < end {
        without_started(frames.drop_first(), end)
    } else {
        frames
    }
}

/// The last segments, as many as are kept.
pub open spec fn retained(segments: Seq<SegmentView>) -> Seq<SegmentView> {
    if segments.len() > RETAINED_SEGMENTS {
        segments.skip(segments.len() - RETAINED_SEGMENTS)
    } else {
        segments
    }
}

impl StoreView {
    /// Whether the first waiting segment can be published: all of its audio is there.
    pub open spec fn ready(self) -> bool {
        self.pending.len() > 0 && (!self.audio_enabled || self.watermark >= audio_time(
            self.pending[0].end,
        ))
    }

    /// The audio frames that the first waiting segment starts with.
    pub open spec fn current_audio(self) -> Seq<(u64, Seq<u8>)> {
        without_ended(self.audio, audio_time(self.pending[0].start))
    }

    /// The audio of the first waiting segment.
    pub open spec fn segment_audio(self) -> Seq<u8> {
        let frames = self.current_audio();
        let timestamp = if frames.len() > 0 {
            frames[0].0
        } else {
            audio_time(self.pending[0].start)
        };
        timestamp_tag(video_time(timestamp)) + bytes_before(
            frames,
            audio_time(self.pending[0].end),
        )
    }

    /// The first waiting segment once it is published.
    pub open spec fn next_segment(self) -> SegmentView {
        SegmentView {
            sequence: self.next_sequence,
            duration: self.pending[0].duration,
            video: self.pending[0].video,
            audio: if self.audio_enabled {
                Some(self.segment_audio())
            } else {
                None
            },
        }
    }

    /// The store after the first waiting segment was published.
    pub open spec fn publish_one(self) -> StoreView {
        StoreView {
            segments: retained(self.segments.push(self.next_segment())),
            pending: self.pending.drop_first(),
            audio: if self.audio_enabled {
                without_started(self.current_audio(), audio_time(self.pending[0].end))
            } else {
                self.audio
            },
            next_sequence: if self.next_sequence < u64::MAX {
                (self.next_sequence + 1) as u64
            } else {
                u64::MAX
            },
            ..self
        }
    }

    /// The store after every segment that is ready was published, in order.
    pub open spec fn published(self) -> StoreView
        decreases self.pending.len(),
    {
        if self.ready() {
            self.publish_one().published()
        } else {
            self
        }
    }

    /// Whether the segments are numbered without a gap, up to the next number.
    pub open spec fn numbered(self) -> bool {
        forall|i: int|
            0 <= i < self.segments.len() ==> (#[trigger] self.segments[i]).sequence
                == self.next_sequence - self.segments.len() + i
    }

    /// Whether the segments are numbered from zero on without a gap, of which the last are kept.
    pub open spec fn gapless(self) -> bool {
        self.numbered() && self.segments.len() <= self.next_sequence
    }

    /// Whether there are numbers left for so many segments more than those that wait.
    pub open spec fn has_numbers_for(self, more: int) -> bool {
        self.next_sequence + self.pending.len() + more <= u64::MAX
    }

    /// How many segments are hidden from the playlists.
    pub open spec fn hidden(self) -> int {
        if self.segments.len() > PLAYLIST_WINDOW_SEGMENTS {
            self.segments.len() - PLAYLIST_WINDOW_SEGMENTS
        } else {
            0
        }
    }
}

/// Publishing keeps the number of segments bounded, and their numbers without a gap as long as
/// there are numbers left.
pub proof fn lemma_publishing_keeps_the_window(store: StoreView)
    requires
        store.segments.len() <= RETAINED_SEGMENTS,
        store.gapless(),
        store.has_numbers_for(0),
    ensures
        store.published().segments.len() <= RETAINED_SEGMENTS,
        store.published().gapless(),
        store.published().has_numbers_for(0),
        store.next_sequence <= store.published().next_sequence <= store.next_sequence
            + store.pending.len(),
    decreases store.pending.len(),
{
    if store.ready() {
        let next = store.publish_one();
        let all = store.segments.push(store.next_segment());
        assert forall|i: int| 0 <= i < next.segments.len() implies (
        #[trigger] next.segments[i]).sequence == next.next_sequence - next.segments.len() + i by {
            if all.len() > RETAINED_SEGMENTS {
                assert(next.segments[i] == all[i + 1]);
                if i + 1 < store.segments.len() {
                    assert(all[i + 1] == store.segments[i + 1]);
                }
            } else {
                if i < store.segments.len() {
                    assert(all[i] == store.segments[i]);
                }
            }
        }
        lemma_publishing_keeps_the_window(next);
    }
}

/// No segment with audio is published before all of its audio is there, and while audio is
/// enabled every newly published segment has audio.
pub proof fn lemma_audio_is_published_with_video(store: StoreView)
    ensures
        store.audio_enabled && store.pending.len() > 0 && store.watermark < audio_time(
            store.pending[0].end,
        ) ==> store.published() == store,
        store.ready() ==> (store.next_segment().audio is Some <==> store.audio_enabled),
{
}

/// The data of audio frames, one after the other.
pub open spec fn data_of(frames: Seq<(u64, Seq<u8>)>) -> Seq<Seq<u8>> {
    frames.map_values(|frame: (u64, Seq<u8>)| frame.1)
}

proof fn lemma_ended_frames_are_skipped(frames: Seq<(u64, Seq<u8>)>, start: u64) -> (first: int)
    ensures
        0 <= first <= frames.len(),
        without_ended(frames, start) == frames.skip(first),
        forall|i: int| 0 <= i < first ==> frame_end((#[trigger] frames[i]).0) <= start,
        first < frames.len() ==> frame_end(frames[first].0) > start,
    decreases frames.len(),
{
    if frames.len() > 0 && frame_end(frames[0].0) <= start {
        let rest = frames.drop_first();
        let first = lemma_ended_frames_are_skipped(rest, start) + 1;
        assert(rest.skip(first - 1) =~= frames.skip(first));
        assert forall|i: int| 0 <= i < first implies frame_end((#[trigger] frames[i]).0) <= start by {
            if i > 0 {
                assert(rest[i - 1] == frames[i]);
            }
        }
        if first < frames.len() {
            assert(rest[first - 1] == frames[first]);
        }
        first
    } else {
        assert(frames.skip(0) =~= frames);
        0
    }
}

proof fn lemma_started_frames_are_joined(frames: Seq<(u64, Seq<u8>)>, end: u64) -> (count: int)
    ensures
        0 <= count <= frames.len(),
        bytes_before(frames, end) == data_of(frames.take(count)).flatten(),
        without_started(frames, end) == frames.skip(count),
        forall|i: int| 0 <= i < count ==> (#[trigger] frames[i]).0 < end,
        count < frames.len() ==> frames[count].0 >= end,
    decreases frames.len(),
{
    if frames.len() > 0 && frames[0].0 < end {
        let rest = frames.drop_first();
        let count = lemma_started_frames_are_joined(rest, end) + 1;
        assert(rest.skip(count - 1) =~= frames.skip(count));
        let taken = data_of(frames.take(count));
        assert(taken.drop_first() =~= data_of(rest.take(count - 1)));
        assert(taken.first() == frames[0].1);
        assert(taken.flatten() == taken.first() + taken.drop_first().flatten());
        assert forall|i: int| 0 <= i < count implies (#[trigger] frames[i]).0 < end by {
            if i > 0 {
                assert(rest[i - 1] == frames[i]);
            }
        }
        if count < frames.len() {
            assert(rest[count - 1] == frames[count]);
        }
        count
    } else {
        assert(frames.skip(0) =~= frames);
        assert(data_of(frames.take(0)) =~= Seq::<Seq<u8>>::empty());
        assert(data_of(frames.take(0)).flatten() == Seq::<u8>::empty());
        0
    }
}

/// Every part of joined data stands behind the parts before it.
proof fn lemma_joined_parts_stand_in_order(parts: Seq<Seq<u8>>, k: int)
    requires
        0 <= k < parts.len(),
    ensures
        ({
            let from = parts.take(k).flatten().len();
            &&& from + parts[k].len() <= parts.flatten().len()
            &&& parts.flatten().subrange(from as int, (from + parts[k].len()) as int) == parts[k]
        }),
{
    let front = parts.take(k);
    let rest = parts.skip(k);
    assert(parts =~= front + rest);
    lemma_flatten_concat(front, rest);
    assert(rest.first() == parts[k]);
    assert(rest.flatten() == rest.first() + rest.drop_first().flatten());
    let from = front.flatten().len();
    assert(parts.flatten().subrange(from as int, (from + parts[k].len()) as int) =~= parts[k]);
}

/// The audio of a published segment is its tag and, behind it, the data of the waiting frames that
/// lie in the segment, each whole and in the order of the queue; the tag tells when the first of
/// them starts. What does not lie in the segment yet goes on waiting.
pub proof fn lemma_segments_hold_their_audio(store: StoreView) -> (range: (int, int))
    requires
        store.pending.len() > 0,
        store.audio_enabled,
    ensures
        0 <= range.0 <= range.1 <= store.audio.len(),
        ({
            let (first, last) = range;
            let start = audio_time(store.pending[0].start);
            let end = audio_time(store.pending[0].end);
            let tag = timestamp_tag(
                video_time(
                    if first < store.audio.len() {
                        store.audio[first].0
                    } else {
                        start
                    },
                ),
            );
            let audio = store.segment_audio();
            &&& forall|i: int| 0 <= i < first ==> frame_end((#[trigger] store.audio[i]).0) <= start
            &&& first < store.audio.len() ==> frame_end(store.audio[first].0) > start
            &&& forall|i: int| first <= i < last ==> (#[trigger] store.audio[i]).0 < end
            &&& last < store.audio.len() ==> store.audio[last].0 >= end
            &&& audio == tag + data_of(store.audio.subrange(first, last)).flatten()
            &&& forall|k: int|
                first <= k < last ==> {
                    let from = tag.len() + data_of(store.audio.subrange(first, k)).flatten().len();
                    &&& from + (#[trigger] store.audio[k]).1.len() <= audio.len()
                    &&& audio.subrange(
                        from as int,
                        (from + store.audio[k].1.len()) as int,
                    ) == store.audio[k].1
                }
            &&& store.next_segment().audio == Some(audio)
            &&& store.publish_one().audio == store.audio.skip(last)
        }),
        (forall|i: int, j: int|
            0 <= i < j < store.audio.len() ==> (#[trigger] store.audio[i]).0 <= (
            #[trigger] store.audio[j]).0) ==> forall|i: int|
            0 <= i < store.audio.len() ==> (range.0 <= i < range.1 <==> frame_end(
                (#[trigger] store.audio[i]).0,
            ) > audio_time(store.pending[0].start) && store.audio[i].0 < audio_time(
                store.pending[0].end,
            )),
{
    let queue = store.audio;
    let start = audio_time(store.pending[0].start);
    let end = audio_time(store.pending[0].end);
    let first = lemma_ended_frames_are_skipped(queue, start);
    let current = queue.skip(first);
    let count = lemma_started_frames_are_joined(current, end);
    let last = first + count;
    assert(current.take(count) =~= queue.subrange(first, last));
    assert(current.skip(count) =~= queue.skip(last));
    assert forall|i: int| first <= i < last implies (#[trigger] queue[i]).0 < end by {
        assert(current[i - first] == queue[i]);
    }
    if last < queue.len() {
        assert(current[count] == queue[last]);
    }
    if first < queue.len() {
        assert(current[0] == queue[first]);
    }
    let tag = timestamp_tag(
        video_time(
            if first < queue.len() {
                queue[first].0
            } else {
                start
            },
        ),
    );
    let audio = store.segment_audio();
    let parts = data_of(queue.subrange(first, last));
    assert(audio == tag + parts.flatten());
    assert forall|k: int| first <= k < last implies {
        let from = tag.len() + data_of(queue.subrange(first, k)).flatten().len();
        &&& from + (#[trigger] queue[k]).1.len() <= audio.len()
        &&& audio.subrange(from as int, (from + queue[k].1.len()) as int) == queue[k].1
    } by {
        lemma_joined_parts_stand_in_order(parts, k - first);
        assert(parts.take(k - first) =~= data_of(queue.subrange(first, k)));
        assert(parts[k - first] == queue[k].1);
        let within = parts.take(k - first).flatten().len();
        let from = tag.len() + within;
        assert(audio.subrange(from as int, (from + queue[k].1.len()) as int)
            =~= parts.flatten().subrange(within as int, (within + queue[k].1.len()) as int));
    }
    if forall|i: int, j: int|
        0 <= i < j < queue.len() ==> (#[trigger] queue[i]).0 <= (#[trigger] queue[j]).0 {
        assert forall|i: int| 0 <= i < queue.len() implies (first <= i < last <==> frame_end(
            (#[trigger] queue[i]).0,
        ) > start && queue[i].0 < end) by {
            if first < i {
                assert(queue[first].0 <= queue[i].0);
            }
            if last < i {
                assert(queue[last].0 <= queue[i].0);
            }
        }
    }
    (first, last)
}

/// An audio frame lasts 1024 samples.
pub proof fn lemma_audio_frames_last_as_long(timestamp: u64)
    requires
        timestamp <= u64::MAX - 1024,
    ensures
        frame_end(timestamp) - timestamp == 1024,
{
}

/// The two clocks agree: a tick and the sample that plays at it differ by less than one sample,
/// and a sample and the tick at which it plays by less than one tick.
pub proof fn lemma_clocks_agree(ticks: u64, samples: u64)
    ensures
        ticks * 48_000 <= u64::MAX ==> audio_time(ticks) * 90_000 <= ticks * 48_000 < (audio_time(
            ticks,
        ) + 1) * 90_000,
        samples * 90_000 <= u64::MAX ==> video_time(samples) * 48_000 <= samples * 90_000 < (
        video_time(samples) + 1) * 48_000,
{
    if samples * 90_000 <= u64::MAX {
        let scaled = (samples * 90_000) as u64;
        assert(video_time(samples) == scaled / 48_000);
    }
}

/// A tag is an ID3 header and one private frame, each with its length, and the frame ends in the
/// low 33 bits of the tick at which the segment starts.
pub proof fn lemma_tags_tell_the_start(timestamp: u64)
    ensures
        ({
            let tag = timestamp_tag(timestamp);
            let owner = "com.apple.streaming.transportStreamTimestamp"@;
            &&& tag.len() == 73
            &&& tag.take(6) == seq![73u8, 68u8, 51u8, 4u8, 0u8, 0u8]
            &&& tag[6] * 0x20_0000 + tag[7] * 0x4000 + tag[8] * 128 + tag[9] == tag.len() - 10
            &&& tag.subrange(10, 14) == seq![80u8, 82u8, 73u8, 86u8]
            &&& tag[14] * 0x20_0000 + tag[15] * 0x4000 + tag[16] * 128 + tag[17] == tag.len() - 20
            &&& tag[18] == 0 && tag[19] == 0
            &&& owner.len() == 44
            &&& forall|i: int| 0 <= i < 44 ==> #[trigger] tag[20 + i] as int == owner[i] as int
            &&& tag[64] == 0
            &&& be32_at(tag, 65) * 0x1_0000_0000 + be32_at(tag, 69) == timestamp % 0x2_0000_0000
        }),
{
    let owner = "com.apple.streaming.transportStreamTimestamp"@;
    reveal_strlit("com.apple.streaming.transportStreamTimestamp");
    assert(is_ascii_chars(owner));
    is_ascii_chars_encode_utf8(owner);
    let tag = timestamp_tag(timestamp);
    let private = private_timestamp(timestamp);
    let low = (timestamp % 0x2_0000_0000) as u64;
    assert(private.len() == 53);
    assert(private_frame(timestamp).len() == 63);
    assert(tag.len() == 73);
    assert(tag.take(6) =~= seq![73u8, 68u8, 51u8, 4u8, 0u8, 0u8]);
    assert(tag.subrange(10, 14) =~= seq![80u8, 82u8, 73u8, 86u8]);
    assert(tag.subrange(6, 10) =~= synchsafe_bytes(63));
    assert(tag.subrange(14, 18) =~= synchsafe_bytes(53));
    lemma_synchsafe_round_trips(63);
    lemma_synchsafe_round_trips(53);
    assert(tag[6] == tag.subrange(6, 10)[0] && tag[7] == tag.subrange(6, 10)[1] && tag[8]
        == tag.subrange(6, 10)[2] && tag[9] == tag.subrange(6, 10)[3]);
    assert(tag[14] == tag.subrange(14, 18)[0] && tag[15] == tag.subrange(14, 18)[1] && tag[16]
        == tag.subrange(14, 18)[2] && tag[17] == tag.subrange(14, 18)[3]);
    assert(tag.subrange(20, 73) =~= private);
    assert forall|i: int| 0 <= i < 44 implies #[trigger] tag[20 + i] as int == owner[i] as int by {
        assert(tag[20 + i] == private[i]);
        assert(private[i] == timestamp_owner()[i]);
    }
    assert(tag[64] == private[44]);
    let high = (low / 0x1_0000_0000) as u32;
    let rest = (low % 0x1_0000_0000) as u32;
    lemma_be32_round_trip(high);
    lemma_be32_round_trip(rest);
    assert(tag.subrange(65, 69) =~= be32(high));
    assert(tag.subrange(69, 73) =~= be32(rest));
    assert(tag[65] == be32(high)[0] && tag[66] == be32(high)[1] && tag[67] == be32(high)[2] && tag[68]
        == be32(high)[3]) by {
        assert(tag.subrange(65, 69)[0] == tag[65] && tag.subrange(65, 69)[1] == tag[66]
            && tag.subrange(65, 69)[2] == tag[67] && tag.subrange(65, 69)[3] == tag[68]);
    }
    assert(tag[69] == be32(rest)[0] && tag[70] == be32(rest)[1] && tag[71] == be32(rest)[2] && tag[72]
        == be32(rest)[3]) by {
        assert(tag.subrange(69, 73)[0] == tag[69] && tag.subrange(69, 73)[1] == tag[70]
            && tag.subrange(69, 73)[2] == tag[71] && tag.subrange(69, 73)[3] == tag[72]);
    }
}

/// Segments are published in the order in which they came, with rising numbers and unaltered, and
/// nothing that is ready goes on waiting.
pub proof fn lemma_segments_are_published_in_order(store: StoreView)
    requires
        store.has_numbers_for(0),
    ensures
        ({
            let after = store.published();
            let count = store.pending.len() - after.pending.len();
            &&& 0 <= count
            &&& after.pending == store.pending.skip(count)
            &&& after.next_sequence == store.next_sequence + count
            &&& !store.audio_enabled ==> after.pending.len() == 0
            &&& after.pending.len() > 0 ==> store.watermark < audio_time(after.pending[0].end)
            &&& count == 0 ==> after.segments == store.segments
            &&& count > 0 ==> after.segments.len() == if store.segments.len() + count < 32 {
                store.segments.len() + count
            } else {
                32
            }
            &&& forall|i: int|
                0 <= i < after.segments.len() && i >= after.segments.len() - count ==> {
                    let published = #[trigger] after.segments[i];
                    let waiting = store.pending[i - (after.segments.len() - count)];
                    &&& published.sequence == store.next_sequence + i - (after.segments.len()
                        - count)
                    &&& published.video == waiting.video
                    &&& published.duration == waiting.duration
                    &&& published.audio is Some <==> store.audio_enabled
                }
            &&& forall|i: int|
                0 <= i < after.segments.len() - count ==> #[trigger] after.segments[i]
                    == store.segments[store.segments.len() - (after.segments.len() - count) + i]
        }),
    decreases store.pending.len(),
{
    if store.ready() {
        let next = store.publish_one();
        lemma_segments_are_published_in_order(next);
        let after = store.published();
        let count = store.pending.len() - after.pending.len();
        let length = after.segments.len() as int;
        assert(next.pending.skip(count - 1) =~= store.pending.skip(count));
        assert forall|i: int| 0 <= i < length && i >= length - count implies {
            let published = #[trigger] after.segments[i];
            let waiting = store.pending[i - (length - count)];
            &&& published.sequence == store.next_sequence + i - (length - count)
            &&& published.video == waiting.video
            &&& published.duration == waiting.duration
            &&& published.audio is Some <==> store.audio_enabled
        } by {
            if i > length - count {
                assert(store.pending[i - (length - count)] == next.pending[i - (length - count) - 1]);
            } else {
                assert(after.segments[i] == next.segments[next.segments.len() - 1]);
                assert(next.segments.last() == store.next_segment());
            }
        }
    } else {
        assert(store.pending.skip(0) =~= store.pending);
    }
}

impl HlsStore {
    /// What the store keeps besides its segments.
    pub open spec fn same_requests(self, other: HlsStore) -> bool {
        &&& self.metadata == other.metadata
        &&& self.init == other.init
        &&& self.playlist_requests == other.playlist_requests
        &&& self.init_requests == other.init_requests
        &&& self.segment_requests == other.segment_requests
    }

    pub open spec fn well_formed(self) -> bool {
        &&& self.segments@.len() <= RETAINED_SEGMENTS
        &&& forall|i: int|
            0 <= i < self.segments@.len() ==> (#[trigger] self.segments@[i]).duration.well_formed()
        &&& forall|i: int|
            0 <= i < self.pending_segments@.len() ==> (
            #[trigger] self.pending_segments@[i]).duration.well_formed()
    }

    pub fn new(audio_enabled: bool) -> (store: Self)
        ensures
            store.well_formed(),
            store@ == (StoreView {
                segments: Seq::empty(),
                pending: Seq::empty(),
                audio: Seq::empty(),
                watermark: 0,
                audio_enabled,
                next_sequence: 0,
            }),
            store@.gapless(),
            store.metadata is None,
            store.init is None,
            store.playlist_requests == 0,
            store.init_requests == 0,
            store.segment_requests == 0,
    {
        let store: HlsStore = HlsStore {
            metadata: None,
            init: None,
            segments: VecDeque::new(),
            pending_segments: VecDeque::new(),
            audio_frames: VecDeque::new(),
            audio_watermark: 0,
            audio_enabled,
            next_sequence: 0,
            playlist_requests: 0,
            init_requests: 0,
            segment_requests: 0,
        };
        assert(store@.segments =~= Seq::empty());
        assert(store@.pending =~= Seq::empty());
        assert(store@.audio =~= Seq::empty());
        store
    }

    /// Goes on without audio: what waited for audio is published.
    pub fn disable_audio(&mut self)
        requires
            old(self).well_formed(),
        ensures
            final(self).well_formed(),
            final(self)@ == (StoreView { audio_enabled: false, ..old(self)@ }).published(),
            old(self)@.gapless() && old(self)@.has_numbers_for(0) ==> final(self)@.gapless()
                && final(self)@.has_numbers_for(0),
            final(self).same_requests(*old(self)),
    {
        self.audio_enabled = false;
        assert(self@ =~= (StoreView { audio_enabled: false, ..old(self)@ }));
        self.publish_ready_segments();
    }

    /// Sets what the master playlist says and the segment that initializes decoders.
    pub fn set_init(
        &mut self,
        data: Vec<u8>,
        codec: &str,
        width: u32,
        height: u32,
        fps: u32,
        bandwidth: u32,
    )
        requires
            old(self).well_formed(),
        ensures
            final(self).well_formed(),
            final(self)@ == old(self)@,
            final(self).init == Some(data),
            final(self).metadata matches Some(metadata) && metadata.codec@ == codec@
                && metadata.width == width && metadata.height == height && metadata.fps == fps
                && metadata.bandwidth == bandwidth,
            final(self).playlist_requests == old(self).playlist_requests,
            final(self).init_requests == old(self).init_requests,
            final(self).segment_requests == old(self).segment_requests,
    {
        self.metadata = Some(
            HlsMetadata { codec: codec.to_owned(), width, height, fps, bandwidth },
        );
        self.init = Some(data);
    }

    /// Adds a segment. It is published once its audio is complete.
    pub fn push_segment(&mut self, data: Vec<u8>, duration: SegmentDuration, start: u64, end: u64)
        requires
            old(self).well_formed(),
            duration.well_formed(),
        ensures
            final(self).well_formed(),
            final(self)@ == (StoreView {
                pending: old(self)@.pending.push(
                    PendingView { duration, start, end, video: data@ },
                ),
                ..old(self)@
            }).published(),
            old(self)@.gapless() && old(self)@.has_numbers_for(1) ==> final(self)@.gapless()
                && final(self)@.has_numbers_for(0),
            final(self).same_requests(*old(self)),
    {
        let ghost before = self@;
        self.pending_segments.push_back(PendingSegment { duration, start, end, video: data });
        assert(self@ =~= (StoreView {
            pending: before.pending.push(PendingView { duration, start, end, video: data@ }),
            ..before
        }));
        self.publish_ready_segments();
    }

    /// Adds an encoded audio frame.
    pub fn push_audio(&mut self, frame: EncodedAudioFrame)
        requires
            old(self).well_formed(),
        ensures
            final(self).well_formed(),
            final(self)@ == (StoreView {
                audio: old(self)@.audio.push(frame@),
                watermark: if frame_end(frame.timestamp) > old(self)@.watermark {
                    frame_end(frame.timestamp)
                } else {
                    old(self)@.watermark
                },
                ..old(self)@
            }).published(),
            old(self)@.gapless() && old(self)@.has_numbers_for(0) ==> final(self)@.gapless()
                && final(self)@.has_numbers_for(0),
            final(self).same_requests(*old(self)),
    {
        let ghost before = self@;
        let end: u64 = frame.timestamp.saturating_add(ACCESS_UNIT_SAMPLES as u64);
        if end > self.audio_watermark {
            self.audio_watermark = end;
        }
        self.audio_frames.push_back(frame);
        assert(self@ =~= (StoreView {
            audio: before.audio.push(frame@),
            watermark: if frame_end(frame.timestamp) > before.watermark {
                frame_end(frame.timestamp)
            } else {
                before.watermark
            },
            ..before
        }));
        self.publish_ready_segments();
    }

    /// Whether enough segments can be fetched.
    pub fn is_ready(&self, segment_count: usize) -> (ready: bool)
        ensures
            ready == (self@.segments.len() >= segment_count),
    {
        self.segments.len() >= segment_count
    }

    /// Takes the audio of a segment out of the waiting frames.
    fn take_audio(&mut self, start: u64, end: u64) -> (data: Vec<u8>)
        ensures
            ({
                let frames = without_ended(old(self)@.audio, start);
                let timestamp = if frames.len() > 0 {
                    frames[0].0
                } else {
                    start
                };
                &&& data@ == timestamp_tag(video_time(timestamp)) + bytes_before(frames, end)
                &&& final(self)@ == (StoreView {
                    audio: without_started(frames, end),
                    ..old(self)@
                })
            }),
            final(self).same_requests(*old(self)),
            final(self).segments == old(self).segments,
            final(self).pending_segments == old(self).pending_segments,
    {
        let ghost before = *self;
        let ghost frames = without_ended(self@.audio, start);
        while self.audio_frames.len() > 0 && self.audio_frames[0].timestamp.saturating_add(
            ACCESS_UNIT_SAMPLES as u64,
        ) <= start
            invariant
                frames == without_ended(before@.audio, start),
                frames == without_ended(self@.audio, start),
                self@ == (StoreView { audio: self@.audio, ..before@ }),
                self.same_requests(before),
                self.segments == before.segments,
                self.pending_segments == before.pending_segments,
            ensures
                self@.audio == frames,
            decreases self.audio_frames@.len(),
        {
            let ghost waiting = self@.audio;
            let _ = self.audio_frames.pop_front();
            assert(self@.audio =~= waiting.drop_first());
        }
        let timestamp: u64 = if self.audio_frames.len() > 0 {
            self.audio_frames[0].timestamp
        } else {
            start
        };
        let mut data: Vec<u8> = id3_timestamp(video_timestamp(timestamp));
        let ghost tag = data@;
        assert(tag + bytes_before(frames, end) =~= data@ + bytes_before(self@.audio, end));
        while self.audio_frames.len() > 0 && self.audio_frames[0].timestamp < end
            invariant
                tag + bytes_before(frames, end) == data@ + bytes_before(self@.audio, end),
                without_started(frames, end) == without_started(self@.audio, end),
                self@ == (StoreView { audio: self@.audio, ..before@ }),
                self.same_requests(before),
                self.segments == before.segments,
                self.pending_segments == before.pending_segments,
            ensures
                self@.audio == without_started(frames, end),
                data@ == tag + bytes_before(frames, end),
            decreases self.audio_frames@.len(),
        {
            let ghost waiting = self@.audio;
            let ghost so_far = data@;
            if let Some(frame) = self.audio_frames.pop_front() {
                assert(self@.audio =~= waiting.drop_first());
                push_bytes(&mut data, frame.data.as_slice());
                assert(waiting[0] == frame@);
                assert(so_far + bytes_before(waiting, end) =~= data@ + bytes_before(
                    self@.audio,
                    end,
                ));
            }
        }
        assert(data@ + Seq::<u8>::empty() =~= data@);
        data
    }

    /// Publishes every segment that is ready.
    pub fn publish_ready_segments(&mut self)
        requires
            old(self).well_formed(),
        ensures
            final(self).well_formed(),
            final(self)@ == old(self)@.published(),
            old(self)@.gapless() && old(self)@.has_numbers_for(0) ==> final(self)@.gapless()
                && final(self)@.has_numbers_for(0),
            final(self).same_requests(*old(self)),
    {
        let ghost before = *self;
        proof {
            if before@.gapless() && before@.has_numbers_for(0) {
                lemma_publishing_keeps_the_window(before@);
            }
        }
        while self.pending_segments.len() > 0 && (!self.audio_enabled || self.audio_watermark
            >= video_to_audio_timestamp(self.pending_segments[0].end))
            invariant
                self.well_formed(),
                self@.published() == before@.published(),
                self.same_requests(before),
            ensures
                !self@.ready(),
            decreases self.pending_segments@.len(),
        {
            let ghost current = *self;
            assert(current@.pending[0] == current.pending_segments@[0]@);
            assert(current@.ready());
            if let Some(pending) = self.pending_segments.pop_front() {
                assert(self@ =~= (StoreView { pending: current@.pending.drop_first(), ..current@ }));
                let audio: Option<Vec<u8>> = if self.audio_enabled {
                    let start: u64 = video_to_audio_timestamp(pending.start);
                    let end: u64 = video_to_audio_timestamp(pending.end);
                    Some(self.take_audio(start, end))
                } else {
                    None
                };
                let sequence: u64 = self.next_sequence;
                self.next_sequence = self.next_sequence.saturating_add(1);
                let ghost published = self.segments@;
                self.segments.push_back(
                    Segment { sequence, duration: pending.duration, video: pending.video, audio },
                );
                let ghost all = self.segments@;
                assert(self@.segments =~= current@.segments.push(current@.next_segment()));
                if self.segments.len() > RETAINED_SEGMENTS {
                    let _ = self.segments.pop_front();
                    assert(self.segments@ =~= all.skip(1));
                    assert forall|i: int| 0 <= i < self.segments@.len() implies (
                    #[trigger] self.segments@[i]).duration.well_formed() by {
                        assert(self.segments@[i] == all[i + 1]);
                    }
                    assert(self@.segments =~= retained(
                        current@.segments.push(current@.next_segment()),
                    ));
                }
                assert(self@ =~= current@.publish_one());
            }
        }
    }
}

/// What the store has counted.
#[derive(Clone, Copy, Debug, PartialEq, Eq, Structural)]
pub struct HttpStats {
    pub playlists: u64,
    pub init_segments: u64,
    pub media_segments: u64,
}

/// The text of the master playlist.
pub open spec fn master_text(
    codec: Seq<char>,
    width: u32,
    height: u32,
    fps: u32,
    bandwidth: u32,
    with_audio: bool,
) -> Seq<char> {
    if with_audio {
        let total = if bandwidth + AUDIO_BITRATE <= u32::MAX {
            bandwidth + AUDIO_BITRATE
        } else {
            u32::MAX as int
        };
        "#EXTM3U\n#EXT-X-VERSION:7\n#EXT-X-MEDIA:TYPE=AUDIO,GROUP-ID=\"audio\",NAME=\"System Audio\",DEFAULT=YES,AUTOSELECT=YES,URI=\"audio.m3u8\"\n#EXT-X-STREAM-INF:BANDWIDTH="@
            + decimal(total as nat) + ",CODECS=\""@ + codec + ",mp4a.40.2\",RESOLUTION="@ + decimal(
            width as nat,
        ) + "x"@ + decimal(height as nat) + ",FRAME-RATE="@ + decimal(fps as nat)
            + ".000,AUDIO=\"audio\"\nlive.m3u8\n"@
    } else {
        "#EXTM3U\n#EXT-X-VERSION:7\n#EXT-X-STREAM-INF:BANDWIDTH="@ + decimal(bandwidth as nat)
            + ",CODECS=\""@ + codec + "\",RESOLUTION="@ + decimal(width as nat) + "x"@ + decimal(
            height as nat,
        ) + ",FRAME-RATE="@ + decimal(fps as nat) + ".000\nlive.m3u8\n"@
    }
}

/// The master playlist.
pub fn master_playlist(
    codec: &str,
    width: u32,
    height: u32,
    fps: u32,
    bandwidth: u32,
    with_audio: bool,
) -> (text: String)
    ensures
        text@ == master_text(codec@, width, height, fps, bandwidth, with_audio),
{
    if with_audio {
        let mut text: String =
            "#EXTM3U\n#EXT-X-VERSION:7\n#EXT-X-MEDIA:TYPE=AUDIO,GROUP-ID=\"audio\",NAME=\"System Audio\",DEFAULT=YES,AUTOSELECT=YES,URI=\"audio.m3u8\"\n#EXT-X-STREAM-INF:BANDWIDTH=".to_owned();
        push_decimal(&mut text, bandwidth.saturating_add(AUDIO_BITRATE) as u64);
        text = text.concat(",CODECS=\"").concat(codec).concat(",mp4a.40.2\",RESOLUTION=");
        push_decimal(&mut text, width as u64);
        text = text.concat("x");
        push_decimal(&mut text, height as u64);
        text = text.concat(",FRAME-RATE=");
        push_decimal(&mut text, fps as u64);
        text.concat(".000,AUDIO=\"audio\"\nlive.m3u8\n")
    } else {
        let mut text: String = "#EXTM3U\n#EXT-X-VERSION:7\n#EXT-X-STREAM-INF:BANDWIDTH=".to_owned();
        push_decimal(&mut text, bandwidth as u64);
        text = text.concat(",CODECS=\"").concat(codec).concat("\",RESOLUTION=");
        push_decimal(&mut text, width as u64);
        text = text.concat("x");
        push_decimal(&mut text, height as u64);
        text = text.concat(",FRAME-RATE=");
        push_decimal(&mut text, fps as u64);
        text.concat(".000\nlive.m3u8\n")
    }
}

/// The whole seconds that no segment of a playlist exceeds, and at least one.
pub open spec fn target_duration(segments: Seq<SegmentView>) -> int
    decreases segments.len(),
{
    if segments.len() == 0 {
        1
    } else {
        let rest = target_duration(segments.drop_last());
        let last = segments.last().duration.seconds.ceiling();
        if last > rest {
            last
        } else {
            rest
        }
    }
}

/// The lines of a playlist that list its segments.
pub open spec fn listed(segments: Seq<SegmentView>, prefix: Seq<char>, suffix: Seq<char>) -> Seq<char>
    decreases segments.len(),
{
    if segments.len() == 0 {
        Seq::empty()
    } else {
        listed(segments.drop_last(), prefix, suffix) + "#EXTINF:"@ + three_decimals(
            segments.last().duration.seconds.thousandths(),
        ) + ",\n"@ + prefix + decimal(segments.last().sequence as nat) + suffix
    }
}

impl StoreView {
    /// The segments that the playlists list.
    pub open spec fn visible(self) -> Seq<SegmentView> {
        self.segments.skip(self.hidden())
    }

    /// The number of the first segment that the playlists list.
    pub open spec fn first_sequence(self) -> u64 {
        if self.visible().len() > 0 {
            self.visible()[0].sequence
        } else {
            self.next_sequence
        }
    }

    /// The lines that both playlists start with.
    pub open spec fn playlist_head(self) -> Seq<char> {
        "#EXTM3U\n#EXT-X-VERSION:7\n#EXT-X-TARGETDURATION:"@ + decimal(
            target_duration(self.visible()) as nat,
        ) + "\n#EXT-X-MEDIA-SEQUENCE:"@ + decimal(self.first_sequence() as nat) + "\n"@
    }

    /// The video playlist.
    pub open spec fn video_playlist(self) -> Seq<char> {
        self.playlist_head() + "#EXT-X-INDEPENDENT-SEGMENTS\n#EXT-X-MAP:URI=\"init.mp4\"\n"@ + listed(
            self.visible(),
            "segment-"@,
            ".m4s\n"@,
        )
    }

    /// The audio playlist.
    pub open spec fn sound_playlist(self) -> Seq<char> {
        self.playlist_head() + listed(self.visible(), "audio-"@, ".aac\n"@)
    }

    /// The position of the segment with a number, or the number of segments.
    pub open spec fn position_from(self, sequence: u64, start: int) -> int
        decreases self.segments.len() - start,
    {
        if start >= self.segments.len() {
            self.segments.len() as int
        } else if self.segments[start].sequence == sequence {
            start
        } else {
            self.position_from(sequence, start + 1)
        }
    }

    /// The position of the first segment with a number, or the number of segments.
    pub open spec fn position_of(self, sequence: u64) -> int {
        self.position_from(sequence, 0)
    }
}

/// The lines of one segment in a playlist.
pub open spec fn entry(segment: SegmentView, prefix: Seq<char>, suffix: Seq<char>) -> Seq<char> {
    "#EXTINF:"@ + three_decimals(segment.duration.seconds.thousandths()) + ",\n"@ + prefix + decimal(
        segment.sequence as nat,
    ) + suffix
}

/// A playlist lists its segments one after the other, in the order of their numbers.
pub proof fn lemma_segments_are_listed_in_order(
    segments: Seq<SegmentView>,
    prefix: Seq<char>,
    suffix: Seq<char>,
)
    ensures
        listed(segments, prefix, suffix) == segments.map_values(
            |segment: SegmentView| entry(segment, prefix, suffix),
        ).flatten(),
    decreases segments.len(),
{
    let entries = segments.map_values(|segment: SegmentView| entry(segment, prefix, suffix));
    if segments.len() > 0 {
        let front = segments.drop_last();
        lemma_segments_are_listed_in_order(front, prefix, suffix);
        let before = front.map_values(|segment: SegmentView| entry(segment, prefix, suffix));
        assert(entries.drop_last() =~= before);
        entries.lemma_flatten_and_flatten_alt_are_equivalent();
        before.lemma_flatten_and_flatten_alt_are_equivalent();
        assert(entries.last() == entry(segments.last(), prefix, suffix));
        assert(listed(segments, prefix, suffix) =~= listed(front, prefix, suffix) + entry(
            segments.last(),
            prefix,
            suffix,
        ));
    }
}

/// The playlists list the newest segments, eight at most, and start with the number of the first
/// of them.
pub proof fn lemma_the_newest_segments_are_listed(store: StoreView)
    requires
        store.gapless(),
    ensures
        store.visible().len() == if store.segments.len() < 8 {
            store.segments.len()
        } else {
            8
        },
        forall|i: int|
            0 <= i < store.visible().len() ==> #[trigger] store.visible()[i]
                == store.segments[store.segments.len() - store.visible().len() + i],
        store.first_sequence() == store.next_sequence - store.visible().len(),
{
    if store.visible().len() > 0 {
        assert(store.visible()[0] == store.segments[store.hidden()]);
    }
}

/// The target duration is the longest that a listed segment plays, in whole seconds and rounded
/// up, and at least one.
pub proof fn lemma_target_duration_is_the_longest(segments: Seq<SegmentView>)
    ensures
        target_duration(segments) >= 1,
        forall|i: int|
            0 <= i < segments.len() ==> (#[trigger] segments[i]).duration.seconds.ceiling()
                <= target_duration(segments),
        target_duration(segments) == 1 || exists|i: int|
            0 <= i < segments.len() && (#[trigger] segments[i]).duration.seconds.ceiling()
                == target_duration(segments),
    decreases segments.len(),
{
    if segments.len() > 0 {
        let front = segments.drop_last();
        lemma_target_duration_is_the_longest(front);
        assert forall|i: int| 0 <= i < segments.len() implies (
        #[trigger] segments[i]).duration.seconds.ceiling() <= target_duration(segments) by {
            if i < front.len() {
                assert(front[i] == segments[i]);
            }
        }
        if target_duration(segments) != 1 {
            if segments.last().duration.seconds.ceiling() > target_duration(front) {
                assert(segments[segments.len() - 1].duration.seconds.ceiling() == target_duration(
                    segments,
                ));
            } else {
                let i = choose|i: int|
                    0 <= i < front.len() && (#[trigger] front[i]).duration.seconds.ceiling()
                        == target_duration(front);
                assert(segments[i].duration.seconds.ceiling() == target_duration(segments));
            }
        }
    }
}

/// A segment is found by its number: the first one that has it, and none where no segment has it.
pub proof fn lemma_segments_are_found_by_number(store: StoreView, sequence: u64)
    ensures
        0 <= store.position_of(sequence) <= store.segments.len(),
        forall|i: int|
            0 <= i < store.position_of(sequence) ==> (#[trigger] store.segments[i]).sequence
                != sequence,
        store.position_of(sequence) < store.segments.len() ==> store.segments[store.position_of(
            sequence,
        )].sequence == sequence,
{
    lemma_position_from(store, sequence, 0);
}

proof fn lemma_position_from(store: StoreView, sequence: u64, start: int)
    requires
        0 <= start <= store.segments.len(),
    ensures
        start <= store.position_from(sequence, start) <= store.segments.len(),
        forall|i: int|
            start <= i < store.position_from(sequence, start) ==> (
            #[trigger] store.segments[i]).sequence != sequence,
        store.position_from(sequence, start) < store.segments.len()
            ==> store.segments[store.position_from(sequence, start)].sequence == sequence,
    decreases store.segments.len() - start,
{
    if start < store.segments.len() && store.segments[start].sequence != sequence {
        lemma_position_from(store, sequence, start + 1);
    }
}

/// Three decimals are read back: the digits behind the point are the thousandths.
pub proof fn lemma_three_decimals_read_back(thousandths: int)
    requires
        0 <= thousandths,
    ensures
        ({
            let text = three_decimals(thousandths);
            let point = text.len() - 4;
            &&& text.take(point) == decimal((thousandths / 1000) as nat)
            &&& text[point] == '.'
            &&& (text[point + 1] as int - '0' as int) * 100 + (text[point + 2] as int - '0' as int) * 10
                + (text[point + 3] as int - '0' as int) == thousandths % 1000
        }),
{
    let whole = decimal((thousandths / 1000) as nat);
    let text = three_decimals(thousandths);
    let point = text.len() - 4;
    let hundreds = thousandths / 100 % 10;
    let tens = thousandths / 10 % 10;
    let ones = thousandths % 10;
    assert(hundreds * 100 + tens * 10 + ones == thousandths % 1000) by {
        let rest = thousandths % 1000;
        let all = thousandths / 1000;
        assert(thousandths == all * 1000 + rest);
        assert(thousandths / 100 == all * 10 + rest / 100);
        assert(thousandths / 10 == all * 100 + rest / 10);
    }
    assert(text.take(point) =~= whole);
    assert(text[point + 1] == digit(hundreds) && text[point + 2] == digit(tens) && text[point + 3]
        == digit(ones));
    lemma_digit_counts(hundreds);
    lemma_digit_counts(tens);
    lemma_digit_counts(ones);
}

proof fn lemma_digit_counts(value: int)
    requires
        0 <= value < 10,
    ensures
        digit(value) as int - '0' as int == value,
{
}

impl HlsStore {
    /// How many segments the playlists do not list.
    fn hidden_segments(&self) -> (hidden: usize)
        ensures
            hidden == self@.hidden(),
            hidden <= self.segments@.len(),
    {
        if self.segments.len() > PLAYLIST_WINDOW_SEGMENTS {
            self.segments.len() - PLAYLIST_WINDOW_SEGMENTS
        } else {
            0
        }
    }

    fn playlist_start(&self) -> (text: String)
        requires
            self.well_formed(),
        ensures
            text@ == self@.playlist_head(),
    {
        let hidden: usize = self.hidden_segments();
        let mut longest: u64 = 1;
        let mut index: usize = hidden;
        let ghost visible = self@.visible();
        assert(visible.take(0) =~= Seq::<SegmentView>::empty());
        while index < self.segments.len()
            invariant
                self.well_formed(),
                hidden <= index <= self.segments@.len(),
                hidden == self@.hidden(),
                visible == self@.visible(),
                longest == target_duration(visible.take(index - hidden)),
            decreases self.segments@.len() - index,
        {
            assert(visible.take(index + 1 - hidden).drop_last() =~= visible.take(index - hidden));
            assert(visible[index - hidden] == self.segments@[index as int]@);
            let seconds: u64 = self.segments[index].duration.seconds.ceil();
            if seconds > longest {
                longest = seconds;
            }
            index = index + 1;
        }
        assert(visible.take(index - hidden) =~= visible);
        let first: u64 = if hidden < self.segments.len() {
            assert(visible[0] == self.segments@[hidden as int]@);
            self.segments[hidden].sequence
        } else {
            self.next_sequence
        };
        let mut text: String = "#EXTM3U\n#EXT-X-VERSION:7\n#EXT-X-TARGETDURATION:".to_owned();
        push_decimal(&mut text, longest);
        text = text.concat("\n#EXT-X-MEDIA-SEQUENCE:");
        push_decimal(&mut text, first);
        text.concat("\n")
    }

    fn list_segments(&self, text: String, prefix: &str, suffix: &str) -> (result: String)
        requires
            self.well_formed(),
        ensures
            result@ == text@ + listed(self@.visible(), prefix@, suffix@),
    {
        let hidden: usize = self.hidden_segments();
        let mut result: String = text;
        let ghost head = result@;
        let mut index: usize = hidden;
        let ghost visible = self@.visible();
        assert(visible.take(0) =~= Seq::<SegmentView>::empty());
        assert(head + Seq::<char>::empty() =~= head);
        while index < self.segments.len()
            invariant
                self.well_formed(),
                hidden <= index <= self.segments@.len(),
                hidden == self@.hidden(),
                visible == self@.visible(),
                result@ == head + listed(visible.take(index - hidden), prefix@, suffix@),
            decreases self.segments@.len() - index,
        {
            assert(visible.take(index + 1 - hidden).drop_last() =~= visible.take(index - hidden));
            assert(visible[index - hidden] == self.segments@[index as int]@);
            let ghost before = result@;
            result = result.concat("#EXTINF:");
            push_three_decimals(&mut result, self.segments[index].duration.seconds.to_thousandths());
            result = result.concat(",\n").concat(prefix);
            push_decimal(&mut result, self.segments[index].sequence);
            result = result.concat(suffix);
            assert(result@ =~= head + listed(visible.take(index + 1 - hidden), prefix@, suffix@));
            index = index + 1;
        }
        assert(visible.take(index - hidden) =~= visible);
        result
    }

    /// The playlist of the video.
    pub fn playlist(&self) -> (text: String)
        requires
            self.well_formed(),
        ensures
            text@ == self@.video_playlist(),
    {
        let start: String = self.playlist_start().concat(
            "#EXT-X-INDEPENDENT-SEGMENTS\n#EXT-X-MAP:URI=\"init.mp4\"\n",
        );
        self.list_segments(start, "segment-", ".m4s\n")
    }

    /// The playlist of the audio.
    pub fn audio_playlist(&self) -> (text: String)
        requires
            self.well_formed(),
        ensures
            text@ == self@.sound_playlist(),
    {
        let start: String = self.playlist_start();
        self.list_segments(start, "audio-", ".aac\n")
    }

    /// What was asked of the store so far.
    pub fn stats(&self) -> (stats: HttpStats)
        ensures
            stats == (HttpStats {
                playlists: self.playlist_requests,
                init_segments: self.init_requests,
                media_segments: self.segment_requests,
            }),
    {
        HttpStats {
            playlists: self.playlist_requests,
            init_segments: self.init_requests,
            media_segments: self.segment_requests,
        }
    }

    pub fn find_segment(&self, sequence: u64) -> (index: usize)
        ensures
            index == self@.position_of(sequence),
            index <= self.segments@.len(),
    {
        let mut index: usize = 0;
        while index < self.segments.len()
            invariant
                index <= self.segments@.len(),
                self@.position_of(sequence) == self@.position_from(sequence, index as int),
            decreases self.segments@.len() - index,
        {
            assert(self@.segments[index as int] == self.segments@[index as int]@);
            if self.segments[index].sequence == sequence {
                return index;
            }
            index = index + 1;
        }
        index
    }
}

} // verus!
