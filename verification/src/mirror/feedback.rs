//! Receiver feedback: which frames arrived, which packets are missing, and what that says of the
//! network.

use std::collections::VecDeque;

use vstd::prelude::*;
use vstd::slice::slice_subrange;

use crate::bytes::{be16_at, be32_at, read_u16, read_u32};
use crate::clock::{duration_micros, elapsed, elapsed_micros, micros_of, span, LONGEST_SPAN};
use crate::mirror::rtp::{
    empty_window, frame_bytes, lemma_frame_bytes_add, lemma_packets_keep_the_sender,
    lemma_receivers_get_the_packet_they_ask_for, packets_of, read_packet, requested_packets,
    CastRtpSender, RateWindow, SenderState, StoredFrame, Wire,
};
use crate::mirror::stats::{larger, larger_of, LatencySample, MirrorCounters, MirrorStats};
use crate::rate_control::{AdaptiveRateControl, RateState, RateWindowHealth};

verus! {

/// The longest time that a sender gathers before it reports to rate control: one second.
pub const RATE_CONTROL_INTERVAL: u64 = 1_000_000_000;

/// The least latency limit of a rate window: 150 milliseconds.
pub const MINIMUM_LATENCY_LIMIT: u128 = 150_000_000;

/// The checkpoint of a receiver that has not completed a frame yet.
pub const NO_CHECKPOINT: u32 = u32::MAX;

/// Why a feedback packet was refused.
#[derive(Clone, Copy, Debug, PartialEq, Eq, Structural)]
pub enum RtcpError {
    MalformedVersion,
    TruncatedPacket,
    TruncatedFeedback,
    MissingCastIdentifier,
    TruncatedLossFields,
}

/// The newest frame ID at or before `maximum` with these low bits.
pub open spec fn at_or_before(truncated: u8, maximum: u32) -> u32 {
    let candidate = (maximum - maximum % 256 + truncated) as u32;
    if candidate > maximum {
        candidate.wrapping_sub(256)
    } else {
        candidate
    }
}

/// The oldest frame ID after `checkpoint` with these low bits.
pub open spec fn after_checkpoint(truncated: u8, checkpoint: u32) -> u32 {
    let candidate = (checkpoint - checkpoint % 256 + truncated) as u32;
    if candidate <= checkpoint {
        candidate.wrapping_add(256)
    } else {
        candidate
    }
}

/// Expands the low bits of a frame ID to the newest ID that is not after `maximum`.
pub fn expand_frame_id_at_or_before(truncated: u8, maximum: u32) -> (frame_id: u32)
    ensures
        frame_id == at_or_before(truncated, maximum),
{
    let candidate: u32 = maximum - maximum % 256 + truncated as u32;
    if candidate > maximum {
        candidate.wrapping_sub(256)
    } else {
        candidate
    }
}

/// Expands the low bits of a frame ID to the oldest ID after `checkpoint`.
pub fn expand_frame_id_after(truncated: u8, checkpoint: u32) -> (frame_id: u32)
    ensures
        frame_id == after_checkpoint(truncated, checkpoint),
{
    let candidate: u32 = checkpoint - checkpoint % 256 + truncated as u32;
    if candidate <= checkpoint {
        candidate.wrapping_add(256)
    } else {
        candidate
    }
}

/// The low bits of a checkpoint are enough: a frame ID that lies less than 256 before the latest
/// one is recovered from them.
pub proof fn lemma_checkpoints_are_recovered(frame_id: u32, latest: u32)
    requires
        frame_id <= latest < frame_id + 256,
    ensures
        at_or_before((frame_id % 256) as u8, latest) == frame_id,
{
}

/// The low bits of a lost frame's ID are enough: an ID that lies at most 256 after the checkpoint
/// is recovered from them.
pub proof fn lemma_lost_frames_are_recovered(frame_id: u32, checkpoint: u32)
    requires
        checkpoint < frame_id <= checkpoint + 256,
    ensures
        after_checkpoint((frame_id % 256) as u8, checkpoint) == frame_id,
{
}

/// Before the first frame is complete the receiver's checkpoint is all ones, and it stays apart
/// from every frame that was sent.
pub proof fn lemma_missing_checkpoints_stay_apart(latest: u32)
    requires
        latest < 255,
    ensures
        at_or_before(0xff, latest) == NO_CHECKPOINT,
{
}

/// What one feedback packet says.
#[verifier::ext_equal]
pub struct FeedbackView {
    pub checkpoint: u32,
    pub playout_delay: u16,
    pub nacks: Seq<(u32, u16)>,
}

/// What one feedback packet says.
pub struct CastFeedback {
    /// The newest frame that arrived with every frame before it.
    pub checkpoint: u32,
    /// In milliseconds.
    pub playout_delay: u16,
    /// The packets that are missing: a frame ID and a packet ID each.
    pub nacks: Vec<(u32, u16)>,
}

impl View for CastFeedback {
    type V = FeedbackView;

    open spec fn view(&self) -> FeedbackView {
        FeedbackView {
            checkpoint: self.checkpoint,
            playout_delay: self.playout_delay,
            nacks: self.nacks@,
        }
    }
}

/// The packets that the bits of a loss field name, after the packet that it spells out.
pub open spec fn bitmap_nacks(frame_id: u32, packet_id: u16, bits: u8) -> Seq<(u32, u16)>
    decreases bits,
{
    if bits == 0 {
        Seq::empty()
    } else {
        (if bits % 2 == 1 {
            seq![(frame_id, packet_id.wrapping_add(1))]
        } else {
            Seq::empty()
        }) + bitmap_nacks(frame_id, packet_id.wrapping_add(1), bits / 2)
    }
}

/// The packets that one loss field names.
pub open spec fn field_nacks(packet: Seq<u8>, base: int, checkpoint: u32) -> Seq<(u32, u16)> {
    let frame_id = after_checkpoint(packet[base], checkpoint);
    let packet_id = be16_at(packet, base + 1);
    seq![(frame_id, packet_id)] + if packet_id == u16::MAX {
        Seq::empty()
    } else {
        bitmap_nacks(frame_id, packet_id, packet[base + 3])
    }
}

/// The packets that the first loss fields name.
pub open spec fn loss_nacks(packet: Seq<u8>, fields: nat, checkpoint: u32) -> Seq<(u32, u16)>
    decreases fields,
{
    if fields == 0 {
        Seq::empty()
    } else {
        loss_nacks(packet, (fields - 1) as nat, checkpoint) + field_nacks(
            packet,
            20 + (fields - 1) * 4,
            checkpoint,
        )
    }
}

/// Where the bits of a mask stand after one step to the right.
proof fn lemma_mask_bits(mask: u8)
    ensures
        (mask >> 0u8) & 1 == mask % 2,
        forall|i: u8|
            #![trigger mask >> i]
            1 <= i < 8 ==> (mask >> i) & 1 == ((mask / 2) as u8 >> (i - 1) as u8) & 1,
        ((mask / 2) as u8 >> 7u8) & 1 == 0,
{
    assert((mask >> 0u8) & 1 == mask % 2) by (bit_vector);
    assert(((mask / 2) as u8 >> 7u8) & 1 == 0) by (bit_vector);
    assert forall|i: u8| #![trigger mask >> i] 1 <= i < 8 implies (mask >> i) & 1 == ((mask
        / 2) as u8 >> (i - 1) as u8) & 1 by {
        let before = (i - 1) as u8;
        assert((mask >> i) & 1 == ((mask / 2) as u8 >> before) & 1) by (bit_vector)
            requires
                1 <= i < 8,
                before == i - 1,
        ;
    }
}

/// The packet ID that stands `places` after another one, with wrapping.
spec fn places_after(packet_id: int, places: int) -> u16 {
    ((packet_id + places) % 0x1_0000) as u16
}

/// The bits that a mask sets, from the lowest up, are the places of the packets that it names.
proof fn lemma_bitmap_names_its_bits(frame_id: u32, packet_id: u16, mask: u8) -> (bits: Seq<u8>)
    ensures
        bitmap_nacks(frame_id, packet_id, mask) == Seq::new(
            bits.len(),
            |k: int| (frame_id, places_after(packet_id as int, 1 + bits[k])),
        ),
        forall|k: int|
            #![trigger bits[k]]
            0 <= k < bits.len() ==> bits[k] < 8 && (mask >> bits[k]) & 1 == 1,
        forall|i: u8| #![trigger mask >> i] i < 8 && (mask >> i) & 1 == 1 ==> bits.contains(i),
        forall|j: int, k: int| 0 <= j < k < bits.len() ==> bits[j] < bits[k],
    decreases mask,
{
    if mask == 0 {
        assert forall|i: u8| #![trigger mask >> i] i < 8 implies (mask >> i) & 1 != 1 by {
            assert((0u8 >> i) & 1 != 1) by (bit_vector);
        }
        assert(bitmap_nacks(frame_id, packet_id, mask) =~= Seq::new(
            0,
            |k: int| (frame_id, places_after(packet_id as int, 1 + Seq::<u8>::empty()[k])),
        ));
        Seq::empty()
    } else {
        let half = (mask / 2) as u8;
        let next = packet_id.wrapping_add(1);
        let rest = lemma_bitmap_names_its_bits(frame_id, next, half);
        lemma_mask_bits(mask);
        let head: Seq<u8> = if mask % 2 == 1 {
            seq![0u8]
        } else {
            Seq::empty()
        };
        assert forall|k: int| #![trigger rest[k]] 0 <= k < rest.len() implies rest[k] < 7 by {
            assert((half >> rest[k]) & 1 == 1);
        }
        let bits = head + Seq::new(rest.len(), |k: int| (rest[k] + 1) as u8);
        assert forall|k: int| 0 <= k < rest.len() implies #[trigger] bits[head.len() + k] == rest[k]
            + 1 by {}
        assert forall|k: int| #![trigger bits[k]] 0 <= k < bits.len() implies bits[k] < 8 && (mask
            >> bits[k]) & 1 == 1 by {
            if k >= head.len() {
                let bit = rest[k - head.len()];
                assert((half >> bit) & 1 == 1);
                assert(bits[k] == bit + 1);
                assert((mask >> bits[k]) & 1 == (half >> (bits[k] - 1) as u8) & 1);
            }
        }
        assert forall|i: u8|
            #![trigger mask >> i]
            i < 8 && (mask >> i) & 1 == 1 implies bits.contains(i) by {
            if i == 0 {
                assert(bits[0] == 0);
            } else {
                let before = (i - 1) as u8;
                assert((half >> before) & 1 == 1);
                assert(rest.contains(before));
                let k = choose|k: int| 0 <= k < rest.len() && rest[k] == before;
                assert(bits[head.len() + k] == i);
            }
        }
        assert forall|places: int| 0 <= places implies #[trigger] places_after(next as int, places)
            == places_after(packet_id as int, 1 + places) by {}
        let nacks = bitmap_nacks(frame_id, packet_id, mask);
        let named = Seq::new(
            bits.len(),
            |k: int| (frame_id, places_after(packet_id as int, 1 + bits[k])),
        );
        assert(next == places_after(packet_id as int, 1));
        assert forall|k: int| 0 <= k < nacks.len() implies nacks[k] == named[k] by {
            if k >= head.len() {
                assert(nacks[k] == bitmap_nacks(frame_id, next, half)[k - head.len()]);
                assert(bits[k] == rest[k - head.len()] + 1);
                assert(nacks[k] == (frame_id, places_after(next as int, 1 + rest[k - head.len()])));
            }
        }
        assert(nacks =~= named);
        bits
    }
}

proof fn lemma_places_are_distances(packet_id: u16, places: int)
    requires
        0 <= places <= 8,
    ensures
        (places_after(packet_id as int, places) - packet_id) % 0x1_0000 == places,
{
}

/// A loss field names exactly the packets that it spells out: its first packet, and, unless that
/// is all ones, the packet `i + 1` places after it for every bit `i` that is set in its mask, each
/// of them once and in rising order. They all belong to the frame that the field names.
pub proof fn lemma_loss_fields_name_their_packets(packet: Seq<u8>, base: int, checkpoint: u32)
    ensures
        ({
            let nacks = field_nacks(packet, base, checkpoint);
            let frame_id = after_checkpoint(packet[base], checkpoint);
            let first = packet[base + 1] * 256 + packet[base + 2];
            let mask = packet[base + 3];
            &&& nacks.len() >= 1
            &&& nacks[0] == (frame_id, first as u16)
            &&& first == 0xffff ==> nacks.len() == 1
            &&& first != 0xffff ==> {
                &&& forall|i: u8|
                    #![trigger mask >> i]
                    i < 8 ==> ((mask >> i) & 1 == 1 <==> nacks.contains(
                        (frame_id, ((first + 1 + i) % 0x1_0000) as u16),
                    ))
                &&& forall|k: int|
                    1 <= k < nacks.len() ==> (#[trigger] nacks[k]).0 == frame_id && exists|i: u8|
                        i < 8 && #[trigger] (mask >> i) & 1 == 1 && nacks[k].1 == (first + 1 + i)
                            % 0x1_0000
                &&& forall|j: int, k: int|
                    0 <= j < k < nacks.len() ==> ((#[trigger] nacks[j]).1 - first) % 0x1_0000 < ((
                    #[trigger] nacks[k]).1 - first) % 0x1_0000
            }
        }),
{
    let nacks = field_nacks(packet, base, checkpoint);
    let frame_id = after_checkpoint(packet[base], checkpoint);
    let first = be16_at(packet, base + 1);
    let mask = packet[base + 3];
    if first != 0xffff {
        let bits = lemma_bitmap_names_its_bits(frame_id, first, mask);
        let named = bitmap_nacks(frame_id, first, mask);
        assert(nacks == seq![(frame_id, first)] + named);
        assert forall|k: int| 1 <= k < nacks.len() implies #[trigger] nacks[k] == (
            frame_id,
            places_after(first as int, 1 + bits[k - 1]),
        ) by {
            assert(nacks[k] == named[k - 1]);
        }
        assert forall|k: int| 1 <= k < nacks.len() implies (#[trigger] nacks[k]).0 == frame_id
            && exists|i: u8|
            i < 8 && #[trigger] (mask >> i) & 1 == 1 && nacks[k].1 == (first + 1 + i) % 0x1_0000 by {
            assert((mask >> bits[k - 1]) & 1 == 1);
        }
        assert forall|j: int, k: int| 0 <= j < k < nacks.len() implies ((#[trigger] nacks[j]).1
            - first) % 0x1_0000 < ((#[trigger] nacks[k]).1 - first) % 0x1_0000 by {
            lemma_places_are_distances(first, 1 + bits[k - 1]);
            if j > 0 {
                lemma_places_are_distances(first, 1 + bits[j - 1]);
                assert(bits[j - 1] < bits[k - 1]);
            }
        }
        assert forall|i: u8| #![trigger mask >> i] i < 8 implies ((mask >> i) & 1 == 1
            <==> nacks.contains((frame_id, ((first + 1 + i) % 0x1_0000) as u16))) by {
            let wanted = (frame_id, places_after(first as int, 1 + i));
            lemma_places_are_distances(first, 1 + i);
            if (mask >> i) & 1 == 1 {
                let k = choose|k: int| 0 <= k < bits.len() && bits[k] == i;
                assert(nacks[k + 1] == wanted);
            }
            if nacks.contains(wanted) {
                let k = choose|k: int| 0 <= k < nacks.len() && nacks[k] == wanted;
                assert(nacks[0] == (frame_id, first));
                assert(k > 0);
                lemma_places_are_distances(first, 1 + bits[k - 1]);
                assert(bits[k - 1] == i);
            }
        }
    }
}

/// The loss fields follow the fixed part of the packet, four bytes each, and what they name is
/// listed field by field, in their order.
pub proof fn lemma_loss_fields_are_listed_in_order(packet: Seq<u8>, fields: nat, checkpoint: u32)
    ensures
        loss_nacks(packet, fields, checkpoint) == Seq::new(
            fields,
            |k: int| field_nacks(packet, 20 + 4 * k, checkpoint),
        ).flatten(),
    decreases fields,
{
    let each = Seq::new(fields, |k: int| field_nacks(packet, 20 + 4 * k, checkpoint));
    if fields > 0 {
        let before = (fields - 1) as nat;
        lemma_loss_fields_are_listed_in_order(packet, before, checkpoint);
        let front = Seq::new(before, |k: int| field_nacks(packet, 20 + 4 * k, checkpoint));
        assert(each.drop_last() =~= front);
        each.lemma_flatten_and_flatten_alt_are_equivalent();
        front.lemma_flatten_and_flatten_alt_are_equivalent();
        assert(each.last() == field_nacks(packet, 20 + 4 * (fields - 1), checkpoint));
    }
}

/// The four letters that mark a Cast feedback packet.
pub open spec fn has_cast_identifier(packet: Seq<u8>) -> bool {
    packet[12] == 67 && packet[13] == 65 && packet[14] == 83 && packet[15] == 84
}

/// What a feedback packet says to this sender. One that is meant for another stream says nothing.
pub open spec fn feedback_in(sender: SenderState, packet: Seq<u8>) -> Result<
    Option<FeedbackView>,
    RtcpError,
> {
    if packet.len() < 20 {
        Err(RtcpError::TruncatedFeedback)
    } else if be32_at(packet, 4) != sender.receiver_ssrc || be32_at(packet, 8)
        != sender.sender_ssrc {
        Ok(None)
    } else if !has_cast_identifier(packet) {
        Err(RtcpError::MissingCastIdentifier)
    } else if packet.len() < 20 + packet[17] * 4 {
        Err(RtcpError::TruncatedLossFields)
    } else {
        let checkpoint = at_or_before(packet[16], sender.next_frame_id.wrapping_sub(1));
        Ok(
            Some(
                FeedbackView {
                    checkpoint,
                    playout_delay: be16_at(packet, 18),
                    nacks: loss_nacks(packet, packet[17] as nat, checkpoint),
                },
            ),
        )
    }
}

/// The frames that a checkpoint acknowledges.
pub open spec fn acknowledged(frames: Seq<StoredFrame>, checkpoint: u32) -> Seq<StoredFrame>
    decreases frames.len(),
{
    if frames.len() == 0 {
        Seq::empty()
    } else {
        let rest = acknowledged(frames.drop_last(), checkpoint);
        if frames.last().frame_id <= checkpoint {
            rest.push(frames.last())
        } else {
            rest
        }
    }
}

/// The frames that a checkpoint leaves in flight.
pub open spec fn unacknowledged(frames: Seq<StoredFrame>, checkpoint: u32) -> Seq<StoredFrame>
    decreases frames.len(),
{
    if frames.len() == 0 {
        Seq::empty()
    } else {
        let rest = unacknowledged(frames.drop_last(), checkpoint);
        if frames.last().frame_id <= checkpoint {
            rest
        } else {
            rest.push(frames.last())
        }
    }
}

/// The first frame with this ID.
pub open spec fn frame_with_id(frames: Seq<StoredFrame>, frame_id: u32) -> Option<StoredFrame>
    decreases frames.len(),
{
    if frames.len() == 0 {
        None
    } else if frames[0].frame_id == frame_id {
        Some(frames[0])
    } else {
        frame_with_id(frames.drop_first(), frame_id)
    }
}

/// An acknowledgement takes exactly the frames up to the checkpoint out of flight: none with a
/// later ID, all with an earlier one, and their bytes with them.
pub proof fn lemma_acknowledgement_splits_the_history(frames: Seq<StoredFrame>, checkpoint: u32)
    ensures
        frame_bytes(acknowledged(frames, checkpoint)) + frame_bytes(
            unacknowledged(frames, checkpoint),
        ) == frame_bytes(frames),
        acknowledged(frames, checkpoint).len() + unacknowledged(frames, checkpoint).len()
            == frames.len(),
        forall|i: int|
            0 <= i < acknowledged(frames, checkpoint).len() ==> (#[trigger] acknowledged(
                frames,
                checkpoint,
            )[i]).frame_id <= checkpoint && frames.contains(acknowledged(frames, checkpoint)[i]),
        forall|i: int|
            0 <= i < unacknowledged(frames, checkpoint).len() ==> (#[trigger] unacknowledged(
                frames,
                checkpoint,
            )[i]).frame_id > checkpoint && frames.contains(unacknowledged(frames, checkpoint)[i]),
        frame_bytes(acknowledged(frames, checkpoint)) >= 0,
        frame_bytes(unacknowledged(frames, checkpoint)) >= 0,
    decreases frames.len(),
{
    if frames.len() > 0 {
        let front = frames.drop_last();
        lemma_acknowledgement_splits_the_history(front, checkpoint);
        assert forall|frame: StoredFrame| front.contains(frame) implies frames.contains(frame) by {
            let i = choose|i: int| 0 <= i < front.len() && front[i] == frame;
            assert(frames[i] == frame);
        }
        assert(frames.contains(frames.last())) by {
            assert(frames[frames.len() - 1] == frames.last());
        }
        let a = acknowledged(frames, checkpoint);
        let u = unacknowledged(frames, checkpoint);
        if frames.last().frame_id <= checkpoint {
            assert(a.drop_last() =~= acknowledged(front, checkpoint));
            assert forall|i: int| 0 <= i < a.len() implies (#[trigger] a[i]).frame_id <= checkpoint
                && frames.contains(a[i]) by {
                if i < a.len() - 1 {
                    assert(a[i] == acknowledged(front, checkpoint)[i]);
                }
            }
        } else {
            assert(u.drop_last() =~= unacknowledged(front, checkpoint));
            assert forall|i: int| 0 <= i < u.len() implies (#[trigger] u[i]).frame_id > checkpoint
                && frames.contains(u[i]) by {
                if i < u.len() - 1 {
                    assert(u[i] == unacknowledged(front, checkpoint)[i]);
                }
            }
        }
    }
}

/// A feedback packet is read by its bytes: it is meant for the stream that it names, carries the
/// letters `CAST`, and says the low bits of the checkpoint, the number of its loss fields and the
/// receiver's delay in milliseconds. The checkpoint is the newest one with these bits that was
/// sent.
pub proof fn lemma_feedback_is_read_by_its_bytes(sender: SenderState, packet: Seq<u8>)
    ensures
        feedback_in(sender, packet) == Err::<Option<FeedbackView>, RtcpError>(
            RtcpError::TruncatedFeedback,
        ) <==> packet.len() < 20,
        packet.len() >= 20 ==> (feedback_in(sender, packet) == Ok::<
            Option<FeedbackView>,
            RtcpError,
        >(None) <==> packet[4] * 0x100_0000 + packet[5] * 0x1_0000 + packet[6] * 0x100 + packet[7]
            != sender.receiver_ssrc || packet[8] * 0x100_0000 + packet[9] * 0x1_0000 + packet[10]
            * 0x100 + packet[11] != sender.sender_ssrc),
        feedback_in(sender, packet) matches Ok(Some(feedback)) ==> {
            &&& packet.len() >= 20 + 4 * packet[17]
            &&& packet[12] == 'C' as u8 && packet[13] == 'A' as u8 && packet[14] == 'S' as u8
                && packet[15] == 'T' as u8
            &&& feedback.playout_delay == packet[18] * 256 + packet[19]
            &&& feedback.checkpoint % 256 == packet[16]
            &&& sender.next_frame_id > 256 ==> sender.next_frame_id - 256 <= feedback.checkpoint
                < sender.next_frame_id
            &&& feedback.nacks == loss_nacks(packet, packet[17] as nat, feedback.checkpoint)
        },
        packet.len() >= 20 + 4 * packet[17] && packet.len() >= 20 && packet[12] == 'C' as u8
            && packet[13] == 'A' as u8 && packet[14] == 'S' as u8 && packet[15] == 'T' as u8
            ==> feedback_in(sender, packet) is Ok,
{
}

/// The frame that feedback asks for is the first one with its ID.
pub proof fn lemma_frames_are_found_by_their_id(frames: Seq<StoredFrame>, index: int)
    requires
        0 <= index < frames.len(),
        forall|j: int|
            0 <= j < index ==> (#[trigger] frames[j]).frame_id != frames[index].frame_id,
    ensures
        frame_with_id(frames, frames[index].frame_id) == Some(frames[index]),
    decreases index,
{
    if index > 0 {
        let rest = frames.drop_first();
        assert(frames[0].frame_id != frames[index].frame_id);
        assert forall|j: int| 0 <= j < index - 1 implies (#[trigger] rest[j]).frame_id
            != rest[index - 1].frame_id by {
            assert(rest[j] == frames[j + 1]);
        }
        lemma_frames_are_found_by_their_id(rest, index - 1);
    }
}

/// No frame is found where none has the ID.
pub proof fn lemma_unknown_frames_are_not_found(frames: Seq<StoredFrame>, frame_id: u32)
    requires
        forall|i: int| 0 <= i < frames.len() ==> (#[trigger] frames[i]).frame_id != frame_id,
    ensures
        frame_with_id(frames, frame_id) is None,
    decreases frames.len(),
{
    if frames.len() > 0 {
        let rest = frames.drop_first();
        assert(frames[0].frame_id != frame_id);
        assert forall|i: int| 0 <= i < rest.len() implies (#[trigger] rest[i]).frame_id != frame_id by {
            assert(rest[i] == frames[i + 1]);
        }
        lemma_unknown_frames_are_not_found(rest, frame_id);
    }
}

/// A checkpoint takes the frames up to it out of flight and leaves the others, in their order.
pub proof fn lemma_checkpoints_filter_the_history(frames: Seq<StoredFrame>, checkpoint: u32)
    ensures
        acknowledged(frames, checkpoint) == frames.filter(
            |frame: StoredFrame| frame.frame_id <= checkpoint,
        ),
        unacknowledged(frames, checkpoint) == frames.filter(
            |frame: StoredFrame| frame.frame_id > checkpoint,
        ),
    decreases frames.len(),
{
    reveal(Seq::filter);
    if frames.len() > 0 {
        lemma_checkpoints_filter_the_history(frames.drop_last(), checkpoint);
    }
}

/// The sample that an acknowledged frame leaves.
pub open spec fn sample_of(frame: StoredFrame, now: u64) -> LatencySample {
    LatencySample {
        pipeline_micros: span(frame.pipeline_started_at, now) / 1000,
        transport_micros: span(frame.sent_at, now) / 1000,
        capture_age_micros: frame.capture_age_micros,
        queue_wait_micros: frame.queue_wait_micros,
        encode_micros: frame.encode_micros,
        prepare_micros: frame.prepare_micros,
        sender_lock_wait_micros: frame.sender_lock_wait_micros,
        send_micros: frame.send_micros,
        in_flight_frames: frame.in_flight_frames,
        in_flight_bytes: frame.in_flight_bytes,
        keyframe: frame.keyframe,
        encoded_bytes: frame.encrypted_data@.len() as u64,
        synthetic_phase: frame.synthetic_phase,
    }
}

/// Whether a rate window shows congestion, and whether the bitrate target was in the way.
///
/// A backlog alone is congestion. Loss or latency is only where the receiver acknowledged at
/// least half of the target: an unused ceiling is not lowered.
pub open spec fn congestion(
    current_bitrate: u64,
    acknowledged_bps: u64,
    nacks: u64,
    maximum_latency_micros: u64,
    latency_limit: u128,
    in_flight_frames: u64,
    frame_backlog_limit: u64,
    in_flight_bytes: u64,
    byte_backlog_limit: u64,
) -> (bool, bool) {
    let binding = acknowledged_bps >= current_bitrate / 2;
    let troubled = nacks >= 3 || maximum_latency_micros > micros_of(latency_limit as int);
    let backlog = in_flight_frames > frame_backlog_limit || in_flight_bytes > byte_backlog_limit;
    (backlog || (binding && troubled), binding)
}

/// Whether a rate window shows congestion, and whether the bitrate target was in the way.
pub fn rate_window_is_congested(
    current_bitrate: u64,
    acknowledged_bps: u64,
    nacks: u64,
    maximum_latency_micros: u64,
    latency_limit: u128,
    in_flight_frames: u64,
    frame_backlog_limit: u64,
    in_flight_bytes: u64,
    byte_backlog_limit: u64,
) -> (result: (bool, bool))
    ensures
        result == congestion(
            current_bitrate,
            acknowledged_bps,
            nacks,
            maximum_latency_micros,
            latency_limit,
            in_flight_frames,
            frame_backlog_limit,
            in_flight_bytes,
            byte_backlog_limit,
        ),
{
    let binding: bool = acknowledged_bps >= current_bitrate / 2;
    let troubled: bool = nacks >= 3 || maximum_latency_micros > duration_micros(latency_limit);
    let backlog: bool = in_flight_frames > frame_backlog_limit || in_flight_bytes
        > byte_backlog_limit;
    (backlog || (binding && troubled), binding)
}

/// The sum of two counters, or a full counter.
pub open spec fn sum_or_full(a: u64, b: u64) -> u64 {
    if a + b <= u64::MAX {
        (a + b) as u64
    } else {
        u64::MAX
    }
}

impl RateWindow {
    /// The window with one more feedback packet in it.
    pub open spec fn with_feedback(
        self,
        acknowledged_bytes: u64,
        latency: Option<u64>,
        nacks: u64,
        in_flight_frames: u64,
        in_flight_bytes: u64,
    ) -> RateWindow {
        RateWindow {
            started: self.started,
            acked_bytes: sum_or_full(self.acked_bytes, acknowledged_bytes),
            nacks: sum_or_full(self.nacks, nacks),
            max_latency_micros: larger(
                self.max_latency_micros,
                match latency {
                    Some(latency) => latency,
                    None => 0,
                },
            ),
            max_in_flight_frames: larger(self.max_in_flight_frames, in_flight_frames),
            max_in_flight_bytes: larger(self.max_in_flight_bytes, in_flight_bytes),
        }
    }

    /// The rate at which bytes were acknowledged over `elapsed` nanoseconds.
    pub open spec fn acknowledged_bps(self, elapsed: u64) -> u64 {
        let rate = self.acked_bytes * 8 * 1_000_000_000 / elapsed as int;
        if rate <= u64::MAX {
            rate as u64
        } else {
            u64::MAX
        }
    }

    /// What the window says of the network.
    pub open spec fn health(self, sender: SenderState, bitrate: u64, now: u64) -> RateWindowHealth {
        let acknowledged_bps = self.acknowledged_bps(span(self.started, now));
        RateWindowHealth {
            congested: congestion(
                bitrate,
                acknowledged_bps,
                self.nacks,
                self.max_latency_micros,
                latency_limit(sender.target_delay),
                self.max_in_flight_frames,
                frame_backlog_limit(sender.fps),
                self.max_in_flight_bytes,
                byte_backlog_limit(bitrate),
            ).0,
            acknowledged_bps,
        }
    }
}

/// The latency that a window may show: twice the target delay, but at least 150 milliseconds.
pub open spec fn latency_limit(target_delay: u128) -> u128 {
    let doubled = if target_delay * 2 <= LONGEST_SPAN {
        (target_delay * 2) as u128
    } else {
        LONGEST_SPAN
    };
    if doubled >= MINIMUM_LATENCY_LIMIT {
        doubled
    } else {
        MINIMUM_LATENCY_LIMIT
    }
}

/// The frames that may be in flight: a quarter of a second of them, but at least three.
pub open spec fn frame_backlog_limit(fps: u32) -> u64 {
    larger((fps / 4) as u64, 3)
}

/// The bytes that may be in flight: a quarter of a second at this rate.
pub open spec fn byte_backlog_limit(bitrate: u64) -> u64 {
    let scaled = bitrate / 8 * 250;
    if scaled <= u64::MAX {
        (scaled / 1000) as u64
    } else {
        u64::MAX / 1000
    }
}

/// A backlog alone is congestion. Without one, three missing packets or a latency above the limit
/// are, but only where the receiver acknowledged at least half of what the target allows.
pub proof fn lemma_congestion_needs_a_reason(
    current_bitrate: u64,
    acknowledged_bps: u64,
    nacks: u64,
    latency_micros: u64,
    limit: u128,
    frames: u64,
    frame_limit: u64,
    bytes: u64,
    byte_limit: u64,
)
    requires
        limit <= u64::MAX,
    ensures
        ({
            let (congested, binding) = congestion(
                current_bitrate,
                acknowledged_bps,
                nacks,
                latency_micros,
                limit,
                frames,
                frame_limit,
                bytes,
                byte_limit,
            );
            &&& binding <==> 2 * acknowledged_bps + 1 >= current_bitrate
            &&& frames > frame_limit ==> congested
            &&& bytes > byte_limit ==> congested
            &&& nacks > 2 && binding ==> congested
            &&& latency_micros * 1000 > limit && binding ==> congested || latency_micros * 1000
                < limit + 1000
            &&& frames <= frame_limit && bytes <= byte_limit && !binding ==> !congested
            &&& frames <= frame_limit && bytes <= byte_limit && nacks <= 2 && latency_micros * 1000
                <= limit ==> !congested
        }),
{
}

/// The limits of a rate window: twice the target delay and at least 150 milliseconds, a quarter of
/// a second of frames and at least three, and a quarter of a second of bytes.
pub proof fn lemma_window_limits(target_delay: u128, fps: u32, bitrate: u64)
    ensures
        target_delay <= u64::MAX ==> latency_limit(target_delay) == if 2 * target_delay
            < 150_000_000 {
            150_000_000
        } else {
            2 * target_delay
        },
        frame_backlog_limit(fps) >= 3,
        fps >= 12 ==> 4 * frame_backlog_limit(fps) <= fps < 4 * frame_backlog_limit(fps) + 4,
        fps < 16 ==> frame_backlog_limit(fps) == 3,
        bitrate <= 0x100_0000_0000_0000 ==> 32 * byte_backlog_limit(bitrate) <= bitrate < 32
            * byte_backlog_limit(bitrate) + 32,
{
}

/// The acknowledged rate is that of the window: its bits over its time, rounded down.
pub proof fn lemma_acknowledged_rates_are_measured(window: RateWindow, elapsed: u64)
    requires
        elapsed > 0,
        window.acked_bytes * 8_000_000_000 / elapsed as int <= u64::MAX,
    ensures
        window.acknowledged_bps(elapsed) * elapsed <= window.acked_bytes * 8_000_000_000 < (
        window.acknowledged_bps(elapsed) + 1) * elapsed,
{
    let bits = window.acked_bytes * 8_000_000_000;
    let rate = bits / elapsed as int;
    assert(rate * elapsed <= bits < (rate + 1) * elapsed) by (nonlinear_arith)
        requires
            elapsed > 0,
            rate == bits / elapsed as int,
    ;
}

/// Feedback adds up in a window: bytes and missing packets are summed, and of latencies and of
/// what was in flight the worst stays.
pub proof fn lemma_windows_gather_feedback(
    window: RateWindow,
    bytes: u64,
    latency: Option<u64>,
    nacks: u64,
    frames: u64,
    in_flight: u64,
)
    ensures
        ({
            let after = window.with_feedback(bytes, latency, nacks, frames, in_flight);
            &&& after.started == window.started
            &&& window.acked_bytes + bytes <= u64::MAX ==> after.acked_bytes - window.acked_bytes
                == bytes
            &&& window.nacks + nacks <= u64::MAX ==> after.nacks - window.nacks == nacks
            &&& after.max_latency_micros >= window.max_latency_micros
            &&& latency matches Some(latency) ==> after.max_latency_micros >= latency && (
            after.max_latency_micros == latency || after.max_latency_micros
                == window.max_latency_micros)
            &&& latency is None ==> after.max_latency_micros == window.max_latency_micros
            &&& after.max_in_flight_frames >= frames && after.max_in_flight_frames
                >= window.max_in_flight_frames
            &&& after.max_in_flight_frames == frames || after.max_in_flight_frames
                == window.max_in_flight_frames
            &&& after.max_in_flight_bytes >= in_flight && after.max_in_flight_bytes
                >= window.max_in_flight_bytes
            &&& after.max_in_flight_bytes == in_flight || after.max_in_flight_bytes
                == window.max_in_flight_bytes
        }),
{
}

/// A sender with everything that feedback touches. Bitrate changes concern every receiver of the
/// stream, so they are counted once for all of them, in `shared`.
#[verifier::ext_equal]
pub struct Endpoint {
    pub sender: SenderState,
    pub counters: MirrorCounters,
    pub samples: Seq<LatencySample>,
    pub shared: MirrorCounters,
    pub rate: RateState,
    pub outgoing: Seq<Seq<u8>>,
}

impl Wire {
    /// The packets that the receiver misses, sent again where their frame is still kept.
    pub open spec fn with_retransmissions(self, nacks: Seq<(u32, u16)>) -> Wire
        decreases nacks.len(),
    {
        if nacks.len() == 0 {
            self
        } else {
            let wire = self.with_retransmissions(nacks.drop_last());
            match frame_with_id(wire.sender.history, nacks.last().0) {
                Some(frame) => wire.with_request(frame, Some(nacks.last().1), true),
                None => wire,
            }
        }
    }
}

impl Endpoint {
    pub open spec fn well_formed(self) -> bool {
        self.sender.well_formed() && self.rate.well_formed()
    }

    pub open spec fn wire(self) -> Wire {
        Wire { sender: self.sender, counters: self.counters, outgoing: self.outgoing }
    }

    /// The frames up to the checkpoint leave the history, and the checkpoint's own frame leaves
    /// a sample.
    pub open spec fn acknowledge(self, checkpoint: u32, now: u64) -> Endpoint {
        if checkpoint == NO_CHECKPOINT {
            self
        } else {
            let history = unacknowledged(self.sender.history, checkpoint);
            let sampled = match frame_with_id(self.sender.history, checkpoint) {
                Some(frame) => {
                    let sample = sample_of(frame, now);
                    Endpoint {
                        counters: MirrorCounters {
                            checkpoint_samples: self.counters.checkpoint_samples.wrapping_add(1),
                            checkpoint_latency_micros: self.counters.checkpoint_latency_micros.wrapping_add(
                                sample.transport_micros,
                            ),
                            max_checkpoint_latency_micros: larger(
                                self.counters.max_checkpoint_latency_micros,
                                sample.transport_micros,
                            ),
                            ..self.counters
                        },
                        samples: self.samples.push(sample),
                        ..self
                    }
                },
                None => self,
            };
            Endpoint {
                sender: SenderState { history, ..sampled.sender },
                counters: sampled.counters.with_in_flight(history),
                ..sampled
            }
        }
    }

    /// The bytes that a checkpoint acknowledges.
    pub open spec fn newly_acknowledged(self, checkpoint: u32) -> u64 {
        if checkpoint == NO_CHECKPOINT {
            0
        } else {
            frame_bytes(acknowledged(self.sender.history, checkpoint)) as u64
        }
    }

    /// How long the checkpoint's frame took from capture to acknowledgement.
    pub open spec fn checkpoint_latency(self, checkpoint: u32, now: u64) -> Option<u64> {
        if checkpoint == NO_CHECKPOINT {
            None
        } else {
            match frame_with_id(self.sender.history, checkpoint) {
                Some(frame) => Some(sample_of(frame, now).pipeline_micros),
                None => None,
            }
        }
    }

    /// The rate window takes this feedback in; a full window is reported and starts over.
    pub open spec fn with_window(self, window: RateWindow, now: u64) -> Endpoint {
        if span(window.started, now) < RATE_CONTROL_INTERVAL {
            Endpoint { sender: SenderState { window, ..self.sender }, ..self }
        } else {
            let (rate, change) = self.rate.after_report(
                self.sender.rate_control_target as int,
                window.health(self.sender, self.rate.target, now),
            );
            Endpoint {
                sender: SenderState { window: empty_window(now), ..self.sender },
                shared: self.shared.rate_changed(change),
                rate,
                ..self
            }
        }
    }

    /// What feedback does: acknowledge, count, judge the network and send again what is missing.
    pub open spec fn with_feedback(self, feedback: FeedbackView, now: u64) -> Endpoint {
        let acknowledged = self.acknowledge(feedback.checkpoint, now);
        let counted = Endpoint {
            counters: MirrorCounters {
                receiver_playout_delay_ms: feedback.playout_delay as u64,
                feedback_packets: acknowledged.counters.feedback_packets.wrapping_add(1),
                nacks: acknowledged.counters.nacks.wrapping_add(feedback.nacks.len() as u64),
                ..acknowledged.counters
            },
            ..acknowledged
        };
        let judged = counted.with_window(
            self.sender.window.with_feedback(
                self.newly_acknowledged(feedback.checkpoint),
                self.checkpoint_latency(feedback.checkpoint, now),
                feedback.nacks.len() as u64,
                self.sender.history.len() as u64,
                frame_bytes(self.sender.history) as u64,
            ),
            now,
        );
        let wire = judged.wire().with_retransmissions(feedback.nacks);
        Endpoint {
            sender: wire.sender,
            counters: wire.counters,
            outgoing: wire.outgoing,
            ..judged
        }
    }

    /// What one Cast feedback packet does.
    #[verifier::opaque]
    pub open spec fn after_feedback(self, packet: Seq<u8>, now: u64) -> (
        Endpoint,
        Result<(), RtcpError>,
    ) {
        match feedback_in(self.sender, packet) {
            Err(error) => (self, Err(error)),
            Ok(None) => (self, Ok(())),
            Ok(Some(feedback)) => (self.with_feedback(feedback, now), Ok(())),
        }
    }

    /// What the parts of a compound RTCP packet do, from `offset` on.
    pub open spec fn after_rtcp(self, packet: Seq<u8>, offset: int, now: u64) -> (
        Endpoint,
        Result<(), RtcpError>,
    )
        decreases packet.len() - offset,
    {
        if packet.len() - offset < 4 {
            (self, Ok(()))
        } else if packet[offset] / 64 != 2 {
            (self, Err(RtcpError::MalformedVersion))
        } else {
            let size = 4 + be16_at(packet, offset + 2) * 4;
            if size > packet.len() - offset {
                (self, Err(RtcpError::TruncatedPacket))
            } else if packet[offset + 1] == 206 && packet[offset] % 32 == 15 {
                let (next, result) = self.after_feedback(
                    packet.subrange(offset, offset + size),
                    now,
                );
                match result {
                    Err(error) => (next, Err(error)),
                    Ok(()) => next.after_rtcp(packet, offset + size, now),
                }
            } else {
                self.after_rtcp(packet, offset + size, now)
            }
        }
    }
}

/// A window is closed once a second has passed, and not before. A closed one is followed by an
/// empty one that starts now.
pub proof fn lemma_windows_last_a_second(endpoint: Endpoint, window: RateWindow, now: u64)
    requires
        window.started <= now,
    ensures
        now - window.started < 1_000_000_000 ==> endpoint.with_window(window, now).sender.window
            == window && endpoint.with_window(window, now).rate == endpoint.rate
            && endpoint.with_window(window, now).shared == endpoint.shared,
        now - window.started >= 1_000_000_000 ==> endpoint.with_window(window, now).sender.window
            == empty_window(now),
        endpoint.with_window(window, now).sender.history == endpoint.sender.history,
{
}

/// Before the first frame is acknowledged, nothing is known of a latency and nothing counts as
/// acknowledged.
pub proof fn lemma_nothing_is_known_before_a_checkpoint(endpoint: Endpoint, checkpoint: u32, now: u64)
    ensures
        endpoint.checkpoint_latency(u32::MAX, now) is None,
        endpoint.newly_acknowledged(u32::MAX) == 0,
        checkpoint != u32::MAX ==> (endpoint.checkpoint_latency(checkpoint, now) is Some
            <==> frame_with_id(endpoint.sender.history, checkpoint) is Some),
{
}

/// Reads one Cast feedback packet, as far as it concerns this sender.
pub fn parse_cast_feedback(sender: &CastRtpSender, packet: &[u8]) -> (result: Result<
    Option<CastFeedback>,
    RtcpError,
>)
    ensures
        match (result, feedback_in(sender@, packet@)) {
            (Ok(Some(feedback)), Ok(Some(expected))) => feedback@ == expected,
            (Ok(None), Ok(None)) => true,
            (Err(error), Err(expected)) => error == expected,
            _ => false,
        },
{
    if packet.len() < 20 {
        return Err(RtcpError::TruncatedFeedback);
    }
    let receiver_ssrc: u32 = read_u32(packet, 4);
    let sender_ssrc: u32 = read_u32(packet, 8);
    if receiver_ssrc != sender.receiver_ssrc || sender_ssrc != sender.sender_ssrc {
        return Ok(None);
    }
    if packet[12] != 67 || packet[13] != 65 || packet[14] != 83 || packet[15] != 84 {
        return Err(RtcpError::MissingCastIdentifier);
    }
    let latest_frame: u32 = sender.next_frame_id.wrapping_sub(1);
    let checkpoint: u32 = expand_frame_id_at_or_before(packet[16], latest_frame);
    let loss_count: usize = packet[17] as usize;
    let playout_delay: u16 = read_u16(packet, 18);
    if packet.len() < 20 + loss_count * 4 {
        return Err(RtcpError::TruncatedLossFields);
    }
    let mut nacks: Vec<(u32, u16)> = Vec::new();
    let mut field: usize = 0;
    while field < loss_count
        invariant
            field <= loss_count <= 255,
            20 + loss_count * 4 <= packet@.len(),
            nacks@ == loss_nacks(packet@, field as nat, checkpoint),
        decreases loss_count - field,
    {
        let base: usize = 20 + field * 4;
        let ghost before = nacks@;
        let frame_id: u32 = expand_frame_id_after(packet[base], checkpoint);
        let packet_id: u16 = read_u16(packet, base + 1);
        nacks.push((frame_id, packet_id));
        let ghost named = field_nacks(packet@, base as int, checkpoint);
        if packet_id != u16::MAX {
            let mut bits: u8 = packet[base + 3];
            let mut additional: u16 = packet_id;
            assert(nacks@ + bitmap_nacks(frame_id, additional, bits) =~= before + named);
            while bits != 0
                invariant
                    nacks@ + bitmap_nacks(frame_id, additional, bits) == before + named,
                decreases bits,
            {
                let ghost so_far = nacks@;
                let ghost expanded = bitmap_nacks(frame_id, additional, bits);
                let ghost rest = bitmap_nacks(frame_id, additional.wrapping_add(1), bits / 2);
                additional = additional.wrapping_add(1);
                if bits % 2 == 1 {
                    nacks.push((frame_id, additional));
                }
                assert(nacks@ + rest =~= so_far + expanded);
                bits = bits / 2;
            }
        }
        assert(nacks@ =~= before + named);
        field = field + 1;
    }
    Ok(Some(CastFeedback { checkpoint, playout_delay, nacks }))
}

proof fn lemma_split_prefix(frames: Seq<StoredFrame>, count: int, checkpoint: u32)
    requires
        0 <= count < frames.len(),
    ensures
        acknowledged(frames.take(count + 1), checkpoint) == if frames[count].frame_id <= checkpoint {
            acknowledged(frames.take(count), checkpoint).push(frames[count])
        } else {
            acknowledged(frames.take(count), checkpoint)
        },
        unacknowledged(frames.take(count + 1), checkpoint) == if frames[count].frame_id
            <= checkpoint {
            unacknowledged(frames.take(count), checkpoint)
        } else {
            unacknowledged(frames.take(count), checkpoint).push(frames[count])
        },
        frame_bytes(frames.take(count + 1)) == frame_bytes(frames.take(count))
            + frames[count].encrypted_data@.len(),
        frame_bytes(frames.take(count + 1)) <= frame_bytes(frames),
{
    assert(frames.take(count + 1).drop_last() =~= frames.take(count));
    lemma_frame_bytes_add(frames.take(count + 1), frames.skip(count + 1));
    assert(frames.take(count + 1) + frames.skip(count + 1) =~= frames);
}

proof fn lemma_frame_with_id_at(frames: Seq<StoredFrame>, frame_id: u32, index: int)
    requires
        0 <= index <= frames.len(),
        forall|i: int| 0 <= i < index ==> (#[trigger] frames[i]).frame_id != frame_id,
    ensures
        index < frames.len() && frames[index].frame_id == frame_id ==> frame_with_id(
            frames,
            frame_id,
        ) == Some(frames[index]),
        index == frames.len() ==> frame_with_id(frames, frame_id) is None,
    decreases frames.len(),
{
    if frames.len() > 0 && index > 0 {
        let rest = frames.drop_first();
        assert(frames[0].frame_id != frame_id);
        assert forall|i: int| 0 <= i < index - 1 implies (#[trigger] rest[i]).frame_id != frame_id by {
            assert(rest[i] == frames[i + 1]);
        }
        lemma_frame_with_id_at(rest, frame_id, index - 1);
    }
}

/// The position of the first frame with this ID.
fn position_of(history: &VecDeque<StoredFrame>, frame_id: u32) -> (position: Option<usize>)
    ensures
        match position {
            Some(index) => index < history@.len() && frame_with_id(history@, frame_id) == Some(
                history@[index as int],
            ),
            None => frame_with_id(history@, frame_id) is None,
        },
{
    let mut index: usize = 0;
    while index < history.len()
        invariant
            index <= history@.len(),
            forall|i: int| 0 <= i < index ==> (#[trigger] history@[i]).frame_id != frame_id,
        decreases history@.len() - index,
    {
        if history[index].frame_id == frame_id {
            proof {
                lemma_frame_with_id_at(history@, frame_id, index as int);
            }
            return Some(index);
        }
        index = index + 1;
    }
    proof {
        lemma_frame_with_id_at(history@, frame_id, index as int);
    }
    None
}

/// A sender, its statistics, those that its group shares, the rate control and the packets that
/// the sender put out, as one state.
pub open spec fn endpoint(
    sender: &CastRtpSender,
    stats: &MirrorStats,
    shared: &MirrorCounters,
    rate: &AdaptiveRateControl,
    outgoing: &Vec<Vec<u8>>,
) -> Endpoint {
    Endpoint {
        sender: sender@,
        counters: stats.counters,
        samples: stats.latency_samples@,
        shared: *shared,
        rate: rate@,
        outgoing: packets_of(outgoing@),
    }
}

impl CastRtpSender {
    /// Drops the frames up to the checkpoint and returns their bytes.
    fn drop_acknowledged(&mut self, checkpoint: u32) -> (bytes: u64)
        requires
            old(self).well_formed(),
        ensures
            final(self).well_formed(),
            final(self)@ == (SenderState {
                history: unacknowledged(old(self)@.history, checkpoint),
                ..old(self)@
            }),
            bytes == frame_bytes(acknowledged(old(self)@.history, checkpoint)),
    {
        let ghost frames = self.history@;
        let total: usize = self.history.len();
        let mut bytes: u64 = 0;
        let mut seen: usize = 0;
        assert(frames.take(0) =~= Seq::<StoredFrame>::empty());
        assert(frames.skip(0) =~= frames);
        assert(frames + Seq::<StoredFrame>::empty() =~= frames);
        while seen < total
            invariant
                seen <= total == frames.len(),
                frames == old(self)@.history,
                frame_bytes(frames) <= u64::MAX,
                self@ == (SenderState { history: self@.history, ..old(self)@ }),
                self.history@ == frames.skip(seen as int) + unacknowledged(
                    frames.take(seen as int),
                    checkpoint,
                ),
                bytes == frame_bytes(acknowledged(frames.take(seen as int), checkpoint)),
            decreases total - seen,
        {
            proof {
                lemma_split_prefix(frames, seen as int, checkpoint);
                lemma_acknowledgement_splits_the_history(frames.take(seen as int), checkpoint);
                lemma_acknowledgement_splits_the_history(frames.take(seen + 1), checkpoint);
                assert(self.history@[0] == frames[seen as int]);
            }
            let ghost kept = unacknowledged(frames.take(seen as int), checkpoint);
            let ghost gone = acknowledged(frames.take(seen as int), checkpoint);
            match self.history.pop_front() {
                Some(frame) => {
                    assert(frame == frames[seen as int]);
                    if frame.frame_id > checkpoint {
                        self.history.push_back(frame);
                        assert(self.history@ =~= frames.skip(seen + 1) + kept.push(
                            frames[seen as int],
                        ));
                    } else {
                        assert(gone.push(frame).drop_last() =~= gone);
                        bytes = bytes + frame.encrypted_data.len() as u64;
                        assert(self.history@ =~= frames.skip(seen + 1) + kept);
                    }
                },
                None => {},
            }
            seen = seen + 1;
        }
        proof {
            assert(frames.take(seen as int) =~= frames);
            assert(self.history@ =~= unacknowledged(frames, checkpoint));
            lemma_acknowledgement_splits_the_history(frames, checkpoint);
            assert forall|i: int| 0 <= i < self@.history.len() implies self@.count_of(
                #[trigger] self@.history[i],
            ) <= u16::MAX by {
                let frame = unacknowledged(frames, checkpoint)[i];
                assert(frames.contains(frame));
                let j = choose|j: int| 0 <= j < frames.len() && frames[j] == frame;
                assert(old(self)@.count_of(frames[j]) <= u16::MAX);
            }
        }
        bytes
    }

    /// Takes an acknowledgement in: returns the bytes that arrived, and how long the checkpoint's
    /// frame took where it was still kept.
    fn acknowledge(
        &mut self,
        checkpoint: u32,
        now: u64,
        stats: &mut MirrorStats,
        Ghost(before): Ghost<Endpoint>,
    ) -> (result: (u64, Option<u64>))
        requires
            old(self).well_formed(),
            before.sender == old(self)@,
            before.counters == old(stats).counters,
            before.samples == old(stats).latency_samples@,
        ensures
            final(self).well_formed(),
            final(stats).synthetic_render_micros == old(stats).synthetic_render_micros,
            before.acknowledge(checkpoint, now) == (Endpoint {
                sender: final(self)@,
                counters: final(stats).counters,
                samples: final(stats).latency_samples@,
                ..before
            }),
            result.0 == before.newly_acknowledged(checkpoint),
            result.1 == before.checkpoint_latency(checkpoint, now),
    {
        if checkpoint == NO_CHECKPOINT {
            return (0, None);
        }
        let mut latency: Option<u64> = None;
        if let Some(index) = position_of(&self.history, checkpoint) {
            let frame: &StoredFrame = &self.history[index];
            let transport_micros: u64 = elapsed_micros(frame.sent_at, now);
            let pipeline_micros: u64 = elapsed_micros(frame.pipeline_started_at, now);
            latency = Some(pipeline_micros);
            stats.counters.checkpoint_samples = stats.counters.checkpoint_samples.wrapping_add(1);
            stats.counters.checkpoint_latency_micros =
            stats.counters.checkpoint_latency_micros.wrapping_add(transport_micros);
            stats.counters.max_checkpoint_latency_micros = larger_of(
                stats.counters.max_checkpoint_latency_micros,
                transport_micros,
            );
            stats.latency_samples.push(
                LatencySample {
                    pipeline_micros,
                    transport_micros,
                    capture_age_micros: frame.capture_age_micros,
                    queue_wait_micros: frame.queue_wait_micros,
                    encode_micros: frame.encode_micros,
                    prepare_micros: frame.prepare_micros,
                    sender_lock_wait_micros: frame.sender_lock_wait_micros,
                    send_micros: frame.send_micros,
                    in_flight_frames: frame.in_flight_frames,
                    in_flight_bytes: frame.in_flight_bytes,
                    keyframe: frame.keyframe,
                    encoded_bytes: frame.encrypted_data.len() as u64,
                    synthetic_phase: frame.synthetic_phase,
                },
            );
        }
        let bytes: u64 = self.drop_acknowledged(checkpoint);
        self.update_in_flight_stats(&mut stats.counters);
        (bytes, latency)
    }

    /// Adds one feedback packet to the rate window, and reports a full window to rate control.
    pub fn record_rate_control_window(
        &mut self,
        acknowledged_bytes: u64,
        checkpoint_pipeline_micros: Option<u64>,
        nacks: u64,
        in_flight_frames: u64,
        in_flight_bytes: u64,
        now: u64,
        counters: &mut MirrorCounters,
        rate: &mut AdaptiveRateControl,
    )
        requires
            old(rate).well_formed(),
        ensures
            final(rate).well_formed(),
            ({
                let window = old(self).window.with_feedback(
                    acknowledged_bytes,
                    checkpoint_pipeline_micros,
                    nacks,
                    in_flight_frames,
                    in_flight_bytes,
                );
                if span(window.started, now) < RATE_CONTROL_INTERVAL {
                    &&& final(self)@ == SenderState { window, ..old(self)@ }
                    &&& *final(counters) == *old(counters)
                    &&& final(rate)@ == old(rate)@
                } else {
                    let report = old(rate)@.after_report(
                        old(self).rate_control_target as int,
                        window.health(old(self)@, old(rate)@.target, now),
                    );
                    &&& final(self)@ == SenderState { window: empty_window(now), ..old(self)@ }
                    &&& *final(counters) == old(counters).rate_changed(report.1)
                    &&& final(rate)@ == report.0
                }
            }),
    {
        let latency: u64 = match checkpoint_pipeline_micros {
            Some(latency) => latency,
            None => 0,
        };
        self.window.acked_bytes = self.window.acked_bytes.saturating_add(acknowledged_bytes);
        self.window.nacks = self.window.nacks.saturating_add(nacks);
        self.window.max_latency_micros = larger_of(self.window.max_latency_micros, latency);
        self.window.max_in_flight_frames = larger_of(
            self.window.max_in_flight_frames,
            in_flight_frames,
        );
        self.window.max_in_flight_bytes = larger_of(
            self.window.max_in_flight_bytes,
            in_flight_bytes,
        );
        let gathered: u64 = elapsed(self.window.started, now);
        if gathered < RATE_CONTROL_INTERVAL {
            return ;
        }
        let bits: u128 = self.window.acked_bytes as u128 * 8 * 1_000_000_000 / gathered as u128;
        let acknowledged_bps: u64 = if bits <= u64::MAX as u128 {
            bits as u64
        } else {
            u64::MAX
        };
        let doubled: u128 = if self.target_delay <= LONGEST_SPAN / 2 {
            self.target_delay * 2
        } else {
            LONGEST_SPAN
        };
        let limit: u128 = if doubled >= MINIMUM_LATENCY_LIMIT {
            doubled
        } else {
            MINIMUM_LATENCY_LIMIT
        };
        let current_bitrate: u64 = rate.target_bitrate();
        let eighth: u64 = current_bitrate / 8;
        let byte_limit: u64 = if eighth <= u64::MAX / 250 {
            eighth * 250 / 1_000
        } else {
            u64::MAX / 1_000
        };
        let frame_limit: u64 = larger_of((self.fps / 4) as u64, 3);
        let (congested, _) = rate_window_is_congested(
            current_bitrate,
            acknowledged_bps,
            self.window.nacks,
            self.window.max_latency_micros,
            limit,
            self.window.max_in_flight_frames,
            frame_limit,
            self.window.max_in_flight_bytes,
            byte_limit,
        );
        let change = rate.report_window(
            self.rate_control_target,
            RateWindowHealth { congested, acknowledged_bps },
        );
        counters.apply_rate_change(change);
        self.window = RateWindow {
            started: now,
            acked_bytes: 0,
            nacks: 0,
            max_latency_micros: 0,
            max_in_flight_frames: 0,
            max_in_flight_bytes: 0,
        };
    }
}

impl Wire {
    /// The same wire with other frames in the history.
    spec fn holding(self, history: Seq<StoredFrame>) -> Wire {
        Wire { sender: SenderState { history, ..self.sender }, ..self }
    }
}

proof fn lemma_packets_ignore_the_history(
    wire: Wire,
    history: Seq<StoredFrame>,
    frame: StoredFrame,
    packet_ids: Seq<int>,
    retransmission: bool,
)
    ensures
        wire.holding(history).with_packets(frame, packet_ids, retransmission) == wire.with_packets(
            frame,
            packet_ids,
            retransmission,
        ).holding(history),
    decreases packet_ids.len(),
{
    if packet_ids.len() > 0 {
        let front = packet_ids.drop_last();
        lemma_packets_ignore_the_history(wire, history, frame, front, retransmission);
        let sent = wire.with_packets(frame, front, retransmission);
        assert(sent.holding(history).with_packet(frame, packet_ids.last(), retransmission)
            =~= sent.with_packet(frame, packet_ids.last(), retransmission).holding(history));
    }
}

proof fn lemma_retransmissions_keep_the_sender(wire: Wire, nacks: Seq<(u32, u16)>)
    ensures
        ({
            let after = wire.with_retransmissions(nacks).sender;
            after == SenderState {
                sequence_number: after.sequence_number,
                packet_count: after.packet_count,
                octet_count: after.octet_count,
                ..wire.sender
            }
        }),
    decreases nacks.len(),
{
    if nacks.len() > 0 {
        lemma_retransmissions_keep_the_sender(wire, nacks.drop_last());
        let before = wire.with_retransmissions(nacks.drop_last());
        if let Some(frame) = frame_with_id(before.sender.history, nacks.last().0) {
            lemma_packets_keep_the_sender(
                before,
                frame,
                requested_packets(Some(nacks.last().1), before.sender.count_of(frame)),
                true,
            );
        }
    }
}

proof fn lemma_frame_with_id_is_kept(frames: Seq<StoredFrame>, frame_id: u32)
    ensures
        frame_with_id(frames, frame_id) matches Some(frame) ==> frames.contains(frame)
            && frame.frame_id == frame_id,
    decreases frames.len(),
{
    if frames.len() > 0 && frames[0].frame_id != frame_id {
        let rest = frames.drop_first();
        lemma_frame_with_id_is_kept(rest, frame_id);
        if let Some(frame) = frame_with_id(rest, frame_id) {
            let i = choose|i: int| 0 <= i < rest.len() && rest[i] == frame;
            assert(frames[i + 1] == frame);
        }
    }
}

/// Feedback never asks the sender for more than it kept: every packet that goes out again belongs
/// to a frame of the history that the receiver named.
pub proof fn lemma_only_kept_frames_go_out_again(wire: Wire, nack: (u32, u16))
    ensures
        frame_with_id(wire.sender.history, nack.0) is None ==> wire.with_retransmissions(
            seq![nack],
        ) == wire,
        frame_with_id(wire.sender.history, nack.0) matches Some(frame) ==> {
            &&& frame.frame_id == nack.0
            &&& wire.sender.history.contains(frame)
            &&& wire.with_retransmissions(seq![nack]) == wire.with_request(
                frame,
                Some(nack.1),
                true,
            )
        },
{
    lemma_frame_with_id_is_kept(wire.sender.history, nack.0);
    assert(seq![nack].drop_last() =~= Seq::<(u32, u16)>::empty());
    assert(wire.with_retransmissions(Seq::<(u32, u16)>::empty()) == wire);
}

/// A checkpoint of all ones acknowledges nothing. Any other takes the frames up to it out of
/// flight, and where its own frame is among them, leaves a sample of how long that took.
pub proof fn lemma_checkpoints_leave_samples(endpoint: Endpoint, checkpoint: u32, now: u64)
    ensures
        checkpoint == 0xffff_ffff ==> endpoint.acknowledge(checkpoint, now) == endpoint,
        checkpoint != 0xffff_ffff ==> {
            let after = endpoint.acknowledge(checkpoint, now);
            &&& after.sender.history == endpoint.sender.history.filter(
                |frame: StoredFrame| frame.frame_id > checkpoint,
            )
            &&& after.outgoing == endpoint.outgoing
            &&& after.counters.current_in_flight_frames == after.sender.history.len() as u64
            &&& frame_with_id(endpoint.sender.history, checkpoint) is None ==> after.samples
                == endpoint.samples
            &&& frame_with_id(endpoint.sender.history, checkpoint) matches Some(frame) ==> {
                &&& after.samples.len() == endpoint.samples.len() + 1
                &&& after.samples.drop_last() == endpoint.samples
                &&& frame.sent_at <= now ==> after.samples.last().transport_micros == (now
                    - frame.sent_at) as u64 / 1000
                &&& frame.pipeline_started_at <= now ==> after.samples.last().pipeline_micros == (
                now - frame.pipeline_started_at) as u64 / 1000
                &&& after.samples.last().encoded_bytes == frame.encrypted_data@.len() as u64
                &&& after.samples.last().keyframe == frame.keyframe
                &&& after.counters.checkpoint_samples
                    == endpoint.counters.checkpoint_samples.wrapping_add(1)
            }
        },
{
    lemma_checkpoints_filter_the_history(endpoint.sender.history, checkpoint);
    if checkpoint != NO_CHECKPOINT {
        if let Some(frame) = frame_with_id(endpoint.sender.history, checkpoint) {
            let after = endpoint.acknowledge(checkpoint, now);
            assert(after.samples == endpoint.samples.push(sample_of(frame, now)));
            assert(after.samples.drop_last() =~= endpoint.samples);
        }
    }
}

/// Missing packets are put out again one request after the other, in the order in which the
/// receiver named them.
pub proof fn lemma_requests_are_answered_in_order(
    wire: Wire,
    first: Seq<(u32, u16)>,
    second: Seq<(u32, u16)>,
)
    ensures
        wire.with_retransmissions(first + second) == wire.with_retransmissions(
            first,
        ).with_retransmissions(second),
    decreases second.len(),
{
    if second.len() == 0 {
        assert(first + second =~= first);
    } else {
        lemma_requests_are_answered_in_order(wire, first, second.drop_last());
        assert((first + second).drop_last() =~= first + second.drop_last());
        assert((first + second).last() == second.last());
    }
}

/// A receiver that misses a packet of a frame that is kept gets that packet, and reads its own
/// request in it.
pub proof fn lemma_missing_packets_are_sent_again(wire: Wire, nack: (u32, u16), index: int)
    requires
        wire.sender.well_formed(),
        wire.sender.payload_type < 128,
        0 <= index < wire.sender.history.len(),
        wire.sender.history[index].frame_id == nack.0,
        forall|j: int|
            0 <= j < index ==> (#[trigger] wire.sender.history[j]).frame_id != nack.0,
        nack.1 != 0xffff,
        nack.1 < wire.sender.count_of(wire.sender.history[index]),
    ensures
        ({
            let after = wire.with_retransmissions(seq![nack]).outgoing;
            let frame = wire.sender.history[index];
            &&& after.len() == wire.outgoing.len() + 1
            &&& after.drop_last() == wire.outgoing
            &&& read_packet(after.last()).frame_id == nack.0 % 256
            &&& read_packet(after.last()).packet_id == nack.1
            &&& forall|i: int|
                0 <= i < after.last().len() - 19 ==> #[trigger] after.last()[19 + i]
                    == frame.encrypted_data@[nack.1 * wire.sender.max_payload() + i]
        }),
{
    let frame = wire.sender.history[index];
    lemma_frames_are_found_by_their_id(wire.sender.history, index);
    lemma_only_kept_frames_go_out_again(wire, nack);
    assert(wire.sender.count_of(wire.sender.history[index]) <= u16::MAX);
    lemma_receivers_get_the_packet_they_ask_for(wire, frame, nack.1, true);
    let after = wire.with_retransmissions(seq![nack]).outgoing;
    assert(after.drop_last() =~= after.take(wire.outgoing.len() as int));
}

proof fn lemma_rtcp_parts_stand_alone(
    endpoint: Endpoint,
    front: Seq<u8>,
    rest: Seq<u8>,
    offset: int,
    now: u64,
)
    requires
        0 <= offset,
    ensures
        endpoint.after_rtcp(front + rest, front.len() + offset, now) == endpoint.after_rtcp(
            rest,
            offset,
            now,
        ),
    decreases rest.len() - offset,
{
    let whole = front + rest;
    let place = front.len() + offset;
    if rest.len() - offset >= 4 {
        assert(whole[place] == rest[offset]);
        assert(whole[place + 1] == rest[offset + 1]);
        assert(whole[place + 2] == rest[offset + 2]);
        assert(whole[place + 3] == rest[offset + 3]);
        let size = 4 + be16_at(rest, offset + 2) * 4;
        if rest[offset] / 64 == 2 && size <= rest.len() - offset {
            assert(whole.subrange(place, place + size) =~= rest.subrange(offset, offset + size));
            let next = if rest[offset + 1] == 206 && rest[offset] % 32 == 15 {
                endpoint.after_feedback(rest.subrange(offset, offset + size), now).0
            } else {
                endpoint
            };
            lemma_rtcp_parts_stand_alone(next, front, rest, offset + size, now);
            assert(front.len() + (offset + size) == place + size);
        }
    }
}

/// The parts of a compound RTCP packet are handled one after the other: a part of Cast feedback,
/// with its own type and format, takes effect, any other is passed over, and the rest is handled
/// as if it had come alone.
pub proof fn lemma_rtcp_parts_are_handled_in_order(
    endpoint: Endpoint,
    part: Seq<u8>,
    rest: Seq<u8>,
    now: u64,
)
    requires
        part.len() >= 4,
        part[0] / 64 == 2,
        part.len() == 4 * (part[2] * 256 + part[3] + 1),
    ensures
        part[1] != 206 || part[0] % 32 != 15 ==> endpoint.after_rtcp(part + rest, 0, now)
            == endpoint.after_rtcp(rest, 0, now),
        part[1] == 206 && part[0] % 32 == 15 && feedback_in(endpoint.sender, part) is Ok
            ==> endpoint.after_rtcp(part + rest, 0, now) == endpoint.after_feedback(
            part,
            now,
        ).0.after_rtcp(rest, 0, now),
        part[1] == 206 && part[0] % 32 == 15 ==> (feedback_in(endpoint.sender, part) matches Err(
            error,
        ) ==> endpoint.after_rtcp(part + rest, 0, now) == (endpoint, Err::<(), RtcpError>(error))),
{
    reveal(Endpoint::after_feedback);
    let whole = part + rest;
    assert(whole[0] == part[0] && whole[1] == part[1] && whole[2] == part[2] && whole[3] == part[3]);
    assert(be16_at(whole, 2) == part[2] * 256 + part[3]);
    assert(whole.subrange(0, part.len() as int) =~= part);
    lemma_rtcp_parts_stand_alone(endpoint, part, rest, 0, now);
    lemma_rtcp_parts_stand_alone(endpoint.after_feedback(part, now).0, part, rest, 0, now);
}

/// What is not RTCP is refused: another version, or a part that is longer than what came. Fewer
/// than four bytes are nothing.
pub proof fn lemma_malformed_rtcp_is_refused(endpoint: Endpoint, packet: Seq<u8>, now: u64)
    ensures
        packet.len() < 4 ==> endpoint.after_rtcp(packet, 0, now) == (endpoint, Ok::<(), RtcpError>(())),
        packet.len() >= 4 && packet[0] / 64 != 2 ==> endpoint.after_rtcp(packet, 0, now) == (
            endpoint,
            Err::<(), RtcpError>(RtcpError::MalformedVersion),
        ),
        packet.len() >= 4 && packet[0] / 64 == 2 && packet.len() < 4 * (packet[2] * 256 + packet[3]
            + 1) ==> endpoint.after_rtcp(packet, 0, now) == (
            endpoint,
            Err::<(), RtcpError>(RtcpError::TruncatedPacket),
        ),
{
}

impl CastRtpSender {
    /// Puts out again every packet that the receiver misses and whose frame is still kept.
    fn retransmit(
        &mut self,
        nacks: &Vec<(u32, u16)>,
        counters: &mut MirrorCounters,
        outgoing: &mut Vec<Vec<u8>>,
    )
        requires
            old(self).well_formed(),
        ensures
            final(self).well_formed(),
            (Wire {
                sender: final(self)@,
                counters: *final(counters),
                outgoing: packets_of(final(outgoing)@),
            }) == (Wire {
                sender: old(self)@,
                counters: *old(counters),
                outgoing: packets_of(old(outgoing)@),
            }).with_retransmissions(nacks@),
    {
        let ghost start = Wire {
            sender: self@,
            counters: *counters,
            outgoing: packets_of(outgoing@),
        };
        let ghost frames = self.history@;
        let mut history: VecDeque<StoredFrame> = VecDeque::new();
        std::mem::swap(&mut self.history, &mut history);
        let ghost nothing = self.history@;
        let mut index: usize = 0;
        assert(nacks@.take(0) =~= Seq::<(u32, u16)>::empty());
        while index < nacks.len()
            invariant
                index <= nacks@.len(),
                history@ == frames,
                frames == start.sender.history,
                start.sender.well_formed(),
                self.history@ == nothing,
                (Wire { sender: self@, counters: *counters, outgoing: packets_of(outgoing@) })
                    == start.with_retransmissions(nacks@.take(index as int)).holding(nothing),
            decreases nacks@.len() - index,
        {
            let ghost before = start.with_retransmissions(nacks@.take(index as int));
            proof {
                lemma_retransmissions_keep_the_sender(start, nacks@.take(index as int));
                assert(nacks@.take(index + 1).drop_last() =~= nacks@.take(index as int));
                assert(before.holding(nothing).sender.history == nothing);
            }
            let (frame_id, packet_id) = nacks[index];
            if let Some(position) = position_of(&history, frame_id) {
                let frame: &StoredFrame = &history[position];
                assert(start.sender.count_of(frames[position as int]) <= u16::MAX);
                self.put_out(frame, true, Some(packet_id), counters, outgoing);
                proof {
                    let ids = requested_packets(Some(packet_id), before.sender.count_of(*frame));
                    lemma_packets_ignore_the_history(before, nothing, *frame, ids, true);
                    lemma_packets_keep_the_sender(before.holding(nothing), *frame, ids, true);
                }
            }
            index = index + 1;
        }
        proof {
            assert(nacks@.take(index as int) =~= nacks@);
            lemma_retransmissions_keep_the_sender(start, nacks@);
        }
        std::mem::swap(&mut self.history, &mut history);
        assert((Wire { sender: self@, counters: *counters, outgoing: packets_of(outgoing@) })
            =~= start.with_retransmissions(nacks@));
    }

    /// Takes one Cast feedback packet in. Packets to send again are added to `outgoing`.
    pub fn handle_cast_feedback(
        &mut self,
        packet: &[u8],
        now: u64,
        stats: &mut MirrorStats,
        shared: &mut MirrorCounters,
        rate: &mut AdaptiveRateControl,
        outgoing: &mut Vec<Vec<u8>>,
    ) -> (result: Result<(), RtcpError>)
        requires
            old(self).well_formed(),
            old(rate).well_formed(),
        ensures
            final(self).well_formed(),
            final(rate).well_formed(),
            (
                endpoint(final(self), final(stats), final(shared), final(rate), final(outgoing)),
                result,
            ) == endpoint(
                old(self),
                old(stats),
                old(shared),
                old(rate),
                old(outgoing),
            ).after_feedback(packet@, now),
            final(stats).synthetic_render_micros == old(stats).synthetic_render_micros,
    {
        proof {
            reveal(Endpoint::after_feedback);
        }
        let feedback: CastFeedback = match parse_cast_feedback(self, packet) {
            Err(error) => {
                return Err(error);
            },
            Ok(None) => {
                return Ok(());
            },
            Ok(Some(feedback)) => feedback,
        };
        let ghost before = endpoint(self, stats, shared, rate, outgoing);
        let in_flight_frames: u64 = self.history.len() as u64;
        let in_flight_bytes: u64 = self.in_flight_bytes();
        let (acknowledged_bytes, latency) = self.acknowledge(
            feedback.checkpoint,
            now,
            stats,
            Ghost(before),
        );
        let nack_count: u64 = feedback.nacks.len() as u64;
        stats.counters.receiver_playout_delay_ms = feedback.playout_delay as u64;
        stats.counters.feedback_packets = stats.counters.feedback_packets.wrapping_add(1);
        stats.counters.nacks = stats.counters.nacks.wrapping_add(nack_count);
        self.record_rate_control_window(
            acknowledged_bytes,
            latency,
            nack_count,
            in_flight_frames,
            in_flight_bytes,
            now,
            shared,
            rate,
        );
        self.retransmit(&feedback.nacks, &mut stats.counters, outgoing);
        assert(endpoint(self, stats, shared, rate, outgoing) =~= before.with_feedback(feedback@, now));
        Ok(())
    }

    /// Takes a compound RTCP packet in, part by part. Parts other than Cast feedback change
    /// nothing.
    pub fn handle_rtcp(
        &mut self,
        packet: &[u8],
        now: u64,
        stats: &mut MirrorStats,
        shared: &mut MirrorCounters,
        rate: &mut AdaptiveRateControl,
        outgoing: &mut Vec<Vec<u8>>,
    ) -> (result: Result<(), RtcpError>)
        requires
            old(self).well_formed(),
            old(rate).well_formed(),
        ensures
            final(self).well_formed(),
            final(rate).well_formed(),
            (
                endpoint(final(self), final(stats), final(shared), final(rate), final(outgoing)),
                result,
            ) == endpoint(
                old(self),
                old(stats),
                old(shared),
                old(rate),
                old(outgoing),
            ).after_rtcp(packet@, 0, now),
            final(stats).synthetic_render_micros == old(stats).synthetic_render_micros,
    {
        let ghost start = endpoint(self, stats, shared, rate, outgoing);
        let mut offset: usize = 0;
        while packet.len() - offset >= 4
            invariant
                offset <= packet@.len(),
                self.well_formed(),
                rate.well_formed(),
                stats.synthetic_render_micros == old(stats).synthetic_render_micros,
                start == endpoint(old(self), old(stats), old(shared), old(rate), old(outgoing)),
                endpoint(self, stats, shared, rate, outgoing).after_rtcp(packet@, offset as int, now)
                    == start.after_rtcp(packet@, 0, now),
            decreases packet@.len() - offset,
        {
            let first: u8 = packet[offset];
            if first / 64 != 2 {
                return Err(RtcpError::MalformedVersion);
            }
            let packet_type: u8 = packet[offset + 1];
            let size: usize = 4 + read_u16(packet, offset + 2) as usize * 4;
            if size > packet.len() - offset {
                return Err(RtcpError::TruncatedPacket);
            }
            if packet_type == 206 && first % 32 == 15 {
                let part: &[u8] = slice_subrange(packet, offset, offset + size);
                if let Err(error) = self.handle_cast_feedback(
                    part,
                    now,
                    stats,
                    shared,
                    rate,
                    outgoing,
                ) {
                    return Err(error);
                }
            }
            offset = offset + size;
        }
        Ok(())
    }
}

} // verus!
