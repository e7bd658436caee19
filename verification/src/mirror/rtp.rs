//! The RTP sender of one Cast Streaming stream: packets, sender reports and the frames that the
//! receiver has not acknowledged yet.

use std::collections::VecDeque;

use vstd::prelude::*;

use crate::bytes::{
    be16, be16_at, be32, be32_at, be64, lemma_be16_round_trip, lemma_be32_round_trip, push_be16,
    push_be32, push_be64, push_range,
};
use crate::clock::{duration_micros, elapsed, micros_of, span};
use crate::crypto::{encrypt_frame, encrypted, lemma_frame_encryption_round_trips};
use crate::mirror::stats::{larger, larger_of, MirrorCounters};
use crate::random::{random_bytes, RandomUnavailable};
use crate::synthetic::SyntheticPhase;

verus! {

pub const RTP_H264_PAYLOAD_TYPE: u8 = 101;

/// The RTP payload type of the AAC stream.
pub const RTP_AAC_PAYLOAD_TYPE: u8 = 97;

/// The largest datagram payload over IPv4.
pub const IPV4_PACKET_SIZE: usize = 1472;

/// The largest datagram payload over IPv6.
pub const IPV6_PACKET_SIZE: usize = 1452;

/// What a packet leaves for headers and for the receiver's own framing.
pub const PACKET_OVERHEAD: usize = 23;

/// The bytes in front of the payload of an RTP packet.
pub const RTP_HEADER_BYTES: usize = 19;

pub const MAX_UNACKED_FRAMES: usize = 120;

pub const DELTA_PACKETS_PER_BURST: usize = 16;

pub const KEYFRAME_PACKETS_PER_BURST: usize = 24;

/// The longest time over which the packets of one frame are spread: five milliseconds.
pub const MAX_FRAME_PACING_WINDOW: u64 = 5_000_000;

/// The time between two sender reports: half a second.
pub const RTCP_REPORT_INTERVAL: u64 = 500_000_000;

/// When a frame went through each stage before it reached the sender.
#[derive(Clone, Copy, Debug, PartialEq, Eq, Structural)]
pub struct FrameTimings {
    /// A reading of the monotonic clock, in nanoseconds.
    pub pipeline_started_at: u64,
    pub capture_age_micros: Option<u64>,
    pub queue_wait_micros: u64,
    pub encode_micros: u64,
    pub prepare_micros: u64,
    pub sender_lock_wait_micros: u64,
}

/// A frame that was sent and may have to be sent again.
pub struct StoredFrame {
    pub frame_id: u32,
    pub referenced_frame_id: u32,
    pub rtp_timestamp: u32,
    pub keyframe: bool,
    pub encrypted_data: Vec<u8>,
    pub pipeline_started_at: u64,
    pub sent_at: u64,
    pub capture_age_micros: Option<u64>,
    pub queue_wait_micros: u64,
    pub encode_micros: u64,
    pub prepare_micros: u64,
    pub sender_lock_wait_micros: u64,
    pub send_micros: u64,
    pub in_flight_frames: u64,
    pub in_flight_bytes: u64,
    pub synthetic_phase: Option<SyntheticPhase>,
}

/// A frame that needs more packets than packet IDs can number.
#[derive(Clone, Copy, Debug, PartialEq, Eq, Structural)]
pub struct FrameTooLarge {}

/// The bytes of every frame together.
pub open spec fn frame_bytes(frames: Seq<StoredFrame>) -> int
    decreases frames.len(),
{
    if frames.len() == 0 {
        0
    } else {
        frame_bytes(frames.drop_last()) + frames.last().encrypted_data@.len()
    }
}

/// The packets that `length` bytes take; an empty frame takes one.
pub open spec fn packets_for(length: int, max_payload: int) -> int {
    let full = (length + max_payload - 1) / max_payload;
    if full < 1 {
        1
    } else {
        full
    }
}

/// The part of a frame that one packet carries.
pub open spec fn packet_payload(data: Seq<u8>, packet_id: int, max_payload: int) -> Seq<u8> {
    let start = packet_id * max_payload;
    let end = if start + max_payload < data.len() {
        start + max_payload
    } else {
        data.len() as int
    };
    data.subrange(start, end)
}

/// One RTP packet of a frame. The marker bit is set on the last packet, and the Cast header
/// carries the keyframe flag, the low bits of the frame IDs and the position of the packet.
pub open spec fn rtp_packet(
    sender: SenderState,
    frame: StoredFrame,
    packet_id: int,
    packet_count: int,
    max_payload: int,
) -> Seq<u8> {
    seq![
        0x80u8,
        (if packet_id + 1 == packet_count {
            0x80u8
        } else {
            0u8
        }) | sender.payload_type,
    ] + be16(sender.sequence_number) + be32(frame.rtp_timestamp) + be32(sender.sender_ssrc) + seq![
        if frame.keyframe {
            0xc0u8
        } else {
            0x40u8
        },
        (frame.frame_id % 256) as u8,
    ] + be16(packet_id as u16) + be16((packet_count - 1) as u16) + seq![
        (frame.referenced_frame_id % 256) as u8,
    ] + packet_payload(frame.encrypted_data@, packet_id, max_payload)
}

/// An RTCP sender report.
pub open spec fn sender_report(sender: SenderState, rtp_timestamp: u32, ntp: u64) -> Seq<u8> {
    seq![0x80u8, 200u8, 0u8, 6u8] + be32(sender.sender_ssrc) + be64(ntp) + be32(rtp_timestamp)
        + be32(sender.packet_count) + be32(sender.octet_count)
}

/// The state of a sender, with its unacknowledged frames as a sequence, oldest first.
#[verifier::ext_equal]
pub struct SenderState {
    pub max_packet_size: usize,
    pub sender_ssrc: u32,
    pub receiver_ssrc: u32,
    pub aes_key: [u8; 16],
    pub aes_iv_mask: [u8; 16],
    pub sequence_number: u16,
    pub next_frame_id: u32,
    pub history: Seq<StoredFrame>,
    pub packet_count: u32,
    pub octet_count: u32,
    pub last_sender_report: Option<u64>,
    pub rate_control_target: usize,
    pub fps: u32,
    pub frame_quarter: u64,
    pub target_delay: u128,
    pub payload_type: u8,
    pub window: RateWindow,
}

/// What a sender has observed since its last rate-control report.
#[derive(Clone, Copy, Debug, PartialEq, Eq, Structural)]
pub struct RateWindow {
    pub started: u64,
    pub acked_bytes: u64,
    pub nacks: u64,
    pub max_latency_micros: u64,
    pub max_in_flight_frames: u64,
    pub max_in_flight_bytes: u64,
}

pub open spec fn empty_window(started: u64) -> RateWindow {
    RateWindow {
        started,
        acked_bytes: 0,
        nacks: 0,
        max_latency_micros: 0,
        max_in_flight_frames: 0,
        max_in_flight_bytes: 0,
    }
}

impl SenderState {
    pub open spec fn max_payload(self) -> int {
        self.max_packet_size - PACKET_OVERHEAD
    }

    pub open spec fn count_of(self, frame: StoredFrame) -> int {
        packets_for(frame.encrypted_data@.len() as int, self.max_payload())
    }

    pub open spec fn well_formed(self) -> bool {
        &&& self.max_packet_size == IPV4_PACKET_SIZE || self.max_packet_size == IPV6_PACKET_SIZE
        &&& self.history.len() <= MAX_UNACKED_FRAMES
        &&& frame_bytes(self.history) <= u64::MAX
        &&& forall|i: int|
            0 <= i < self.history.len() ==> self.count_of(#[trigger] self.history[i]) <= u16::MAX
    }
}

/// The packets that a request asks for: all of them, or the one that it names where the frame
/// has it. The packet ID of all ones stands for the whole frame.
pub open spec fn requested_packets(only_packet: Option<u16>, packet_count: int) -> Seq<int> {
    match only_packet {
        None => Seq::new(packet_count as nat, |i: int| i),
        Some(packet_id) => if packet_id == u16::MAX {
            Seq::new(packet_count as nat, |i: int| i)
        } else if packet_id < packet_count {
            seq![packet_id as int]
        } else {
            Seq::empty()
        },
    }
}

/// A sender together with its counters and with the packets that it has put out.
#[verifier::ext_equal]
pub struct Wire {
    pub sender: SenderState,
    pub counters: MirrorCounters,
    pub outgoing: Seq<Seq<u8>>,
}

impl Wire {
    /// One more packet of a frame.
    pub open spec fn with_packet(self, frame: StoredFrame, packet_id: int, retransmission: bool) -> Wire {
        let packet = rtp_packet(
            self.sender,
            frame,
            packet_id,
            self.sender.count_of(frame),
            self.sender.max_payload(),
        );
        Wire {
            sender: SenderState {
                sequence_number: self.sender.sequence_number.wrapping_add(1),
                packet_count: self.sender.packet_count.wrapping_add(1),
                octet_count: self.sender.octet_count.wrapping_add(
                    (packet.len() - RTP_HEADER_BYTES) as u32,
                ),
                ..self.sender
            },
            counters: MirrorCounters {
                rtp_packets: self.counters.rtp_packets.wrapping_add(1),
                synthetic_phase_packets: self.counters.synthetic_phase_packets.with_one_more(
                    frame.synthetic_phase,
                ),
                retransmissions: if retransmission {
                    self.counters.retransmissions.wrapping_add(1)
                } else {
                    self.counters.retransmissions
                },
                synthetic_phase_retransmissions: if retransmission {
                    self.counters.synthetic_phase_retransmissions.with_one_more(
                        frame.synthetic_phase,
                    )
                } else {
                    self.counters.synthetic_phase_retransmissions
                },
                ..self.counters
            },
            outgoing: self.outgoing.push(packet),
        }
    }

    /// These packets of a frame, one after the other.
    pub open spec fn with_packets(
        self,
        frame: StoredFrame,
        packet_ids: Seq<int>,
        retransmission: bool,
    ) -> Wire
        decreases packet_ids.len(),
    {
        if packet_ids.len() == 0 {
            self
        } else {
            self.with_packets(frame, packet_ids.drop_last(), retransmission).with_packet(
                frame,
                packet_ids.last(),
                retransmission,
            )
        }
    }

    /// Every packet that a request asks for.
    pub open spec fn with_request(
        self,
        frame: StoredFrame,
        only_packet: Option<u16>,
        retransmission: bool,
    ) -> Wire {
        self.with_packets(
            frame,
            requested_packets(only_packet, self.sender.count_of(frame)),
            retransmission,
        )
    }
}

/// Every packet that is sent counts once, and once more where it is sent again. The next one has
/// the next number, and the bytes behind its nineteen bytes of header count too.
pub proof fn lemma_packets_are_counted(wire: Wire, frame: StoredFrame, packet_id: int, retransmission: bool)
    ensures
        ({
            let after = wire.with_packet(frame, packet_id, retransmission);
            &&& after.outgoing.len() == wire.outgoing.len() + 1
            &&& after.sender.sequence_number == wire.sender.sequence_number.wrapping_add(1)
            &&& after.sender.packet_count == wire.sender.packet_count.wrapping_add(1)
            &&& after.sender.octet_count == wire.sender.octet_count.wrapping_add(
                (after.outgoing.last().len() - 19) as u32,
            )
            &&& after.counters.rtp_packets == wire.counters.rtp_packets.wrapping_add(1)
            &&& after.counters.retransmissions == if retransmission {
                wire.counters.retransmissions.wrapping_add(1)
            } else {
                wire.counters.retransmissions
            }
            &&& after.counters.frames == wire.counters.frames
        }),
{
}

/// A window starts at its moment with nothing in it.
pub proof fn lemma_windows_start_empty(started: u64)
    ensures
        empty_window(started).started == started,
        empty_window(started).acked_bytes == 0,
        empty_window(started).nacks == 0,
        empty_window(started).max_latency_micros == 0,
        empty_window(started).max_in_flight_frames == 0,
        empty_window(started).max_in_flight_bytes == 0,
{
}

/// The packets of a group, each as its bytes.
pub open spec fn packets_of(packets: Seq<Vec<u8>>) -> Seq<Seq<u8>> {
    packets.map_values(|packet: Vec<u8>| packet@)
}

/// Putting out packets touches nothing but the sequence number and the counters.
pub proof fn lemma_packets_keep_the_sender(
    wire: Wire,
    frame: StoredFrame,
    packet_ids: Seq<int>,
    retransmission: bool,
)
    ensures
        ({
            let after = wire.with_packets(frame, packet_ids, retransmission);
            &&& after.sender == SenderState {
                sequence_number: after.sender.sequence_number,
                packet_count: after.sender.packet_count,
                octet_count: after.sender.octet_count,
                ..wire.sender
            }
            &&& after.outgoing.len() == wire.outgoing.len() + packet_ids.len()
            &&& after.sender.sequence_number == (wire.sender.sequence_number + packet_ids.len())
                % 0x1_0000
            &&& after.sender.packet_count == (wire.sender.packet_count + packet_ids.len())
                % 0x1_0000_0000
        }),
    decreases packet_ids.len(),
{
    if packet_ids.len() > 0 {
        lemma_packets_keep_the_sender(wire, frame, packet_ids.drop_last(), retransmission);
    }
}

/// The payloads of the first packets of a frame, one after the other.
pub open spec fn joined_payloads(data: Seq<u8>, packets: nat, max_payload: int) -> Seq<u8>
    decreases packets,
{
    if packets == 0 {
        Seq::empty()
    } else {
        joined_payloads(data, (packets - 1) as nat, max_payload) + packet_payload(
            data,
            packets - 1,
            max_payload,
        )
    }
}

proof fn lemma_packet_bounds(length: int, max_payload: int, packet_id: int)
    requires
        0 <= length,
        0 < max_payload,
        0 <= packet_id < packets_for(length, max_payload),
    ensures
        0 <= packet_id * max_payload <= length,
        packet_id + 1 == packets_for(length, max_payload) ==> length <= packet_id * max_payload
            + max_payload,
        packet_id + 1 < packets_for(length, max_payload) ==> packet_id * max_payload + max_payload
            <= length,
{
    let count = packets_for(length, max_payload);
    let full = (length + max_payload - 1) / max_payload;
    assert(full * max_payload <= length + max_payload - 1 < full * max_payload + max_payload)
        by (nonlinear_arith)
        requires
            full == (length + max_payload - 1) / max_payload,
            0 < max_payload,
            0 <= length,
    ;
    assert(0 <= packet_id * max_payload) by (nonlinear_arith)
        requires
            0 <= packet_id,
            0 < max_payload,
    ;
    if packet_id > 0 {
        assert(full == count);
        assert((packet_id + 1) * max_payload <= full * max_payload) by (nonlinear_arith)
            requires
                packet_id + 1 <= full,
                0 < max_payload,
        ;
        assert((packet_id + 1) * max_payload == packet_id * max_payload + max_payload)
            by (nonlinear_arith);
    } else {
        assert(packet_id * max_payload == 0) by (nonlinear_arith)
            requires
                packet_id == 0,
        ;
        if count > 1 {
            assert(2 * max_payload <= full * max_payload) by (nonlinear_arith)
                requires
                    2 <= full,
                    0 < max_payload,
            ;
        } else {
            assert(full * max_payload <= max_payload) by (nonlinear_arith)
                requires
                    full <= 1,
                    0 < max_payload,
            ;
        }
    }
    if packet_id + 1 < count {
        assert((packet_id + 2) * max_payload <= full * max_payload) by (nonlinear_arith)
            requires
                packet_id + 2 <= full,
                0 < max_payload,
        ;
        assert((packet_id + 2) * max_payload == packet_id * max_payload + 2 * max_payload)
            by (nonlinear_arith);
    }
    if packet_id + 1 == count && packet_id > 0 {
        assert((packet_id + 1) * max_payload == full * max_payload);
    }
}

proof fn lemma_joined_payloads_prefix(data: Seq<u8>, packets: nat, max_payload: int)
    requires
        0 < max_payload,
        packets <= packets_for(data.len() as int, max_payload),
    ensures
        packets < packets_for(data.len() as int, max_payload) ==> packets * max_payload <= data.len()
            && joined_payloads(data, packets, max_payload) == data.take(packets * max_payload),
        packets == packets_for(data.len() as int, max_payload) ==> joined_payloads(
            data,
            packets,
            max_payload,
        ) == data,
    decreases packets,
{
    if packets == 0 {
        assert(packets * max_payload == 0) by (nonlinear_arith)
            requires
                packets == 0,
        ;
        assert(joined_payloads(data, packets, max_payload) =~= data.take(0));
    } else {
        let last = packets - 1;
        lemma_joined_payloads_prefix(data, last as nat, max_payload);
        lemma_packet_bounds(data.len() as int, max_payload, last);
        assert(packets * max_payload == last * max_payload + max_payload) by (nonlinear_arith)
            requires
                last == packets - 1,
        ;
        let joined = joined_payloads(data, packets, max_payload);
        if packets < packets_for(data.len() as int, max_payload) {
            assert(joined =~= data.take(packets * max_payload));
        } else {
            assert(joined =~= data);
        }
    }
}

/// A frame is whole in its packets: the payloads of all of them, in order, are the frame.
pub proof fn lemma_packets_carry_the_whole_frame(data: Seq<u8>, max_payload: int)
    requires
        0 < max_payload,
    ensures
        joined_payloads(data, packets_for(data.len() as int, max_payload) as nat, max_payload) == data,
{
    lemma_joined_payloads_prefix(
        data,
        packets_for(data.len() as int, max_payload) as nat,
        max_payload,
    );
}

/// No packet is larger than the datagram that the sender was set up for.
pub proof fn lemma_packets_fit_the_datagram(sender: SenderState, frame: StoredFrame, packet_id: int)
    requires
        sender.well_formed(),
        0 <= packet_id < sender.count_of(frame),
    ensures
        rtp_packet(sender, frame, packet_id, sender.count_of(frame), sender.max_payload()).len()
            <= sender.max_packet_size,
{
    lemma_packet_bounds(
        frame.encrypted_data@.len() as int,
        sender.max_payload(),
        packet_id,
    );
}

/// What a receiver reads in one RTP packet of a Cast stream.
#[verifier::ext_equal]
pub struct ReadPacket {
    pub version: u8,
    /// Whether this is the last packet of its frame.
    pub marker: bool,
    pub payload_type: u8,
    pub sequence_number: u16,
    pub timestamp: u32,
    pub ssrc: u32,
    pub keyframe: bool,
    pub has_reference: bool,
    /// The low bits of the frame ID.
    pub frame_id: u8,
    pub packet_id: u16,
    /// The ID of the last packet of the frame.
    pub max_packet_id: u16,
    /// The low bits of the ID of the frame that this one builds on.
    pub referenced_frame_id: u8,
    pub payload: Seq<u8>,
}

/// Reads a packet by its header fields alone.
pub open spec fn read_packet(packet: Seq<u8>) -> ReadPacket {
    ReadPacket {
        version: packet[0] / 64,
        marker: packet[1] / 128 == 1,
        payload_type: packet[1] % 128,
        sequence_number: be16_at(packet, 2),
        timestamp: be32_at(packet, 4),
        ssrc: be32_at(packet, 8),
        keyframe: packet[12] / 128 == 1,
        has_reference: packet[12] / 64 % 2 == 1,
        frame_id: packet[13],
        packet_id: be16_at(packet, 14),
        max_packet_id: be16_at(packet, 16),
        referenced_frame_id: packet[18],
        payload: packet.skip(19),
    }
}

/// A receiver reads in the header of a packet what the sender knows of it: the stream, the frame,
/// the position of the packet, the number of the packets, and whether this is the last.
pub proof fn lemma_headers_read_back(
    sender: SenderState,
    frame: StoredFrame,
    packet_id: int,
    packet_count: int,
    max_payload: int,
)
    requires
        0 <= packet_id < packet_count <= 0x1_0000,
        0 <= packet_id * max_payload <= frame.encrypted_data@.len(),
        0 <= max_payload,
        sender.payload_type < 128,
    ensures
        ({
            let read = read_packet(rtp_packet(sender, frame, packet_id, packet_count, max_payload));
            &&& read.version == 2
            &&& read.marker <==> packet_id == packet_count - 1
            &&& read.payload_type == sender.payload_type
            &&& read.sequence_number == sender.sequence_number
            &&& read.timestamp == frame.rtp_timestamp
            &&& read.ssrc == sender.sender_ssrc
            &&& read.keyframe == frame.keyframe
            &&& read.has_reference
            &&& read.frame_id == frame.frame_id % 256
            &&& read.packet_id == packet_id
            &&& read.max_packet_id == packet_count - 1
            &&& read.referenced_frame_id == frame.referenced_frame_id % 256
            &&& forall|k: int|
                0 <= k < read.payload.len() ==> #[trigger] read.payload[k]
                    == frame.encrypted_data@[packet_id * max_payload + k]
            &&& read.payload.len() <= max_payload
            &&& packet_id * max_payload + read.payload.len() <= frame.encrypted_data@.len()
            &&& read.payload.len() == max_payload || packet_id * max_payload + read.payload.len()
                == frame.encrypted_data@.len()
        }),
{
    let packet = rtp_packet(sender, frame, packet_id, packet_count, max_payload);
    let payload = packet_payload(frame.encrypted_data@, packet_id, max_payload);
    let payload_type = sender.payload_type;
    assert(0x80u8 | payload_type == 128 + payload_type) by (bit_vector)
        requires
            payload_type < 128,
    ;
    assert(0u8 | payload_type == payload_type) by (bit_vector);
    assert(packet.len() == 19 + payload.len());
    lemma_be16_round_trip(sender.sequence_number);
    lemma_be16_round_trip(packet_id as u16);
    lemma_be16_round_trip((packet_count - 1) as u16);
    lemma_be32_round_trip(frame.rtp_timestamp);
    lemma_be32_round_trip(sender.sender_ssrc);
    assert(packet.subrange(2, 4) =~= be16(sender.sequence_number));
    assert(packet.subrange(4, 8) =~= be32(frame.rtp_timestamp));
    assert(packet.subrange(8, 12) =~= be32(sender.sender_ssrc));
    assert(packet.subrange(14, 16) =~= be16(packet_id as u16));
    assert(packet.subrange(16, 18) =~= be16((packet_count - 1) as u16));
    lemma_field_of(packet, 2, be16(sender.sequence_number));
    lemma_field_of(packet, 4, be32(frame.rtp_timestamp));
    lemma_field_of(packet, 8, be32(sender.sender_ssrc));
    lemma_field_of(packet, 14, be16(packet_id as u16));
    lemma_field_of(packet, 16, be16((packet_count - 1) as u16));
    assert(packet.skip(19) =~= payload);
}

/// The bytes of a field are the bytes of the packet at its place.
proof fn lemma_field_of(packet: Seq<u8>, offset: int, field: Seq<u8>)
    requires
        0 <= offset,
        offset + field.len() <= packet.len(),
        packet.subrange(offset, offset + field.len()) == field,
    ensures
        forall|i: int| 0 <= i < field.len() ==> #[trigger] field[i] == packet[offset + i],
        field.len() == 2 ==> be16_at(packet, offset) == be16_at(field, 0),
        field.len() == 4 ==> be32_at(packet, offset) == be32_at(field, 0),
{
    assert forall|i: int| 0 <= i < field.len() implies #[trigger] field[i] == packet[offset + i] by {
        assert(packet.subrange(offset, offset + field.len())[i] == packet[offset + i]);
    }
    if field.len() == 2 {
        assert(field[0] == packet[offset + 0]);
        assert(field[1] == packet[offset + 1]);
    }
    if field.len() == 4 {
        assert(field[0] == packet[offset + 0]);
        assert(field[1] == packet[offset + 1]);
        assert(field[2] == packet[offset + 2]);
        assert(field[3] == packet[offset + 3]);
    }
}

proof fn lemma_packets_in_order(
    wire: Wire,
    frame: StoredFrame,
    packet_ids: Seq<int>,
    retransmission: bool,
)
    ensures
        ({
            let after = wire.with_packets(frame, packet_ids, retransmission);
            let start = wire.outgoing.len() as int;
            &&& after.outgoing.len() == start + packet_ids.len()
            &&& after.outgoing.take(start) == wire.outgoing
            &&& forall|k: int|
                0 <= k < packet_ids.len() ==> #[trigger] after.outgoing[start + k] == rtp_packet(
                    SenderState {
                        sequence_number: ((wire.sender.sequence_number + k) % 0x1_0000) as u16,
                        ..wire.sender
                    },
                    frame,
                    packet_ids[k],
                    wire.sender.count_of(frame),
                    wire.sender.max_payload(),
                )
        }),
    decreases packet_ids.len(),
{
    let after = wire.with_packets(frame, packet_ids, retransmission);
    let start = wire.outgoing.len() as int;
    if packet_ids.len() == 0 {
        assert(after.outgoing.take(start) =~= wire.outgoing);
    } else {
        let front = packet_ids.drop_last();
        let before = wire.with_packets(frame, front, retransmission);
        lemma_packets_in_order(wire, frame, front, retransmission);
        lemma_packets_keep_the_sender(wire, frame, front, retransmission);
        assert(after.outgoing.take(start) =~= before.outgoing.take(start));
        assert forall|k: int| 0 <= k < packet_ids.len() implies #[trigger] after.outgoing[start + k]
            == rtp_packet(
            SenderState {
                sequence_number: ((wire.sender.sequence_number + k) % 0x1_0000) as u16,
                ..wire.sender
            },
            frame,
            packet_ids[k],
            wire.sender.count_of(frame),
            wire.sender.max_payload(),
        ) by {
            if k < front.len() {
                assert(after.outgoing[start + k] == before.outgoing[start + k]);
                assert(front[k] == packet_ids[k]);
            }
        }
    }
}

/// What a receiver reads in the packet with this ID, when others of the request went before it.
spec fn reads_as_packet(
    wire: Wire,
    frame: StoredFrame,
    packet: Seq<u8>,
    packet_id: int,
    before: int,
) -> bool {
    let read = read_packet(packet);
    let count = wire.sender.count_of(frame);
    let size = wire.sender.max_payload();
    let data = frame.encrypted_data@;
    &&& packet.len() >= 19
    &&& read.packet_id == packet_id
    &&& read.max_packet_id == count - 1
    &&& read.marker <==> packet_id == count - 1
    &&& read.sequence_number == (wire.sender.sequence_number + before) % 0x1_0000
    &&& read.frame_id == frame.frame_id % 256
    &&& read.timestamp == frame.rtp_timestamp
    &&& read.ssrc == wire.sender.sender_ssrc
    &&& read.keyframe == frame.keyframe
    &&& packet.len() - 19 == if packet_id == count - 1 {
        data.len() - packet_id * size
    } else {
        size
    }
    &&& forall|i: int|
        0 <= i < packet.len() - 19 ==> #[trigger] packet[19 + i] == data[packet_id * size + i]
}

proof fn lemma_requested_packets_read_back(
    wire: Wire,
    frame: StoredFrame,
    packet_ids: Seq<int>,
    retransmission: bool,
    k: int,
)
    requires
        wire.sender.well_formed(),
        wire.sender.payload_type < 128,
        wire.sender.count_of(frame) <= 0x1_0000,
        0 <= k < packet_ids.len(),
        0 <= packet_ids[k] < wire.sender.count_of(frame),
    ensures
        reads_as_packet(
            wire,
            frame,
            wire.with_packets(frame, packet_ids, retransmission).outgoing[wire.outgoing.len() + k],
            packet_ids[k],
            k,
        ),
{
    let count = wire.sender.count_of(frame);
    let size = wire.sender.max_payload();
    let data = frame.encrypted_data@;
    let packet_id = packet_ids[k];
    let packet = wire.with_packets(frame, packet_ids, retransmission).outgoing[wire.outgoing.len()
        + k];
    lemma_packets_in_order(wire, frame, packet_ids, retransmission);
    lemma_packet_bounds(data.len() as int, size, packet_id);
    let sender = SenderState {
        sequence_number: ((wire.sender.sequence_number + k) % 0x1_0000) as u16,
        ..wire.sender
    };
    assert(packet == rtp_packet(sender, frame, packet_id, count, size));
    lemma_headers_read_back(sender, frame, packet_id, count, size);
    let read = read_packet(packet);
    assert(packet.len() >= 19);
    assert forall|i: int| 0 <= i < packet.len() - 19 implies #[trigger] packet[19 + i]
        == data[packet_id * size + i] by {
        assert(read.payload[i] == packet[19 + i]);
    }
}

/// A receiver that reads the packets by their header fields recovers the frame: the packets come
/// in the order of their IDs, with rising sequence numbers, each says where it belongs and how
/// many there are, and every byte of the frame is in the packet that its place calls for.
pub proof fn lemma_receivers_recover_the_frame(
    wire: Wire,
    frame: StoredFrame,
    retransmission: bool,
    sent: Seq<Seq<u8>>,
)
    requires
        wire.sender.well_formed(),
        wire.sender.payload_type < 128,
        wire.sender.count_of(frame) <= 0x1_0000,
        wire.with_request(frame, None, retransmission).outgoing == wire.outgoing + sent,
    ensures
        forall|k: int|
            0 <= k < sent.len() ==> read_packet(#[trigger] sent[k]).packet_id == k,
        forall|k: int|
            0 <= k < sent.len() ==> read_packet(#[trigger] sent[k]).max_packet_id == sent.len() - 1,
        forall|k: int|
            0 <= k < sent.len() ==> (read_packet(#[trigger] sent[k]).marker <==> k == sent.len()
                - 1),
        forall|k: int|
            0 <= k < sent.len() ==> read_packet(#[trigger] sent[k]).sequence_number == (
            wire.sender.sequence_number + k) % 0x1_0000,
        forall|k: int|
            0 <= k < sent.len() ==> {
                let read = read_packet(#[trigger] sent[k]);
                &&& read.frame_id == frame.frame_id % 256
                &&& read.timestamp == frame.rtp_timestamp
                &&& read.ssrc == wire.sender.sender_ssrc
                &&& read.keyframe == frame.keyframe
            },
        forall|k: int, i: int|
            #![trigger sent[k][19 + i]]
            0 <= k < sent.len() && 0 <= i < sent[k].len() - 19 ==> sent[k][19 + i]
                == frame.encrypted_data@[be16_at(sent[k], 14) * wire.sender.max_payload() + i],
        sent.len() > 0,
        sent.last().len() - 19 == frame.encrypted_data@.len() - (sent.len() - 1)
            * wire.sender.max_payload(),
{
    let count = wire.sender.count_of(frame);
    let size = wire.sender.max_payload();
    let data = frame.encrypted_data@;
    let ids = requested_packets(None, count);
    let after = wire.with_packets(frame, ids, retransmission);
    let start = wire.outgoing.len() as int;
    lemma_packets_keep_the_sender(wire, frame, ids, retransmission);
    assert(sent.len() == count);
    assert forall|k: int| 0 <= k < sent.len() implies reads_as_packet(
        wire,
        frame,
        #[trigger] sent[k],
        k,
        k,
    ) by {
        assert(ids[k] == k);
        lemma_requested_packets_read_back(wire, frame, ids, retransmission, k);
        assert(sent[k] == after.outgoing[start + k]);
    }
    assert(reads_as_packet(wire, frame, sent[count - 1], count - 1, count - 1));
    assert forall|k: int, i: int|
        #![trigger sent[k][19 + i]]
        0 <= k < sent.len() && 0 <= i < sent[k].len() - 19 implies sent[k][19 + i] == data[be16_at(
        sent[k],
        14,
    ) * size + i] by {
        assert(reads_as_packet(wire, frame, sent[k], k, k));
        assert(be16_at(sent[k], 14) == k);
    }
}

/// Every byte of a frame is in one of its packets: in the one that its place calls for.
pub proof fn lemma_every_byte_is_sent(
    wire: Wire,
    frame: StoredFrame,
    retransmission: bool,
    sent: Seq<Seq<u8>>,
    place: int,
)
    requires
        wire.sender.well_formed(),
        wire.sender.payload_type < 128,
        wire.sender.count_of(frame) <= 0x1_0000,
        wire.with_request(frame, None, retransmission).outgoing == wire.outgoing + sent,
        0 <= place < frame.encrypted_data@.len(),
    ensures
        ({
            let k = place / wire.sender.max_payload();
            let i = place % wire.sender.max_payload();
            &&& 0 <= k < sent.len()
            &&& be16_at(sent[k], 14) == k
            &&& 19 + i < sent[k].len()
            &&& sent[k][19 + i] == frame.encrypted_data@[place]
        }),
{
    let count = wire.sender.count_of(frame);
    let size = wire.sender.max_payload();
    let data = frame.encrypted_data@;
    let ids = requested_packets(None, count);
    let k = place / size;
    lemma_packets_keep_the_sender(wire, frame, ids, retransmission);
    lemma_place_in_packets(data.len() as int, size, place);
    lemma_packet_bounds(data.len() as int, size, k);
    assert(ids[k] == k);
    lemma_requested_packets_read_back(wire, frame, ids, retransmission, k);
    assert(sent[k] == (wire.outgoing + sent)[wire.outgoing.len() + k]);
    assert(reads_as_packet(wire, frame, sent[k], k, k));
    assert(sent[k][19 + place % size] == data[k * size + place % size]);
}

proof fn lemma_place_in_packets(length: int, size: int, place: int)
    requires
        0 <= place < length,
        0 < size,
    ensures
        0 <= place / size < packets_for(length, size),
        0 <= place % size < size,
        place / size * size + place % size == place,
{
    let full = (length + size - 1) / size;
    let k = place / size;
    assert(0 <= k && k < full && k * size + place % size == place && 0 <= place % size < size)
        by (nonlinear_arith)
        requires
            full == (length + size - 1) / size,
            k == place / size,
            0 <= place < length,
            0 < size,
    ;
}

/// A request for one packet puts out that packet and no other: a receiver reads in it the ID that
/// it asked for. A packet that the frame does not have is not put out.
pub proof fn lemma_receivers_get_the_packet_they_ask_for(
    wire: Wire,
    frame: StoredFrame,
    packet_id: u16,
    retransmission: bool,
)
    requires
        wire.sender.well_formed(),
        wire.sender.payload_type < 128,
        wire.sender.count_of(frame) <= 0x1_0000,
        packet_id != 0xffff,
    ensures
        ({
            let after = wire.with_request(frame, Some(packet_id), retransmission).outgoing;
            &&& after.len() == wire.outgoing.len() + if packet_id < wire.sender.count_of(frame) {
                1int
            } else {
                0
            }
            &&& after.take(wire.outgoing.len() as int) == wire.outgoing
            &&& packet_id < wire.sender.count_of(frame) ==> {
                &&& read_packet(after.last()).packet_id == packet_id
                &&& read_packet(after.last()).frame_id == frame.frame_id % 256
                &&& read_packet(after.last()).sequence_number == wire.sender.sequence_number
                &&& forall|i: int|
                    0 <= i < after.last().len() - 19 ==> #[trigger] after.last()[19 + i]
                        == frame.encrypted_data@[packet_id * wire.sender.max_payload() + i]
            }
        }),
{
    let count = wire.sender.count_of(frame);
    let ids = requested_packets(Some(packet_id), count);
    let after = wire.with_packets(frame, ids, retransmission).outgoing;
    assert(after.len() == wire.outgoing.len() + ids.len() && after.take(wire.outgoing.len() as int)
        == wire.outgoing) by {
        lemma_packets_in_order(wire, frame, ids, retransmission);
    }
    if packet_id < count {
        assert(ids[0] == packet_id);
        lemma_requested_packets_read_back(wire, frame, ids, retransmission, 0);
        assert(after[wire.outgoing.len() as int + 0] == after.last());
        assert(reads_as_packet(wire, frame, after.last(), packet_id as int, 0));
    }
}

/// The packet ID of all ones asks for the whole frame.
pub proof fn lemma_all_ones_ask_for_the_frame(wire: Wire, frame: StoredFrame, retransmission: bool)
    ensures
        wire.with_request(frame, Some(0xffff), retransmission) == wire.with_request(
            frame,
            None,
            retransmission,
        ),
{
}

/// A keyframe builds on itself and any other frame on the one before it, and a receiver that
/// applies the stream's key to what the packets carry gets the encoded frame back.
pub proof fn lemma_stored_frames_decrypt(
    sender: SenderState,
    frame: StoredFrame,
    rtp_timestamp: u32,
    keyframe: bool,
    data: Seq<u8>,
    timings: FrameTimings,
    synthetic_phase: Option<SyntheticPhase>,
    now: u64,
)
    requires
        sender.stores_as(frame, rtp_timestamp, keyframe, data, timings, synthetic_phase, now),
    ensures
        encrypted(
            frame.encrypted_data@,
            frame.frame_id,
            sender.aes_key@,
            sender.aes_iv_mask@,
        ) == data,
        frame.frame_id == sender.next_frame_id,
        frame.rtp_timestamp == rtp_timestamp,
        frame.keyframe == keyframe,
        keyframe ==> frame.referenced_frame_id == frame.frame_id,
        !keyframe && frame.frame_id > 0 ==> frame.referenced_frame_id == frame.frame_id - 1,
        sender.count_of(frame) == packets_for(data.len() as int, sender.max_payload()),
{
    lemma_frame_encryption_round_trips(
        data,
        sender.next_frame_id,
        sender.aes_key@,
        sender.aes_iv_mask@,
    );
}

/// A sender report is one RTCP packet of the length that it states, and a receiver reads in it the
/// stream, the wall clock, the media clock, and what the stream has sent so far.
pub proof fn lemma_sender_reports_read_back(sender: SenderState, rtp_timestamp: u32, ntp: u64)
    ensures
        ({
            let report = sender_report(sender, rtp_timestamp, ntp);
            &&& report[0] == 0x80
            &&& report[1] == 200
            &&& report.len() == 4 * (be16_at(report, 2) + 1)
            &&& report.len() == 28
            &&& be32_at(report, 4) == sender.sender_ssrc
            &&& be32_at(report, 8) * 0x1_0000_0000 + be32_at(report, 12) == ntp
            &&& be32_at(report, 16) == rtp_timestamp
            &&& be32_at(report, 20) == sender.packet_count
            &&& be32_at(report, 24) == sender.octet_count
        }),
{
    let report = sender_report(sender, rtp_timestamp, ntp);
    let high = (ntp / 0x1_0000_0000) as u32;
    let low = (ntp % 0x1_0000_0000) as u32;
    assert(report.len() == 28);
    assert(report[0] == 0x80 && report[1] == 200 && report[2] == 0 && report[3] == 6);
    assert(be32_at(report, 4) == sender.sender_ssrc) by {
        assert(report.subrange(4, 8) =~= be32(sender.sender_ssrc));
        lemma_field_of(report, 4, be32(sender.sender_ssrc));
        lemma_be32_round_trip(sender.sender_ssrc);
    }
    assert(be32_at(report, 8) == high) by {
        assert(report.subrange(8, 12) =~= be32(high));
        lemma_field_of(report, 8, be32(high));
        lemma_be32_round_trip(high);
    }
    assert(be32_at(report, 12) == low) by {
        assert(report.subrange(12, 16) =~= be32(low));
        lemma_field_of(report, 12, be32(low));
        lemma_be32_round_trip(low);
    }
    assert(be32_at(report, 16) == rtp_timestamp) by {
        assert(report.subrange(16, 20) =~= be32(rtp_timestamp));
        lemma_field_of(report, 16, be32(rtp_timestamp));
        lemma_be32_round_trip(rtp_timestamp);
    }
    assert(be32_at(report, 20) == sender.packet_count) by {
        assert(report.subrange(20, 24) =~= be32(sender.packet_count));
        lemma_field_of(report, 20, be32(sender.packet_count));
        lemma_be32_round_trip(sender.packet_count);
    }
    assert(be32_at(report, 24) == sender.octet_count) by {
        assert(report.subrange(24, 28) =~= be32(sender.octet_count));
        lemma_field_of(report, 24, be32(sender.octet_count));
        lemma_be32_round_trip(sender.octet_count);
    }
}

/// A sender reports with its first frame, and from there on no sooner than half a second after
/// the report before.
pub proof fn lemma_reports_keep_their_distance(sender: SenderState, now: u64)
    ensures
        sender.last_sender_report is None ==> sender.report_due(now),
        forall|last: u64|
            sender.last_sender_report == Some(last) && last <= now && now - last <= u64::MAX ==> (
            #[trigger] sender.report_due(now) <==> now - last >= 500_000_000),
{
}

/// The history keeps the frame that was sent last, in its place behind the frames before it, and
/// loses the oldest frames only, and only beyond one hundred and twenty.
pub proof fn lemma_the_newest_frames_are_kept(sender: SenderState, frame: StoredFrame)
    ensures
        ({
            let kept = sender.history_with(frame);
            let lost = sender.history.len() + 1 - kept.len();
            &&& kept.last() == frame
            &&& kept.len() == if sender.history.len() < 120 {
                sender.history.len() + 1
            } else {
                120
            }
            &&& forall|i: int|
                0 <= i < kept.len() - 1 ==> #[trigger] kept[i] == sender.history[lost + i]
        }),
{
}

/// How the packets of a frame are spread over time.
#[derive(Clone, Copy, Debug, PartialEq, Eq, Structural)]
pub struct FramePacing {
    pub packets_per_burst: usize,
    /// The pause after a burst, in nanoseconds.
    pub interval: u64,
}

/// How a frame of this many packets is spread. A frame that fits in one burst is not spread, nor is one whose
/// pauses would be shorter than a nanosecond.
pub open spec fn pacing_for(packet_count: int, keyframe: bool, frame_quarter: u64) -> Option<FramePacing> {
    let burst = if keyframe {
        KEYFRAME_PACKETS_PER_BURST
    } else {
        DELTA_PACKETS_PER_BURST
    };
    let breaks = (if packet_count == 0 {
        0
    } else {
        packet_count - 1
    }) / burst as int;
    let window = if frame_quarter < MAX_FRAME_PACING_WINDOW {
        frame_quarter
    } else {
        MAX_FRAME_PACING_WINDOW
    };
    let interval = window as int / (if breaks > u32::MAX {
        u32::MAX as int
    } else {
        breaks
    });
    if breaks == 0 || interval == 0 {
        None
    } else {
        Some(FramePacing { packets_per_burst: burst, interval: interval as u64 })
    }
}

/// Spreads the packets of a frame over a quarter of its display time, but over five milliseconds
/// at most.
pub fn frame_pacing(packet_count: usize, keyframe: bool, frame_quarter: u64) -> (pacing: Option<FramePacing>)
    ensures
        pacing == pacing_for(packet_count as int, keyframe, frame_quarter),
        pacing matches Some(pacing) ==> pacing.packets_per_burst > 0 && 0 < pacing.interval
            <= MAX_FRAME_PACING_WINDOW,
{
    let burst: usize = if keyframe {
        KEYFRAME_PACKETS_PER_BURST
    } else {
        DELTA_PACKETS_PER_BURST
    };
    let breaks: usize = packet_count.saturating_sub(1) / burst;
    if breaks == 0 {
        return None;
    }
    let window: u64 = if frame_quarter < MAX_FRAME_PACING_WINDOW {
        frame_quarter
    } else {
        MAX_FRAME_PACING_WINDOW
    };
    let divisor: u64 = if breaks as u64 > u32::MAX as u64 {
        u32::MAX as u64
    } else {
        breaks as u64
    };
    let interval: u64 = window / divisor;
    assert(interval <= window) by (nonlinear_arith)
        requires
            interval == window as int / divisor as int,
            divisor > 0,
    ;
    if interval == 0 {
        None
    } else {
        Some(FramePacing { packets_per_burst: burst, interval })
    }
}

/// Whether the sender rests after this packet, counted from zero, of `packet_count`.
pub open spec fn rests_after(position: int, packet_count: int, pacing: Option<FramePacing>) -> bool {
    match pacing {
        Some(pacing) => position + 1 < packet_count && (position + 1)
            % pacing.packets_per_burst as int == 0,
        None => false,
    }
}

/// The pause after this packet, counted from zero, of `packet_count`: none, except between bursts.
pub fn pause_after(position: usize, packet_count: usize, pacing: Option<FramePacing>) -> (pause: u64)
    requires
        position < packet_count,
        pacing matches Some(pacing) ==> pacing.packets_per_burst > 0,
    ensures
        pause == if rests_after(position as int, packet_count as int, pacing) {
            (pacing->0).interval
        } else {
            0
        },
{
    match pacing {
        Some(pacing) => if position + 1 < packet_count && (position + 1) % pacing.packets_per_burst
            == 0 {
            pacing.interval
        } else {
            0
        },
        None => 0,
    }
}

/// The pauses in front of this packet, together.
pub open spec fn pauses_before(position: int, packet_count: int, pacing: Option<FramePacing>) -> int
    decreases position,
{
    if position <= 0 {
        0
    } else {
        pauses_before(position - 1, packet_count, pacing) + if rests_after(
            position - 1,
            packet_count,
            pacing,
        ) {
            (pacing->0).interval as int
        } else {
            0
        }
    }
}

/// The pauses of a frame, together: one after each burst but the last.
pub open spec fn pacing_total(packet_count: int, pacing: Option<FramePacing>) -> int {
    match pacing {
        Some(pacing) => (packet_count - 1) / pacing.packets_per_burst as int * pacing.interval,
        None => 0,
    }
}

proof fn lemma_pauses_before(position: int, packet_count: int, pacing: FramePacing)
    requires
        0 <= position < packet_count,
        pacing.packets_per_burst > 0,
    ensures
        pauses_before(position, packet_count, Some(pacing)) == position
            / pacing.packets_per_burst as int * pacing.interval,
    decreases position,
{
    let b = pacing.packets_per_burst as int;
    let interval = pacing.interval;
    if position == 0 {
        assert(0int / b * interval == 0) by (nonlinear_arith)
            requires
                b > 0,
        ;
    } else {
        lemma_pauses_before(position - 1, packet_count, pacing);
        let before = (position - 1) / b;
        let after = position / b;
        assert(after == if position % b == 0 {
            before + 1
        } else {
            before
        }) by (nonlinear_arith)
            requires
                b > 0,
                position > 0,
                before == (position - 1) / b,
                after == position / b,
        ;
        assert((before + 1) * interval == before * interval + interval) by (nonlinear_arith);
    }
}

/// The pauses between the packets of a frame add up to the total that the sender accounts for.
pub proof fn lemma_pauses_add_up(packet_count: int, pacing: FramePacing)
    requires
        0 < packet_count,
        pacing.packets_per_burst > 0,
    ensures
        pauses_before(packet_count, packet_count, Some(pacing)) == pacing_total(
            packet_count,
            Some(pacing),
        ),
{
    lemma_pauses_before(packet_count - 1, packet_count, pacing);
}

/// A frame that fits in one burst, of twenty-four packets for a keyframe and of sixteen for any
/// other, is not spread. The pauses of any other frame together last a quarter of the frame's
/// display time, or five milliseconds where that is shorter, to within one nanosecond for each
/// pause.
pub proof fn lemma_pauses_fill_the_window(packet_count: int, keyframe: bool, frame_quarter: u64)
    requires
        0 <= packet_count <= 0x1_0000,
    ensures
        ({
            let pacing = pacing_for(packet_count, keyframe, frame_quarter);
            let burst: int = if keyframe {
                24
            } else {
                16
            };
            let window: int = if frame_quarter < 5_000_000 {
                frame_quarter as int
            } else {
                5_000_000
            };
            &&& packet_count <= burst ==> pacing is None
            &&& packet_count > burst && window >= packet_count ==> pacing is Some
            &&& pacing matches Some(pacing) ==> pacing.packets_per_burst == burst
            &&& pacing is Some ==> window - packet_count < pacing_total(packet_count, pacing)
                <= window
        }),
{
    let burst: int = if keyframe {
        24
    } else {
        16
    };
    let window: int = if frame_quarter < 5_000_000 {
        frame_quarter as int
    } else {
        5_000_000
    };
    if packet_count > burst {
        let breaks = (packet_count - 1) / burst;
        let interval = window / breaks;
        assert(window - breaks < breaks * interval <= window && (window >= breaks ==> interval >= 1))
            by (nonlinear_arith)
            requires
                breaks > 0,
                window >= 0,
                interval == window / breaks,
        ;
    }
}

/// The bytes of two groups of frames are the bytes of the groups together.
pub proof fn lemma_frame_bytes_add(first: Seq<StoredFrame>, second: Seq<StoredFrame>)
    ensures
        frame_bytes(first + second) == frame_bytes(first) + frame_bytes(second),
        frame_bytes(first) >= 0,
        frame_bytes(second) >= 0,
    decreases second.len(),
{
    if second.len() == 0 {
        assert(first + second =~= first);
        lemma_frame_bytes_not_negative(first);
    } else {
        lemma_frame_bytes_add(first, second.drop_last());
        assert((first + second).drop_last() =~= first + second.drop_last());
    }
}

proof fn lemma_frame_bytes_not_negative(frames: Seq<StoredFrame>)
    ensures
        frame_bytes(frames) >= 0,
    decreases frames.len(),
{
    if frames.len() > 0 {
        lemma_frame_bytes_not_negative(frames.drop_last());
    }
}

/// The bytes of one frame are those that it was encrypted to.
pub proof fn lemma_frame_bytes_one(frame: StoredFrame)
    ensures
        frame_bytes(seq![frame]) == frame.encrypted_data@.len(),
{
    assert(seq![frame].drop_last() =~= Seq::<StoredFrame>::empty());
    assert(frame_bytes(Seq::<StoredFrame>::empty()) == 0);
}

/// The bytes of the first frames are no more than the bytes of all of them.
proof fn lemma_frame_bytes_prefix(frames: Seq<StoredFrame>, count: int)
    requires
        0 <= count <= frames.len(),
    ensures
        frame_bytes(frames.take(count)) <= frame_bytes(frames),
        count < frames.len() ==> frame_bytes(frames.take(count + 1)) == frame_bytes(
            frames.take(count),
        ) + frames[count].encrypted_data@.len(),
{
    lemma_frame_bytes_add(frames.take(count), frames.skip(count));
    assert(frames.take(count) + frames.skip(count) =~= frames);
    if count < frames.len() {
        assert(frames.take(count + 1).drop_last() =~= frames.take(count));
    }
}

impl MirrorCounters {
    /// The counters with the frames and bytes that are in flight now.
    pub open spec fn with_in_flight(self, history: Seq<StoredFrame>) -> MirrorCounters {
        MirrorCounters {
            current_in_flight_frames: history.len() as u64,
            max_in_flight_frames: larger(self.max_in_flight_frames, history.len() as u64),
            current_in_flight_bytes: frame_bytes(history) as u64,
            max_in_flight_bytes: larger(self.max_in_flight_bytes, frame_bytes(history) as u64),
            ..self
        }
    }

    /// The counters with the pauses between the packets of one more frame.
    pub open spec fn with_pauses(self, nanos: int) -> MirrorCounters {
        if nanos == 0 {
            self
        } else {
            MirrorCounters {
                pacing_sleep_micros: self.pacing_sleep_micros.wrapping_add(micros_of(nanos)),
                max_pacing_sleep_micros: larger(self.max_pacing_sleep_micros, micros_of(nanos)),
                ..self
            }
        }
    }

    /// The counters with one more frame sent.
    pub open spec fn with_frame(self, bytes: u64, keyframe: bool) -> MirrorCounters {
        MirrorCounters {
            frames: self.frames.wrapping_add(1),
            encoded_bytes: self.encoded_bytes.wrapping_add(bytes),
            max_frame_bytes: larger(self.max_frame_bytes, bytes),
            keyframes: if keyframe {
                self.keyframes.wrapping_add(1)
            } else {
                self.keyframes
            },
            ..self
        }
    }
}

/// What the counters say of a frame and of the pauses between its packets: one frame more, its
/// bytes, and the longest of each.
pub proof fn lemma_frames_are_counted(counters: MirrorCounters, bytes: u64, keyframe: bool, nanos: int)
    requires
        0 < nanos,
    ensures
        ({
            let after = counters.with_frame(bytes, keyframe);
            &&& after.frames == counters.frames.wrapping_add(1)
            &&& after.encoded_bytes == counters.encoded_bytes.wrapping_add(bytes)
            &&& after.max_frame_bytes >= bytes
            &&& after.max_frame_bytes >= counters.max_frame_bytes
            &&& after.max_frame_bytes == bytes || after.max_frame_bytes == counters.max_frame_bytes
            &&& keyframe ==> after.keyframes == counters.keyframes.wrapping_add(1)
            &&& !keyframe ==> after.keyframes == counters.keyframes
        }),
        ({
            let after = counters.with_pauses(nanos);
            &&& after.pacing_sleep_micros == counters.pacing_sleep_micros.wrapping_add(
                micros_of(nanos),
            )
            &&& after.max_pacing_sleep_micros >= micros_of(nanos)
            &&& after.max_pacing_sleep_micros >= counters.max_pacing_sleep_micros
            &&& after.max_pacing_sleep_micros == micros_of(nanos) || after.max_pacing_sleep_micros
                == counters.max_pacing_sleep_micros
        }),
        counters.with_pauses(0) == counters,
        nanos <= u64::MAX ==> micros_of(nanos) * 1000 <= nanos < (micros_of(nanos) + 1) * 1000,
{
}

impl SenderState {
    /// Whether a sender report goes out with the next frame.
    pub open spec fn report_due(self, now: u64) -> bool {
        match self.last_sender_report {
            None => true,
            Some(last) => span(last, now) >= RTCP_REPORT_INTERVAL,
        }
    }

    /// Whether this is what the sender makes of a frame that comes next.
    pub open spec fn stores_as(
        self,
        frame: StoredFrame,
        rtp_timestamp: u32,
        keyframe: bool,
        data: Seq<u8>,
        timings: FrameTimings,
        synthetic_phase: Option<SyntheticPhase>,
        now: u64,
    ) -> bool {
        &&& frame.frame_id == self.next_frame_id
        &&& frame.referenced_frame_id == if keyframe {
            self.next_frame_id
        } else {
            self.next_frame_id.wrapping_sub(1)
        }
        &&& frame.rtp_timestamp == rtp_timestamp
        &&& frame.keyframe == keyframe
        &&& frame.encrypted_data@ == encrypted(
            data,
            self.next_frame_id,
            self.aes_key@,
            self.aes_iv_mask@,
        )
        &&& frame.pipeline_started_at == timings.pipeline_started_at
        &&& frame.sent_at == now
        &&& frame.capture_age_micros == timings.capture_age_micros
        &&& frame.queue_wait_micros == timings.queue_wait_micros
        &&& frame.encode_micros == timings.encode_micros
        &&& frame.prepare_micros == timings.prepare_micros
        &&& frame.sender_lock_wait_micros == timings.sender_lock_wait_micros
        &&& frame.send_micros == 0
        &&& frame.in_flight_frames == self.history.len() + 1
        &&& frame.in_flight_bytes == if frame_bytes(self.history) + data.len() <= u64::MAX {
            frame_bytes(self.history) + data.len()
        } else {
            u64::MAX as int
        }
        &&& frame.synthetic_phase == synthetic_phase
    }

    /// The history with one more frame at its end: only the newest frames are kept.
    pub open spec fn history_with(self, frame: StoredFrame) -> Seq<StoredFrame> {
        let all = self.history.push(frame);
        if all.len() > MAX_UNACKED_FRAMES {
            all.skip(all.len() - MAX_UNACKED_FRAMES)
        } else {
            all
        }
    }
}

/// The RTP sender of one stream.
pub struct CastRtpSender {
    pub max_packet_size: usize,
    pub sender_ssrc: u32,
    pub receiver_ssrc: u32,
    pub aes_key: [u8; 16],
    pub aes_iv_mask: [u8; 16],
    pub sequence_number: u16,
    pub next_frame_id: u32,
    pub history: VecDeque<StoredFrame>,
    pub packet_count: u32,
    pub octet_count: u32,
    pub last_sender_report: Option<u64>,
    pub rate_control_target: usize,
    pub fps: u32,
    /// A quarter of the display time of one frame, in nanoseconds.
    pub frame_quarter: u64,
    /// In nanoseconds.
    pub target_delay: u128,
    pub payload_type: u8,
    pub window: RateWindow,
}

impl View for CastRtpSender {
    type V = SenderState;

    open spec fn view(&self) -> SenderState {
        SenderState {
            max_packet_size: self.max_packet_size,
            sender_ssrc: self.sender_ssrc,
            receiver_ssrc: self.receiver_ssrc,
            aes_key: self.aes_key,
            aes_iv_mask: self.aes_iv_mask,
            sequence_number: self.sequence_number,
            next_frame_id: self.next_frame_id,
            history: self.history@,
            packet_count: self.packet_count,
            octet_count: self.octet_count,
            last_sender_report: self.last_sender_report,
            rate_control_target: self.rate_control_target,
            fps: self.fps,
            frame_quarter: self.frame_quarter,
            target_delay: self.target_delay,
            payload_type: self.payload_type,
            window: self.window,
        }
    }
}

/// What tells one stream from another.
#[derive(Clone, Copy)]
pub struct StreamSetup {
    pub ipv4: bool,
    pub sender_ssrc: u32,
    pub receiver_ssrc: u32,
    pub aes_key: [u8; 16],
    pub aes_iv_mask: [u8; 16],
    pub rate_control_target: usize,
    pub fps: u32,
    /// A quarter of the display time of one frame, in nanoseconds.
    pub frame_quarter: u64,
    /// In nanoseconds.
    pub target_delay: u128,
    pub payload_type: u8,
}

/// A sender that has sent nothing yet.
pub open spec fn fresh_sender(setup: StreamSetup, sequence_number: u16, now: u64) -> SenderState {
    SenderState {
        max_packet_size: if setup.ipv4 {
            IPV4_PACKET_SIZE
        } else {
            IPV6_PACKET_SIZE
        },
        sender_ssrc: setup.sender_ssrc,
        receiver_ssrc: setup.receiver_ssrc,
        aes_key: setup.aes_key,
        aes_iv_mask: setup.aes_iv_mask,
        sequence_number,
        next_frame_id: 0,
        history: Seq::empty(),
        packet_count: 0,
        octet_count: 0,
        last_sender_report: None,
        rate_control_target: setup.rate_control_target,
        fps: setup.fps,
        frame_quarter: setup.frame_quarter,
        target_delay: setup.target_delay,
        payload_type: setup.payload_type,
        window: empty_window(now),
    }
}

/// A sender starts with its first frame, knows of none before it, and sends packets that fill a
/// datagram of an Ethernet frame together with the headers of its version.
pub proof fn lemma_senders_start_empty(setup: StreamSetup, sequence_number: u16, now: u64)
    ensures
        ({
            let sender = fresh_sender(setup, sequence_number, now);
            &&& sender.next_frame_id == 0
            &&& sender.history.len() == 0
            &&& sender.packet_count == 0
            &&& sender.octet_count == 0
            &&& sender.last_sender_report is None
            &&& sender.sequence_number == sequence_number
            &&& sender.max_packet_size + 8 + (if setup.ipv4 {
                20int
            } else {
                40
            }) == 1500
            &&& sender.sender_ssrc == setup.sender_ssrc
            &&& sender.receiver_ssrc == setup.receiver_ssrc
            &&& sender.aes_key == setup.aes_key
            &&& sender.aes_iv_mask == setup.aes_iv_mask
            &&& sender.payload_type == setup.payload_type
        }),
{
}

/// One frame on its way: the packets to put on the wire, in order, and the frame to keep until it
/// is acknowledged.
pub struct Transmission {
    pub frame: StoredFrame,
    pub packets: Vec<Vec<u8>>,
    pub pacing: Option<FramePacing>,
}

impl CastRtpSender {
    pub open spec fn well_formed(&self) -> bool {
        self@.well_formed()
    }

    /// A sender whose sequence numbers start at a random one.
    pub fn new(setup: StreamSetup, now: u64) -> (result: Result<Self, RandomUnavailable>)
        ensures
            result matches Ok(sender) ==> sender.well_formed() && sender@ == fresh_sender(
                setup,
                sender.sequence_number,
                now,
            ),
    {
        match random_bytes(2) {
            Ok(bytes) => {
                let sequence_number: u16 = bytes[0] as u16 * 256 + bytes[1] as u16;
                Ok(Self::with_sequence_number(setup, sequence_number, now))
            },
            Err(error) => Err(error),
        }
    }

    /// A sender whose sequence numbers start at the given one.
    pub fn with_sequence_number(setup: StreamSetup, sequence_number: u16, now: u64) -> (sender: Self)
        ensures
            sender.well_formed(),
            sender@ == fresh_sender(setup, sequence_number, now),
    {
        let history: VecDeque<StoredFrame> = VecDeque::new();
        CastRtpSender {
            max_packet_size: if setup.ipv4 {
                IPV4_PACKET_SIZE
            } else {
                IPV6_PACKET_SIZE
            },
            sender_ssrc: setup.sender_ssrc,
            receiver_ssrc: setup.receiver_ssrc,
            aes_key: setup.aes_key,
            aes_iv_mask: setup.aes_iv_mask,
            sequence_number,
            next_frame_id: 0,
            history,
            packet_count: 0,
            octet_count: 0,
            last_sender_report: None,
            rate_control_target: setup.rate_control_target,
            fps: setup.fps,
            frame_quarter: setup.frame_quarter,
            target_delay: setup.target_delay,
            payload_type: setup.payload_type,
            window: RateWindow {
                started: now,
                acked_bytes: 0,
                nacks: 0,
                max_latency_micros: 0,
                max_in_flight_frames: 0,
                max_in_flight_bytes: 0,
            },
        }
    }

    /// Builds one RTP packet of a frame and takes the next sequence number for it.
    pub fn packetize(
        &mut self,
        frame: &StoredFrame,
        packet_id: usize,
        packet_count: usize,
        max_payload: usize,
    ) -> (packet: Vec<u8>)
        requires
            packet_id < packet_count <= 0x1_0000,
            packet_id * max_payload <= frame.encrypted_data@.len(),
        ensures
            packet@ == rtp_packet(
                old(self)@,
                *frame,
                packet_id as int,
                packet_count as int,
                max_payload as int,
            ),
            final(self)@ == (SenderState {
                sequence_number: old(self).sequence_number.wrapping_add(1),
                ..old(self)@
            }),
    {
        let packet: Vec<u8> = build_packet(
            frame,
            packet_id,
            packet_count,
            max_payload,
            self.payload_type,
            self.sequence_number,
            self.sender_ssrc,
            Ghost(self@),
        );
        self.sequence_number = self.sequence_number.wrapping_add(1);
        packet
    }

    /// Puts out the packets of a frame that a request asks for, and counts them.
    pub(crate) fn put_out(
        &mut self,
        frame: &StoredFrame,
        retransmission: bool,
        only_packet: Option<u16>,
        counters: &mut MirrorCounters,
        outgoing: &mut Vec<Vec<u8>>,
    )
        requires
            old(self)@.max_payload() > 0,
            old(self)@.count_of(*frame) <= u16::MAX,
        ensures
            (Wire {
                sender: final(self)@,
                counters: *final(counters),
                outgoing: packets_of(final(outgoing)@),
            }) == (Wire {
                sender: old(self)@,
                counters: *old(counters),
                outgoing: packets_of(old(outgoing)@),
            }).with_request(*frame, only_packet, retransmission),
    {
        let max_payload: usize = self.max_packet_size - PACKET_OVERHEAD;
        let packet_count: usize = packet_count_for(frame.encrypted_data.len(), max_payload);
        let ghost start = Wire {
            sender: self@,
            counters: *counters,
            outgoing: packets_of(outgoing@),
        };
        let first: usize;
        let last: usize;
        match only_packet {
            Some(packet_id) if packet_id != u16::MAX => {
                if packet_id as usize >= packet_count {
                    assert(requested_packets(only_packet, packet_count as int) =~= Seq::empty());
                    return ;
                }
                first = packet_id as usize;
                last = packet_id as usize + 1;
            },
            _ => {
                first = 0;
                last = packet_count;
            },
        }
        let ghost requested = requested_packets(only_packet, packet_count as int);
        assert(requested =~= Seq::new((last - first) as nat, |i: int| first + i));
        let mut packet_id: usize = first;
        assert(requested.take(0) =~= Seq::empty());
        while packet_id < last
            invariant
                first <= packet_id <= last <= packet_count,
                requested == Seq::new((last - first) as nat, |i: int| first + i),
                start.sender.max_payload() == max_payload,
                0 < max_payload,
                packet_count == start.sender.count_of(*frame),
                packet_count <= u16::MAX,
                self@ == (SenderState {
                    sequence_number: self@.sequence_number,
                    packet_count: self@.packet_count,
                    octet_count: self@.octet_count,
                    ..start.sender
                }),
                (Wire { sender: self@, counters: *counters, outgoing: packets_of(outgoing@) })
                    == start.with_packets(
                    *frame,
                    requested.take(packet_id - first),
                    retransmission,
                ),
            decreases last - packet_id,
        {
            let ghost before = Wire {
                sender: self@,
                counters: *counters,
                outgoing: packets_of(outgoing@),
            };
            proof {
                lemma_packet_bounds(
                    frame.encrypted_data@.len() as int,
                    max_payload as int,
                    packet_id as int,
                );
            }
            let packet: Vec<u8> = self.packetize(frame, packet_id, packet_count, max_payload);
            self.packet_count = self.packet_count.wrapping_add(1);
            self.octet_count = self.octet_count.wrapping_add(
                (packet.len() - RTP_HEADER_BYTES) as u32,
            );
            counters.rtp_packets = counters.rtp_packets.wrapping_add(1);
            counters.synthetic_phase_packets.count(frame.synthetic_phase);
            if retransmission {
                counters.retransmissions = counters.retransmissions.wrapping_add(1);
                counters.synthetic_phase_retransmissions.count(frame.synthetic_phase);
            }
            let ghost bytes = packet@;
            let ghost sent = outgoing@;
            outgoing.push(packet);
            proof {
                assert(packets_of(outgoing@) =~= packets_of(sent).push(bytes));
                let ids = requested.take(packet_id - first);
                assert(requested.take(packet_id + 1 - first).drop_last() =~= ids);
                assert(requested.take(packet_id + 1 - first).last() == packet_id);
                assert((Wire {
                    sender: self@,
                    counters: *counters,
                    outgoing: packets_of(outgoing@),
                }) =~= before.with_packet(*frame, packet_id as int, retransmission));
            }
            packet_id = packet_id + 1;
        }
        assert(requested.take(last - first) =~= requested);
    }

    /// The sender report that goes out before a frame, where one is due.
    pub fn take_sender_report(&mut self, rtp_timestamp: u32, now: u64, ntp: u64) -> (report: Option<
        Vec<u8>,
    >)
        ensures
            report is Some <==> old(self)@.report_due(now),
            report matches Some(packet) ==> packet@ == sender_report(old(self)@, rtp_timestamp, ntp)
                && final(self)@ == (SenderState {
                last_sender_report: Some(now),
                ..old(self)@
            }),
            report is None ==> final(self)@ == old(self)@,
    {
        if let Some(last) = self.last_sender_report {
            if elapsed(last, now) < RTCP_REPORT_INTERVAL {
                return None;
            }
        }
        let mut packet: Vec<u8> = Vec::new();
        packet.push(0x80);
        packet.push(200);
        packet.push(0);
        packet.push(6);
        push_be32(&mut packet, self.sender_ssrc);
        push_be64(&mut packet, ntp);
        push_be32(&mut packet, rtp_timestamp);
        push_be32(&mut packet, self.packet_count);
        push_be32(&mut packet, self.octet_count);
        assert(packet@ =~= sender_report(self@, rtp_timestamp, ntp));
        self.last_sender_report = Some(now);
        Some(packet)
    }

    /// The bytes of every unacknowledged frame.
    pub fn in_flight_bytes(&self) -> (bytes: u64)
        requires
            frame_bytes(self.history@) <= u64::MAX,
        ensures
            bytes == frame_bytes(self.history@),
    {
        let mut bytes: u64 = 0;
        let mut index: usize = 0;
        assert(self.history@.take(0) =~= Seq::<StoredFrame>::empty());
        while index < self.history.len()
            invariant
                index <= self.history@.len(),
                bytes == frame_bytes(self.history@.take(index as int)),
                frame_bytes(self.history@) <= u64::MAX,
            decreases self.history@.len() - index,
        {
            proof {
                lemma_frame_bytes_prefix(self.history@, index as int);
                lemma_frame_bytes_prefix(self.history@, index + 1);
            }
            bytes = bytes + self.history[index].encrypted_data.len() as u64;
            index = index + 1;
        }
        assert(self.history@.take(index as int) =~= self.history@);
        bytes
    }

    /// Records how much is in flight.
    pub fn update_in_flight_stats(&self, counters: &mut MirrorCounters)
        requires
            frame_bytes(self.history@) <= u64::MAX,
        ensures
            *final(counters) == old(counters).with_in_flight(self.history@),
    {
        let frames: u64 = self.history.len() as u64;
        let bytes: u64 = self.in_flight_bytes();
        counters.current_in_flight_frames = frames;
        counters.max_in_flight_frames = larger_of(counters.max_in_flight_frames, frames);
        counters.current_in_flight_bytes = bytes;
        counters.max_in_flight_bytes = larger_of(counters.max_in_flight_bytes, bytes);
    }

    /// Encrypts a frame and splits it into packets. Once they are on the wire, `complete_frame`
    /// takes the frame back.
    pub fn begin_frame(
        &mut self,
        rtp_timestamp: u32,
        keyframe: bool,
        data: &[u8],
        timings: FrameTimings,
        synthetic_phase: Option<SyntheticPhase>,
        now: u64,
        counters: &mut MirrorCounters,
    ) -> (result: Result<Transmission, FrameTooLarge>)
        requires
            old(self).well_formed(),
        ensures
            final(self).well_formed(),
            result is Ok <==> packets_for(data@.len() as int, old(self)@.max_payload()) <= u16::MAX,
            result is Err ==> final(self)@ == old(self)@ && *final(counters) == *old(counters),
            result matches Ok(transmission) ==> {
                let wire = (Wire {
                    sender: old(self)@,
                    counters: *old(counters),
                    outgoing: Seq::empty(),
                }).with_request(transmission.frame, None, false);
                &&& old(self)@.stores_as(
                    transmission.frame,
                    rtp_timestamp,
                    keyframe,
                    data@,
                    timings,
                    synthetic_phase,
                    now,
                )
                &&& packets_of(transmission.packets@) == wire.outgoing
                &&& transmission.packets@.len() == packets_for(
                    data@.len() as int,
                    old(self)@.max_payload(),
                )
                &&& transmission.pacing == pacing_for(
                    transmission.packets@.len() as int,
                    keyframe,
                    old(self).frame_quarter,
                )
                &&& final(self)@ == wire.sender
                &&& *final(counters) == wire.counters.with_pauses(
                    pacing_total(transmission.packets@.len() as int, transmission.pacing),
                )
            },
    {
        let frame_id: u32 = self.next_frame_id;
        let referenced_frame_id: u32 = if keyframe {
            frame_id
        } else {
            frame_id.wrapping_sub(1)
        };
        let encrypted_data: Vec<u8> = encrypt_frame(
            data,
            frame_id,
            &self.aes_key,
            &self.aes_iv_mask,
        );
        let max_payload: usize = self.max_packet_size - PACKET_OVERHEAD;
        let packet_count: usize = packet_count_for(encrypted_data.len(), max_payload);
        if packet_count > u16::MAX as usize {
            return Err(FrameTooLarge {  });
        }
        let in_flight_frames: u64 = self.history.len() as u64 + 1;
        let in_flight_bytes: u64 = self.in_flight_bytes().saturating_add(
            encrypted_data.len() as u64,
        );
        let frame: StoredFrame = StoredFrame {
            frame_id,
            referenced_frame_id,
            rtp_timestamp,
            keyframe,
            encrypted_data,
            pipeline_started_at: timings.pipeline_started_at,
            sent_at: now,
            capture_age_micros: timings.capture_age_micros,
            queue_wait_micros: timings.queue_wait_micros,
            encode_micros: timings.encode_micros,
            prepare_micros: timings.prepare_micros,
            sender_lock_wait_micros: timings.sender_lock_wait_micros,
            send_micros: 0,
            in_flight_frames,
            in_flight_bytes,
            synthetic_phase,
        };
        let mut packets: Vec<Vec<u8>> = Vec::new();
        assert(packets_of(packets@) =~= Seq::<Seq<u8>>::empty());
        self.put_out(&frame, false, None, counters, &mut packets);
        proof {
            lemma_packets_keep_the_sender(
                Wire { sender: old(self)@, counters: *old(counters), outgoing: Seq::empty() },
                frame,
                requested_packets(None, packet_count as int),
                false,
            );
            assert(packets_of(packets@).len() == packets@.len());
        }
        let pacing: Option<FramePacing> = frame_pacing(
            packets.len(),
            keyframe,
            self.frame_quarter,
        );
        if let Some(pacing) = pacing {
            let breaks: u64 = (packets.len() as u64 - 1) / pacing.packets_per_burst as u64;
            assert(breaks * pacing.interval <= 0x1_0000 * MAX_FRAME_PACING_WINDOW)
                by (nonlinear_arith)
                requires
                    breaks <= 0x1_0000,
                    pacing.interval <= MAX_FRAME_PACING_WINDOW,
            ;
            let total: u64 = breaks * pacing.interval;
            if total > 0 {
                let paced: u64 = duration_micros(total as u128);
                counters.pacing_sleep_micros = counters.pacing_sleep_micros.wrapping_add(paced);
                counters.max_pacing_sleep_micros = larger_of(
                    counters.max_pacing_sleep_micros,
                    paced,
                );
            }
        }
        Ok(Transmission { frame, packets, pacing })
    }

    /// Keeps a frame that is on the wire until it is acknowledged, or until too many newer ones
    /// have been sent.
    pub fn complete_frame(&mut self, frame: StoredFrame, send_micros: u64, counters: &mut MirrorCounters)
        requires
            old(self).well_formed(),
            old(self)@.count_of(frame) <= u16::MAX,
            frame_bytes(old(self)@.history) + frame.encrypted_data@.len() <= u64::MAX,
        ensures
            final(self).well_formed(),
            final(self)@ == (SenderState {
                history: old(self)@.history_with(StoredFrame { send_micros, ..frame }),
                next_frame_id: old(self).next_frame_id.wrapping_add(1),
                ..old(self)@
            }),
            *final(counters) == (MirrorCounters {
                history_evictions: old(counters).history_evictions.wrapping_add(
                    (old(self)@.history.len() + 1 - final(self)@.history.len()) as u64,
                ),
                ..*old(counters)
            }).with_in_flight(final(self)@.history).with_frame(
                frame.encrypted_data@.len() as u64,
                frame.keyframe,
            ),
    {
        let bytes: u64 = frame.encrypted_data.len() as u64;
        let keyframe: bool = frame.keyframe;
        let mut stored: StoredFrame = frame;
        stored.send_micros = send_micros;
        let ghost kept = stored;
        let ghost all = self.history@.push(kept);
        self.history.push_back(stored);
        proof {
            lemma_frame_bytes_add(old(self)@.history, seq![kept]);
            lemma_frame_bytes_one(kept);
            assert(all =~= old(self)@.history + seq![kept]);
        }
        if self.history.len() > MAX_UNACKED_FRAMES {
            self.history.pop_front();
            counters.history_evictions = counters.history_evictions.wrapping_add(1);
            proof {
                lemma_frame_bytes_add(seq![all[0]], all.skip(1));
                lemma_frame_bytes_one(all[0]);
                assert(all =~= seq![all[0]] + all.skip(1));
            }
        }
        assert(self.history@ =~= old(self)@.history_with(kept));
        self.update_in_flight_stats(counters);
        self.next_frame_id = self.next_frame_id.wrapping_add(1);
        counters.frames = counters.frames.wrapping_add(1);
        counters.encoded_bytes = counters.encoded_bytes.wrapping_add(bytes);
        counters.max_frame_bytes = larger_of(counters.max_frame_bytes, bytes);
        if keyframe {
            counters.keyframes = counters.keyframes.wrapping_add(1);
        }
    }
}

/// The packets that `length` bytes take.
fn packet_count_for(length: usize, max_payload: usize) -> (count: usize)
    requires
        max_payload > 0,
    ensures
        count == packets_for(length as int, max_payload as int),
{
    let whole: usize = length / max_payload;
    let rest: usize = length % max_payload;
    proof {
        let q = whole as int;
        let r = rest as int;
        let m = max_payload as int;
        vstd::arithmetic::div_mod::lemma_fundamental_div_mod(length as int, m);
        if r == 0 {
            assert((m * q + m - 1) / m == q) by (nonlinear_arith)
                requires
                    m > 0,
            ;
        } else {
            assert((m * q + r + m - 1) / m == q + 1) by (nonlinear_arith)
                requires
                    0 < r < m,
            ;
        }
        assert(q <= length) by (nonlinear_arith)
            requires
                length == m * q + r,
                m > 0,
                r >= 0,
                q >= 0,
        ;
        if r > 0 {
            assert(q < length) by (nonlinear_arith)
                requires
                    length == m * q + r,
                    m > 0,
                    r > 0,
                    q >= 0,
            ;
        }
    }
    if rest > 0 {
        whole + 1
    } else if whole > 0 {
        whole
    } else {
        1
    }
}

fn build_packet(
    frame: &StoredFrame,
    packet_id: usize,
    packet_count: usize,
    max_payload: usize,
    payload_type: u8,
    sequence_number: u16,
    sender_ssrc: u32,
    Ghost(sender): Ghost<SenderState>,
) -> (packet: Vec<u8>)
    requires
        packet_id < packet_count <= 0x1_0000,
        packet_id * max_payload <= frame.encrypted_data@.len(),
        payload_type == sender.payload_type,
        sequence_number == sender.sequence_number,
        sender_ssrc == sender.sender_ssrc,
    ensures
        packet@ == rtp_packet(
            sender,
            *frame,
            packet_id as int,
            packet_count as int,
            max_payload as int,
        ),
{
    let length: usize = frame.encrypted_data.len();
    assert(0 <= packet_id * max_payload) by (nonlinear_arith);
    let start: usize = packet_id * max_payload;
    let end: usize = if max_payload < length - start {
        start + max_payload
    } else {
        length
    };
    let mut packet: Vec<u8> = Vec::new();
    packet.push(0x80);
    packet.push(
        (if packet_id + 1 == packet_count {
            0x80u8
        } else {
            0u8
        }) | payload_type,
    );
    push_be16(&mut packet, sequence_number);
    push_be32(&mut packet, frame.rtp_timestamp);
    push_be32(&mut packet, sender_ssrc);
    packet.push(
        if frame.keyframe {
            0xc0
        } else {
            0x40
        },
    );
    packet.push((frame.frame_id % 256) as u8);
    push_be16(&mut packet, packet_id as u16);
    push_be16(&mut packet, (packet_count - 1) as u16);
    packet.push((frame.referenced_frame_id % 256) as u8);
    push_range(&mut packet, frame.encrypted_data.as_slice(), start, end);
    assert(packet@ =~= rtp_packet(
        sender,
        *frame,
        packet_id as int,
        packet_count as int,
        max_payload as int,
    ));
    packet
}

} // verus!
