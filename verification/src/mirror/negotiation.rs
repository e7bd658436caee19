//! Setting a Cast Streaming session up: the offer, the receiver's answer and the control channel.

use vstd::prelude::*;

use crate::bytes::{be32_at, read_u32};
use crate::float32::Single;
use crate::h264::H264Level;
use crate::mirror::rtp::{RTP_AAC_PAYLOAD_TYPE, RTP_H264_PAYLOAD_TYPE};
use crate::network::IpAddr;
use crate::output::ReceiverVolumeCommand;
use crate::random::{random_bytes, RandomUnavailable};
use crate::text::{
    characters, decimal, find_char, hex, hex_text, hex_value, lemma_decimal_round_trips,
    lemma_hex_text_reads_back, lemma_texts_are_taken_apart, parse_unsigned, push_decimal,
    split_once, subcharacters, unsigned_number,
};

verus! {

pub const CAST_STREAMING_APP_ID: &'static str = "0F5096E8";

pub const CAST_STREAMING_NAMESPACE: &'static str = "urn:x-cast:com.google.cast.webrtc";

/// The bits per second of the AAC stream.
pub const AUDIO_BITRATE: u32 = 192_000;

/// The random bytes that an offer takes.
pub const OFFER_RANDOM_BYTES: usize = 76;

/// The identity and the keys of one stream.
#[derive(Clone, Copy, Debug)]
pub struct StreamMaterial {
    pub sender_ssrc: u32,
    pub aes_key: [u8; 16],
    pub aes_iv_mask: [u8; 16],
}

/// The identity and the keys of an offer.
#[derive(Clone, Copy, Debug)]
pub struct OfferMaterial {
    pub sequence_number: u32,
    pub sender_ssrc: u32,
    pub aes_key: [u8; 16],
    pub aes_iv_mask: [u8; 16],
    pub audio: Option<StreamMaterial>,
}

/// The sequence number that four random bytes make: never zero, and below two to the 31st.
pub open spec fn sequence_number_from(bytes: Seq<u8>) -> u32 {
    let number = be32_at(bytes, 0) as int % 0x8000_0000;
    if number == 0 {
        1
    } else {
        number as u32
    }
}

impl OfferMaterial {
    /// Whether this is the material that some random bytes make.
    pub open spec fn made_of(self, bytes: Seq<u8>, with_audio: bool) -> bool {
        &&& self.sequence_number == sequence_number_from(bytes)
        &&& self.sender_ssrc == 50_001 + be32_at(bytes, 4) % 50_000
        &&& self.aes_key@ == bytes.subrange(8, 24)
        &&& self.aes_iv_mask@ == bytes.subrange(24, 40)
        &&& match self.audio {
            None => !with_audio,
            Some(audio) => with_audio && audio.sender_ssrc == 100_001 + be32_at(bytes, 40) % 50_000
                && audio.aes_key@ == bytes.subrange(44, 60) && audio.aes_iv_mask@ == bytes.subrange(
                60,
                76,
            ),
        }
    }

    /// New keys for a session.
    pub fn random(with_audio: bool) -> (result: Result<Self, RandomUnavailable>)
        ensures
            result matches Ok(material) ==> exists|bytes: Seq<u8>|
                bytes.len() == OFFER_RANDOM_BYTES && #[trigger] material.made_of(bytes, with_audio),
    {
        match random_bytes(OFFER_RANDOM_BYTES) {
            Ok(bytes) => {
                let material: OfferMaterial = Self::from_bytes(bytes.as_slice(), with_audio);
                assert(material.made_of(bytes@, with_audio));
                Ok(material)
            },
            Err(error) => Err(error),
        }
    }

    /// The material that some random bytes make.
    pub fn from_bytes(bytes: &[u8], with_audio: bool) -> (material: Self)
        requires
            bytes@.len() == OFFER_RANDOM_BYTES,
        ensures
            material.made_of(bytes@, with_audio),
    {
        let number: u32 = read_u32(bytes, 0) % 0x8000_0000;
        let sequence_number: u32 = if number == 0 {
            1
        } else {
            number
        };
        let sender_ssrc: u32 = 50_001 + read_u32(bytes, 4) % 50_000;
        let aes_key: [u8; 16] = sixteen(bytes, 8);
        let aes_iv_mask: [u8; 16] = sixteen(bytes, 24);
        let audio: Option<StreamMaterial> = if with_audio {
            Some(
                StreamMaterial {
                    sender_ssrc: 100_001 + read_u32(bytes, 40) % 50_000,
                    aes_key: sixteen(bytes, 44),
                    aes_iv_mask: sixteen(bytes, 60),
                },
            )
        } else {
            None
        };
        OfferMaterial { sequence_number, sender_ssrc, aes_key, aes_iv_mask, audio }
    }
}

/// A delay is offered in whole milliseconds, rounded down.
pub proof fn lemma_delays_are_offered_in_milliseconds(target_delay: u128)
    requires
        target_delay <= 5_000_000_000,
    ensures
        delay_millis(target_delay) * 1_000_000 <= target_delay < (delay_millis(target_delay) + 1)
            * 1_000_000,
{
}

/// The streams of an offer have names of their own, in ranges that do not meet, a number that is
/// never zero, and keys from parts of the random bytes that nothing else is made of.
pub proof fn lemma_streams_have_their_own_names(
    material: OfferMaterial,
    bytes: Seq<u8>,
    with_audio: bool,
)
    requires
        material.made_of(bytes, with_audio),
        bytes.len() == OFFER_RANDOM_BYTES,
    ensures
        1 <= material.sequence_number < 0x8000_0000,
        50_001 <= material.sender_ssrc <= 100_000,
        material.aes_key@.len() == 16,
        material.aes_iv_mask@.len() == 16,
        material.aes_key@ + material.aes_iv_mask@ == bytes.subrange(8, 40),
        material.audio is Some <==> with_audio,
        material.audio matches Some(audio) ==> 100_001 <= audio.sender_ssrc <= 150_000
            && audio.aes_key@.len() == 16 && audio.aes_iv_mask@.len() == 16 && audio.aes_key@
            + audio.aes_iv_mask@ == bytes.subrange(44, 76),
{
    assert(bytes.subrange(8, 24) + bytes.subrange(24, 40) =~= bytes.subrange(8, 40));
    assert(bytes.subrange(44, 60) + bytes.subrange(60, 76) =~= bytes.subrange(44, 76));
}

/// The streams of a session never share an identity.
pub proof fn lemma_streams_have_their_own_identity(material: OfferMaterial, bytes: Seq<u8>)
    requires
        material.made_of(bytes, true),
    ensures
        material.audio matches Some(audio) && audio.sender_ssrc != material.sender_ssrc,
        0 < material.sequence_number < 0x8000_0000,
{
}

fn sixteen(bytes: &[u8], start: usize) -> (part: [u8; 16])
    requires
        start + 16 <= bytes@.len(),
    ensures
        part@ == bytes@.subrange(start as int, start + 16),
{
    let part: [u8; 16] = [
        bytes[start],
        bytes[start + 1],
        bytes[start + 2],
        bytes[start + 3],
        bytes[start + 4],
        bytes[start + 5],
        bytes[start + 6],
        bytes[start + 7],
        bytes[start + 8],
        bytes[start + 9],
        bytes[start + 10],
        bytes[start + 11],
        bytes[start + 12],
        bytes[start + 13],
        bytes[start + 14],
        bytes[start + 15],
    ];
    assert(part@ =~= bytes@.subrange(start as int, start + 16));
    part
}

#[derive(Clone, Copy, Debug, PartialEq, Eq, Structural)]
pub struct VideoResolution {
    pub width: u32,
    pub height: u32,
}

/// The audio stream of an offer.
#[derive(Debug)]
pub struct AudioStreamOffer {
    pub index: u8,
    pub stream_type: &'static str,
    pub channels: u8,
    pub codec_name: &'static str,
    pub codec_parameter: &'static str,
    pub rtp_profile: &'static str,
    pub rtp_payload_type: u8,
    pub ssrc: u32,
    pub target_delay: u64,
    pub aes_key: String,
    pub aes_iv_mask: String,
    pub receiver_rtcp_event_log: bool,
    pub time_base: &'static str,
    pub bit_rate: u32,
}

/// The video stream of an offer.
#[derive(Debug)]
pub struct VideoStreamOffer {
    pub index: u8,
    pub stream_type: &'static str,
    pub channels: u8,
    pub codec_name: &'static str,
    pub codec_parameter: &'static str,
    pub rtp_profile: &'static str,
    pub rtp_payload_type: u8,
    pub ssrc: u32,
    pub target_delay: u64,
    pub aes_key: String,
    pub aes_iv_mask: String,
    pub receiver_rtcp_event_log: bool,
    pub time_base: &'static str,
    pub max_frame_rate: String,
    pub max_bit_rate: u32,
    pub profile: &'static str,
    pub level: &'static str,
    pub error_recovery_mode: &'static str,
    pub resolutions: Vec<VideoResolution>,
}

/// One stream of an offer.
#[derive(Debug)]
pub enum StreamOffer {
    Audio(AudioStreamOffer),
    Video(VideoStreamOffer),
}

#[derive(Debug)]
pub struct CastStreamingOffer {
    pub cast_mode: &'static str,
    pub supported_streams: Vec<StreamOffer>,
}

/// The offer message of a session.
#[derive(Debug)]
pub struct CastStreamingOfferMessage {
    pub message_type: &'static str,
    pub sequence_number: u32,
    pub offer: CastStreamingOffer,
}

/// The whole milliseconds of a span, as far as 64 bits hold them.
pub open spec fn delay_millis(target_delay: u128) -> u64 {
    (target_delay / 1_000_000 % 0x1_0000_0000_0000_0000) as u64
}

impl AudioStreamOffer {
    /// Whether this offers the audio stream of the material.
    pub open spec fn offers(self, material: StreamMaterial, target_delay: u128) -> bool {
        &&& self.index == 0
        &&& self.stream_type@ == "audio_source"@
        &&& self.channels == 2
        &&& self.codec_name@ == "aac"@
        &&& self.codec_parameter@ == "mp4a.40.2"@
        &&& self.rtp_profile@ == "cast"@
        &&& self.rtp_payload_type == RTP_AAC_PAYLOAD_TYPE
        &&& self.ssrc == material.sender_ssrc
        &&& self.target_delay == delay_millis(target_delay)
        &&& self.aes_key@ == hex_text(material.aes_key@)
        &&& self.aes_iv_mask@ == hex_text(material.aes_iv_mask@)
        &&& !self.receiver_rtcp_event_log
        &&& self.time_base@ == "1/48000"@
        &&& self.bit_rate == AUDIO_BITRATE
    }
}

/// What is offered of a stream is what it is sent with: its name, its key and mask in hexadecimal
/// digits, its delay in milliseconds, and the clock that its timestamps count in.
pub proof fn lemma_audio_is_offered_as_it_is_sent(
    offer: AudioStreamOffer,
    material: StreamMaterial,
    target_delay: u128,
    i: int,
)
    requires
        offer.offers(material, target_delay),
        0 <= i < 16,
    ensures
        offer.index == 0,
        offer.ssrc == material.sender_ssrc,
        offer.rtp_payload_type == 97,
        offer.channels == 2,
        offer.codec_name@ == "aac"@,
        offer.time_base@ == "1/48000"@,
        offer.bit_rate == 192_000,
        target_delay <= 5_000_000_000 ==> offer.target_delay * 1_000_000 <= target_delay < (
        offer.target_delay + 1) * 1_000_000,
        hex_value(offer.aes_key@[2 * i]) * 16 + hex_value(offer.aes_key@[2 * i + 1])
            == material.aes_key@[i],
        hex_value(offer.aes_iv_mask@[2 * i]) * 16 + hex_value(offer.aes_iv_mask@[2 * i + 1])
            == material.aes_iv_mask@[i],
{
    lemma_hex_text_reads_back(material.aes_key@, i);
    lemma_hex_text_reads_back(material.aes_iv_mask@, i);
}

/// What the video stream of an offer is to be.
#[derive(Clone, Copy)]
pub struct VideoParameters {
    pub width: u32,
    pub height: u32,
    pub fps: u32,
    pub bitrate: u32,
    /// In nanoseconds.
    pub target_delay: u128,
    pub level: H264Level,
}

impl VideoStreamOffer {
    /// Whether this offers the video stream of the material.
    pub open spec fn offers(self, material: OfferMaterial, video: VideoParameters) -> bool {
        &&& self.index == video_index(material)
        &&& self.stream_type@ == "video_source"@
        &&& self.channels == 1
        &&& self.codec_name@ == "h264"@
        &&& self.codec_parameter@ == video.level.codec_parameter@
        &&& self.rtp_profile@ == "cast"@
        &&& self.rtp_payload_type == RTP_H264_PAYLOAD_TYPE
        &&& self.ssrc == material.sender_ssrc
        &&& self.target_delay == delay_millis(video.target_delay)
        &&& self.aes_key@ == hex_text(material.aes_key@)
        &&& self.aes_iv_mask@ == hex_text(material.aes_iv_mask@)
        &&& !self.receiver_rtcp_event_log
        &&& self.time_base@ == "1/90000"@
        &&& self.max_frame_rate@ == decimal(video.fps as nat) + "/1"@
        &&& self.max_bit_rate == video.bitrate
        &&& self.profile@ == "baseline"@
        &&& self.level@ == video.level.name@
        &&& self.error_recovery_mode@ == "castv2"@
        &&& self.resolutions@ == seq![VideoResolution { width: video.width, height: video.height }]
    }
}

/// What is offered of the video is what it is sent with: its name, its key and mask in hexadecimal
/// digits, its size, its rates, and the clock that its timestamps count in.
pub proof fn lemma_video_is_offered_as_it_is_sent(
    offer: VideoStreamOffer,
    material: OfferMaterial,
    video: VideoParameters,
    i: int,
)
    requires
        offer.offers(material, video),
        0 <= i < 16,
    ensures
        offer.ssrc == material.sender_ssrc,
        offer.rtp_payload_type == 101,
        offer.channels == 1,
        offer.codec_name@ == "h264"@,
        offer.time_base@ == "1/90000"@,
        offer.max_bit_rate == video.bitrate,
        offer.max_frame_rate@ == decimal(video.fps as nat) + "/1"@,
        offer.resolutions@.len() == 1,
        offer.resolutions@[0].width == video.width,
        offer.resolutions@[0].height == video.height,
        offer.level@ == video.level.name@,
        offer.codec_parameter@ == video.level.codec_parameter@,
        video.target_delay <= 5_000_000_000 ==> offer.target_delay * 1_000_000
            <= video.target_delay < (offer.target_delay + 1) * 1_000_000,
        hex_value(offer.aes_key@[2 * i]) * 16 + hex_value(offer.aes_key@[2 * i + 1])
            == material.aes_key@[i],
        hex_value(offer.aes_iv_mask@[2 * i]) * 16 + hex_value(offer.aes_iv_mask@[2 * i + 1])
            == material.aes_iv_mask@[i],
{
    lemma_hex_text_reads_back(material.aes_key@, i);
    lemma_hex_text_reads_back(material.aes_iv_mask@, i);
}

/// The index of the video stream: audio, where it is offered, comes first.
pub open spec fn video_index(material: OfferMaterial) -> u8 {
    if material.audio is Some {
        1
    } else {
        0
    }
}

fn offered_delay(target_delay: u128) -> (millis: u64)
    ensures
        millis == delay_millis(target_delay),
{
    (target_delay / 1_000_000 % 0x1_0000_0000_0000_0000) as u64
}

impl CastStreamingOfferMessage {
    /// The offer of a session: its audio, where it has any, and its video.
    pub fn new(material: &OfferMaterial, video: VideoParameters) -> (message: Self)
        ensures
            message.message_type@ == "OFFER"@,
            message.sequence_number == material.sequence_number,
            message.offer.cast_mode@ == "mirroring"@,
            ({
                let streams = message.offer.supported_streams@;
                match material.audio {
                    Some(audio) => {
                        &&& streams.len() == 2
                        &&& streams[0] matches StreamOffer::Audio(offer)
                        &&& offer.offers(audio, video.target_delay)
                        &&& streams[1] matches StreamOffer::Video(offer)
                        &&& offer.offers(*material, video)
                    },
                    None => {
                        &&& streams.len() == 1
                        &&& streams[0] matches StreamOffer::Video(offer)
                        &&& offer.offers(*material, video)
                    },
                }
            }),
    {
        let mut supported_streams: Vec<StreamOffer> = Vec::new();
        let target_delay: u64 = offered_delay(video.target_delay);
        let mut index: u8 = 0;
        if let Some(audio) = &material.audio {
            index = 1;
            supported_streams.push(
                StreamOffer::Audio(
                    AudioStreamOffer {
                        index: 0,
                        stream_type: "audio_source",
                        channels: 2,
                        codec_name: "aac",
                        codec_parameter: "mp4a.40.2",
                        rtp_profile: "cast",
                        rtp_payload_type: RTP_AAC_PAYLOAD_TYPE,
                        ssrc: audio.sender_ssrc,
                        target_delay,
                        aes_key: hex(audio.aes_key.as_slice()),
                        aes_iv_mask: hex(audio.aes_iv_mask.as_slice()),
                        receiver_rtcp_event_log: false,
                        time_base: "1/48000",
                        bit_rate: AUDIO_BITRATE,
                    },
                ),
            );
        }
        let mut rate: String = String::new();
        push_decimal(&mut rate, video.fps as u64);
        let max_frame_rate: String = rate.concat("/1");
        assert(max_frame_rate@ =~= decimal(video.fps as nat) + "/1"@);
        let mut resolutions: Vec<VideoResolution> = Vec::new();
        resolutions.push(VideoResolution { width: video.width, height: video.height });
        assert(resolutions@ =~= seq![VideoResolution { width: video.width, height: video.height }]);
        supported_streams.push(
            StreamOffer::Video(
                VideoStreamOffer {
                    index,
                    stream_type: "video_source",
                    channels: 1,
                    codec_name: "h264",
                    codec_parameter: video.level.codec_parameter,
                    rtp_profile: "cast",
                    rtp_payload_type: RTP_H264_PAYLOAD_TYPE,
                    ssrc: material.sender_ssrc,
                    target_delay,
                    aes_key: hex(material.aes_key.as_slice()),
                    aes_iv_mask: hex(material.aes_iv_mask.as_slice()),
                    receiver_rtcp_event_log: false,
                    time_base: "1/90000",
                    max_frame_rate,
                    max_bit_rate: video.bitrate,
                    profile: "baseline",
                    level: video.level.name,
                    error_recovery_mode: "castv2",
                    resolutions,
                },
            ),
        );
        CastStreamingOfferMessage {
            message_type: "OFFER",
            sequence_number: material.sequence_number,
            offer: CastStreamingOffer { cast_mode: "mirroring", supported_streams },
        }
    }
}

/// The frame rate of a receiver's display as its answer gives it.
pub enum FrameRateField {
    Number(Option<u64>),
    Text(String),
    Other,
}

/// The body of an answer.
pub struct AnswerData {
    pub udp_port: u32,
    pub send_indexes: Vec<u32>,
    pub ssrcs: Vec<u32>,
    /// The frame rate among the dimensions of the display, where the answer has one.
    pub frame_rate: Option<FrameRateField>,
}

/// An answer message.
pub struct AnswerMessage {
    pub message_type: String,
    pub sequence_number: u32,
    pub result: String,
    pub answer: Option<AnswerData>,
    /// The error as JSON text.
    pub error: String,
}

/// The frames per second that a text gives: a number, or a fraction that is rounded up.
pub open spec fn rate_in_text(text: Seq<char>) -> Option<u32> {
    let (numerator, denominator) = match split_once(text, '/') {
        Some((numerator, denominator)) => (
            unsigned_number(numerator, u32::MAX as nat),
            unsigned_number(denominator, u32::MAX as nat),
        ),
        None => (unsigned_number(text, u32::MAX as nat), Some(1)),
    };
    match (numerator, denominator) {
        (Some(numerator), Some(denominator)) => {
            let divisor = if denominator == 0 {
                1
            } else {
                denominator
            };
            Some(((numerator + divisor - 1) / divisor as int) as u32)
        },
        _ => None,
    }
}

/// A frame rate is read as it is written: a number by itself, and a fraction rounded up, so that
/// no frame of the display goes without its own.
pub proof fn lemma_display_rates_are_rounded_up(numerator: u32, denominator: u32)
    ensures
        rate_in_text(decimal(numerator as nat)) == Some(numerator),
        denominator > 0 ==> (rate_in_text(
            decimal(numerator as nat) + seq!['/'] + decimal(denominator as nat),
        ) matches Some(rate) && rate * denominator >= numerator && (rate == 0 || (rate - 1)
            * denominator < numerator)),
        denominator == 0 ==> rate_in_text(
            decimal(numerator as nat) + seq!['/'] + decimal(denominator as nat),
        ) == Some(numerator),
{
    let above = decimal(numerator as nat);
    let below = decimal(denominator as nat);
    lemma_decimal_round_trips(numerator as nat);
    lemma_decimal_round_trips(denominator as nat);
    assert(!above.contains('/')) by {
        if above.contains('/') {
            let i = choose|i: int| 0 <= i < above.len() && above[i] == '/';
            assert(crate::text::is_digit(above[i]));
        }
    }
    lemma_texts_are_taken_apart(above, '/', below);
    assert(crate::text::is_digit(above[0]));
    assert(crate::text::is_digit(below[0]));
    let n = numerator as int;
    let d: int = if denominator == 0 {
        1
    } else {
        denominator as int
    };
    assert((n + 1 - 1) / 1 == n);
    let rate = (n + d - 1) / d;
    assert(rate * d >= n && (rate - 1) * d < n && 0 <= rate && rate <= n) by (nonlinear_arith)
        requires
            rate == (n + d - 1) / d,
            d >= 1,
            n >= 0,
    ;
}

/// The frames per second that a receiver's display shows.
pub open spec fn display_rate(field: FrameRateField) -> Option<u32> {
    match field {
        FrameRateField::Number(Some(number)) => if number <= u32::MAX {
            Some(number as u32)
        } else {
            None
        },
        FrameRateField::Number(None) => None,
        FrameRateField::Text(text) => rate_in_text(text@),
        FrameRateField::Other => None,
    }
}

/// The frames per second that a receiver's display shows.
pub fn answer_display_frame_rate(field: &FrameRateField) -> (rate: Option<u32>)
    ensures
        rate == display_rate(*field),
{
    match field {
        FrameRateField::Number(Some(number)) => if *number <= u32::MAX as u64 {
            Some(*number as u32)
        } else {
            None
        },
        FrameRateField::Number(None) => None,
        FrameRateField::Other => None,
        FrameRateField::Text(text) => {
            let letters: Vec<char> = characters(text.as_str());
            let slash: usize = find_char(letters.as_slice(), '/');
            let numerator: Vec<char> = subcharacters(letters.as_slice(), 0, slash);
            assert(numerator@ =~= letters@.take(slash as int));
            let numerator: u64 = match parse_unsigned(numerator.as_slice(), u32::MAX as u64) {
                Some(numerator) => numerator,
                None => {
                    assert(slash >= letters@.len() ==> letters@.take(slash as int) =~= letters@);
                    return None;
                },
            };
            let denominator: u64 = if slash < letters.len() {
                let denominator: Vec<char> = subcharacters(
                    letters.as_slice(),
                    slash + 1,
                    letters.len(),
                );
                assert(denominator@ =~= letters@.skip(slash + 1));
                match parse_unsigned(denominator.as_slice(), u32::MAX as u64) {
                    Some(denominator) => denominator,
                    None => {
                        return None;
                    },
                }
            } else {
                assert(letters@.take(slash as int) =~= letters@);
                1
            };
            let divisor: u64 = if denominator == 0 {
                1
            } else {
                denominator
            };
            let rate: u64 = (numerator + divisor - 1) / divisor;
            assert(rate <= numerator) by (nonlinear_arith)
                requires
                    divisor >= 1,
                    numerator >= 0,
                    rate == (numerator + divisor - 1) / divisor as int,
            ;
            Some(rate as u32)
        },
    }
}

/// Why negotiation failed.
#[derive(Debug)]
pub enum NegotiationError {
    BinaryMessage,
    MalformedAnswer,
    /// The receiver refused the offer with this error, as JSON text.
    Rejected(String),
    MissingAnswerBody,
    ReceiverClosed,
    VideoNotSelected,
    MissingVideoSsrc,
    InvalidUdpPort,
}

/// A message on the streaming namespace.
pub enum StreamingPayload {
    Binary,
    /// Text that is no answer message.
    Malformed,
    Message(AnswerMessage),
}

/// Reads a message on the streaming namespace. Messages of other types and answers to other
/// offers are passed over.
pub fn parse_answer(payload: StreamingPayload, expected_sequence: u32) -> (result: Result<
    Option<AnswerData>,
    NegotiationError,
>)
    ensures
        match payload {
            StreamingPayload::Binary => result matches Err(NegotiationError::BinaryMessage),
            StreamingPayload::Malformed => result matches Err(NegotiationError::MalformedAnswer),
            StreamingPayload::Message(message) => if message.message_type@ != "ANSWER"@
                || message.sequence_number != expected_sequence {
                result matches Ok(None)
            } else if message.result@ != "ok"@ {
                result matches Err(NegotiationError::Rejected(error)) && error == message.error
            } else {
                match message.answer {
                    Some(answer) => result == Ok::<Option<AnswerData>, NegotiationError>(
                        Some(answer),
                    ),
                    None => result matches Err(NegotiationError::MissingAnswerBody),
                }
            },
        },
{
    match payload {
        StreamingPayload::Binary => Err(NegotiationError::BinaryMessage),
        StreamingPayload::Malformed => Err(NegotiationError::MalformedAnswer),
        StreamingPayload::Message(message) => {
            if !message.message_type.eq(&"ANSWER".to_owned()) {
                return Ok(None);
            }
            if message.sequence_number != expected_sequence {
                return Ok(None);
            }
            if !message.result.eq(&"ok".to_owned()) {
                return Err(NegotiationError::Rejected(message.error));
            }
            match message.answer {
                Some(answer) => Ok(Some(answer)),
                None => Err(NegotiationError::MissingAnswerBody),
            }
        },
    }
}

/// A message while the sender waits for the answer.
pub enum NegotiationMessage {
    Ping,
    Close,
    Streaming(StreamingPayload),
    Other,
}

/// What the sender does with it.
pub enum NegotiationStep {
    Pong,
    Wait,
    Answer(AnswerData),
    Fail(NegotiationError),
}

/// Takes one message in while the sender waits for the answer to its offer.
pub fn negotiation_step(message: NegotiationMessage, expected_sequence: u32) -> (step: NegotiationStep)
    ensures
        match message {
            NegotiationMessage::Ping => step is Pong,
            NegotiationMessage::Close => step matches NegotiationStep::Fail(
                NegotiationError::ReceiverClosed,
            ),
            NegotiationMessage::Other => step is Wait,
            NegotiationMessage::Streaming(StreamingPayload::Binary) => step matches NegotiationStep::Fail(
                NegotiationError::BinaryMessage,
            ),
            NegotiationMessage::Streaming(StreamingPayload::Malformed) => step matches NegotiationStep::Fail(
                NegotiationError::MalformedAnswer,
            ),
            NegotiationMessage::Streaming(StreamingPayload::Message(answer)) => if answer.message_type@
                != "ANSWER"@ || answer.sequence_number != expected_sequence {
                step is Wait
            } else if answer.result@ != "ok"@ {
                step matches NegotiationStep::Fail(NegotiationError::Rejected(error)) && error
                    == answer.error
            } else {
                match answer.answer {
                    Some(body) => step == NegotiationStep::Answer(body),
                    None => step matches NegotiationStep::Fail(NegotiationError::MissingAnswerBody),
                }
            },
        },
{
    match message {
        NegotiationMessage::Ping => NegotiationStep::Pong,
        NegotiationMessage::Close => NegotiationStep::Fail(NegotiationError::ReceiverClosed),
        NegotiationMessage::Other => NegotiationStep::Wait,
        NegotiationMessage::Streaming(payload) => match parse_answer(payload, expected_sequence) {
            Ok(Some(answer)) => NegotiationStep::Answer(answer),
            Ok(None) => NegotiationStep::Wait,
            Err(error) => NegotiationStep::Fail(error),
        },
    }
}

/// The transport of the audio stream.
#[derive(Clone, Copy, Debug)]
pub struct NegotiatedAudioTransport {
    pub sender_ssrc: u32,
    pub receiver_ssrc: u32,
    pub aes_key: [u8; 16],
    pub aes_iv_mask: [u8; 16],
}

/// What was agreed with a receiver.
#[derive(Debug)]
pub struct NegotiatedTransport {
    pub udp_port: u16,
    pub session_id: String,
    pub sender_ssrc: u32,
    pub receiver_ssrc: u32,
    pub aes_key: [u8; 16],
    pub aes_iv_mask: [u8; 16],
    pub audio: Option<NegotiatedAudioTransport>,
    pub receiver_frame_rate: Option<u32>,
}

/// The position of the first `wanted` from `start` on, or the length.
pub open spec fn position_from(values: Seq<u32>, wanted: u32, start: int) -> int
    decreases values.len() - start,
{
    if start >= values.len() {
        values.len() as int
    } else if values[start] == wanted {
        start
    } else {
        position_from(values, wanted, start + 1)
    }
}

/// The receiver's identity for a stream that it selected.
pub open spec fn selected_ssrc(answer: AnswerData, index: u32) -> Option<u32> {
    let position = position_from(answer.send_indexes@, index, 0);
    if position < answer.send_indexes@.len() && position < answer.ssrcs@.len() {
        Some(answer.ssrcs@[position])
    } else {
        None
    }
}

fn position_of(values: &Vec<u32>, wanted: u32) -> (position: usize)
    ensures
        position == position_from(values@, wanted, 0),
        position <= values@.len(),
{
    let mut index: usize = 0;
    while index < values.len()
        invariant
            index <= values@.len(),
            position_from(values@, wanted, 0) == position_from(values@, wanted, index as int),
        decreases values@.len() - index,
    {
        if values[index] == wanted {
            return index;
        }
        index = index + 1;
    }
    index
}

/// Why an answer cannot be used, if it cannot.
pub open spec fn answer_problem(material: OfferMaterial, answer: AnswerData) -> Option<
    NegotiationError,
> {
    let position = position_from(answer.send_indexes@, video_index(material) as u32, 0);
    if position >= answer.send_indexes@.len() {
        Some(NegotiationError::VideoNotSelected)
    } else if position >= answer.ssrcs@.len() {
        Some(NegotiationError::MissingVideoSsrc)
    } else if answer.udp_port > u16::MAX {
        Some(NegotiationError::InvalidUdpPort)
    } else {
        None
    }
}

proof fn lemma_position_is_first(values: Seq<u32>, wanted: u32, start: int)
    requires
        0 <= start <= values.len(),
    ensures
        start <= position_from(values, wanted, start) <= values.len(),
        position_from(values, wanted, start) < values.len() ==> values[position_from(
            values,
            wanted,
            start,
        )] == wanted,
        forall|i: int|
            start <= i < position_from(values, wanted, start) ==> #[trigger] values[i] != wanted,
    decreases values.len() - start,
{
    if start < values.len() && values[start] != wanted {
        lemma_position_is_first(values, wanted, start + 1);
    }
}

/// A stream that the receiver took gets the identity that stands where its index stands, and one
/// that it did not take gets none.
pub proof fn lemma_streams_get_the_identity_at_their_place(answer: AnswerData, index: u32, place: int)
    ensures
        0 <= place < answer.send_indexes@.len() && answer.send_indexes@[place] == index && (forall|
            i: int,
        |
            0 <= i < place ==> #[trigger] answer.send_indexes@[i] != index) ==> selected_ssrc(
            answer,
            index,
        ) == if place < answer.ssrcs@.len() {
            Some(answer.ssrcs@[place])
        } else {
            None
        },
        !answer.send_indexes@.contains(index) ==> selected_ssrc(answer, index) is None,
{
    lemma_position_is_first(answer.send_indexes@, index, 0);
    let position = position_from(answer.send_indexes@, index, 0);
    if position < answer.send_indexes@.len() {
        assert(answer.send_indexes@.contains(answer.send_indexes@[position]));
    }
}

/// An answer is accepted exactly where it takes the video, gives it an identity and names a port
/// that there is. Video is the first stream of an offer without audio and the second of one with
/// it.
pub proof fn lemma_answers_have_to_take_the_video(material: OfferMaterial, answer: AnswerData)
    ensures
        ({
            let index: u32 = if material.audio is Some {
                1
            } else {
                0
            };
            &&& !answer.send_indexes@.contains(index) <==> answer_problem(material, answer) == Some(
                NegotiationError::VideoNotSelected,
            )
            &&& answer.send_indexes@.contains(index) && selected_ssrc(answer, index) is None
                <==> answer_problem(material, answer) == Some(NegotiationError::MissingVideoSsrc)
            &&& selected_ssrc(answer, index) is Some && answer.udp_port > 65_535 <==> answer_problem(
                material,
                answer,
            ) == Some(NegotiationError::InvalidUdpPort)
            &&& answer_problem(material, answer) is None <==> selected_ssrc(answer, index) is Some
                && answer.udp_port <= 65_535
        }),
{
    let index: u32 = if material.audio is Some {
        1
    } else {
        0
    };
    lemma_position_is_first(answer.send_indexes@, index, 0);
    let position = position_from(answer.send_indexes@, index, 0);
    if position < answer.send_indexes@.len() {
        assert(answer.send_indexes@.contains(answer.send_indexes@[position]));
    }
}

/// The transport that an answer agrees to. A receiver that did not take the audio stream gets
/// video only.
pub fn accept_answer(material: &OfferMaterial, answer: &AnswerData, session_id: String) -> (result:
    Result<NegotiatedTransport, NegotiationError>)
    ensures
        match result {
            Err(error) => answer_problem(*material, *answer) == Some(error),
            Ok(transport) => {
                &&& answer_problem(*material, *answer) is None
                &&& transport.udp_port == answer.udp_port
                &&& transport.session_id == session_id
                &&& transport.sender_ssrc == material.sender_ssrc
                &&& Some(transport.receiver_ssrc) == selected_ssrc(
                    *answer,
                    video_index(*material) as u32,
                )
                &&& transport.aes_key == material.aes_key
                &&& transport.aes_iv_mask == material.aes_iv_mask
                &&& transport.receiver_frame_rate == match answer.frame_rate {
                    Some(field) => display_rate(field),
                    None => None,
                }
                &&& transport.audio == match (material.audio, selected_ssrc(*answer, 0)) {
                    (Some(audio), Some(receiver_ssrc)) => Some(
                        NegotiatedAudioTransport {
                            sender_ssrc: audio.sender_ssrc,
                            receiver_ssrc,
                            aes_key: audio.aes_key,
                            aes_iv_mask: audio.aes_iv_mask,
                        },
                    ),
                    _ => None,
                }
            },
        },
{
    let video: u32 = if material.audio.is_some() {
        1
    } else {
        0
    };
    let selected: usize = position_of(&answer.send_indexes, video);
    if selected >= answer.send_indexes.len() {
        return Err(NegotiationError::VideoNotSelected);
    }
    if selected >= answer.ssrcs.len() {
        return Err(NegotiationError::MissingVideoSsrc);
    }
    let receiver_ssrc: u32 = answer.ssrcs[selected];
    if answer.udp_port > u16::MAX as u32 {
        return Err(NegotiationError::InvalidUdpPort);
    }
    let receiver_frame_rate: Option<u32> = match &answer.frame_rate {
        Some(field) => answer_display_frame_rate(field),
        None => None,
    };
    let audio: Option<NegotiatedAudioTransport> = match &material.audio {
        None => None,
        Some(audio) => {
            let position: usize = position_of(&answer.send_indexes, 0);
            if position < answer.send_indexes.len() && position < answer.ssrcs.len() {
                Some(
                    NegotiatedAudioTransport {
                        sender_ssrc: audio.sender_ssrc,
                        receiver_ssrc: answer.ssrcs[position],
                        aes_key: audio.aes_key,
                        aes_iv_mask: audio.aes_iv_mask,
                    },
                )
            } else {
                None
            }
        },
    };
    Ok(
        NegotiatedTransport {
            udp_port: answer.udp_port as u16,
            session_id,
            sender_ssrc: material.sender_ssrc,
            receiver_ssrc,
            aes_key: material.aes_key,
            aes_iv_mask: material.aes_iv_mask,
            audio,
            receiver_frame_rate,
        },
    )
}

/// The lowest frame rate that a group shares.
pub open spec fn group_rate(rates: Seq<Option<u32>>, requested_fps: u32) -> u32
    decreases rates.len(),
{
    if rates.len() == 0 {
        requested_fps
    } else {
        let rate = group_rate(rates.drop_last(), requested_fps);
        match rates.last() {
            Some(own) => if 0 < own && own < rate {
                own
            } else {
                rate
            },
            None => rate,
        }
    }
}

/// The frame rate that every receiver of a group can show, and not above what was asked for.
/// Receivers that name no rate, or zero, are left aside.
pub fn negotiated_group_frame_rate(rates: &[Option<u32>], requested_fps: u32) -> (fps: u32)
    ensures
        fps == if group_rate(rates@, requested_fps) == 0 {
            1
        } else {
            group_rate(rates@, requested_fps)
        },
{
    let mut fps: u32 = requested_fps;
    let mut index: usize = 0;
    assert(rates@.take(0) =~= Seq::<Option<u32>>::empty());
    while index < rates.len()
        invariant
            index <= rates@.len(),
            fps == group_rate(rates@.take(index as int), requested_fps),
        decreases rates@.len() - index,
    {
        assert(rates@.take(index + 1).drop_last() =~= rates@.take(index as int));
        if let Some(own) = rates[index] {
            if 0 < own && own < fps {
                fps = own;
            }
        }
        index = index + 1;
    }
    assert(rates@.take(index as int) =~= rates@);
    if fps == 0 {
        1
    } else {
        fps
    }
}

/// The group's rate is no more than any receiver's own, and no more than what was asked for.
pub proof fn lemma_the_slowest_receiver_sets_the_rate(
    rates: Seq<Option<u32>>,
    requested_fps: u32,
    receiver: int,
)
    requires
        0 <= receiver < rates.len(),
    ensures
        group_rate(rates, requested_fps) <= requested_fps,
        rates[receiver] matches Some(own) ==> own > 0 ==> group_rate(rates, requested_fps) <= own,
    decreases rates.len(),
{
    if rates.len() > 1 {
        if receiver < rates.len() - 1 {
            lemma_the_slowest_receiver_sets_the_rate(rates.drop_last(), requested_fps, receiver);
        } else {
            lemma_the_slowest_receiver_sets_the_rate(rates.drop_last(), requested_fps, 0);
        }
    } else {
        assert(group_rate(rates.drop_last(), requested_fps) == requested_fps);
    }
}

/// The group's rate is that of one of its receivers, or what was asked for.
pub proof fn lemma_the_rate_is_someones(rates: Seq<Option<u32>>, requested_fps: u32)
    ensures
        group_rate(rates, requested_fps) == requested_fps || exists|i: int|
            0 <= i < rates.len() && #[trigger] rates[i] == Some(group_rate(rates, requested_fps)),
        requested_fps > 0 ==> group_rate(rates, requested_fps) > 0,
    decreases rates.len(),
{
    if rates.len() > 0 {
        let front = rates.drop_last();
        lemma_the_rate_is_someones(front, requested_fps);
        let rate = group_rate(rates, requested_fps);
        if rate != requested_fps {
            if rates.last() == Some(rate) {
                assert(rates[rates.len() - 1] == Some(rate));
            } else {
                assert(group_rate(front, requested_fps) == rate);
                let i = choose|i: int| 0 <= i < front.len() && #[trigger] front[i] == Some(rate);
                assert(rates[i] == Some(rate));
            }
        }
    }
}

/// What a negotiation worker came back with; none where it vanished.
pub enum NegotiationResult {
    Started(NegotiatedTransport),
    Failed(String),
    Vanished,
}

/// The receivers of a group that started, by their position, and the error of the others.
pub struct GroupStart {
    pub started: Vec<(usize, NegotiatedTransport)>,
    pub error: Option<String>,
}

/// What one result adds to the group's error.
pub open spec fn group_error(host: IpAddr, result: NegotiationResult) -> Option<Seq<char>> {
    match result {
        NegotiationResult::Started(_) => None,
        NegotiationResult::Failed(message) => Some(host.printed() + ": "@ + message@),
        NegotiationResult::Vanished => Some(host.printed() + ": negotiation worker stopped"@),
    }
}

/// The errors of a group, in the order of its hosts, with a separator between them.
pub open spec fn group_errors(hosts: Seq<IpAddr>, results: Seq<NegotiationResult>, count: nat) -> Option<
    Seq<char>,
>
    decreases count,
{
    if count == 0 {
        None
    } else {
        let before = group_errors(hosts, results, (count - 1) as nat);
        match (before, group_error(hosts[count - 1], results[count - 1])) {
            (None, own) => own,
            (Some(text), None) => Some(text),
            (Some(text), Some(own)) => Some(text + "; "@ + own),
        }
    }
}

/// The receivers of a group that started, by their position.
pub open spec fn started_of(results: Seq<NegotiationResult>, count: nat) -> Seq<
    (usize, NegotiatedTransport),
>
    decreases count,
{
    if count == 0 {
        Seq::empty()
    } else {
        let before = started_of(results, (count - 1) as nat);
        match results[count - 1] {
            NegotiationResult::Started(transport) => before.push(
                ((count - 1) as usize, transport),
            ),
            _ => before,
        }
    }
}

/// The receivers that started are listed by their position, in their order, each with its own
/// transport, and a group has an error exactly where one of its receivers did not start.
pub proof fn lemma_started_receivers_are_listed(
    hosts: Seq<IpAddr>,
    results: Seq<NegotiationResult>,
    count: nat,
)
    requires
        count <= results.len(),
        count <= usize::MAX,
    ensures
        forall|i: int, transport: NegotiatedTransport|
            0 <= i < count && results[i] == NegotiationResult::Started(transport)
                ==> #[trigger] started_of(results, count).contains((i as usize, transport)),
        forall|k: int|
            0 <= k < started_of(results, count).len() ==> (#[trigger] started_of(results, count)[k]).0
                < count && results[started_of(results, count)[k].0 as int]
                == NegotiationResult::Started(started_of(results, count)[k].1),
        forall|j: int, k: int|
            0 <= j < k < started_of(results, count).len() ==> (#[trigger] started_of(
                results,
                count,
            )[j]).0 < (#[trigger] started_of(results, count)[k]).0,
        group_errors(hosts, results, count) is None <==> forall|i: int|
            0 <= i < count ==> #[trigger] results[i] is Started,
    decreases count,
{
    if count > 0 {
        let before = (count - 1) as nat;
        lemma_started_receivers_are_listed(hosts, results, before);
        let front = started_of(results, before);
        let all = started_of(results, count);
        assert forall|i: int, transport: NegotiatedTransport|
            0 <= i < count && results[i] == NegotiationResult::Started(
                transport,
            ) implies #[trigger] all.contains((i as usize, transport)) by {
            if i < before {
                assert(front.contains((i as usize, transport)));
                let k = choose|k: int|
                    0 <= k < front.len() && front[k] == (i as usize, transport);
                assert(all[k] == (i as usize, transport));
            } else {
                assert(all.last() == (i as usize, transport));
                assert(all[all.len() - 1] == (i as usize, transport));
            }
        }
        assert forall|k: int| 0 <= k < all.len() implies (#[trigger] all[k]).0 < count
            && results[all[k].0 as int] == NegotiationResult::Started(all[k].1) by {
            if k < front.len() {
                assert(all[k] == front[k]);
            }
        }
        assert forall|j: int, k: int| 0 <= j < k < all.len() implies (#[trigger] all[j]).0 < (
        #[trigger] all[k]).0 by {
            assert(all[j] == front[j]);
            if k < front.len() {
                assert(all[k] == front[k]);
            }
        }
        if group_errors(hosts, results, count) is None {
            assert forall|i: int| 0 <= i < count implies #[trigger] results[i] is Started by {}
        }
    }
}

/// Puts the negotiations of a group together. With an error, the receivers that started have to
/// be stopped again.
pub fn collect_group(hosts: &[IpAddr], results: Vec<NegotiationResult>) -> (group: GroupStart)
    requires
        hosts@.len() == results@.len(),
    ensures
        group.started@ == started_of(results@, results@.len()),
        match (group.error, group_errors(hosts@, results@, results@.len())) {
            (Some(error), Some(text)) => error@ == "could not start every Cast receiver: "@ + text,
            (None, None) => true,
            _ => false,
        },
{
    let ghost all = results@;
    let mut results: Vec<NegotiationResult> = results;
    let mut started: Vec<(usize, NegotiatedTransport)> = Vec::new();
    let mut errors: Option<String> = None;
    let mut index: usize = 0;
    assert(all.skip(0) =~= all);
    while index < hosts.len()
        invariant
            index <= hosts@.len() == all.len(),
            results@ == all.skip(index as int),
            started@ == started_of(all, index as nat),
            match (errors, group_errors(hosts@, all, index as nat)) {
                (Some(error), Some(text)) => error@ == text,
                (None, None) => true,
                _ => false,
            },
        decreases hosts@.len() - index,
    {
        let result: NegotiationResult = results.remove(0);
        assert(result == all[index as int]);
        assert(all.skip(index as int).remove(0) =~= all.skip(index + 1));
        let own: Option<String> = match result {
            NegotiationResult::Started(transport) => {
                started.push((index, transport));
                None
            },
            NegotiationResult::Failed(message) => Some(
                hosts[index].text().concat(": ").concat(message.as_str()),
            ),
            NegotiationResult::Vanished => Some(
                hosts[index].text().concat(": negotiation worker stopped"),
            ),
        };
        errors = match (errors, own) {
            (None, own) => own,
            (Some(text), None) => Some(text),
            (Some(text), Some(own)) => Some(text.concat("; ").concat(own.as_str())),
        };
        index = index + 1;
    }
    let error: Option<String> = match errors {
        Some(text) => Some("could not start every Cast receiver: ".to_owned().concat(text.as_str())),
        None => None,
    };
    GroupStart { started, error }
}

/// An application that runs on a receiver.
pub struct RunningApplication {
    pub app_id: String,
    pub session_id: String,
}

/// The sessions of the streaming application that have to be stopped before it is launched anew.
pub open spec fn stale_sessions_of(applications: Seq<RunningApplication>) -> Seq<String>
    decreases applications.len(),
{
    if applications.len() == 0 {
        Seq::empty()
    } else if applications.last().app_id@ == CAST_STREAMING_APP_ID@ {
        stale_sessions_of(applications.drop_last()).push(applications.last().session_id)
    } else {
        stale_sessions_of(applications.drop_last())
    }
}

/// The sessions to stop are those of the streaming application, all of them and in their order.
pub proof fn lemma_stale_sessions_are_of_the_application(applications: Seq<RunningApplication>)
    ensures
        stale_sessions_of(applications) == applications.filter(
            |application: RunningApplication| application.app_id@ == "0F5096E8"@,
        ).map_values(|application: RunningApplication| application.session_id),
    decreases applications.len(),
{
    reveal(Seq::filter);
    let kept = applications.filter(
        |application: RunningApplication| application.app_id@ == "0F5096E8"@,
    );
    if applications.len() > 0 {
        let front = applications.drop_last();
        lemma_stale_sessions_are_of_the_application(front);
        let before = front.filter(
            |application: RunningApplication| application.app_id@ == "0F5096E8"@,
        );
        if applications.last().app_id@ == CAST_STREAMING_APP_ID@ {
            assert(kept =~= before.push(applications.last()));
            assert(kept.map_values(|application: RunningApplication| application.session_id)
                =~= before.map_values(
                |application: RunningApplication| application.session_id,
            ).push(applications.last().session_id));
        }
    } else {
        assert(stale_sessions_of(applications) =~= kept.map_values(
            |application: RunningApplication| application.session_id,
        ));
    }
}

/// The sessions of the streaming application that have to be stopped before it is launched anew.
pub fn stale_sessions(applications: &[RunningApplication]) -> (sessions: Vec<String>)
    ensures
        sessions@ == stale_sessions_of(applications@),
{
    let mut sessions: Vec<String> = Vec::new();
    let mut index: usize = 0;
    assert(applications@.take(0) =~= Seq::<RunningApplication>::empty());
    while index < applications.len()
        invariant
            index <= applications@.len(),
            sessions@ == stale_sessions_of(applications@.take(index as int)),
        decreases applications@.len() - index,
    {
        assert(applications@.take(index + 1).drop_last() =~= applications@.take(index as int));
        if applications[index].app_id.eq(&CAST_STREAMING_APP_ID.to_owned()) {
            sessions.push(applications[index].session_id.clone());
        }
        index = index + 1;
    }
    assert(applications@.take(index as int) =~= applications@);
    sessions
}

/// A request to the receiver's volume.
#[derive(Clone, Copy, Debug, PartialEq, Eq, Structural)]
pub enum VolumeRequest {
    Level(Single),
    Muted(bool),
}

/// The request that carries a command out, where `muted` is the receiver's state.
pub fn volume_request(command: ReceiverVolumeCommand, muted: bool) -> (request: VolumeRequest)
    ensures
        request == match command {
            ReceiverVolumeCommand::SetLevel(level) => VolumeRequest::Level(level.in_unit_range()),
            ReceiverVolumeCommand::ToggleMute => VolumeRequest::Muted(!muted),
        },
{
    match command {
        ReceiverVolumeCommand::SetLevel(level) => VolumeRequest::Level(level.clamp_to_unit()),
        ReceiverVolumeCommand::ToggleMute => VolumeRequest::Muted(!muted),
    }
}

/// The receiver's mute state after its reply, which may not mention it.
pub fn muted_after(muted: bool, reply: Option<bool>) -> (state: bool)
    ensures
        state == match reply {
            Some(reply) => reply,
            None => muted,
        },
{
    match reply {
        Some(reply) => reply,
        None => muted,
    }
}

/// What the end of a control connection means.
#[derive(Clone, Copy, Debug, PartialEq, Eq, Structural)]
pub enum ControlEnd {
    /// It belongs to a teardown that was asked for.
    Planned,
    /// It ends the session.
    Failure,
    /// Negotiation failed: whoever waits for it is told.
    Negotiation,
}

/// What follows a message on the control channel of a running session.
#[derive(Clone, Copy, Debug, PartialEq, Eq, Structural)]
pub enum ControlStep {
    Pong,
    Wait,
    /// The receiver closed the connection.
    Closed,
}

/// What follows a message on the control channel of a running session.
pub fn control_step(message: &NegotiationMessage) -> (step: ControlStep)
    ensures
        step == match *message {
            NegotiationMessage::Ping => ControlStep::Pong,
            NegotiationMessage::Close => ControlStep::Closed,
            _ => ControlStep::Wait,
        },
{
    match message {
        NegotiationMessage::Ping => ControlStep::Pong,
        NegotiationMessage::Close => ControlStep::Closed,
        _ => ControlStep::Wait,
    }
}

/// What the end of a control connection means.
pub fn control_end(ready: bool, close_expected: bool) -> (end: ControlEnd)
    ensures
        end == if !ready {
            ControlEnd::Negotiation
        } else if close_expected {
            ControlEnd::Planned
        } else {
            ControlEnd::Failure
        },
{
    if !ready {
        ControlEnd::Negotiation
    } else if close_expected {
        ControlEnd::Planned
    } else {
        ControlEnd::Failure
    }
}

} // verus!
