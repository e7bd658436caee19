//! Preparing media files for receivers: what can be served as it is, what is copied and what is
//! encoded anew, and the timestamps of the packets that are written.

use vstd::arithmetic::power2::{lemma_pow2_pos, pow2};
use vstd::prelude::*;

use crate::binary64::{
    below, integer, lemma_integers_are_exact, lemma_order_of_numbers, lemma_products_are_near,
    lemma_quotients_are_near, lemma_rounds_to_at_least, lemma_rounds_to_at_most, product, quotient,
    scale, smaller, Binary64, UNIT,
};
use crate::text::{
    characters, find_char, index_of_char, lemma_index_of_char, lemma_separated_texts_go_on,
    separated, spells, subcharacters,
};

verus! {

pub const MAX_OUTPUT_WIDTH: u32 = 1920;

pub const MAX_OUTPUT_HEIGHT: u32 = 1080;

pub const AUDIO_RATE: u32 = 48_000;

/// When media is encoded anew.
#[derive(Clone, Copy, Debug, PartialEq, Eq, Structural)]
pub enum CompatibilityMode {
    Auto,
    Never,
    Always,
}

impl Default for CompatibilityMode {
    fn default() -> (mode: Self)
        ensures
            mode == CompatibilityMode::Auto,
    {
        CompatibilityMode::Auto
    }
}

/// The codecs that matter to a plan.
#[derive(Clone, Copy, Debug, PartialEq, Eq, Structural)]
pub enum CodecId {
    H264,
    Vp8,
    Vp9,
    Aac,
    Vorbis,
    Opus,
    Other,
}

/// The pixel formats that matter to a plan.
#[derive(Clone, Copy, Debug, PartialEq, Eq, Structural)]
pub enum PixelFormat {
    Yuv420p,
    Nv12,
    Other,
}

/// What is known of a media file.
#[derive(Debug)]
pub struct MediaInfo {
    /// The names of the container's format, separated by commas.
    pub container: String,
    pub video: VideoInfo,
    pub audio: Option<AudioInfo>,
}

/// What is known of the video of a media file.
#[derive(Debug)]
pub struct VideoInfo {
    pub stream_index: usize,
    pub codec: CodecId,
    pub codec_name: String,
    pub width: u32,
    pub height: u32,
    pub pixel_format: PixelFormat,
}

/// What is known of the audio of a media file.
#[derive(Debug)]
pub struct AudioInfo {
    pub stream_index: usize,
    pub codec: CodecId,
    pub codec_name: String,
    pub sample_rate: u32,
    pub channels: u16,
}

/// The containers that receivers know.
#[derive(Clone, Copy, Debug, PartialEq, Eq, Structural)]
pub enum ContainerFamily {
    Mp4,
    WebM,
    Other,
}

/// Which tracks are encoded anew.
#[derive(Clone, Copy, Debug, PartialEq, Eq, Structural)]
pub struct TranscodeTracks {
    pub video: bool,
    pub audio: bool,
}

impl TranscodeTracks {
    /// Every track that there is.
    pub fn all(has_audio: bool) -> (tracks: Self)
        ensures
            tracks == (TranscodeTracks { video: true, audio: has_audio }),
    {
        TranscodeTracks { video: true, audio: has_audio }
    }
}

/// How a media file is prepared.
#[derive(Debug, PartialEq, Eq)]
pub enum PreparationPlan {
    Direct { content_type: String },
    Remux { reason: String },
    Transcode { reasons: Vec<String>, tracks: TranscodeTracks },
}

/// Some texts, with commas between them.
pub open spec fn joined(texts: Seq<String>) -> Seq<char>
    decreases texts.len(),
{
    if texts.len() == 0 {
        Seq::empty()
    } else if texts.len() == 1 {
        texts[0]@
    } else {
        joined(texts.drop_last()) + ", "@ + texts.last()@
    }
}

/// Texts that are joined stand in their order, with a comma between two.
pub proof fn lemma_joined_texts_are_separated(list: Seq<String>)
    ensures
        joined(list) == separated(texts(list), ", "@),
    decreases list.len(),
{
    if list.len() == 1 {
        assert(texts(list) =~= seq![list[0]@]);
        assert(separated(texts(list), ", "@) == texts(list)[0]);
    } else if list.len() > 1 {
        lemma_joined_texts_are_separated(list.drop_last());
        lemma_separated_texts_go_on(texts(list.drop_last()), ", "@, list.last()@);
        assert(texts(list.drop_last()).push(list.last()@) =~= texts(list));
    }
}

fn join(texts: &Vec<String>) -> (text: String)
    ensures
        text@ == joined(texts@),
{
    let mut text: String = String::new();
    let mut index: usize = 0;
    assert(texts@.take(0) =~= Seq::<String>::empty());
    while index < texts.len()
        invariant
            index <= texts@.len(),
            text@ == joined(texts@.take(index as int)),
        decreases texts@.len() - index,
    {
        assert(texts@.take(index + 1).drop_last() =~= texts@.take(index as int));
        if index == 0 {
            text = texts[index].clone();
        } else {
            text = text.concat(", ").concat(texts[index].as_str());
        }
        index = index + 1;
    }
    assert(texts@.take(index as int) =~= texts@);
    text
}

impl PreparationPlan {
    /// The plan in words.
    pub open spec fn described(self) -> Seq<char> {
        match self {
            PreparationPlan::Direct { .. } => "direct playback"@,
            PreparationPlan::Remux { reason } => "lossless MP4 remux ("@ + reason@ + ")"@,
            PreparationPlan::Transcode { reasons, tracks } => if tracks.video && tracks.audio {
                "H.264/AAC compatibility transcode ("@ + joined(reasons@) + ")"@
            } else if tracks.video {
                "H.264 video compatibility transcode ("@ + joined(reasons@) + ")"@
            } else if tracks.audio {
                "AAC audio transcode with H.264 video copy ("@ + joined(reasons@) + ")"@
            } else {
                "lossless track copy"@
            },
        }
    }

    /// The plan in words.
    pub fn description(&self) -> (text: String)
        ensures
            text@ == self.described(),
    {
        match self {
            PreparationPlan::Direct { .. } => "direct playback".to_owned(),
            PreparationPlan::Remux { reason } => "lossless MP4 remux (".to_owned().concat(
                reason.as_str(),
            ).concat(")"),
            PreparationPlan::Transcode { reasons, tracks } => {
                let start: &str = if tracks.video && tracks.audio {
                    "H.264/AAC compatibility transcode ("
                } else if tracks.video {
                    "H.264 video compatibility transcode ("
                } else if tracks.audio {
                    "AAC audio transcode with H.264 video copy ("
                } else {
                    return "lossless track copy".to_owned();
                };
                start.to_owned().concat(join(reasons).as_str()).concat(")")
            },
        }
    }
}

/// A plan says which tracks it encodes, and why.
pub proof fn lemma_plans_say_what_they_encode(plan: PreparationPlan)
    ensures
        plan is Direct ==> plan.described() == "direct playback"@,
        plan matches PreparationPlan::Remux { reason } ==> plan.described()
            == "lossless MP4 remux ("@ + reason@ + ")"@,
        plan matches PreparationPlan::Transcode { reasons, tracks } ==> {
            &&& tracks == (TranscodeTracks { video: true, audio: true }) ==> plan.described()
                == "H.264/AAC compatibility transcode ("@ + joined(reasons@) + ")"@
            &&& tracks == (TranscodeTracks { video: true, audio: false }) ==> plan.described()
                == "H.264 video compatibility transcode ("@ + joined(reasons@) + ")"@
            &&& tracks == (TranscodeTracks { video: false, audio: true }) ==> plan.described()
                == "AAC audio transcode with H.264 video copy ("@ + joined(reasons@) + ")"@
            &&& tracks == (TranscodeTracks { video: false, audio: false }) ==> plan.described()
                == "lossless track copy"@
        },
{
}

/// Whether one of the names of a format, which commas separate, is an MP4 name.
pub open spec fn has_mp4_name(names: Seq<char>) -> bool
    decreases names.len(),
{
    let end = index_of_char(names, ',');
    is_mp4_name(names.take(end)) || (0 <= end < names.len() && has_mp4_name(names.skip(end + 1)))
}

/// The names of MP4 and its relatives.
pub open spec fn is_mp4_name(name: Seq<char>) -> bool {
    name == "mov"@ || name == "mp4"@ || name == "m4a"@ || name == "3gp"@ || name == "3g2"@ || name
        == "mj2"@
}

/// Whether one of the names of a format, which commas separate, is WebM.
pub open spec fn has_webm_name(names: Seq<char>) -> bool
    decreases names.len(),
{
    let end = index_of_char(names, ',');
    names.take(end) == "webm"@ || (0 <= end < names.len() && has_webm_name(names.skip(end + 1)))
}

fn find_mp4_name(names: &[char]) -> (found: bool)
    ensures
        found == has_mp4_name(names@),
    decreases names@.len(),
{
    let end: usize = find_char(names, ',');
    let name: Vec<char> = subcharacters(names, 0, end);
    assert(name@ =~= names@.take(end as int));
    if spells(name.as_slice(), "mov") || spells(name.as_slice(), "mp4") || spells(
        name.as_slice(),
        "m4a",
    ) || spells(name.as_slice(), "3gp") || spells(name.as_slice(), "3g2") || spells(
        name.as_slice(),
        "mj2",
    ) {
        return true;
    }
    if end >= names.len() {
        return false;
    }
    let rest: Vec<char> = subcharacters(names, end + 1, names.len());
    assert(rest@ =~= names@.skip(end + 1));
    find_mp4_name(rest.as_slice())
}

fn find_webm_name(names: &[char]) -> (found: bool)
    ensures
        found == has_webm_name(names@),
    decreases names@.len(),
{
    let end: usize = find_char(names, ',');
    let name: Vec<char> = subcharacters(names, 0, end);
    assert(name@ =~= names@.take(end as int));
    if spells(name.as_slice(), "webm") {
        return true;
    }
    if end >= names.len() {
        return false;
    }
    let rest: Vec<char> = subcharacters(names, end + 1, names.len());
    assert(rest@ =~= names@.skip(end + 1));
    find_webm_name(rest.as_slice())
}

/// The family of a container with these names.
pub open spec fn family_of(names: Seq<char>) -> ContainerFamily {
    if has_mp4_name(names) {
        ContainerFamily::Mp4
    } else if has_webm_name(names) {
        ContainerFamily::WebM
    } else {
        ContainerFamily::Other
    }
}

/// The family of a container.
pub fn container_family(name: &str) -> (family: ContainerFamily)
    ensures
        family == family_of(name@),
{
    let names: Vec<char> = characters(name);
    if find_mp4_name(names.as_slice()) {
        ContainerFamily::Mp4
    } else if find_webm_name(names.as_slice()) {
        ContainerFamily::WebM
    } else {
        ContainerFamily::Other
    }
}

impl VideoInfo {
    /// Whether every receiver can show such video.
    pub open spec fn conservative(self) -> bool {
        self.width <= MAX_OUTPUT_WIDTH && self.height <= MAX_OUTPUT_HEIGHT && (self.pixel_format
            == PixelFormat::Yuv420p || self.pixel_format == PixelFormat::Nv12)
    }
}

impl AudioInfo {
    /// Whether every receiver can play such audio.
    pub open spec fn conservative(self) -> bool {
        self.channels <= 2 && self.sample_rate <= AUDIO_RATE
    }
}

fn conservative_video_properties(video: &VideoInfo) -> (result: bool)
    ensures
        result == video.conservative(),
{
    video.width <= MAX_OUTPUT_WIDTH && video.height <= MAX_OUTPUT_HEIGHT && (video.pixel_format
        == PixelFormat::Yuv420p || video.pixel_format == PixelFormat::Nv12)
}

fn conservative_audio_properties(audio: &AudioInfo) -> (result: bool)
    ensures
        result == audio.conservative(),
{
    audio.channels <= 2 && audio.sample_rate <= AUDIO_RATE
}

impl MediaInfo {
    /// Whether every receiver can show and play such streams.
    pub open spec fn conservative(self) -> bool {
        self.video.conservative() && match self.audio {
            Some(audio) => audio.conservative(),
            None => true,
        }
    }

    /// Whether the streams are those of an MP4 file.
    pub open spec fn has_mp4_codecs(self) -> bool {
        self.video.codec == CodecId::H264 && match self.audio {
            Some(audio) => audio.codec == CodecId::Aac,
            None => true,
        }
    }

    /// Whether the streams are those of a WebM file.
    pub open spec fn has_webm_codecs(self) -> bool {
        (self.video.codec == CodecId::Vp8 || self.video.codec == CodecId::Vp9) && match self.audio {
            Some(audio) => audio.codec == CodecId::Vorbis || audio.codec == CodecId::Opus,
            None => true,
        }
    }

    /// The content type under which the file can be served as it is.
    pub open spec fn direct_type(self) -> Option<Seq<char>> {
        let family = family_of(self.container@);
        if family == ContainerFamily::Mp4 && self.has_mp4_codecs() && self.conservative() {
            Some("video/mp4"@)
        } else if family == ContainerFamily::WebM && self.has_webm_codecs() && self.conservative() {
            Some("video/webm"@)
        } else {
            None
        }
    }

    /// Whether the video has to be encoded anew.
    pub open spec fn video_unfit(self) -> bool {
        self.video.codec != CodecId::H264 || !self.video.conservative()
    }

    /// Whether there is audio that has to be encoded anew.
    pub open spec fn audio_unfit(self) -> bool {
        match self.audio {
            Some(audio) => audio.codec != CodecId::Aac || !audio.conservative(),
            None => false,
        }
    }

    /// Why the video has to be encoded anew.
    pub open spec fn video_reason(self) -> Seq<char> {
        if self.video.codec != CodecId::H264 {
            self.video.codec_name@ + " video"@
        } else {
            "video dimensions or pixel format"@
        }
    }

    /// Why the audio has to be encoded anew.
    pub open spec fn audio_reason(self) -> Seq<char> {
        let audio = self.audio->0;
        if audio.codec != CodecId::Aac {
            audio.codec_name@ + " audio"@
        } else {
            "audio layout or sample rate"@
        }
    }

    /// Why tracks are encoded anew, one reason for each.
    pub open spec fn transcode_reasons(self) -> Seq<Seq<char>> {
        if self.video_unfit() && self.audio_unfit() {
            seq![self.video_reason(), self.audio_reason()]
        } else if self.video_unfit() {
            seq![self.video_reason()]
        } else if self.audio_unfit() {
            seq![self.audio_reason()]
        } else {
            seq!["container compatibility"@]
        }
    }
}

/// Every track that is encoded anew has its reason, the video first: a codec that receivers do not
/// play is named, and otherwise the shape of the track is the reason.
pub proof fn lemma_encoded_tracks_have_their_reason(info: MediaInfo)
    ensures
        info.video_unfit() && info.video.codec != CodecId::H264 ==> info.transcode_reasons()[0]
            == info.video.codec_name@ + " video"@,
        info.video_unfit() && info.video.codec == CodecId::H264 ==> info.transcode_reasons()[0]
            == "video dimensions or pixel format"@,
        info.audio_unfit() && (info.audio->0).codec != CodecId::Aac
            ==> info.transcode_reasons().last() == (info.audio->0).codec_name@ + " audio"@,
        info.audio_unfit() && (info.audio->0).codec == CodecId::Aac
            ==> info.transcode_reasons().last() == "audio layout or sample rate"@,
        info.transcode_reasons().len() == if info.video_unfit() && info.audio_unfit() {
            2int
        } else {
            1
        },
        !info.video_unfit() && !info.audio_unfit() ==> info.transcode_reasons()[0]
            == "container compatibility"@,
{
}

fn has_mp4_codecs(info: &MediaInfo) -> (result: bool)
    ensures
        result == info.has_mp4_codecs(),
{
    info.video.codec == CodecId::H264 && match &info.audio {
        Some(audio) => audio.codec == CodecId::Aac,
        None => true,
    }
}

fn conservative_stream_properties(info: &MediaInfo) -> (result: bool)
    ensures
        result == info.conservative(),
{
    conservative_video_properties(&info.video) && match &info.audio {
        Some(audio) => conservative_audio_properties(audio),
        None => true,
    }
}

fn direct_content_type(info: &MediaInfo) -> (content_type: Option<&'static str>)
    ensures
        match content_type {
            Some(text) => info.direct_type() == Some(text@),
            None => info.direct_type() is None,
        },
{
    let conservative: bool = conservative_stream_properties(info);
    match container_family(info.container.as_str()) {
        ContainerFamily::Mp4 => if has_mp4_codecs(info) && conservative {
            Some("video/mp4")
        } else {
            None
        },
        ContainerFamily::WebM => {
            let video: bool = info.video.codec == CodecId::Vp8 || info.video.codec == CodecId::Vp9;
            let audio: bool = match &info.audio {
                Some(audio) => audio.codec == CodecId::Vorbis || audio.codec == CodecId::Opus,
                None => true,
            };
            if video && audio && conservative {
                Some("video/webm")
            } else {
                None
            }
        },
        ContainerFamily::Other => None,
    }
}

/// Some texts as sequences.
pub open spec fn texts(strings: Seq<String>) -> Seq<Seq<char>> {
    strings.map_values(|text: String| text@)
}

/// Whether a plan is the one for a file.
pub open spec fn plan_for(info: MediaInfo, mode: CompatibilityMode, plan: PreparationPlan) -> bool {
    if mode == CompatibilityMode::Always {
        plan matches PreparationPlan::Transcode { reasons, tracks } && texts(reasons@) == seq![
            "requested by --transcode=always"@,
        ] && tracks == (TranscodeTracks { video: true, audio: info.audio is Some })
    } else if info.direct_type() is Some {
        plan matches PreparationPlan::Direct { content_type } && Some(content_type@)
            == info.direct_type()
    } else if info.has_mp4_codecs() && info.conservative() {
        plan matches PreparationPlan::Remux { reason } && reason@ == info.container@
            + " is not directly served"@
    } else {
        plan matches PreparationPlan::Transcode { reasons, tracks } && texts(reasons@)
            == info.transcode_reasons() && tracks == (TranscodeTracks {
            video: info.video_unfit(),
            audio: info.audio_unfit(),
        })
    }
}

/// Why nothing can be prepared where nothing may be encoded.
pub open spec fn refusal_message(info: MediaInfo) -> Seq<char> {
    info.video.codec_name@ + " video with "@ + match info.audio {
        Some(audio) => audio.codec_name@,
        None => "no"@,
    } + " audio in "@ + info.container@
        + " is not in the direct-play compatibility set and transcoding is disabled"@
}

/// Whether a result is the one for a file: where nothing may be encoded, only files that can be
/// served as they are have a plan.
pub open spec fn planned(
    info: MediaInfo,
    mode: CompatibilityMode,
    result: Result<PreparationPlan, String>,
) -> bool {
    match result {
        Ok(plan) => {
            &&& plan_for(info, mode, plan)
            &&& (mode == CompatibilityMode::Never ==> info.direct_type() is Some)
        },
        Err(message) => mode == CompatibilityMode::Never && info.direct_type() is None && message@
            == refusal_message(info),
    }
}

/// How a file is prepared. Where nothing may be encoded, only files that can be served as they
/// are have a plan.
pub fn plan(info: &MediaInfo, mode: CompatibilityMode) -> (result: Result<PreparationPlan, String>)
    ensures
        planned(*info, mode, result),
{
    match mode {
        CompatibilityMode::Always => {
            let mut reasons: Vec<String> = Vec::new();
            reasons.push("requested by --transcode=always".to_owned());
            assert(texts(reasons@) =~= seq!["requested by --transcode=always"@]);
            return Ok(
                PreparationPlan::Transcode {
                    reasons,
                    tracks: TranscodeTracks::all(info.audio.is_some()),
                },
            );
        },
        CompatibilityMode::Never => {
            return match direct_content_type(info) {
                Some(content_type) => Ok(
                    PreparationPlan::Direct { content_type: content_type.to_owned() },
                ),
                None => {
                    let start: String = info.video.codec_name.clone().concat(" video with ");
                    let middle: String = match &info.audio {
                        Some(audio) => start.concat(audio.codec_name.as_str()),
                        None => start.concat("no"),
                    };
                    Err(
                        middle.concat(" audio in ").concat(info.container.as_str()).concat(
                            " is not in the direct-play compatibility set and transcoding is disabled",
                        ),
                    )
                },
            };
        },
        CompatibilityMode::Auto => {},
    }
    if let Some(content_type) = direct_content_type(info) {
        return Ok(PreparationPlan::Direct { content_type: content_type.to_owned() });
    }
    if has_mp4_codecs(info) && conservative_stream_properties(info) {
        return Ok(
            PreparationPlan::Remux {
                reason: info.container.clone().concat(" is not directly served"),
            },
        );
    }
    let mut reasons: Vec<String> = Vec::new();
    let mut tracks: TranscodeTracks = TranscodeTracks { video: false, audio: false };
    if info.video.codec != CodecId::H264 {
        tracks.video = true;
        reasons.push(info.video.codec_name.clone().concat(" video"));
    } else if !conservative_video_properties(&info.video) {
        tracks.video = true;
        reasons.push("video dimensions or pixel format".to_owned());
    }
    if let Some(audio) = &info.audio {
        if audio.codec != CodecId::Aac {
            tracks.audio = true;
            reasons.push(audio.codec_name.clone().concat(" audio"));
        } else if !conservative_audio_properties(audio) {
            tracks.audio = true;
            reasons.push("audio layout or sample rate".to_owned());
        }
    }
    if reasons.len() == 0 {
        reasons.push("container compatibility".to_owned());
    }
    assert(texts(reasons@) =~= info.transcode_reasons());
    Ok(PreparationPlan::Transcode { reasons, tracks })
}

/// Names with commas between them.
pub open spec fn named(names: Seq<Seq<char>>) -> Seq<char>
    decreases names.len(),
{
    if names.len() == 0 {
        Seq::empty()
    } else if names.len() == 1 {
        names[0]
    } else {
        names[0] + seq![','] + named(names.drop_first())
    }
}

/// Whether a list holds names, none of which has a comma in it.
pub open spec fn are_names(names: Seq<Seq<char>>) -> bool {
    names.len() > 0 && forall|i: int|
        0 <= i < names.len() ==> !(#[trigger] names[i]).contains(',')
}

proof fn lemma_first_name(names: Seq<Seq<char>>)
    requires
        are_names(names),
    ensures
        ({
            let end = index_of_char(named(names), ',');
            &&& named(names).take(end) == names[0]
            &&& names.len() == 1 ==> end == named(names).len()
            &&& names.len() > 1 ==> 0 <= end < named(names).len() && named(names).skip(end + 1)
                == named(names.drop_first()) && are_names(names.drop_first())
        }),
{
    let text = named(names);
    let end = index_of_char(text, ',');
    let length = names[0].len();
    lemma_index_of_char(text, ',');
    assert(!names[0].contains(','));
    if end < length {
        assert(names[0][end] == ',');
    }
    if names.len() == 1 {
        assert(end == length);
        assert(text.take(end) =~= names[0]);
    } else {
        let rest = names.drop_first();
        assert(text[length as int] == ',');
        assert(end == length);
        assert(text.take(end) =~= names[0]);
        assert(text.skip(end + 1) =~= named(rest));
        assert forall|i: int| 0 <= i < rest.len() implies !(#[trigger] rest[i]).contains(',') by {
            assert(rest[i] == names[i + 1]);
        }
    }
}

/// The family of a container goes by its names, whichever place they have in the list: one of
/// MP4's names makes it MP4, and without one the name of WebM makes it WebM.
pub proof fn lemma_containers_go_by_their_names(names: Seq<Seq<char>>)
    requires
        are_names(names),
    ensures
        family_of(named(names)) == ContainerFamily::Mp4 <==> names.contains("mov"@)
            || names.contains("mp4"@) || names.contains("m4a"@) || names.contains("3gp"@)
            || names.contains("3g2"@) || names.contains("mj2"@),
        family_of(named(names)) == ContainerFamily::WebM <==> names.contains("webm"@)
            && family_of(named(names)) != ContainerFamily::Mp4,
{
    lemma_mp4_names(names);
    lemma_webm_names(names);
    if has_mp4_name(named(names)) {
        let i = choose|i: int| 0 <= i < names.len() && is_mp4_name(#[trigger] names[i]);
        assert(names.contains(names[i]));
    }
}

proof fn lemma_mp4_names(names: Seq<Seq<char>>)
    requires
        are_names(names),
    ensures
        has_mp4_name(named(names)) <==> exists|i: int|
            0 <= i < names.len() && is_mp4_name(#[trigger] names[i]),
    decreases names.len(),
{
    lemma_first_name(names);
    if names.len() > 1 {
        let rest = names.drop_first();
        lemma_mp4_names(rest);
        if exists|i: int| 0 <= i < names.len() && is_mp4_name(#[trigger] names[i]) {
            let i = choose|i: int| 0 <= i < names.len() && is_mp4_name(#[trigger] names[i]);
            if i > 0 {
                assert(is_mp4_name(rest[i - 1]));
            }
        }
        if has_mp4_name(named(rest)) {
            let i = choose|i: int| 0 <= i < rest.len() && is_mp4_name(#[trigger] rest[i]);
            assert(is_mp4_name(names[i + 1]));
        }
    }
    if is_mp4_name(names[0]) {
        assert(has_mp4_name(named(names)));
    }
}

proof fn lemma_webm_names(names: Seq<Seq<char>>)
    requires
        are_names(names),
    ensures
        has_webm_name(named(names)) <==> names.contains("webm"@),
    decreases names.len(),
{
    lemma_first_name(names);
    if names.len() > 1 {
        let rest = names.drop_first();
        lemma_webm_names(rest);
        if names.contains("webm"@) {
            let i = choose|i: int| 0 <= i < names.len() && names[i] == "webm"@;
            if i > 0 {
                assert(rest[i - 1] == "webm"@);
            }
        }
        if rest.contains("webm"@) {
            let i = choose|i: int| 0 <= i < rest.len() && rest[i] == "webm"@;
            assert(names[i + 1] == "webm"@);
        }
    }
    if names[0] == "webm"@ {
        assert(names.contains(names[0]));
    }
}

/// Whether a receiver of any kind shows the picture and plays the sound: at most full HD in one of
/// two pixel formats, and at most two channels at 48 kHz.
pub open spec fn plays_anywhere(info: MediaInfo) -> bool {
    &&& info.video.width <= 1920
    &&& info.video.height <= 1080
    &&& info.video.pixel_format == PixelFormat::Yuv420p || info.video.pixel_format
        == PixelFormat::Nv12
    &&& info.audio matches Some(audio) ==> audio.channels <= 2 && audio.sample_rate <= 48_000
}

/// A WebM file plays directly with every pair of codecs that receivers know there: VP8 or VP9 with
/// Vorbis, with Opus, or without sound.
pub proof fn lemma_webm_files_play_directly(
    names: Seq<Seq<char>>,
    info: MediaInfo,
    mode: CompatibilityMode,
    result: Result<PreparationPlan, String>,
)
    requires
        are_names(names),
        info.container@ == named(names),
        names.contains("webm"@),
        !names.contains("mov"@) && !names.contains("mp4"@) && !names.contains("m4a"@)
            && !names.contains("3gp"@) && !names.contains("3g2"@) && !names.contains("mj2"@),
        plays_anywhere(info),
        ({
            let audio = match info.audio {
                Some(audio) => Some(audio.codec),
                None => None,
            };
            ||| info.video.codec == CodecId::Vp8 && audio == Some(CodecId::Vorbis)
            ||| info.video.codec == CodecId::Vp8 && audio == Some(CodecId::Opus)
            ||| info.video.codec == CodecId::Vp9 && audio == Some(CodecId::Vorbis)
            ||| info.video.codec == CodecId::Vp9 && audio == Some(CodecId::Opus)
            ||| info.video.codec == CodecId::Vp8 && audio is None
            ||| info.video.codec == CodecId::Vp9 && audio is None
        }),
        mode == CompatibilityMode::Auto || mode == CompatibilityMode::Never,
        planned(info, mode, result),
    ensures
        result matches Ok(PreparationPlan::Direct { content_type }) && content_type@
            == "video/webm"@,
{
    lemma_containers_go_by_their_names(names);
}

/// A file of H.264 and AAC, or without sound, plays directly from an MP4 container. From any other
/// one it is packed anew without encoding, or refused where only direct playback is allowed.
pub proof fn lemma_mp4_codecs_are_never_encoded(
    names: Seq<Seq<char>>,
    info: MediaInfo,
    mode: CompatibilityMode,
    result: Result<PreparationPlan, String>,
)
    requires
        are_names(names),
        info.container@ == named(names),
        plays_anywhere(info),
        info.video.codec == CodecId::H264,
        info.audio matches Some(audio) ==> audio.codec == CodecId::Aac,
        mode == CompatibilityMode::Auto || mode == CompatibilityMode::Never,
        planned(info, mode, result),
    ensures
        names.contains("mov"@) || names.contains("mp4"@) || names.contains("m4a"@)
            || names.contains("3gp"@) || names.contains("3g2"@) || names.contains("mj2"@) ==> (
        result matches Ok(PreparationPlan::Direct { content_type }) && content_type@
            == "video/mp4"@),
        !(names.contains("mov"@) || names.contains("mp4"@) || names.contains("m4a"@)
            || names.contains("3gp"@) || names.contains("3g2"@) || names.contains("mj2"@)) ==> if mode
            == CompatibilityMode::Auto {
            result matches Ok(PreparationPlan::Remux { reason }) && reason@ == named(names)
                + " is not directly served"@
        } else {
            result is Err
        },
{
    lemma_containers_go_by_their_names(names);
}

/// Whatever else a file holds, exactly the tracks that some receiver could not play are encoded,
/// and nothing is where encoding is not allowed.
pub proof fn lemma_other_files_are_encoded(
    info: MediaInfo,
    mode: CompatibilityMode,
    result: Result<PreparationPlan, String>,
)
    requires
        planned(info, mode, result),
    ensures
        mode == CompatibilityMode::Always ==> (result matches Ok(
            PreparationPlan::Transcode { tracks, .. },
        ) && tracks.video && (tracks.audio <==> info.audio is Some)),
        mode == CompatibilityMode::Never ==> !(result matches Ok(PreparationPlan::Transcode { .. }))
            && !(result matches Ok(PreparationPlan::Remux { .. })),
        result matches Ok(PreparationPlan::Direct { .. }) ==> plays_anywhere(info) && mode
            != CompatibilityMode::Always,
        mode == CompatibilityMode::Auto ==> (result matches Ok(
            PreparationPlan::Transcode { reasons, tracks },
        ) ==> {
            &&& tracks.video <==> info.video.codec != CodecId::H264 || info.video.width > 1920
                || info.video.height > 1080 || info.video.pixel_format == PixelFormat::Other
            &&& tracks.audio <==> match info.audio {
                Some(audio) => audio.codec != CodecId::Aac || audio.channels > 2
                    || audio.sample_rate > 48_000,
                None => false,
            }
            &&& tracks.video && info.video.codec != CodecId::H264 ==> reasons@[0]@
                == info.video.codec_name@ + " video"@
            &&& tracks.audio && info.audio->0.codec != CodecId::Aac ==> reasons@.last()@ == (
            info.audio->0).codec_name@ + " audio"@
        }),
{
    if let Ok(PreparationPlan::Transcode { reasons, tracks }) = result {
        if mode == CompatibilityMode::Auto {
            assert(texts(reasons@) == info.transcode_reasons());
            assert(texts(reasons@).len() == reasons@.len());
            assert(texts(reasons@)[0] == reasons@[0]@);
            assert(texts(reasons@).last() == reasons@.last()@);
        }
    }
}

/// What is served as it is, or only packed anew, is never encoded: a plan encodes a track exactly
/// where it must.
pub proof fn lemma_fit_tracks_are_not_encoded(info: MediaInfo, plan: PreparationPlan)
    requires
        plan_for(info, CompatibilityMode::Auto, plan),
        plan is Transcode,
    ensures
        plan->tracks.video <==> info.video_unfit(),
        plan->tracks.audio <==> info.audio_unfit(),
        plan->tracks.video || plan->tracks.audio,
{
}

/// The factor by which a picture is scaled: it fits the largest output, and is never enlarged.
pub open spec fn output_scale(width: u32, height: u32) -> Binary64 {
    let across = quotient(
        integer(MAX_OUTPUT_WIDTH as int),
        integer(if width == 0 {
            1
        } else {
            width as int
        }),
    );
    let down = quotient(
        integer(MAX_OUTPUT_HEIGHT as int),
        integer(if height == 0 {
            1
        } else {
            height as int
        }),
    );
    smaller(integer(1), smaller(across, down))
}

/// A length after scaling: rounded to the nearest pixel, even, and at least two.
pub open spec fn scaled_length(length: u32, scale: Binary64) -> int {
    let pixels = if length == 0 {
        0
    } else {
        product(integer(length as int), scale).rounded()
    };
    if pixels < 2 {
        2
    } else if pixels >= u32::MAX {
        u32::MAX - 1
    } else {
        pixels - pixels % 2
    }
}

fn scale_length(length: u32, scale: Binary64) -> (result: u32)
    requires
        scale.normal(),
        -150 <= scale.exponent <= -51,
    ensures
        result == scaled_length(length, scale),
{
    if length == 0 {
        return 2;
    }
    let scaled: Binary64 = Binary64::from_integer(length as u64).times(scale);
    let pixels: u64 = scaled.round();
    if pixels < 2 {
        2
    } else if pixels >= u32::MAX as u64 {
        u32::MAX - 1
    } else {
        (pixels - pixels % 2) as u32
    }
}

/// The dimensions of the encoded picture.
pub fn compatible_dimensions(width: u32, height: u32) -> (dimensions: (u32, u32))
    ensures
        dimensions.0 == scaled_length(width, output_scale(width, height)),
        dimensions.1 == scaled_length(height, output_scale(width, height)),
        dimensions.0 % 2 == 0 && dimensions.0 >= 2,
        dimensions.1 % 2 == 0 && dimensions.1 >= 2,
        dimensions.0 <= MAX_OUTPUT_WIDTH && dimensions.1 <= MAX_OUTPUT_HEIGHT,
        2 <= width <= MAX_OUTPUT_WIDTH && 2 <= height <= MAX_OUTPUT_HEIGHT ==> dimensions.0 == width
            - width % 2 && dimensions.1 == height - height % 2,
        width > MAX_OUTPUT_WIDTH || height > MAX_OUTPUT_HEIGHT ==> dimensions.0 == MAX_OUTPUT_WIDTH
            || dimensions.1 == MAX_OUTPUT_HEIGHT,
{
    let across: Binary64 = Binary64::from_integer(MAX_OUTPUT_WIDTH as u64).divided_by(
        Binary64::from_integer(
            if width == 0 {
                1
            } else {
                width as u64
            },
        ),
    );
    let down: Binary64 = Binary64::from_integer(MAX_OUTPUT_HEIGHT as u64).divided_by(
        Binary64::from_integer(
            if height == 0 {
                1
            } else {
                height as u64
            },
        ),
    );
    let one: Binary64 = Binary64::from_integer(1);
    let scale: Binary64 = one.min_with(across.min_with(down));
    proof {
        lemma_one();
        lemma_pictures_fit_the_output(width, height);
        if width > MAX_OUTPUT_WIDTH || height > MAX_OUTPUT_HEIGHT {
            lemma_large_pictures_fill_the_output(width, height);
        }
    }
    (scale_length(width, scale), scale_length(height, scale))
}

proof fn lemma_one()
    ensures
        integer(1) == (Binary64 { mantissa: UNIT, exponent: -52i32 }),
{
    vstd::arithmetic::power2::lemma2_to64();
    assert(crate::binary64::floor_log(1) == 0);
    assert(UNIT as int / 1 == UNIT && UNIT as int % 1 == 0);
}

/// The factor for one length: the largest output length over it.
spec fn length_scale(length: u32, maximum: u32) -> Binary64 {
    quotient(
        integer(maximum as int),
        integer(
            if length == 0 {
                1
            } else {
                length as int
            },
        ),
    )
}

proof fn lemma_length_scale(length: u32, maximum: u32)
    requires
        0 < maximum <= 0x1_0000,
    ensures
        length_scale(length, maximum).scalable(),
        length > 0 ==> length_scale(length, maximum).scaled() * length * (2 * UNIT) <= maximum
            * scale() * (2 * UNIT + 1),
        length <= maximum ==> !below(length_scale(length, maximum), integer(1)),
        -150 <= length_scale(length, maximum).exponent <= 100,
{
    let held: int = if length == 0 {
        1
    } else {
        length as int
    };
    let a = integer(maximum as int);
    let b = integer(held);
    lemma_integers_are_exact(maximum as int);
    lemma_integers_are_exact(held);
    lemma_quotients_are_near(a, b);
    lemma_pow2_pos(300);
    let q = quotient(a, b).scaled();
    assert(q * held * (2 * UNIT) <= maximum * scale() * (2 * UNIT + 1)) by (nonlinear_arith)
        requires
            q * (held * scale()) * (2 * UNIT) <= (maximum * scale()) * scale() * (2 * UNIT + 1),
            scale() > 0,
    {
        let left = q * held * (2 * UNIT);
        let right = maximum * scale() * (2 * UNIT + 1);
        assert(q * (held * scale()) * (2 * UNIT) == left * scale()) by (nonlinear_arith)
            requires
                left == q * held * (2 * UNIT),
        ;
        assert((maximum * scale()) * scale() * (2 * UNIT + 1) == right * scale())
            by (nonlinear_arith)
            requires
                right == maximum * scale() * (2 * UNIT + 1),
        ;
        if left > right {
            assert(left * scale() > right * scale()) by (nonlinear_arith)
                requires
                    left > right,
                    scale() > 0,
            ;
        }
    }
    lemma_one();
    lemma_order_of_numbers(a, b);
    if length <= maximum {
        assert(held * scale() <= maximum * scale()) by (nonlinear_arith)
            requires
                held <= maximum,
                scale() > 0,
        ;
        assert(!below(a, b));
    }
}

/// A length that is scaled by at most its own factor fits.
proof fn lemma_scaled_lengths_fit(length: u32, factor: Binary64, maximum: u32)
    requires
        2 <= maximum <= 0x1_0000,
        factor.scalable(),
        -200 <= factor.exponent <= 100,
        factor.scaled() <= length_scale(length, maximum).scaled(),
    ensures
        scaled_length(length, factor) <= maximum,
{
    if length > 0 {
        lemma_length_scale(length, maximum);
        lemma_integers_are_exact(length as int);
        let own = integer(length as int);
        lemma_products_are_near(own, factor);
        lemma_pow2_pos(300);
        let p = product(own, factor).scaled();
        let f = factor.scaled();
        let q = length_scale(length, maximum).scaled();
        let u = 2 * UNIT;
        let full = scale();
        let l = length as int;
        let limit = maximum as int;
        assert(p * u <= l * f * (u + 1)) by (nonlinear_arith)
            requires
                p * full * u <= (l * full) * f * (u + 1),
                full > 0,
        {
            let left = p * u;
            let right = l * f * (u + 1);
            assert(p * full * u == left * full) by (nonlinear_arith)
                requires
                    left == p * u,
            ;
            assert((l * full) * f * (u + 1) == right * full) by (nonlinear_arith)
                requires
                    right == l * f * (u + 1),
            ;
            if left > right {
                assert(left * full > right * full) by (nonlinear_arith)
                    requires
                        left > right,
                        full > 0,
                ;
            }
        }
        assert(l * f * (u + 1) <= q * l * (u + 1)) by (nonlinear_arith)
            requires
                f <= q,
                l > 0,
                u > 0,
        ;
        assert(p * u * u <= limit * full * (u + 1) * (u + 1)) by (nonlinear_arith)
            requires
                p * u <= q * l * (u + 1),
                q * l * u <= limit * full * (u + 1),
                u > 0,
        {
            assert(p * u * u <= q * l * (u + 1) * u) by (nonlinear_arith)
                requires
                    p * u <= q * l * (u + 1),
                    u > 0,
            ;
            assert(q * l * (u + 1) * u == q * l * u * (u + 1)) by (nonlinear_arith);
            assert(q * l * u * (u + 1) <= limit * full * (u + 1) * (u + 1)) by (nonlinear_arith)
                requires
                    q * l * u <= limit * full * (u + 1),
                    u > 0,
            ;
        }
        let room = 2 * limit * (u + 1) * (u + 1);
        assert(room < (2 * limit + 1) * u * u) by (nonlinear_arith)
            requires
                room == 2 * limit * (u + 1) * (u + 1),
                0 < limit <= 0x1_0000,
                u == 0x20_0000_0000_0000,
        ;
        assert(2 * p < (2 * limit + 1) * full) by (nonlinear_arith)
            requires
                p * u * u <= limit * full * (u + 1) * (u + 1),
                room == 2 * limit * (u + 1) * (u + 1),
                room < (2 * limit + 1) * u * u,
                full > 0,
                u > 0,
        {
            assert(2 * (p * u * u) <= room * full) by (nonlinear_arith)
                requires
                    p * u * u <= limit * full * (u + 1) * (u + 1),
                    room == 2 * limit * (u + 1) * (u + 1),
            ;
            assert(room * full < (2 * limit + 1) * u * u * full) by (nonlinear_arith)
                requires
                    room < (2 * limit + 1) * u * u,
                    full > 0,
            ;
            let wide = u * u;
            assert(wide > 0) by (nonlinear_arith)
                requires
                    u > 0,
                    wide == u * u,
            ;
            assert(2 * (p * u * u) == (2 * p) * wide) by (nonlinear_arith)
                requires
                    wide == u * u,
            ;
            assert((2 * limit + 1) * u * u * full == ((2 * limit + 1) * full) * wide)
                by (nonlinear_arith)
                requires
                    wide == u * u,
            ;
            if 2 * p >= (2 * limit + 1) * full {
                assert((2 * p) * wide >= ((2 * limit + 1) * full) * wide) by (nonlinear_arith)
                    requires
                        2 * p >= (2 * limit + 1) * full,
                        wide > 0,
                ;
            }
        }
        lemma_rounds_to_at_most(product(own, factor), limit);
    }
}

/// An encoded picture fits the largest output, and one that fits already keeps its size, but for
/// an odd row or column.
pub proof fn lemma_pictures_fit_the_output(width: u32, height: u32)
    ensures
        scaled_length(width, output_scale(width, height)) <= MAX_OUTPUT_WIDTH,
        scaled_length(height, output_scale(width, height)) <= MAX_OUTPUT_HEIGHT,
        2 <= width <= MAX_OUTPUT_WIDTH && 2 <= height <= MAX_OUTPUT_HEIGHT ==> scaled_length(
            width,
            output_scale(width, height),
        ) == width - width % 2 && scaled_length(height, output_scale(width, height)) == height
            - height % 2,
{
    let across = length_scale(width, MAX_OUTPUT_WIDTH);
    let down = length_scale(height, MAX_OUTPUT_HEIGHT);
    let factor = output_scale(width, height);
    lemma_length_scale(width, MAX_OUTPUT_WIDTH);
    lemma_length_scale(height, MAX_OUTPUT_HEIGHT);
    lemma_integers_are_exact(1);
    lemma_order_of_numbers(factor, across);
    lemma_order_of_numbers(across, factor);
    lemma_order_of_numbers(factor, down);
    lemma_order_of_numbers(down, factor);
    lemma_scaled_lengths_fit(width, factor, MAX_OUTPUT_WIDTH);
    lemma_scaled_lengths_fit(height, factor, MAX_OUTPUT_HEIGHT);
    if 2 <= width <= MAX_OUTPUT_WIDTH && 2 <= height <= MAX_OUTPUT_HEIGHT {
        assert(factor == integer(1));
        lemma_unscaled_length(width);
        lemma_unscaled_length(height);
    }
}

proof fn lemma_cancel(left: int, right: int, factor: int)
    requires
        factor > 0,
        left * factor >= right * factor,
    ensures
        left >= right,
{
    if left < right {
        assert(left * factor < right * factor) by (nonlinear_arith)
            requires
                left < right,
                factor > 0,
        ;
    }
}

/// A length that is scaled by its own factor becomes the largest one.
proof fn lemma_own_scale(length: u32, maximum: u32)
    requires
        length > 0,
        2 <= maximum <= 0x1_0000,
        maximum % 2 == 0,
    ensures
        scaled_length(length, length_scale(length, maximum)) == maximum,
{
    let factor = length_scale(length, maximum);
    lemma_length_scale(length, maximum);
    lemma_scaled_lengths_fit(length, factor, maximum);
    let own = integer(length as int);
    let most = integer(maximum as int);
    lemma_integers_are_exact(length as int);
    lemma_integers_are_exact(maximum as int);
    lemma_quotients_are_near(most, own);
    lemma_products_are_near(own, factor);
    lemma_pow2_pos(300);
    let p = product(own, factor).scaled();
    let q = factor.scaled();
    let u = 2 * UNIT;
    let full = scale();
    let l = length as int;
    let limit = maximum as int;
    assert(q * l * u >= limit * full * (u - 1)) by {
        assert(q * (l * full) * u == (q * l * u) * full) by (nonlinear_arith);
        assert((limit * full) * full * (u - 1) == (limit * full * (u - 1)) * full)
            by (nonlinear_arith);
        lemma_cancel(q * l * u, limit * full * (u - 1), full);
    }
    assert(p * u >= l * q * (u - 1)) by {
        assert(p * full * u == (p * u) * full) by (nonlinear_arith);
        assert((l * full) * q * (u - 1) == (l * q * (u - 1)) * full) by (nonlinear_arith);
        lemma_cancel(p * u, l * q * (u - 1), full);
    }
    let wide = u * u;
    assert(wide > 0) by (nonlinear_arith)
        requires
            wide == u * u,
            u == 0x20_0000_0000_0000,
    ;
    assert(p * wide >= limit * full * ((u - 1) * (u - 1))) by {
        assert(p * wide == (p * u) * u) by (nonlinear_arith)
            requires
                wide == u * u,
        ;
        assert((p * u) * u >= (l * q * (u - 1)) * u) by (nonlinear_arith)
            requires
                p * u >= l * q * (u - 1),
                u > 0,
        ;
        assert((l * q * (u - 1)) * u == (q * l * u) * (u - 1)) by (nonlinear_arith);
        assert((q * l * u) * (u - 1) >= (limit * full * (u - 1)) * (u - 1)) by (nonlinear_arith)
            requires
                q * l * u >= limit * full * (u - 1),
                u > 1,
        ;
        assert((limit * full * (u - 1)) * (u - 1) == limit * full * ((u - 1) * (u - 1)))
            by (nonlinear_arith);
    }
    let room = 2 * limit * ((u - 1) * (u - 1));
    assert(room >= (2 * limit - 1) * wide) by (nonlinear_arith)
        requires
            room == 2 * limit * ((u - 1) * (u - 1)),
            wide == u * u,
            0 < limit <= 0x1_0000,
            u == 0x20_0000_0000_0000,
    ;
    assert(2 * p >= (2 * limit - 1) * full) by {
        assert((2 * p) * wide == 2 * (p * wide)) by (nonlinear_arith);
        assert(2 * (limit * full * ((u - 1) * (u - 1))) == room * full) by (nonlinear_arith)
            requires
                room == 2 * limit * ((u - 1) * (u - 1)),
        ;
        assert(room * full >= ((2 * limit - 1) * wide) * full) by (nonlinear_arith)
            requires
                room >= (2 * limit - 1) * wide,
                full > 0,
        ;
        assert(((2 * limit - 1) * wide) * full == ((2 * limit - 1) * full) * wide)
            by (nonlinear_arith);
        lemma_cancel(2 * p, (2 * limit - 1) * full, wide);
    }
    lemma_rounds_to_at_least(product(own, factor), limit);
}

/// The factor of a length that is too large is less than one.
proof fn lemma_large_lengths_shrink(length: u32, maximum: u32)
    requires
        0 < maximum <= 0x1_0000,
        length > maximum,
    ensures
        below(length_scale(length, maximum), integer(1)),
{
    lemma_length_scale(length, maximum);
    lemma_integers_are_exact(1);
    lemma_order_of_numbers(length_scale(length, maximum), integer(1));
    lemma_pow2_pos(300);
    let q = length_scale(length, maximum).scaled();
    let u = 2 * UNIT;
    let full = scale();
    let l = length as int;
    let limit = maximum as int;
    if q >= full {
        assert(q * l * u >= full * (limit + 1) * u) by (nonlinear_arith)
            requires
                q >= full > 0,
                l >= limit + 1 > 0,
                u > 0,
        ;
        assert(full * (limit + 1) * u == (limit * u + u) * full) by (nonlinear_arith);
        assert(limit * full * (u + 1) == (limit * u + limit) * full) by (nonlinear_arith);
        lemma_cancel(limit * u + limit, limit * u + u, full);
    }
}

/// A picture that is too large in either direction is brought to the largest width or to the
/// largest height.
pub proof fn lemma_large_pictures_fill_the_output(width: u32, height: u32)
    requires
        width > MAX_OUTPUT_WIDTH || height > MAX_OUTPUT_HEIGHT,
    ensures
        scaled_length(width, output_scale(width, height)) == MAX_OUTPUT_WIDTH || scaled_length(
            height,
            output_scale(width, height),
        ) == MAX_OUTPUT_HEIGHT,
{
    let across = length_scale(width, MAX_OUTPUT_WIDTH);
    let down = length_scale(height, MAX_OUTPUT_HEIGHT);
    let factor = output_scale(width, height);
    lemma_length_scale(width, MAX_OUTPUT_WIDTH);
    lemma_length_scale(height, MAX_OUTPUT_HEIGHT);
    if width > MAX_OUTPUT_WIDTH {
        lemma_large_lengths_shrink(width, MAX_OUTPUT_WIDTH);
    }
    if height > MAX_OUTPUT_HEIGHT {
        lemma_large_lengths_shrink(height, MAX_OUTPUT_HEIGHT);
    }
    assert(below(factor, integer(1)));
    if factor == across {
        lemma_own_scale(width, MAX_OUTPUT_WIDTH);
    } else {
        assert(factor == down);
        lemma_own_scale(height, MAX_OUTPUT_HEIGHT);
    }
}

proof fn lemma_unscaled_length(length: u32)
    requires
        2 <= length <= 0x1_0000,
    ensures
        scaled_length(length, integer(1)) == length - length % 2,
{
    let own = integer(length as int);
    lemma_integers_are_exact(length as int);
    lemma_one();
    let m = own.mantissa as int;
    assert(m * UNIT < 2 * UNIT * UNIT) by (nonlinear_arith)
        requires
            m < 2 * UNIT,
    ;
    assert((m * UNIT) / (UNIT as int) == m && (m * UNIT) % (UNIT as int) == 0)
        by (nonlinear_arith);
    assert(product(own, integer(1)) == own);
    let high = pow2((300 + own.exponent) as nat) as int;
    let d = own.denominator();
    lemma_pow2_pos((300 + own.exponent) as nat);
    lemma_pow2_pos((-own.exponent) as nat);
    vstd::arithmetic::power2::lemma_pow2_adds(
        (300 + own.exponent) as nat,
        (-own.exponent) as nat,
    );
    let l = length as int;
    assert(m == l * d) by (nonlinear_arith)
        requires
            m * high == l * (high * d),
            high > 0,
    {
        assert(l * (high * d) == (l * d) * high) by (nonlinear_arith);
        if m > l * d {
            assert(m * high > (l * d) * high) by (nonlinear_arith)
                requires
                    m > l * d,
                    high > 0,
            ;
        }
        if m < l * d {
            assert(m * high < (l * d) * high) by (nonlinear_arith)
                requires
                    m < l * d,
                    high > 0,
            ;
        }
    }
    assert((2 * m + d) / (2 * d) == l) by (nonlinear_arith)
        requires
            m == l * d,
            d > 0,
    {
        assert(2 * m + d == l * (2 * d) + d) by (nonlinear_arith)
            requires
                m == l * d,
        ;
        assert((l * (2 * d) + d) / (2 * d) == l) by (nonlinear_arith)
            requires
                d > 0,
        ;
    }
}

/// A sum, brought into the range of the numbers that there are.
pub open spec fn bounded_sum(a: int, b: int) -> int {
    if a + b > i64::MAX {
        i64::MAX as int
    } else if a + b < i64::MIN {
        i64::MIN as int
    } else {
        a + b
    }
}

fn add_bounded(a: i64, b: i64) -> (sum: i64)
    ensures
        sum == bounded_sum(a as int, b as int),
{
    let full: i128 = a as i128 + b as i128;
    if full > i64::MAX as i128 {
        i64::MAX
    } else if full < i64::MIN as i128 {
        i64::MIN
    } else {
        full as i64
    }
}

fn subtract_bounded(a: i64, b: i64) -> (difference: i64)
    ensures
        difference == bounded_sum(a as int, -b),
{
    let full: i128 = a as i128 - b as i128;
    if full > i64::MAX as i128 {
        i64::MAX
    } else if full < i64::MIN as i128 {
        i64::MIN
    } else {
        full as i64
    }
}

/// The decode time of a packet after one with the decode time `last`: its own, or the next one
/// where its own does not lie after it.
pub open spec fn risen(dts: i64, last: Option<i64>) -> i64 {
    match last {
        Some(last) => if dts <= last {
            bounded_sum(last as int, 1) as i64
        } else {
            dts
        },
        None => dts,
    }
}

/// The presentation time of a packet whose decode time was moved from `dts` to `moved`.
pub open spec fn shifted(pts: Option<i64>, dts: i64, moved: i64) -> Option<i64> {
    match pts {
        Some(pts) => if moved == dts {
            Some(pts)
        } else {
            Some(bounded_sum(pts as int, bounded_sum(moved as int, -dts)) as i64)
        },
        None => None,
    }
}

/// Moves the times of a packet so that decode times rise. The presentation time moves along. A
/// packet without a decode time stays as it is.
pub fn monotonic_packet_timestamps(dts: Option<i64>, pts: Option<i64>, last_dts: &mut Option<i64>) -> (times:
    (Option<i64>, Option<i64>))
    ensures
        match dts {
            None => times == (None::<i64>, pts) && *final(last_dts) == *old(last_dts),
            Some(dts) => {
                let moved = risen(dts, *old(last_dts));
                &&& times.0 == Some(moved)
                &&& times.1 == shifted(pts, dts, moved)
                &&& *final(last_dts) == Some(moved)
            },
        },
{
    let wanted: i64 = match dts {
        Some(dts) => dts,
        None => {
            return (None, pts);
        },
    };
    let mut moved: i64 = wanted;
    let mut shown: Option<i64> = pts;
    if let Some(previous) = *last_dts {
        if wanted <= previous {
            moved = add_bounded(previous, 1);
            let adjustment: i64 = subtract_bounded(moved, wanted);
            shown =
            match pts {
                Some(pts) => Some(add_bounded(pts, adjustment)),
                None => None,
            };
        }
    }
    *last_dts = Some(moved);
    (Some(moved), shown)
}

/// Decode times rise from packet to packet, as long as there are later ones, and presentation
/// times keep their distance from them where there is room.
pub proof fn lemma_decode_times_rise(dts: i64, pts: i64, last: i64)
    requires
        last < i64::MAX,
    ensures
        risen(dts, Some(last)) > last,
        risen(dts, Some(last)) >= dts,
        i64::MIN <= risen(dts, Some(last)) - dts <= i64::MAX && i64::MIN <= pts + risen(
            dts,
            Some(last),
        ) - dts <= i64::MAX ==> (shifted(Some(pts), dts, risen(dts, Some(last)))->0) - risen(
            dts,
            Some(last),
        ) == pts - dts,
{
}

/// A packet that is copied, in the time base of the output. The number tells packets apart.
#[derive(Clone, Copy, Debug)]
pub struct CopiedPacket {
    pub number: u64,
    pub pts: Option<i64>,
    pub dts: Option<i64>,
    pub duration: i64,
}

/// A packet came without a presentation time.
#[derive(Clone, Copy, Debug, PartialEq, Eq, Structural)]
pub struct PresentationTimeMissing {}

/// The state of a stream whose packets are copied.
pub struct CopiedStream {
    pub last_output_dts: Option<i64>,
    pub next_missing_dts: Option<i64>,
    pub pending_packets: Vec<CopiedPacket>,
}

/// A duration of at least one.
pub open spec fn at_least_one(duration: i64) -> i64 {
    if duration >= 1 {
        duration
    } else {
        1
    }
}

/// A packet as it is written after one with the decode time `last`.
pub open spec fn written(packet: CopiedPacket, last: Option<i64>) -> CopiedPacket {
    match packet.dts {
        Some(dts) => CopiedPacket {
            dts: Some(risen(dts, last)),
            pts: shifted(packet.pts, dts, risen(dts, last)),
            ..packet
        },
        None => packet,
    }
}

/// Packets with decode times as they are written one after the other, the first after one with
/// the decode time `last`.
pub open spec fn written_all(packets: Seq<CopiedPacket>, last: Option<i64>) -> Seq<CopiedPacket>
    decreases packets.len(),
{
    if packets.len() == 0 {
        Seq::empty()
    } else {
        let before = written_all(packets.drop_last(), last);
        before.push(
            written(
                packets.last(),
                if before.len() == 0 {
                    last
                } else {
                    before.last().dts
                },
            ),
        )
    }
}

/// Packets with decode times counted back from `end`, each by its duration.
pub open spec fn counted_back(packets: Seq<CopiedPacket>, end: i64) -> Seq<CopiedPacket>
    decreases packets.len(),
{
    if packets.len() == 0 {
        Seq::empty()
    } else {
        let dts = bounded_sum(end as int, -at_least_one(packets.last().duration)) as i64;
        counted_back(packets.drop_last(), dts).push(
            CopiedPacket { dts: Some(dts), ..packets.last() },
        )
    }
}

/// Packets with decode times counted on from `start`, each by the duration of the one before.
pub open spec fn counted_on(packets: Seq<CopiedPacket>, start: i64) -> Seq<CopiedPacket>
    decreases packets.len(),
{
    if packets.len() == 0 {
        Seq::empty()
    } else {
        seq![CopiedPacket { dts: Some(start), ..packets[0] }] + counted_on(
            packets.drop_first(),
            bounded_sum(start as int, at_least_one(packets[0].duration) as int) as i64,
        )
    }
}

/// Whether every packet has a decode time.
pub open spec fn all_decodable(packets: Seq<CopiedPacket>) -> bool {
    forall|i: int| 0 <= i < packets.len() ==> (#[trigger] packets[i]).dts is Some
}

proof fn lemma_counted_back(packets: Seq<CopiedPacket>, end: i64)
    ensures
        counted_back(packets, end).len() == packets.len(),
        all_decodable(counted_back(packets, end)),
    decreases packets.len(),
{
    if packets.len() > 0 {
        let dts = bounded_sum(end as int, -at_least_one(packets.last().duration)) as i64;
        lemma_counted_back(packets.drop_last(), dts);
    }
}

proof fn lemma_counted_on(packets: Seq<CopiedPacket>, start: i64)
    ensures
        counted_on(packets, start).len() == packets.len(),
        all_decodable(counted_on(packets, start)),
    decreases packets.len(),
{
    if packets.len() > 0 {
        lemma_counted_on(
            packets.drop_first(),
            bounded_sum(start as int, at_least_one(packets[0].duration) as int) as i64,
        );
    }
}

proof fn lemma_written_all(packets: Seq<CopiedPacket>, last: Option<i64>)
    requires
        all_decodable(packets),
    ensures
        written_all(packets, last).len() == packets.len(),
        all_decodable(written_all(packets, last)),
    decreases packets.len(),
{
    if packets.len() > 0 {
        assert forall|i: int| 0 <= i < packets.drop_last().len() implies (
        #[trigger] packets.drop_last()[i]).dts is Some by {
            assert(packets.drop_last()[i] == packets[i]);
        }
        lemma_written_all(packets.drop_last(), last);
        assert(packets[packets.len() - 1].dts is Some);
    }
}

/// Copied packets are written with decode times that rise, as long as there are later ones.
pub proof fn lemma_copied_decode_times_rise(packets: Seq<CopiedPacket>, last: Option<i64>, index: int)
    requires
        all_decodable(packets),
        1 <= index < packets.len(),
        (written_all(packets, last)[index - 1].dts->0) < i64::MAX,
    ensures
        (written_all(packets, last)[index - 1].dts->0) < (written_all(packets, last)[index].dts->0),
    decreases packets.len(),
{
    let shorter = packets.drop_last();
    assert forall|i: int| 0 <= i < shorter.len() implies (#[trigger] shorter[i]).dts is Some by {
        assert(shorter[i] == packets[i]);
    }
    lemma_written_all(shorter, last);
    if index < packets.len() - 1 {
        lemma_copied_decode_times_rise(shorter, last, index);
    } else {
        assert(packets[index].dts is Some);
    }
}

/// Packets that wait get the decode times that lead up to the first one that is known: between one
/// and the next lies the duration of the first of them. Nothing else about them changes.
pub proof fn lemma_waiting_packets_lead_up(packets: Seq<CopiedPacket>, end: i64)
    ensures
        counted_back(packets, end).len() == packets.len(),
        forall|i: int|
            0 <= i < packets.len() ==> (#[trigger] counted_back(packets, end)[i]).dts is Some
                && counted_back(packets, end)[i].pts == packets[i].pts && counted_back(
                packets,
                end,
            )[i].number == packets[i].number && counted_back(packets, end)[i].duration
                == packets[i].duration,
        forall|i: int|
            0 <= i < packets.len() && (counted_back(packets, end)[i].dts->0) > i64::MIN ==> {
                let next = if i + 1 < packets.len() {
                    counted_back(packets, end)[i + 1].dts->0
                } else {
                    end
                };
                next - ((#[trigger] counted_back(packets, end)[i]).dts->0) == if packets[i].duration
                    >= 1 {
                    packets[i].duration as int
                } else {
                    1
                }
            },
    decreases packets.len(),
{
    if packets.len() > 0 {
        let dts = bounded_sum(end as int, -at_least_one(packets.last().duration)) as i64;
        let front = packets.drop_last();
        let before = counted_back(front, dts);
        let all = counted_back(packets, end);
        lemma_waiting_packets_lead_up(front, dts);
        assert forall|i: int| 0 <= i < packets.len() implies (#[trigger] all[i]).dts is Some
            && all[i].pts == packets[i].pts && all[i].number == packets[i].number && all[i].duration
            == packets[i].duration by {
            if i < front.len() {
                assert(all[i] == before[i]);
                assert(front[i] == packets[i]);
            }
        }
        assert forall|i: int| 0 <= i < packets.len() && (all[i].dts->0) > i64::MIN implies {
            let next = if i + 1 < packets.len() {
                all[i + 1].dts->0
            } else {
                end
            };
            next - ((#[trigger] all[i]).dts->0) == if packets[i].duration >= 1 {
                packets[i].duration as int
            } else {
                1
            }
        } by {
            if i < front.len() {
                assert(all[i] == before[i]);
                assert(front[i] == packets[i]);
                if i + 1 < front.len() {
                    assert(all[i + 1] == before[i + 1]);
                }
            }
        }
    }
}

/// Packets that still wait at the end get decode times from the first one's presentation time on:
/// between one and the next lies the duration of the first of them.
pub proof fn lemma_last_packets_follow_on(packets: Seq<CopiedPacket>, start: i64)
    ensures
        counted_on(packets, start).len() == packets.len(),
        packets.len() > 0 ==> counted_on(packets, start)[0].dts == Some(start),
        forall|i: int|
            0 <= i < packets.len() ==> (#[trigger] counted_on(packets, start)[i]).dts is Some
                && counted_on(packets, start)[i].pts == packets[i].pts && counted_on(
                packets,
                start,
            )[i].number == packets[i].number && counted_on(packets, start)[i].duration
                == packets[i].duration,
        forall|i: int|
            1 <= i < packets.len() && ((#[trigger] counted_on(packets, start)[i]).dts->0) < i64::MAX
                ==> (counted_on(packets, start)[i].dts->0) - (counted_on(packets, start)[i
                - 1].dts->0) == if packets[i - 1].duration >= 1 {
                packets[i - 1].duration as int
            } else {
                1
            },
    decreases packets.len(),
{
    if packets.len() > 0 {
        let rest = packets.drop_first();
        let next = bounded_sum(start as int, at_least_one(packets[0].duration) as int) as i64;
        let after = counted_on(rest, next);
        let all = counted_on(packets, start);
        lemma_last_packets_follow_on(rest, next);
        assert(all == seq![CopiedPacket { dts: Some(start), ..packets[0] }] + after);
        assert forall|i: int| 0 <= i < packets.len() implies (#[trigger] all[i]).dts is Some
            && all[i].pts == packets[i].pts && all[i].number == packets[i].number && all[i].duration
            == packets[i].duration by {
            if i > 0 {
                assert(all[i] == after[i - 1]);
                assert(rest[i - 1] == packets[i]);
            }
        }
        assert forall|i: int| 1 <= i < packets.len() && ((#[trigger] all[i]).dts->0)
            < i64::MAX implies (all[i].dts->0) - (all[i - 1].dts->0) == if packets[i - 1].duration
            >= 1 {
            packets[i - 1].duration as int
        } else {
            1
        } by {
            assert(all[i] == after[i - 1]);
            if i > 1 {
                assert(all[i - 1] == after[i - 2]);
                assert(rest[i - 2] == packets[i - 1]);
            }
        }
    }
}

/// A packet whose decode time lies after the one before is written as it is, and one whose does
/// not is moved to the time right after it, its presentation time along with it.
pub proof fn lemma_packets_in_order_are_written_as_they_are(packet: CopiedPacket, last: Option<i64>)
    requires
        packet.dts is Some,
    ensures
        last is None || (packet.dts->0) > (last->0) ==> written(packet, last) == packet,
        last is Some && (packet.dts->0) <= (last->0) < i64::MAX ==> {
            let moved = written(packet, last);
            &&& moved.dts == Some(((last->0) + 1) as i64)
            &&& moved.number == packet.number && moved.duration == packet.duration
            &&& packet.pts matches Some(pts) ==> (pts + (last->0) + 1 - (packet.dts->0) <= i64::MAX
                && (last->0) + 1 - (packet.dts->0) <= i64::MAX ==> (moved.pts matches Some(shown)
                && shown - (moved.dts->0) == pts - (packet.dts->0)))
        },
{
}

impl CopiedStream {
    pub fn new() -> (stream: Self)
        ensures
            stream.last_output_dts is None,
            stream.next_missing_dts is None,
            stream.pending_packets@.len() == 0,
    {
        CopiedStream {
            last_output_dts: None,
            next_missing_dts: None,
            pending_packets: Vec::new(),
        }
    }

    /// The decode time that a packet gets that has none after one that was written.
    pub open spec fn missing_after(packet: CopiedPacket) -> Option<i64> {
        match packet.dts {
            Some(dts) => Some(
                bounded_sum(dts as int, at_least_one(packet.duration) as int) as i64,
            ),
            None => None,
        }
    }

    fn write_rescaled_packet(&mut self, packet: CopiedPacket) -> (result: CopiedPacket)
        requires
            packet.dts is Some,
        ensures
            result == written(packet, old(self).last_output_dts),
            final(self).last_output_dts == result.dts,
            final(self).next_missing_dts == Self::missing_after(result),
            final(self).pending_packets == old(self).pending_packets,
    {
        let (dts, pts) = monotonic_packet_timestamps(
            packet.dts,
            packet.pts,
            &mut self.last_output_dts,
        );
        let duration: i64 = if packet.duration >= 1 {
            packet.duration
        } else {
            1
        };
        self.next_missing_dts =
        match dts {
            Some(dts) => Some(add_bounded(dts, duration)),
            None => None,
        };
        CopiedPacket { number: packet.number, pts, dts, duration: packet.duration }
    }

    fn write_each(&mut self, packets: &Vec<CopiedPacket>) -> (output: Vec<CopiedPacket>)
        requires
            all_decodable(packets@),
        ensures
            output@ == written_all(packets@, old(self).last_output_dts),
            final(self).pending_packets == old(self).pending_packets,
            packets@.len() == 0 ==> *final(self) == *old(self),
            packets@.len() > 0 ==> output@.len() > 0 && final(self).last_output_dts
                == output@.last().dts && final(self).next_missing_dts == Self::missing_after(
                output@.last(),
            ),
    {
        let mut output: Vec<CopiedPacket> = Vec::new();
        let mut index: usize = 0;
        assert(packets@.take(0) =~= Seq::<CopiedPacket>::empty());
        while index < packets.len()
            invariant
                index <= packets@.len(),
                all_decodable(packets@),
                output@ == written_all(packets@.take(index as int), old(self).last_output_dts),
                output@.len() == index,
                self.pending_packets == old(self).pending_packets,
                index == 0 ==> *self == *old(self),
                index > 0 ==> self.last_output_dts == output@.last().dts && self.next_missing_dts
                    == Self::missing_after(output@.last()),
            decreases packets@.len() - index,
        {
            assert(packets@.take(index + 1).drop_last() =~= packets@.take(index as int));
            assert(packets@[index as int].dts is Some);
            let next: CopiedPacket = self.write_rescaled_packet(packets[index]);
            output.push(next);
            index = index + 1;
        }
        assert(packets@.take(index as int) =~= packets@);
        output
    }

    fn count_back(packets: &Vec<CopiedPacket>, end: i64) -> (counted: Vec<CopiedPacket>)
        ensures
            counted@ == counted_back(packets@, end),
    {
        let mut counted: Vec<CopiedPacket> = Vec::new();
        Self::count_back_from(packets, packets.len(), end, &mut counted);
        assert(packets@.take(packets@.len() as int) =~= packets@);
        assert(counted@ =~= counted_back(packets@, end));
        counted
    }

    fn count_back_from(
        packets: &Vec<CopiedPacket>,
        count: usize,
        end: i64,
        counted: &mut Vec<CopiedPacket>,
    )
        requires
            count <= packets@.len(),
        ensures
            final(counted)@ == old(counted)@ + counted_back(packets@.take(count as int), end),
        decreases count,
    {
        if count == 0 {
            assert(counted@ =~= old(counted)@ + counted_back(packets@.take(0), end));
            return;
        }
        let packet: CopiedPacket = packets[count - 1];
        let duration: i64 = if packet.duration >= 1 {
            packet.duration
        } else {
            1
        };
        let dts: i64 = subtract_bounded(end, duration);
        Self::count_back_from(packets, count - 1, dts, counted);
        assert(packets@.take(count as int).drop_last() =~= packets@.take(count - 1));
        counted.push(CopiedPacket { dts: Some(dts), ..packet });
        assert(counted@ =~= old(counted)@ + counted_back(packets@.take(count as int), end));
    }

    /// The decode time that a packet is written with, where it is known.
    pub open spec fn decode_time(self, packet: CopiedPacket) -> Option<i64> {
        match packet.dts {
            Some(dts) => Some(dts),
            None => self.next_missing_dts,
        }
    }

    /// The packets that are written for a packet: those that waited for a decode time first.
    pub open spec fn released(self, packet: CopiedPacket) -> Seq<CopiedPacket> {
        let dts = self.decode_time(packet)->0;
        counted_back(self.pending_packets@, dts).push(
            CopiedPacket {
                dts: Some(dts),
                duration: at_least_one(packet.duration),
                ..packet
            },
        )
    }

    /// Takes a packet and gives the packets to write. A packet without a decode time takes the
    /// place after the last one that was written; as long as none was, it waits for the first one
    /// that has a decode time.
    pub fn write_packet(&mut self, packet: CopiedPacket) -> (result: Result<
        Vec<CopiedPacket>,
        PresentationTimeMissing,
    >)
        ensures
            match result {
                Err(_) => packet.pts is None && *final(self) == *old(self),
                Ok(output) => {
                    &&& packet.pts is Some
                    &&& if old(self).decode_time(packet) is None {
                        &&& output@.len() == 0
                        &&& final(self).pending_packets@ == old(self).pending_packets@.push(
                            CopiedPacket { duration: at_least_one(packet.duration), ..packet },
                        )
                        &&& final(self).last_output_dts == old(self).last_output_dts
                        &&& final(self).next_missing_dts == old(self).next_missing_dts
                    } else {
                        &&& output@ == written_all(
                            old(self).released(packet),
                            old(self).last_output_dts,
                        )
                        &&& output@.len() == old(self).pending_packets@.len() + 1
                        &&& final(self).pending_packets@.len() == 0
                        &&& final(self).last_output_dts == output@.last().dts
                        &&& final(self).next_missing_dts == Self::missing_after(output@.last())
                    }
                },
            },
    {
        if packet.pts.is_none() {
            return Err(PresentationTimeMissing {  });
        }
        let mut packet: CopiedPacket = packet;
        if packet.duration <= 0 {
            packet.duration = 1;
        }
        let dts: i64 = match packet.dts {
            Some(dts) => dts,
            None => match self.next_missing_dts {
                Some(dts) => dts,
                None => {
                    self.pending_packets.push(packet);
                    return Ok(Vec::new());
                },
            },
        };
        packet.dts = Some(dts);
        let ghost waiting = self.pending_packets@;
        let mut released: Vec<CopiedPacket> = Self::count_back(&self.pending_packets, dts);
        proof {
            lemma_counted_back(waiting, dts);
        }
        let ghost counted = released@;
        released.push(packet);
        assert forall|i: int| 0 <= i < released@.len() implies (#[trigger] released@[i]).dts
            is Some by {
            if i < counted.len() {
                assert(released@[i] == counted[i]);
            }
        }
        self.pending_packets = Vec::new();
        proof {
            lemma_written_all(released@, self.last_output_dts);
        }
        Ok(self.write_each(&released))
    }

    /// Gives the packets that still wait at the end of the stream. They are decoded from the
    /// first one's presentation time on.
    pub fn finish_pending(&mut self) -> (output: Vec<CopiedPacket>)
        ensures
            ({
                let waiting = old(self).pending_packets@;
                if waiting.len() == 0 || waiting[0].pts is None {
                    output@.len() == 0 && *final(self) == *old(self)
                } else {
                    &&& output@ == written_all(
                        counted_on(waiting, waiting[0].pts->0),
                        old(self).last_output_dts,
                    )
                    &&& output@.len() == waiting.len()
                    &&& final(self).pending_packets@.len() == 0
                    &&& final(self).last_output_dts == output@.last().dts
                    &&& final(self).next_missing_dts == Self::missing_after(output@.last())
                }
            }),
    {
        if self.pending_packets.len() == 0 {
            return Vec::new();
        }
        let first: i64 = match self.pending_packets[0].pts {
            Some(pts) => pts,
            None => {
                return Vec::new();
            },
        };
        let ghost waiting = self.pending_packets@;
        let mut counted: Vec<CopiedPacket> = Vec::new();
        let mut dts: i64 = first;
        let mut index: usize = 0;
        assert(waiting.skip(0) =~= waiting);
        assert(Seq::<CopiedPacket>::empty() + counted_on(waiting, first) =~= counted_on(
            waiting,
            first,
        ));
        while index < self.pending_packets.len()
            invariant
                *self == *old(self),
                waiting == self.pending_packets@,
                index <= waiting.len(),
                counted@ + counted_on(waiting.skip(index as int), dts) == counted_on(waiting, first),
            decreases waiting.len() - index,
        {
            let packet: CopiedPacket = self.pending_packets[index];
            let duration: i64 = if packet.duration >= 1 {
                packet.duration
            } else {
                1
            };
            let ghost before = counted@;
            let ghost rest = waiting.skip(index as int);
            assert(rest.drop_first() =~= waiting.skip(index + 1));
            let stamped: CopiedPacket = CopiedPacket { dts: Some(dts), ..packet };
            counted.push(stamped);
            dts = add_bounded(dts, duration);
            assert(before + (seq![stamped] + counted_on(rest.drop_first(), dts)) =~= counted@
                + counted_on(rest.drop_first(), dts));
            index = index + 1;
        }
        assert(waiting.skip(index as int) =~= Seq::<CopiedPacket>::empty());
        assert(counted@ + Seq::<CopiedPacket>::empty() =~= counted@);
        proof {
            lemma_counted_on(waiting, first);
            lemma_written_all(counted@, self.last_output_dts);
        }
        self.pending_packets = Vec::new();
        self.write_each(&counted)
    }
}

/// A positive number, or another one in its place.
pub fn positive_or(value: i64, fallback: i64) -> (result: i64)
    ensures
        result == if value <= 0 {
            fallback
        } else {
            value
        },
{
    if value <= 0 {
        fallback
    } else {
        value
    }
}

/// How long one frame lasts in parts of the time base: the time base's parts per second over the
/// frames per second, rounded, and at least one.
pub open spec fn frame_length(rate: (i32, i32), time_base: (i32, i32)) -> int {
    if rate.0 > 0 && rate.1 > 0 && time_base.0 > 0 && time_base.1 > 0 {
        let length = quotient(
            product(integer(rate.1 as int), integer(time_base.1 as int)),
            product(integer(rate.0 as int), integer(time_base.0 as int)),
        ).rounded();
        if length < 1 {
            1
        } else if length > i64::MAX {
            i64::MAX as int
        } else {
            length
        }
    } else {
        1
    }
}

/// How long one frame lasts in parts of the time base. Both fractions are numerator and
/// denominator.
pub fn frame_duration(rate: (i32, i32), time_base: (i32, i32)) -> (duration: i64)
    ensures
        duration == frame_length(rate, time_base),
{
    if rate.0 > 0 && rate.1 > 0 && time_base.0 > 0 && time_base.1 > 0 {
        let parts: Binary64 = Binary64::from_integer(rate.1 as u64).times(
            Binary64::from_integer(time_base.1 as u64),
        );
        let frames: Binary64 = Binary64::from_integer(rate.0 as u64).times(
            Binary64::from_integer(time_base.0 as u64),
        );
        let length: u64 = parts.divided_by(frames).round();
        if length < 1 {
            1
        } else if length > i64::MAX as u64 {
            i64::MAX
        } else {
            length as i64
        }
    } else {
        1
    }
}

/// The frames from one keyframe to the next: two seconds of them, as far as the rate is known.
pub fn keyframe_distance(rate: (i32, i32)) -> (frames: u32)
    requires
        rate.0 > 0 && rate.1 > 0 ==> rate.0 / rate.1 <= i32::MAX / 2,
    ensures
        frames == if rate.0 > 0 && rate.1 > 0 {
            if rate.0 as int / rate.1 as int >= 1 {
                2 * (rate.0 as int / rate.1 as int)
            } else {
                2
            }
        } else {
            60
        },
{
    if rate.0 > 0 && rate.1 > 0 {
        let whole: i32 = rate.0 / rate.1;
        if whole >= 1 {
            (whole * 2) as u32
        } else {
            2
        }
    } else {
        60
    }
}

/// The distance of a number from zero.
pub open spec fn magnitude(value: int) -> int {
    if value < 0 {
        -value
    } else {
        value
    }
}

fn magnitude_of(value: i64) -> (result: u64)
    ensures
        result == magnitude(value as int),
{
    if value < 0 {
        (-(value as i128)) as u64
    } else {
        value as u64
    }
}

/// The first audio sample of a frame: its timestamp, in parts of the decoder's time base, times
/// the samples per second, rounded away from zero where two are equally near, and brought into
/// the range of the numbers that there are.
pub open spec fn first_sample(timestamp: i64, time_base: (i32, i32)) -> int {
    if timestamp == 0 || time_base.0 == 0 {
        0
    } else {
        let negative = (timestamp < 0) != ((time_base.0 < 0) != (time_base.1 < 0));
        let samples = if time_base.1 == 0 {
            i64::MAX as int
        } else {
            let value = product(
                quotient(
                    product(
                        integer(magnitude(timestamp as int)),
                        integer(magnitude(time_base.0 as int)),
                    ),
                    integer(magnitude(time_base.1 as int)),
                ),
                integer(AUDIO_RATE as int),
            );
            if value.exponent > 10 {
                i64::MAX as int
            } else {
                value.rounded()
            }
        };
        if negative {
            if samples == i64::MAX {
                i64::MIN as int
            } else {
                -samples
            }
        } else {
            samples
        }
    }
}

/// Samples count from the moment zero: it is the first one, and moments as far before it and
/// behind it lie as many samples away, whichever part of the time base has the sign.
pub proof fn lemma_samples_count_from_zero(timestamp: i64, time_base: (i32, i32))
    requires
        timestamp > i64::MIN,
        time_base.0 > i32::MIN,
        time_base.1 > 0,
        first_sample(timestamp, time_base) > i64::MIN,
        first_sample(timestamp, time_base) < i64::MAX,
    ensures
        first_sample(0, time_base) == 0,
        first_sample((-timestamp) as i64, time_base) == -first_sample(timestamp, time_base),
        first_sample(timestamp, ((-time_base.0) as i32, time_base.1)) == -first_sample(
            timestamp,
            time_base,
        ),
{
}

/// The first audio sample of a frame with a timestamp.
pub fn audio_start(timestamp: i64, time_base: (i32, i32)) -> (sample: i64)
    ensures
        sample == first_sample(timestamp, time_base),
{
    if timestamp == 0 || time_base.0 == 0 {
        return 0;
    }
    let negative: bool = (timestamp < 0) != ((time_base.0 < 0) != (time_base.1 < 0));
    let samples: u64 = if time_base.1 == 0 {
        i64::MAX as u64
    } else {
        let parts: Binary64 = Binary64::from_integer(magnitude_of(timestamp)).times(
            Binary64::from_integer(magnitude_of(time_base.0 as i64)),
        );
        let value: Binary64 = parts.divided_by(
            Binary64::from_integer(magnitude_of(time_base.1 as i64)),
        ).times(Binary64::from_integer(AUDIO_RATE as u64));
        if value.exponent > 10 {
            i64::MAX as u64
        } else {
            value.round()
        }
    };
    if negative {
        if samples == i64::MAX as u64 {
            i64::MIN
        } else {
            -(samples as i64)
        }
    } else {
        samples as i64
    }
}

/// The samples that a resampled frame may have.
pub fn resampled_capacity(samples: usize, rate: u32) -> (capacity: usize)
    requires
        samples * AUDIO_RATE + 256 <= usize::MAX,
    ensures
        capacity == samples * AUDIO_RATE / (if rate == 0 {
            1
        } else {
            rate as int
        }) + 256,
{
    let rate: u64 = if rate == 0 {
        1
    } else {
        rate as u64
    };
    let total: u64 = samples as u64 * AUDIO_RATE as u64;
    assert(total / rate <= total) by (nonlinear_arith)
        requires
            rate >= 1,
    ;
    (total / rate + 256) as usize
}

/// The encoding side of audio: how many samples the next frame takes, and where it starts.
pub struct AudioFrames {
    pub next_pts: Option<i64>,
    pub frame_size: usize,
}

impl AudioFrames {
    /// Notes where the audio starts, once it is known.
    pub fn start_at(&mut self, timestamp: Option<i64>, time_base: (i32, i32))
        ensures
            final(self).frame_size == old(self).frame_size,
            final(self).next_pts == match (old(self).next_pts, timestamp) {
                (Some(pts), _) => Some(pts),
                (None, Some(timestamp)) => Some(first_sample(timestamp, time_base) as i64),
                (None, None) => None,
            },
    {
        if self.next_pts.is_none() {
            if let Some(timestamp) = timestamp {
                self.next_pts = Some(audio_start(timestamp, time_base));
            }
        }
    }

    /// How many samples the next frame takes out of those that wait, where it can be filled. The
    /// last frame may be shorter.
    pub open spec fn taken(self, waiting: usize, last: bool) -> Option<usize> {
        if waiting >= self.frame_size {
            Some(self.frame_size)
        } else if last && waiting > 0 {
            Some(waiting)
        } else {
            None
        }
    }

    /// The next frame: how many samples it takes out of those that wait, and its first sample.
    pub fn next_frame(&mut self, waiting: usize, last: bool) -> (frame: Option<(usize, i64)>)
        requires
            old(self).frame_size > 0,
            old(self).next_pts matches Some(pts) ==> pts + old(self).frame_size <= i64::MAX,
            old(self).frame_size <= i64::MAX,
        ensures
            final(self).frame_size == old(self).frame_size,
            match old(self).taken(waiting, last) {
                None => frame is None && *final(self) == *old(self),
                Some(samples) => {
                    let pts = match old(self).next_pts {
                        Some(pts) => pts,
                        None => 0i64,
                    };
                    &&& frame == Some((samples, pts))
                    &&& final(self).next_pts == Some((pts + samples) as i64)
                },
            },
    {
        let samples: usize = if waiting >= self.frame_size {
            self.frame_size
        } else if last && waiting > 0 {
            waiting
        } else {
            return None;
        };
        let pts: i64 = match self.next_pts {
            Some(pts) => pts,
            None => 0,
        };
        self.next_pts = Some(pts + samples as i64);
        Some((samples, pts))
    }
}

/// Where a packet of the input goes.
#[derive(Clone, Copy, Debug, PartialEq, Eq, Structural)]
pub enum PacketRoute {
    Cancelled,
    EncodeVideo,
    CopyVideo,
    EncodeAudio,
    CopyAudio,
    Ignore,
}

/// Where a packet of the input goes.
pub fn route_packet(cancelled: bool, stream: usize, info: &MediaInfo, tracks: TranscodeTracks) -> (route:
    PacketRoute)
    ensures
        route == if cancelled {
            PacketRoute::Cancelled
        } else if stream == info.video.stream_index {
            if tracks.video {
                PacketRoute::EncodeVideo
            } else {
                PacketRoute::CopyVideo
            }
        } else {
            match info.audio {
                Some(audio) => if stream != audio.stream_index {
                    PacketRoute::Ignore
                } else if tracks.audio {
                    PacketRoute::EncodeAudio
                } else {
                    PacketRoute::CopyAudio
                },
                None => PacketRoute::Ignore,
            }
        },
{
    if cancelled {
        return PacketRoute::Cancelled;
    }
    if stream == info.video.stream_index {
        return if tracks.video {
            PacketRoute::EncodeVideo
        } else {
            PacketRoute::CopyVideo
        };
    }
    match &info.audio {
        Some(audio) => if stream != audio.stream_index {
            PacketRoute::Ignore
        } else if tracks.audio {
            PacketRoute::EncodeAudio
        } else {
            PacketRoute::CopyAudio
        },
        None => PacketRoute::Ignore,
    }
}

/// What happens to a packet that is packed anew.
#[derive(Clone, Copy, Debug, PartialEq, Eq, Structural)]
pub enum RemuxStep {
    Cancelled,
    Skip,
    TimesMissing,
    Write,
}

/// What happens to a packet that is packed anew: only those of the selected streams are written,
/// and they need both of their times.
pub fn remux_step(cancelled: bool, stream: usize, info: &MediaInfo, has_pts: bool, has_dts: bool) -> (step:
    RemuxStep)
    ensures
        ({
            let selected = stream == info.video.stream_index || (info.audio is Some && stream == (
            info.audio->0).stream_index);
            step == if cancelled {
                RemuxStep::Cancelled
            } else if !selected {
                RemuxStep::Skip
            } else if !has_pts || !has_dts {
                RemuxStep::TimesMissing
            } else {
                RemuxStep::Write
            }
        }),
{
    if cancelled {
        return RemuxStep::Cancelled;
    }
    let selected: bool = stream == info.video.stream_index || match &info.audio {
        Some(audio) => stream == audio.stream_index,
        None => false,
    };
    if !selected {
        RemuxStep::Skip
    } else if !has_pts || !has_dts {
        RemuxStep::TimesMissing
    } else {
        RemuxStep::Write
    }
}

/// An option that the output of a growing stream is opened with.
#[derive(Debug)]
pub struct OutputOption {
    pub key: &'static str,
    pub value: String,
}

/// The options by their texts.
pub open spec fn option_texts(options: Seq<OutputOption>) -> Seq<(Seq<char>, Seq<char>)> {
    options.map_values(|option: OutputOption| (option.key@, option.value@))
}

/// The options that the output of a growing stream is opened with. Without an encoder of its own,
/// the stream does not promise that each segment can be decoded by itself.
pub open spec fn hls_options_for(segment_pattern: Seq<char>, tracks: TranscodeTracks) -> Seq<
    (Seq<char>, Seq<char>),
> {
    seq![
        ("hls_segment_type"@, "fmp4"@),
        ("hls_time"@, "2"@),
        ("hls_list_size"@, "0"@),
        ("hls_playlist_type"@, "event"@),
        ("hls_fmp4_init_filename"@, "init.mp4"@),
        ("hls_segment_filename"@, segment_pattern),
        (
            "hls_flags"@,
            if tracks.video {
                "independent_segments+temp_file"@
            } else {
                "temp_file"@
            },
        ),
    ]
}

/// A growing stream is cut into fragments of two seconds, every one of which stays listed, and
/// only a stream with an encoder of its own promises independent segments.
pub proof fn lemma_streams_are_cut_every_two_seconds(segment_pattern: Seq<char>, tracks: TranscodeTracks)
    ensures
        hls_options_for(segment_pattern, tracks).contains(("hls_segment_type"@, "fmp4"@)),
        hls_options_for(segment_pattern, tracks).contains(("hls_time"@, "2"@)),
        hls_options_for(segment_pattern, tracks).contains(("hls_list_size"@, "0"@)),
        hls_options_for(segment_pattern, tracks).contains(("hls_playlist_type"@, "event"@)),
        hls_options_for(segment_pattern, tracks).contains(
            ("hls_fmp4_init_filename"@, "init.mp4"@),
        ),
        hls_options_for(segment_pattern, tracks).contains(
            ("hls_segment_filename"@, segment_pattern),
        ),
        hls_options_for(segment_pattern, tracks).contains(
            (
                "hls_flags"@,
                if tracks.video {
                    "independent_segments+temp_file"@
                } else {
                    "temp_file"@
                },
            ),
        ),
{
    let options = hls_options_for(segment_pattern, tracks);
    assert(options[0] == ("hls_segment_type"@, "fmp4"@));
    assert(options[1] == ("hls_time"@, "2"@));
    assert(options[2] == ("hls_list_size"@, "0"@));
    assert(options[3] == ("hls_playlist_type"@, "event"@));
    assert(options[4] == ("hls_fmp4_init_filename"@, "init.mp4"@));
    assert(options[5] == ("hls_segment_filename"@, segment_pattern));
    assert(options[6].0 == "hls_flags"@);
}

fn output_option(key: &'static str, value: &str) -> (option: OutputOption)
    ensures
        option.key@ == key@,
        option.value@ == value@,
{
    OutputOption { key, value: value.to_owned() }
}

/// The options that the output of a growing stream is opened with.
pub fn hls_options(segment_pattern: &str, tracks: TranscodeTracks) -> (options: Vec<OutputOption>)
    ensures
        option_texts(options@) == hls_options_for(segment_pattern@, tracks),
{
    let mut options: Vec<OutputOption> = Vec::new();
    options.push(output_option("hls_segment_type", "fmp4"));
    options.push(output_option("hls_time", "2"));
    options.push(output_option("hls_list_size", "0"));
    options.push(output_option("hls_playlist_type", "event"));
    options.push(output_option("hls_fmp4_init_filename", "init.mp4"));
    options.push(output_option("hls_segment_filename", segment_pattern));
    let flags: &'static str = if tracks.video {
        "independent_segments+temp_file"
    } else {
        "temp_file"
    };
    options.push(output_option("hls_flags", flags));
    assert(option_texts(options@) =~= hls_options_for(segment_pattern@, tracks));
    options
}

} // verus!
