//! Playing buffered media on a receiver: what is loaded, what its messages mean, which controls it
//! takes, and when the session ends.

use vstd::prelude::*;

use crate::float32::Single;
use crate::text::{decimal, push_decimal};

verus! {

/// What the player does.
#[derive(Clone, Copy, Debug, PartialEq, Eq, Structural)]
pub enum PlaybackState {
    Buffering,
    Playing,
    Paused,
}

/// What is shown of the player. Positions and durations are in seconds.
#[derive(Clone, Copy, Debug, PartialEq, Eq)]
pub struct PlaybackStatus {
    pub state: PlaybackState,
    pub current_time: Option<Single>,
    pub duration: Option<Single>,
    pub playback_rate: Single,
    pub can_pause: bool,
    pub can_seek: bool,
}

/// A control that the user has over the player.
#[derive(Clone, Copy, Debug, PartialEq, Eq, Structural)]
pub enum MediaControl {
    PlayPause,
    Seek,
}

/// How playback ended.
#[derive(Clone, Copy, Debug, PartialEq, Eq, Structural)]
pub enum PlaybackEnd {
    Finished,
    Cancelled,
    Interrupted,
}

/// What a failure is about.
#[derive(Clone, Copy, Debug, PartialEq, Eq, Structural)]
pub enum MediaFailureKind {
    Network,
    Decode,
    Unsupported,
    Other,
}

/// Why playback failed.
#[derive(Debug, PartialEq, Eq)]
pub struct MediaFailure {
    pub kind: MediaFailureKind,
    pub detail: String,
}

/// What a session reports.
#[derive(Debug, PartialEq, Eq)]
pub enum MediaSessionEvent {
    Loading,
    Status(PlaybackStatus),
    ControlError { control: MediaControl, detail: String },
    Ended(PlaybackEnd),
    Failed(MediaFailure),
}

/// What the user asks of a session.
#[derive(Clone, Copy, Debug)]
pub enum MediaSessionCommand {
    TogglePlayback,
    SeekBy(Single),
    Stop,
}

/// An offset that leads nowhere.
#[derive(Clone, Copy, Debug, PartialEq, Eq, Structural)]
pub struct InvalidSeekOffset {}

impl MediaSessionCommand {
    /// A seek by some seconds. They have to be a finite number other than zero.
    pub fn seek_by(seconds: Single) -> (result: Result<Self, InvalidSeekOffset>)
        ensures
            result == if seconds.is_finite() && seconds.rank() != 0 {
                Ok::<Self, InvalidSeekOffset>(MediaSessionCommand::SeekBy(seconds))
            } else {
                Err(InvalidSeekOffset {  })
            },
    {
        let magnitude: u32 = seconds.bits % 0x8000_0000;
        if magnitude != 0 && magnitude < crate::float32::INFINITY_BITS {
            Ok(MediaSessionCommand::SeekBy(seconds))
        } else {
            Err(InvalidSeekOffset {  })
        }
    }
}

/// The error codes of receivers.
#[derive(Clone, Copy, Debug, PartialEq, Eq, Structural)]
pub enum MediaErrorCode {
    App,
    BreakClipLoadingError,
    BreakSeekInterceptorError,
    DashInvalidSegmentInfo,
    DashManifestNoMimeType,
    DashManifestNoPeriods,
    DashManifestUnknown,
    DashNetwork,
    DashNoInit,
    Generic,
    HlsManifestMaster,
    HlsManifestPlaylist,
    HlsNetworkInvalidSegment,
    HlsNetworkKeyLoad,
    HlsNetworkMasterPlaylist,
    HlsNetworkNoKeyResponse,
    HlsNetworkPlaylist,
    HlsSegmentParsing,
    ImageError,
    LoadFailed,
    LoadInterrupted,
    ManifestUnknown,
    MediakeysNetwork,
    MediakeysUnknown,
    MediakeysUnsupported,
    MediakeysWebcrypto,
    MediaAborted,
    MediaDecode,
    MediaErrorMessage,
    MediaNetwork,
    MediaSrcNotSupported,
    MediaUnknown,
    NetworkUnknown,
    SegmentNetwork,
    SegmentUnknown,
    SmoothManifest,
    SmoothNetwork,
    SmoothNoMediaData,
    SourceBufferFailure,
    TextUnknown,
}

impl MediaErrorCode {
    /// The name of the code.
    pub open spec fn spelled(self) -> Seq<char> {
        match self {
            MediaErrorCode::App => "App"@,
            MediaErrorCode::BreakClipLoadingError => "BreakClipLoadingError"@,
            MediaErrorCode::BreakSeekInterceptorError => "BreakSeekInterceptorError"@,
            MediaErrorCode::DashInvalidSegmentInfo => "DashInvalidSegmentInfo"@,
            MediaErrorCode::DashManifestNoMimeType => "DashManifestNoMimeType"@,
            MediaErrorCode::DashManifestNoPeriods => "DashManifestNoPeriods"@,
            MediaErrorCode::DashManifestUnknown => "DashManifestUnknown"@,
            MediaErrorCode::DashNetwork => "DashNetwork"@,
            MediaErrorCode::DashNoInit => "DashNoInit"@,
            MediaErrorCode::Generic => "Generic"@,
            MediaErrorCode::HlsManifestMaster => "HlsManifestMaster"@,
            MediaErrorCode::HlsManifestPlaylist => "HlsManifestPlaylist"@,
            MediaErrorCode::HlsNetworkInvalidSegment => "HlsNetworkInvalidSegment"@,
            MediaErrorCode::HlsNetworkKeyLoad => "HlsNetworkKeyLoad"@,
            MediaErrorCode::HlsNetworkMasterPlaylist => "HlsNetworkMasterPlaylist"@,
            MediaErrorCode::HlsNetworkNoKeyResponse => "HlsNetworkNoKeyResponse"@,
            MediaErrorCode::HlsNetworkPlaylist => "HlsNetworkPlaylist"@,
            MediaErrorCode::HlsSegmentParsing => "HlsSegmentParsing"@,
            MediaErrorCode::ImageError => "ImageError"@,
            MediaErrorCode::LoadFailed => "LoadFailed"@,
            MediaErrorCode::LoadInterrupted => "LoadInterrupted"@,
            MediaErrorCode::ManifestUnknown => "ManifestUnknown"@,
            MediaErrorCode::MediakeysNetwork => "MediakeysNetwork"@,
            MediaErrorCode::MediakeysUnknown => "MediakeysUnknown"@,
            MediaErrorCode::MediakeysUnsupported => "MediakeysUnsupported"@,
            MediaErrorCode::MediakeysWebcrypto => "MediakeysWebcrypto"@,
            MediaErrorCode::MediaAborted => "MediaAborted"@,
            MediaErrorCode::MediaDecode => "MediaDecode"@,
            MediaErrorCode::MediaErrorMessage => "MediaErrorMessage"@,
            MediaErrorCode::MediaNetwork => "MediaNetwork"@,
            MediaErrorCode::MediaSrcNotSupported => "MediaSrcNotSupported"@,
            MediaErrorCode::MediaUnknown => "MediaUnknown"@,
            MediaErrorCode::NetworkUnknown => "NetworkUnknown"@,
            MediaErrorCode::SegmentNetwork => "SegmentNetwork"@,
            MediaErrorCode::SegmentUnknown => "SegmentUnknown"@,
            MediaErrorCode::SmoothManifest => "SmoothManifest"@,
            MediaErrorCode::SmoothNetwork => "SmoothNetwork"@,
            MediaErrorCode::SmoothNoMediaData => "SmoothNoMediaData"@,
            MediaErrorCode::SourceBufferFailure => "SourceBufferFailure"@,
            MediaErrorCode::TextUnknown => "TextUnknown"@,
        }
    }

    /// The name of the code.
    pub fn name(self) -> (name: &'static str)
        ensures
            name@ == self.spelled(),
    {
        match self {
            MediaErrorCode::App => "App",
            MediaErrorCode::BreakClipLoadingError => "BreakClipLoadingError",
            MediaErrorCode::BreakSeekInterceptorError => "BreakSeekInterceptorError",
            MediaErrorCode::DashInvalidSegmentInfo => "DashInvalidSegmentInfo",
            MediaErrorCode::DashManifestNoMimeType => "DashManifestNoMimeType",
            MediaErrorCode::DashManifestNoPeriods => "DashManifestNoPeriods",
            MediaErrorCode::DashManifestUnknown => "DashManifestUnknown",
            MediaErrorCode::DashNetwork => "DashNetwork",
            MediaErrorCode::DashNoInit => "DashNoInit",
            MediaErrorCode::Generic => "Generic",
            MediaErrorCode::HlsManifestMaster => "HlsManifestMaster",
            MediaErrorCode::HlsManifestPlaylist => "HlsManifestPlaylist",
            MediaErrorCode::HlsNetworkInvalidSegment => "HlsNetworkInvalidSegment",
            MediaErrorCode::HlsNetworkKeyLoad => "HlsNetworkKeyLoad",
            MediaErrorCode::HlsNetworkMasterPlaylist => "HlsNetworkMasterPlaylist",
            MediaErrorCode::HlsNetworkNoKeyResponse => "HlsNetworkNoKeyResponse",
            MediaErrorCode::HlsNetworkPlaylist => "HlsNetworkPlaylist",
            MediaErrorCode::HlsSegmentParsing => "HlsSegmentParsing",
            MediaErrorCode::ImageError => "ImageError",
            MediaErrorCode::LoadFailed => "LoadFailed",
            MediaErrorCode::LoadInterrupted => "LoadInterrupted",
            MediaErrorCode::ManifestUnknown => "ManifestUnknown",
            MediaErrorCode::MediakeysNetwork => "MediakeysNetwork",
            MediaErrorCode::MediakeysUnknown => "MediakeysUnknown",
            MediaErrorCode::MediakeysUnsupported => "MediakeysUnsupported",
            MediaErrorCode::MediakeysWebcrypto => "MediakeysWebcrypto",
            MediaErrorCode::MediaAborted => "MediaAborted",
            MediaErrorCode::MediaDecode => "MediaDecode",
            MediaErrorCode::MediaErrorMessage => "MediaErrorMessage",
            MediaErrorCode::MediaNetwork => "MediaNetwork",
            MediaErrorCode::MediaSrcNotSupported => "MediaSrcNotSupported",
            MediaErrorCode::MediaUnknown => "MediaUnknown",
            MediaErrorCode::NetworkUnknown => "NetworkUnknown",
            MediaErrorCode::SegmentNetwork => "SegmentNetwork",
            MediaErrorCode::SegmentUnknown => "SegmentUnknown",
            MediaErrorCode::SmoothManifest => "SmoothManifest",
            MediaErrorCode::SmoothNetwork => "SmoothNetwork",
            MediaErrorCode::SmoothNoMediaData => "SmoothNoMediaData",
            MediaErrorCode::SourceBufferFailure => "SourceBufferFailure",
            MediaErrorCode::TextUnknown => "TextUnknown",
        }
    }

    /// What a failure with this code is about.
    pub open spec fn failure_kind(self) -> MediaFailureKind {
        match self {
            MediaErrorCode::DashNetwork => MediaFailureKind::Network,
            MediaErrorCode::HlsNetworkKeyLoad => MediaFailureKind::Network,
            MediaErrorCode::HlsNetworkMasterPlaylist => MediaFailureKind::Network,
            MediaErrorCode::HlsNetworkNoKeyResponse => MediaFailureKind::Network,
            MediaErrorCode::HlsNetworkPlaylist => MediaFailureKind::Network,
            MediaErrorCode::MediaNetwork => MediaFailureKind::Network,
            MediaErrorCode::NetworkUnknown => MediaFailureKind::Network,
            MediaErrorCode::SegmentNetwork => MediaFailureKind::Network,
            MediaErrorCode::SmoothNetwork => MediaFailureKind::Network,
            MediaErrorCode::MediaDecode => MediaFailureKind::Decode,
            MediaErrorCode::SourceBufferFailure => MediaFailureKind::Decode,
            MediaErrorCode::MediaSrcNotSupported => MediaFailureKind::Unsupported,
            _ => MediaFailureKind::Other,
        }
    }
}

/// The failure that a receiver's error stands for.
pub fn detailed_media_failure(code: MediaErrorCode, message_type: &str) -> (failure: MediaFailure)
    ensures
        failure.kind == code.failure_kind(),
        failure.detail@ == "receiver media error "@ + code.spelled() + " ("@ + message_type@ + ")"@,
{
    let kind: MediaFailureKind = match code {
        MediaErrorCode::DashNetwork | MediaErrorCode::HlsNetworkKeyLoad | MediaErrorCode::HlsNetworkMasterPlaylist | MediaErrorCode::HlsNetworkNoKeyResponse | MediaErrorCode::HlsNetworkPlaylist | MediaErrorCode::MediaNetwork | MediaErrorCode::NetworkUnknown | MediaErrorCode::SegmentNetwork | MediaErrorCode::SmoothNetwork => MediaFailureKind::Network,
        MediaErrorCode::MediaDecode | MediaErrorCode::SourceBufferFailure => MediaFailureKind::Decode,
        MediaErrorCode::MediaSrcNotSupported => MediaFailureKind::Unsupported,
        _ => MediaFailureKind::Other,
    };
    MediaFailure {
        kind,
        detail: "receiver media error ".to_owned().concat(code.name()).concat(" (").concat(
            message_type,
        ).concat(")"),
    }
}

/// What the player reports it does.
#[derive(Clone, Copy, Debug, PartialEq, Eq, Structural)]
pub enum PlayerState {
    Idle,
    Playing,
    Buffering,
    Paused,
}

/// Why the player does nothing.
#[derive(Clone, Copy, Debug, PartialEq, Eq, Structural)]
pub enum IdleReason {
    Cancelled,
    Interrupted,
    Finished,
    Error,
}

/// What a receiver reports of one media session.
#[derive(Debug)]
pub struct StatusEntry {
    pub media_session_id: i32,
    /// The address of the media, where the receiver describes it.
    pub content_id: Option<String>,
    /// The duration of the media, where the receiver describes it.
    pub media_duration: Option<Single>,
    pub playback_rate: Single,
    pub player_state: PlayerState,
    pub idle_reason: Option<IdleReason>,
    pub current_time: Option<Single>,
    pub supported_media_commands: u32,
}

/// A message of a receiver.
#[derive(Debug)]
pub enum ReceiverMessage {
    Ping,
    OtherHeartbeat,
    Status(Vec<StatusEntry>),
    Error { code: MediaErrorCode, message_type: String },
    LoadFailed { request_id: u32 },
    LoadCancelled,
    InvalidPlayerState { request_id: u32 },
    InvalidRequest { reason: Option<String> },
    OtherMedia,
    Close,
    Other,
}

/// Whether the commands of a player hold that of pausing.
pub open spec fn can_pause(commands: u32) -> bool {
    commands % 2 == 1
}

/// Whether the commands of a player hold that of seeking.
pub open spec fn can_seek(commands: u32) -> bool {
    commands / 2 % 2 == 1
}

/// What is known of the player.
#[derive(Clone, Copy, Debug)]
pub struct BufferedPlaybackSnapshot {
    pub state: Option<PlaybackState>,
    pub current_time: Option<Single>,
    pub duration: Option<Single>,
    pub playback_rate: Single,
    pub supported_media_commands: u32,
}

/// A duration, where it is a finite number above zero.
pub open spec fn usable_duration(duration: Option<Single>) -> Option<Single> {
    match duration {
        Some(duration) => if duration.is_finite() && duration.rank() > 0 {
            Some(duration)
        } else {
            None
        },
        None => None,
    }
}

/// A duration, where it is a finite number above zero.
pub fn normalized_duration(duration: Option<Single>) -> (result: Option<Single>)
    ensures
        result == usable_duration(duration),
{
    match duration {
        Some(duration) => if duration.is_finite_and_positive() {
            Some(duration)
        } else {
            None
        },
        None => None,
    }
}

impl BufferedPlaybackSnapshot {
    /// Nothing is known yet but the duration of the source.
    pub fn new(duration: Option<Single>) -> (snapshot: Self)
        ensures
            snapshot == (BufferedPlaybackSnapshot {
                state: None,
                current_time: None,
                duration: usable_duration(duration),
                playback_rate: Single { bits: 0 },
                supported_media_commands: 0,
            }),
    {
        BufferedPlaybackSnapshot {
            state: None,
            current_time: None,
            duration: normalized_duration(duration),
            playback_rate: Single { bits: 0 },
            supported_media_commands: 0,
        }
    }

    /// What is known after a report. A duration that is known stays: what receivers report of a
    /// growing stream is the window that they have buffered.
    pub open spec fn updated(self, state: PlaybackState, entry: StatusEntry) -> Self {
        BufferedPlaybackSnapshot {
            state: Some(state),
            current_time: match entry.current_time {
                Some(time) => if time.is_finite() && time.rank() >= 0 {
                    Some(time)
                } else {
                    self.current_time
                },
                None => self.current_time,
            },
            duration: match self.duration {
                Some(duration) => Some(duration),
                None => usable_duration(entry.media_duration),
            },
            playback_rate: if entry.playback_rate.is_finite() {
                entry.playback_rate
            } else {
                Single { bits: 0 }
            },
            supported_media_commands: entry.supported_media_commands,
        }
    }

    /// What is shown of the player in a state.
    pub open spec fn shown(self, state: PlaybackState) -> PlaybackStatus {
        PlaybackStatus {
            state,
            current_time: self.current_time,
            duration: self.duration,
            playback_rate: self.playback_rate,
            can_pause: can_pause(self.supported_media_commands),
            can_seek: can_seek(self.supported_media_commands),
        }
    }
}

/// A known duration is never replaced.
pub proof fn lemma_known_durations_stay(
    snapshot: BufferedPlaybackSnapshot,
    state: PlaybackState,
    entry: StatusEntry,
)
    requires
        snapshot.duration is Some,
    ensures
        snapshot.updated(state, entry).duration == snapshot.duration,
{
}

/// What a report leads to: an event, where there is one, and whether it ends the session.
#[derive(Debug)]
pub struct Emission {
    pub event: Option<MediaSessionEvent>,
    pub terminal: bool,
}

/// The state that a player in motion is in.
pub open spec fn moving_state(state: PlayerState) -> Option<PlaybackState> {
    match state {
        PlayerState::Idle => None,
        PlayerState::Playing => Some(PlaybackState::Playing),
        PlayerState::Buffering => Some(PlaybackState::Buffering),
        PlayerState::Paused => Some(PlaybackState::Paused),
    }
}

/// Whether an event is the one that an idle player stands for.
pub open spec fn idle_event(reason: IdleReason, event: MediaSessionEvent) -> bool {
    match reason {
        IdleReason::Finished => event == MediaSessionEvent::Ended(PlaybackEnd::Finished),
        IdleReason::Cancelled => event == MediaSessionEvent::Ended(PlaybackEnd::Cancelled),
        IdleReason::Interrupted => event == MediaSessionEvent::Ended(PlaybackEnd::Interrupted),
        IdleReason::Error => failed_with(
            event,
            MediaFailureKind::Other,
            "receiver reported a media playback error"@,
        ),
    }
}

/// Whether an event is a failure of this kind with this detail.
pub open spec fn failed_with(event: MediaSessionEvent, kind: MediaFailureKind, detail: Seq<char>) -> bool {
    match event {
        MediaSessionEvent::Failed(failure) => failure.kind == kind && failure.detail@ == detail,
        _ => false,
    }
}

/// Whether an emission is what a report stands for.
pub open spec fn emission_for(
    before: BufferedPlaybackSnapshot,
    entry: StatusEntry,
    emission: Emission,
    after: BufferedPlaybackSnapshot,
) -> bool {
    match moving_state(entry.player_state) {
        Some(state) => {
            &&& after == before.updated(state, entry)
            &&& emission.event == Some(MediaSessionEvent::Status(after.shown(state)))
            &&& !emission.terminal
        },
        None => {
            &&& after == before
            &&& emission.terminal == (entry.idle_reason is Some)
            &&& match (entry.idle_reason, emission.event) {
                (Some(reason), Some(event)) => idle_event(reason, event),
                (None, None) => true,
                _ => false,
            }
        },
    }
}

fn ended(end: PlaybackEnd) -> (emission: Emission)
    ensures
        emission.event == Some(MediaSessionEvent::Ended(end)),
        emission.terminal,
{
    Emission { event: Some(MediaSessionEvent::Ended(end)), terminal: true }
}

fn failed(kind: MediaFailureKind, detail: String) -> (emission: Emission)
    ensures
        emission.event matches Some(event) && failed_with(event, kind, detail@),
        emission.terminal,
{
    Emission {
        event: Some(MediaSessionEvent::Failed(MediaFailure { kind, detail })),
        terminal: true,
    }
}

fn nothing() -> (emission: Emission)
    ensures
        emission.event is None,
        !emission.terminal,
{
    Emission { event: None, terminal: false }
}

/// Takes the report of the session in.
pub fn emit_status_entry(entry: &StatusEntry, snapshot: &mut BufferedPlaybackSnapshot) -> (emission: Emission)
    ensures
        emission_for(*old(snapshot), *entry, emission, *final(snapshot)),
{
    let state: PlaybackState = match entry.player_state {
        PlayerState::Idle => {
            return match entry.idle_reason {
                Some(IdleReason::Finished) => ended(PlaybackEnd::Finished),
                Some(IdleReason::Cancelled) => ended(PlaybackEnd::Cancelled),
                Some(IdleReason::Interrupted) => ended(PlaybackEnd::Interrupted),
                Some(IdleReason::Error) => failed(
                    MediaFailureKind::Other,
                    "receiver reported a media playback error".to_owned(),
                ),
                None => nothing(),
            };
        },
        PlayerState::Buffering => PlaybackState::Buffering,
        PlayerState::Playing => PlaybackState::Playing,
        PlayerState::Paused => PlaybackState::Paused,
    };
    snapshot.state = Some(state);
    if let Some(time) = entry.current_time {
        if time.is_finite_and_not_negative() {
            snapshot.current_time = Some(time);
        }
    }
    if snapshot.duration.is_none() {
        snapshot.duration = normalized_duration(entry.media_duration);
    }
    snapshot.playback_rate =
    if entry.playback_rate.bits % 0x8000_0000 < crate::float32::INFINITY_BITS {
        entry.playback_rate
    } else {
        Single { bits: 0 }
    };
    snapshot.supported_media_commands = entry.supported_media_commands;
    Emission {
        event: Some(
            MediaSessionEvent::Status(
                PlaybackStatus {
                    state,
                    current_time: snapshot.current_time,
                    duration: snapshot.duration,
                    playback_rate: snapshot.playback_rate,
                    can_pause: snapshot.supported_media_commands % 2 == 1,
                    can_seek: snapshot.supported_media_commands / 2 % 2 == 1,
                },
            ),
        ),
        terminal: false,
    }
}

/// The position of the first report of a session from `start` on, or the number of reports.
pub open spec fn entry_from(entries: Seq<StatusEntry>, session: i32, start: int) -> int
    decreases entries.len() - start,
{
    if start >= entries.len() {
        entries.len() as int
    } else if entries[start].media_session_id == session {
        start
    } else {
        entry_from(entries, session, start + 1)
    }
}

/// Whether an emission is what a list of reports stands for: the first one of the session counts.
pub open spec fn emission_for_status(
    before: BufferedPlaybackSnapshot,
    entries: Seq<StatusEntry>,
    session: i32,
    emission: Emission,
    after: BufferedPlaybackSnapshot,
) -> bool {
    let index = entry_from(entries, session, 0);
    if index < entries.len() {
        emission_for(before, entries[index], emission, after)
    } else {
        after == before && emission.event is None && !emission.terminal
    }
}

/// Takes a list of reports in.
pub fn emit_status(
    entries: &[StatusEntry],
    media_session_id: i32,
    snapshot: &mut BufferedPlaybackSnapshot,
) -> (emission: Emission)
    ensures
        emission_for_status(
            *old(snapshot),
            entries@,
            media_session_id,
            emission,
            *final(snapshot),
        ),
{
    let mut index: usize = 0;
    while index < entries.len()
        invariant
            index <= entries@.len(),
            *snapshot == *old(snapshot),
            entry_from(entries@, media_session_id, 0) == entry_from(
                entries@,
                media_session_id,
                index as int,
            ),
        decreases entries@.len() - index,
    {
        if entries[index].media_session_id == media_session_id {
            return emit_status_entry(&entries[index], snapshot);
        }
        index = index + 1;
    }
    nothing()
}

/// The first report from `start` on that describes the media with an address, or the number of
/// reports.
pub open spec fn entry_of_url(entries: Seq<StatusEntry>, url: Seq<char>, start: int) -> int
    decreases entries.len() - start,
{
    if start >= entries.len() {
        entries.len() as int
    } else if entries[start].content_id is Some && (entries[start].content_id->0)@ == url {
        start
    } else {
        entry_of_url(entries, url, start + 1)
    }
}

/// The entry of a URL is the first one that plays it.
pub proof fn lemma_media_are_found_by_their_url(entries: Seq<StatusEntry>, url: Seq<char>, start: int)
    requires
        0 <= start <= entries.len(),
    ensures
        start <= entry_of_url(entries, url, start) <= entries.len(),
        entry_of_url(entries, url, start) < entries.len() ==> (entries[entry_of_url(
            entries,
            url,
            start,
        )].content_id matches Some(id) && id@ == url),
        forall|i: int|
            start <= i < entry_of_url(entries, url, start) ==> ((
            #[trigger] entries[i]).content_id is Some ==> (entries[i].content_id->0)@ != url),
    decreases entries.len() - start,
{
    if start < entries.len() && !(entries[start].content_id is Some && (
    entries[start].content_id->0)@ == url) {
        lemma_media_are_found_by_their_url(entries, url, start + 1);
    }
}

/// The session that a load started: that of the loaded address, or else the first one.
pub fn loaded_session(entries: &[StatusEntry], url: &String) -> (session: Option<i32>)
    ensures
        session == if entries@.len() == 0 {
            None
        } else {
            let index = entry_of_url(entries@, url@, 0);
            if index < entries@.len() {
                Some(entries@[index].media_session_id)
            } else {
                Some(entries@[0].media_session_id)
            }
        },
{
    let mut index: usize = 0;
    while index < entries.len()
        invariant
            index <= entries@.len(),
            entry_of_url(entries@, url@, 0) == entry_of_url(entries@, url@, index as int),
        decreases entries@.len() - index,
    {
        if let Some(content_id) = &entries[index].content_id {
            if content_id.eq(url) {
                return Some(entries[index].media_session_id);
            }
        }
        index = index + 1;
    }
    if entries.len() > 0 {
        Some(entries[0].media_session_id)
    } else {
        None
    }
}

/// Whether a message ends the session and says why. It counts before every other message that
/// came with it.
pub open spec fn is_detailed_terminal(message: ReceiverMessage) -> bool {
    message is Error || message is LoadFailed || message is LoadCancelled || message
        is InvalidPlayerState || message is InvalidRequest || message is Close
}

/// Whether a message ends the session and says why.
pub fn is_detailed_terminal_message(message: &ReceiverMessage) -> (result: bool)
    ensures
        result == is_detailed_terminal(*message),
{
    match message {
        ReceiverMessage::Error { .. } => true,
        ReceiverMessage::LoadFailed { .. } => true,
        ReceiverMessage::LoadCancelled => true,
        ReceiverMessage::InvalidPlayerState { .. } => true,
        ReceiverMessage::InvalidRequest { .. } => true,
        ReceiverMessage::Close => true,
        _ => false,
    }
}

/// The first message from `start` on that ends the session, or the number of messages.
pub open spec fn first_terminal(messages: Seq<ReceiverMessage>, start: int) -> int
    decreases messages.len() - start,
{
    if start >= messages.len() {
        messages.len() as int
    } else if is_detailed_terminal(messages[start]) {
        start
    } else {
        first_terminal(messages, start + 1)
    }
}

/// The message that alone is handled, where one ends the session.
pub fn terminal_message(messages: &[ReceiverMessage]) -> (index: Option<usize>)
    ensures
        match index {
            Some(index) => index == first_terminal(messages@, 0) && index < messages@.len(),
            None => first_terminal(messages@, 0) == messages@.len(),
        },
{
    let mut index: usize = 0;
    while index < messages.len()
        invariant
            index <= messages@.len(),
            first_terminal(messages@, 0) == first_terminal(messages@, index as int),
        decreases messages@.len() - index,
    {
        if is_detailed_terminal_message(&messages[index]) {
            return Some(index);
        }
        index = index + 1;
    }
    None
}

/// The message of some that came together that is handled next, where so many were handled and
/// `ended` says whether the last of those ended the session. One that ends the session and says
/// why is handled alone. Without one they are handled in order, until one ends the session.
pub open spec fn message_after(messages: Seq<ReceiverMessage>, handled: int, ended: bool) -> Option<
    int,
> {
    let terminal = first_terminal(messages, 0);
    if ended {
        None
    } else if terminal < messages.len() {
        if handled == 0 {
            Some(terminal)
        } else {
            None
        }
    } else if handled < messages.len() {
        Some(handled)
    } else {
        None
    }
}

/// The message of some that came together that is handled next.
pub fn next_message(messages: &[ReceiverMessage], handled: usize, ended: bool) -> (next: Option<usize>)
    ensures
        match next {
            Some(next) => message_after(messages@, handled as int, ended) == Some(next as int)
                && next < messages@.len(),
            None => message_after(messages@, handled as int, ended) is None,
        },
{
    if ended {
        return None;
    }
    match terminal_message(messages) {
        Some(index) => if handled == 0 {
            Some(index)
        } else {
            None
        },
        None => if handled < messages.len() {
            Some(handled)
        } else {
            None
        },
    }
}

/// What a message leads to.
#[derive(Debug)]
pub struct Handled {
    /// Whether a heartbeat has to be answered.
    pub pong: bool,
    pub emission: Emission,
}

/// The detail of a refused request.
pub open spec fn refusal_detail(reason: Option<String>) -> Seq<char> {
    match reason {
        Some(reason) => "receiver rejected the media request: "@ + reason@,
        None => "receiver rejected the media request"@,
    }
}

/// Whether an event is what a message that ends the session stands for.
pub open spec fn terminal_event(message: ReceiverMessage, event: MediaSessionEvent) -> bool {
    match message {
        ReceiverMessage::Error { code, message_type } => failed_with(
            event,
            code.failure_kind(),
            "receiver media error "@ + code.spelled() + " ("@ + message_type@ + ")"@,
        ),
        ReceiverMessage::LoadFailed { request_id } => failed_with(
            event,
            MediaFailureKind::Other,
            "receiver failed to load the media (request "@ + decimal(request_id as nat) + ")"@,
        ),
        ReceiverMessage::LoadCancelled => event == MediaSessionEvent::Ended(
            PlaybackEnd::Interrupted,
        ),
        ReceiverMessage::InvalidPlayerState { request_id } => failed_with(
            event,
            MediaFailureKind::Other,
            "receiver rejected the command because the player state was invalid (request "@
                + decimal(request_id as nat) + ")"@,
        ),
        ReceiverMessage::InvalidRequest { reason } => failed_with(
            event,
            MediaFailureKind::Other,
            refusal_detail(reason),
        ),
        ReceiverMessage::Close => failed_with(
            event,
            MediaFailureKind::Network,
            "receiver closed the media connection"@,
        ),
        _ => false,
    }
}

fn numbered_detail(start: &str, request_id: u32) -> (detail: String)
    ensures
        detail@ == start@ + decimal(request_id as nat) + ")"@,
{
    let mut detail: String = start.to_owned();
    push_decimal(&mut detail, request_id as u64);
    detail.concat(")")
}

/// Handles a message of the receiver.
pub fn handle_buffered_message(
    message: &ReceiverMessage,
    media_session_id: i32,
    snapshot: &mut BufferedPlaybackSnapshot,
) -> (handled: Handled)
    ensures
        handled.pong == (*message is Ping),
        match *message {
            ReceiverMessage::Status(entries) => emission_for_status(
                *old(snapshot),
                entries@,
                media_session_id,
                handled.emission,
                *final(snapshot),
            ),
            _ => {
                &&& *final(snapshot) == *old(snapshot)
                &&& handled.emission.terminal == is_detailed_terminal(*message)
                &&& match handled.emission.event {
                    Some(event) => terminal_event(*message, event),
                    None => !is_detailed_terminal(*message),
                }
            },
        },
{
    let emission: Emission = match message {
        ReceiverMessage::Ping => {
            return Handled { pong: true, emission: nothing() };
        },
        ReceiverMessage::Status(entries) => emit_status(
            entries.as_slice(),
            media_session_id,
            snapshot,
        ),
        ReceiverMessage::Error { code, message_type } => Emission {
            event: Some(
                MediaSessionEvent::Failed(detailed_media_failure(*code, message_type.as_str())),
            ),
            terminal: true,
        },
        ReceiverMessage::LoadFailed { request_id } => failed(
            MediaFailureKind::Other,
            numbered_detail("receiver failed to load the media (request ", *request_id),
        ),
        ReceiverMessage::LoadCancelled => ended(PlaybackEnd::Interrupted),
        ReceiverMessage::InvalidPlayerState { request_id } => failed(
            MediaFailureKind::Other,
            numbered_detail(
                "receiver rejected the command because the player state was invalid (request ",
                *request_id,
            ),
        ),
        ReceiverMessage::InvalidRequest { reason } => failed(
            MediaFailureKind::Other,
            match reason {
                Some(reason) => "receiver rejected the media request: ".to_owned().concat(
                    reason.as_str(),
                ),
                None => "receiver rejected the media request".to_owned(),
            },
        ),
        ReceiverMessage::Close => failed(
            MediaFailureKind::Network,
            "receiver closed the media connection".to_owned(),
        ),
        ReceiverMessage::OtherHeartbeat => nothing(),
        ReceiverMessage::OtherMedia => nothing(),
        ReceiverMessage::Other => nothing(),
    };
    Handled { pong: false, emission }
}

/// Whether a message explains why a load failed.
pub open spec fn explains_load_failure(message: ReceiverMessage) -> bool {
    message is Error || message is LoadFailed
}

/// What a message means after a load failed: only errors and failed loads explain it.
pub fn load_failure(message: &ReceiverMessage) -> (handled: Handled)
    ensures
        handled.pong == (*message is Ping),
        handled.emission.terminal == explains_load_failure(*message),
        match handled.emission.event {
            Some(event) => explains_load_failure(*message) && terminal_event(*message, event),
            None => !explains_load_failure(*message),
        },
{
    match message {
        ReceiverMessage::Ping => Handled { pong: true, emission: nothing() },
        ReceiverMessage::Error { code, message_type } => Handled {
            pong: false,
            emission: Emission {
                event: Some(
                    MediaSessionEvent::Failed(detailed_media_failure(*code, message_type.as_str())),
                ),
                terminal: true,
            },
        },
        ReceiverMessage::LoadFailed { request_id } => Handled {
            pong: false,
            emission: failed(
                MediaFailureKind::Other,
                numbered_detail("receiver failed to load the media (request ", *request_id),
            ),
        },
        _ => Handled { pong: false, emission: nothing() },
    }
}

/// What the player does after a seek.
#[derive(Clone, Copy, Debug, PartialEq, Eq, Structural)]
pub enum ResumeState {
    PlaybackStart,
    PlaybackPause,
}

/// What the player does after a seek: what it did before.
pub open spec fn resumed(state: Option<PlaybackState>) -> Option<ResumeState> {
    match state {
        Some(PlaybackState::Playing) => Some(ResumeState::PlaybackStart),
        Some(PlaybackState::Paused) => Some(ResumeState::PlaybackPause),
        _ => None,
    }
}

/// What the player does after a seek: what it did before.
pub fn seek_resume_state(state: Option<PlaybackState>) -> (resume: Option<ResumeState>)
    ensures
        resume == resumed(state),
{
    match state {
        Some(PlaybackState::Playing) => Some(ResumeState::PlaybackStart),
        Some(PlaybackState::Paused) => Some(ResumeState::PlaybackPause),
        Some(PlaybackState::Buffering) => None,
        None => None,
    }
}

/// Where a seek leads: the sum of the position and the offset, but not before the start, and not
/// past the end where it is known.
pub open spec fn seek_goal(sum: Single, duration: Option<Single>) -> Single {
    match duration {
        Some(duration) => if duration.is_finite() && duration.rank() >= 0 {
            sum.raised_to_zero().lowered_to(duration)
        } else {
            sum.raised_to_zero()
        },
        None => sum.raised_to_zero(),
    }
}

/// Where a seek leads, given the sum of the position and the offset.
pub fn seek_target(sum: Single, duration: Option<Single>) -> (target: Single)
    ensures
        target.rank() == seek_goal(sum, duration).rank(),
        match duration {
            Some(limit) => limit.is_finite() && limit.rank() >= 0 ==> target.rank()
                <= limit.rank(),
            None => true,
        },
        target.rank() >= 0,
{
    let target: Single = sum.at_least_zero();
    match duration {
        Some(duration) => if duration.is_finite_and_not_negative() {
            if duration.bits == 0x8000_0000 {
                target.at_most(Single { bits: 0 })
            } else {
                target.at_most(duration)
            }
        } else {
            target
        },
        None => target,
    }
}

/// What a control leads to.
#[derive(Clone, Copy, Debug, PartialEq, Eq, Structural)]
pub enum ToggleAction {
    Pause,
    Play,
    PauseUnsupported,
    NotReady,
}

/// What a press of the play/pause control leads to.
pub open spec fn toggled(snapshot: BufferedPlaybackSnapshot) -> ToggleAction {
    match snapshot.state {
        Some(PlaybackState::Playing) => if can_pause(snapshot.supported_media_commands) {
            ToggleAction::Pause
        } else {
            ToggleAction::PauseUnsupported
        },
        Some(PlaybackState::Paused) => ToggleAction::Play,
        _ => ToggleAction::NotReady,
    }
}

/// What a press of the play/pause control leads to.
pub fn toggle_buffered_playback(snapshot: &BufferedPlaybackSnapshot) -> (action: ToggleAction)
    ensures
        action == toggled(*snapshot),
{
    match snapshot.state {
        Some(PlaybackState::Playing) => if snapshot.supported_media_commands % 2 == 1 {
            ToggleAction::Pause
        } else {
            ToggleAction::PauseUnsupported
        },
        Some(PlaybackState::Paused) => ToggleAction::Play,
        Some(PlaybackState::Buffering) => ToggleAction::NotReady,
        None => ToggleAction::NotReady,
    }
}

/// What a seek needs.
#[derive(Clone, Copy, Debug)]
pub struct SeekPlan {
    pub resume: ResumeState,
    pub current_time: Single,
    pub duration: Option<Single>,
}

/// Why a seek is not made.
#[derive(Clone, Copy, Debug, PartialEq, Eq, Structural)]
pub enum SeekRefusal {
    Unsupported,
    NotReady,
    PositionUnknown,
}

/// Whether a result is what a seek needs, or why it is not made.
pub open spec fn seek_planned(
    snapshot: BufferedPlaybackSnapshot,
    result: Result<SeekPlan, SeekRefusal>,
) -> bool {
    match result {
        Ok(plan) => {
            &&& can_seek(snapshot.supported_media_commands)
            &&& snapshot.state == Some(match plan.resume {
                ResumeState::PlaybackStart => PlaybackState::Playing,
                ResumeState::PlaybackPause => PlaybackState::Paused,
            })
            &&& snapshot.current_time == Some(plan.current_time)
            &&& plan.duration == snapshot.duration
        },
        Err(SeekRefusal::Unsupported) => !can_seek(snapshot.supported_media_commands),
        Err(SeekRefusal::NotReady) => can_seek(snapshot.supported_media_commands) && (
        snapshot.state is None || snapshot.state == Some(PlaybackState::Buffering)),
        Err(SeekRefusal::PositionUnknown) => can_seek(snapshot.supported_media_commands) && (
        snapshot.state == Some(PlaybackState::Playing) || snapshot.state == Some(
            PlaybackState::Paused,
        )) && snapshot.current_time is None,
    }
}

/// What a seek needs, or why it is not made.
pub fn seek_buffered_playback(snapshot: &BufferedPlaybackSnapshot) -> (result: Result<
    SeekPlan,
    SeekRefusal,
>)
    ensures
        seek_planned(*snapshot, result),
{
    if snapshot.supported_media_commands / 2 % 2 == 0 {
        return Err(SeekRefusal::Unsupported);
    }
    match seek_resume_state(snapshot.state) {
        None => Err(SeekRefusal::NotReady),
        Some(resume) => match snapshot.current_time {
            None => Err(SeekRefusal::PositionUnknown),
            Some(current_time) => Ok(
                SeekPlan { resume, current_time, duration: snapshot.duration },
            ),
        },
    }
}

/// After a report that is not idle, what is known of the player and what is shown of it is what
/// the receiver reported, and the controls act on it: a paused player plays on and a playing one
/// is paused, where it can be, and a seek goes on in the state that the player was in.
pub proof fn lemma_reported_states_are_kept(
    before: BufferedPlaybackSnapshot,
    entry: StatusEntry,
    emission: Emission,
    after: BufferedPlaybackSnapshot,
)
    requires
        emission_for(before, entry, emission, after),
        entry.player_state != PlayerState::Idle,
    ensures
        !emission.terminal,
        emission.event matches Some(MediaSessionEvent::Status(status)) && {
            &&& Some(status.state) == after.state
            &&& status.current_time == after.current_time
            &&& status.duration == after.duration
            &&& status.playback_rate == after.playback_rate
            &&& status.can_pause <==> entry.supported_media_commands & 1 == 1
            &&& status.can_seek <==> entry.supported_media_commands & 2 == 2
        },
        after.state == Some(PlaybackState::Playing) <==> entry.player_state == PlayerState::Playing,
        after.state == Some(PlaybackState::Buffering) <==> entry.player_state
            == PlayerState::Buffering,
        after.state == Some(PlaybackState::Paused) <==> entry.player_state == PlayerState::Paused,
        entry.player_state == PlayerState::Paused ==> toggled(after) == ToggleAction::Play,
        entry.player_state == PlayerState::Playing ==> toggled(after) == if entry.supported_media_commands
            & 1 == 1 {
            ToggleAction::Pause
        } else {
            ToggleAction::PauseUnsupported
        },
        entry.player_state == PlayerState::Buffering ==> toggled(after) == ToggleAction::NotReady,
        entry.player_state == PlayerState::Paused ==> resumed(after.state) == Some(
            ResumeState::PlaybackPause,
        ),
        entry.player_state == PlayerState::Playing ==> resumed(after.state) == Some(
            ResumeState::PlaybackStart,
        ),
        entry.player_state == PlayerState::Buffering ==> resumed(after.state) is None,
        entry.current_time matches Some(time) ==> (time.is_finite() && time.rank() >= 0
            ==> after.current_time == Some(time)),
        entry.current_time is None ==> after.current_time == before.current_time,
        before.duration is None ==> after.duration == usable_duration(entry.media_duration),
        before.duration is Some ==> after.duration == before.duration,
{
    let commands = entry.supported_media_commands;
    assert(commands % 2 == 1 <==> commands & 1 == 1) by (bit_vector);
    assert(commands / 2 % 2 == 1 <==> commands & 2 == 2) by (bit_vector);
}

/// An idle player that says why ends the session with its reason, and one that does not say why
/// changes nothing.
pub proof fn lemma_idle_players_end_the_session(
    before: BufferedPlaybackSnapshot,
    entry: StatusEntry,
    emission: Emission,
    after: BufferedPlaybackSnapshot,
)
    requires
        emission_for(before, entry, emission, after),
        entry.player_state == PlayerState::Idle,
    ensures
        after == before,
        emission.terminal <==> entry.idle_reason is Some,
        entry.idle_reason is None <==> emission.event is None,
        entry.idle_reason == Some(IdleReason::Finished) <==> emission.event == Some(
            MediaSessionEvent::Ended(PlaybackEnd::Finished),
        ),
        entry.idle_reason == Some(IdleReason::Cancelled) <==> emission.event == Some(
            MediaSessionEvent::Ended(PlaybackEnd::Cancelled),
        ),
        entry.idle_reason == Some(IdleReason::Interrupted) <==> emission.event == Some(
            MediaSessionEvent::Ended(PlaybackEnd::Interrupted),
        ),
        entry.idle_reason == Some(IdleReason::Error) <==> (emission.event matches Some(
            MediaSessionEvent::Failed(failure),
        ) && failure.kind == MediaFailureKind::Other),
{
}

/// A seek after a report is made exactly where the receiver can seek, plays or pauses, and has
/// told its position; it goes on from there in the reported state.
pub proof fn lemma_seeks_go_on_as_reported(
    before: BufferedPlaybackSnapshot,
    entry: StatusEntry,
    emission: Emission,
    after: BufferedPlaybackSnapshot,
    result: Result<SeekPlan, SeekRefusal>,
)
    requires
        emission_for(before, entry, emission, after),
        entry.player_state != PlayerState::Idle,
        seek_planned(after, result),
    ensures
        result is Ok <==> entry.supported_media_commands & 2 == 2 && entry.player_state
            != PlayerState::Buffering && after.current_time is Some,
        result matches Ok(plan) ==> {
            &&& entry.player_state == PlayerState::Paused <==> plan.resume
                == ResumeState::PlaybackPause
            &&& entry.player_state == PlayerState::Playing <==> plan.resume
                == ResumeState::PlaybackStart
            &&& after.current_time == Some(plan.current_time)
            &&& plan.duration == after.duration
        },
        result == Err::<SeekPlan, SeekRefusal>(SeekRefusal::Unsupported)
            <==> entry.supported_media_commands & 2 != 2,
        result == Err::<SeekPlan, SeekRefusal>(SeekRefusal::NotReady)
            <==> entry.supported_media_commands & 2 == 2 && entry.player_state
            == PlayerState::Buffering,
{
    let commands = entry.supported_media_commands;
    assert(commands / 2 % 2 == 1 <==> commands & 2 == 2) by (bit_vector);
    assert(commands & 2 != 2 <==> !(commands & 2 == 2));
}

/// The first report of the session counts, and reports of other sessions change nothing.
pub proof fn lemma_other_sessions_change_nothing(
    before: BufferedPlaybackSnapshot,
    entries: Seq<StatusEntry>,
    session: i32,
    emission: Emission,
    after: BufferedPlaybackSnapshot,
)
    requires
        emission_for_status(before, entries, session, emission, after),
    ensures
        (forall|i: int|
            0 <= i < entries.len() ==> (#[trigger] entries[i]).media_session_id != session)
            ==> after == before && emission.event is None && !emission.terminal,
        forall|i: int|
            0 <= i < entries.len() && (#[trigger] entries[i]).media_session_id == session && (
            forall|j: int| 0 <= j < i ==> (#[trigger] entries[j]).media_session_id != session)
                ==> emission_for(before, entries[i], emission, after),
{
    lemma_entry_from(entries, session, 0);
}

proof fn lemma_entry_from(entries: Seq<StatusEntry>, session: i32, start: int)
    requires
        0 <= start <= entries.len(),
    ensures
        start <= entry_from(entries, session, start) <= entries.len(),
        entry_from(entries, session, start) < entries.len() ==> entries[entry_from(
            entries,
            session,
            start,
        )].media_session_id == session,
        forall|i: int|
            start <= i < entry_from(entries, session, start) ==> (
            #[trigger] entries[i]).media_session_id != session,
    decreases entries.len() - start,
{
    if start < entries.len() && entries[start].media_session_id != session {
        lemma_entry_from(entries, session, start + 1);
    }
}

/// Where some messages came together and one of them ends the session and says why, the first such
/// one is handled alone. Otherwise each is handled in its turn, until one ends the session.
pub proof fn lemma_reasons_are_handled_alone(messages: Seq<ReceiverMessage>, handled: int, ended: bool)
    requires
        0 <= handled,
    ensures
        ended ==> message_after(messages, handled, ended) is None,
        forall|i: int|
            0 <= i < messages.len() && is_detailed_terminal(#[trigger] messages[i]) && (forall|
                j: int,
            |
                0 <= j < i ==> !is_detailed_terminal(#[trigger] messages[j])) && !ended
                ==> message_after(messages, handled, ended) == if handled == 0 {
                Some(i)
            } else {
                None
            },
        (forall|i: int| 0 <= i < messages.len() ==> !is_detailed_terminal(#[trigger] messages[i]))
            && !ended ==> message_after(messages, handled, ended) == if handled < messages.len() {
            Some(handled)
        } else {
            None
        },
{
    lemma_first_terminal(messages, 0);
}

proof fn lemma_first_terminal(messages: Seq<ReceiverMessage>, start: int)
    requires
        0 <= start <= messages.len(),
    ensures
        start <= first_terminal(messages, start) <= messages.len(),
        first_terminal(messages, start) < messages.len() ==> is_detailed_terminal(
            messages[first_terminal(messages, start)],
        ),
        forall|i: int|
            start <= i < first_terminal(messages, start) ==> !is_detailed_terminal(
                #[trigger] messages[i],
            ),
    decreases messages.len() - start,
{
    if start < messages.len() && !is_detailed_terminal(messages[start]) {
        lemma_first_terminal(messages, start + 1);
    }
}

/// Every message that ends a session is told apart by its event: a closed connection is a network
/// failure, a cancelled load an interruption, and what the receiver refuses is a failure.
pub proof fn lemma_last_messages_say_why(message: ReceiverMessage, event: MediaSessionEvent)
    requires
        terminal_event(message, event),
    ensures
        is_detailed_terminal(message),
        message is LoadCancelled <==> event == MediaSessionEvent::Ended(PlaybackEnd::Interrupted),
        !(message is LoadCancelled) ==> event is Failed,
        message is Close ==> (event matches MediaSessionEvent::Failed(failure) && failure.kind
            == MediaFailureKind::Network),
        message is LoadFailed || message is InvalidPlayerState || message is InvalidRequest ==> (
        event matches MediaSessionEvent::Failed(failure) && failure.kind
            == MediaFailureKind::Other),
        message matches ReceiverMessage::Error { code, .. } ==> (
        event matches MediaSessionEvent::Failed(failure) && failure.kind == code.failure_kind()),
{
}

/// What a receiver's error is about: nine codes are about the network, two about decoding, and one
/// about media that is not supported.
pub proof fn lemma_error_codes_tell_the_kind(code: MediaErrorCode)
    ensures
        code.failure_kind() == MediaFailureKind::Network <==> code is DashNetwork
            || code is HlsNetworkKeyLoad || code is HlsNetworkMasterPlaylist
            || code is HlsNetworkNoKeyResponse || code is HlsNetworkPlaylist || code is MediaNetwork
            || code is NetworkUnknown || code is SegmentNetwork || code is SmoothNetwork,
        code.failure_kind() == MediaFailureKind::Decode <==> code is MediaDecode
            || code is SourceBufferFailure,
        code.failure_kind() == MediaFailureKind::Unsupported <==> code is MediaSrcNotSupported,
{
}

/// A seek never leads before the start, nor past the end where it is known, and leads to the sum
/// of the position and the offset where that lies between them.
pub proof fn lemma_seeks_stay_in_the_media(sum: Single, duration: Single)
    requires
        !sum.is_nan(),
        duration.is_finite(),
        duration.rank() >= 0,
    ensures
        0 <= seek_goal(sum, Some(duration)).rank() <= duration.rank(),
        0 <= sum.rank() <= duration.rank() ==> seek_goal(sum, Some(duration)).rank() == sum.rank(),
        sum.rank() < 0 ==> seek_goal(sum, Some(duration)).rank() == 0,
        sum.rank() > duration.rank() ==> seek_goal(sum, Some(duration)).rank() == duration.rank(),
        sum.rank() >= 0 ==> seek_goal(sum, None).rank() == sum.rank(),
{
}

/// The event of a control that was not carried out.
pub fn control_error(control: MediaControl, detail: &str) -> (event: MediaSessionEvent)
    ensures
        event matches MediaSessionEvent::ControlError { control: named, detail: text } && named
            == control && text@ == detail@,
{
    MediaSessionEvent::ControlError { control, detail: detail.to_owned() }
}

impl ToggleAction {
    /// The message of a press that is not carried out.
    pub fn refusal(self) -> (detail: Option<&'static str>)
        ensures
            match self {
                ToggleAction::PauseUnsupported => detail matches Some(text) && text@
                    == "receiver does not advertise pause support"@,
                ToggleAction::NotReady => detail matches Some(text) && text@
                    == "play/pause is unavailable until playback is ready"@,
                _ => detail is None,
            },
    {
        match self {
            ToggleAction::PauseUnsupported => Some("receiver does not advertise pause support"),
            ToggleAction::NotReady => Some("play/pause is unavailable until playback is ready"),
            ToggleAction::Pause => None,
            ToggleAction::Play => None,
        }
    }
}

impl SeekRefusal {
    /// The message of a seek that is not made.
    pub fn detail(self) -> (detail: &'static str)
        ensures
            detail@ == match self {
                SeekRefusal::Unsupported => "receiver does not advertise seek support"@,
                SeekRefusal::NotReady => "seek is unavailable until playback is ready"@,
                SeekRefusal::PositionUnknown =>
                    "receiver has not reported the current playback position"@,
            },
    {
        match self {
            SeekRefusal::Unsupported => "receiver does not advertise seek support",
            SeekRefusal::NotReady => "seek is unavailable until playback is ready",
            SeekRefusal::PositionUnknown => "receiver has not reported the current playback position",
        }
    }
}

/// Where a running session stands.
#[derive(Clone, Copy, Debug, PartialEq, Eq, Structural)]
pub enum SessionPhase {
    /// Messages that came with the load's answer are handled.
    LoadMessages,
    /// The load's answer is handled.
    LoadStatus,
    /// Messages that came meanwhile are handled.
    Messages,
    /// A command is waited for.
    Command,
    /// A command is carried out.
    Control,
    /// The status is asked for.
    Poll,
    /// Messages that came with the status are handled.
    PolledMessages,
    /// The status is handled.
    PolledStatus,
    /// The receiver's application is stopped.
    Stop,
    /// The session is over and the receiver goes on.
    Leave,
}

/// What happened in a phase.
#[derive(Clone, Copy, Debug)]
pub enum SessionEvent {
    /// The phase is done, and the session goes on.
    Done,
    /// The session ended, or nobody listens to it any more.
    Terminal,
    /// A command came.
    Command(MediaSessionCommand),
    /// No command came in time.
    TimedOut,
    /// No command can come any more.
    Disconnected,
}

/// The next phase of a session.
pub open spec fn phase_after(phase: SessionPhase, event: SessionEvent) -> SessionPhase {
    match (phase, event) {
        (SessionPhase::Stop, _) => SessionPhase::Stop,
        (SessionPhase::Leave, _) => SessionPhase::Leave,
        (_, SessionEvent::Terminal) => SessionPhase::Stop,
        (SessionPhase::Command, SessionEvent::Command(MediaSessionCommand::Stop)) =>
            SessionPhase::Stop,
        (SessionPhase::Command, SessionEvent::Command(_)) => SessionPhase::Control,
        (SessionPhase::Command, SessionEvent::Disconnected) => SessionPhase::Leave,
        (SessionPhase::LoadMessages, _) => SessionPhase::LoadStatus,
        (SessionPhase::LoadStatus, _) => SessionPhase::Messages,
        (SessionPhase::Messages, _) => SessionPhase::Command,
        (SessionPhase::Command, _) => SessionPhase::Poll,
        (SessionPhase::Control, _) => SessionPhase::Poll,
        (SessionPhase::Poll, _) => SessionPhase::PolledMessages,
        (SessionPhase::PolledMessages, _) => SessionPhase::PolledStatus,
        (SessionPhase::PolledStatus, _) => SessionPhase::Messages,
    }
}

/// The next phase of a session.
pub fn next_phase(phase: SessionPhase, event: SessionEvent) -> (next: SessionPhase)
    ensures
        next == phase_after(phase, event),
{
    if phase == SessionPhase::Stop || phase == SessionPhase::Leave {
        return phase;
    }
    match event {
        SessionEvent::Terminal => {
            return SessionPhase::Stop;
        },
        SessionEvent::Command(command) => {
            if phase == SessionPhase::Command {
                return match command {
                    MediaSessionCommand::Stop => SessionPhase::Stop,
                    _ => SessionPhase::Control,
                };
            }
        },
        SessionEvent::Disconnected => {
            if phase == SessionPhase::Command {
                return SessionPhase::Leave;
            }
        },
        _ => {},
    }
    match phase {
        SessionPhase::LoadMessages => SessionPhase::LoadStatus,
        SessionPhase::LoadStatus => SessionPhase::Messages,
        SessionPhase::Messages => SessionPhase::Command,
        SessionPhase::Command => SessionPhase::Poll,
        SessionPhase::Control => SessionPhase::Poll,
        SessionPhase::Poll => SessionPhase::PolledMessages,
        SessionPhase::PolledMessages => SessionPhase::PolledStatus,
        SessionPhase::PolledStatus => SessionPhase::Messages,
        SessionPhase::Stop => SessionPhase::Stop,
        SessionPhase::Leave => SessionPhase::Leave,
    }
}

/// Whatever ends a session stops the receiver's application, except that nobody is left to ask:
/// only a missing commander leaves the receiver alone.
pub proof fn lemma_sessions_stop_the_receiver(phase: SessionPhase, event: SessionEvent)
    requires
        phase != SessionPhase::Stop,
        phase != SessionPhase::Leave,
    ensures
        event is Terminal ==> phase_after(phase, event) == SessionPhase::Stop,
        phase_after(phase, event) == SessionPhase::Leave <==> phase == SessionPhase::Command
            && event is Disconnected,
        phase_after(phase, event) == SessionPhase::Command <==> phase == SessionPhase::Messages
            && !(event is Terminal),
{
}

/// A session goes round: it loads, handles what came, waits for a command, carries it out, asks
/// for the status and handles that, and is back where it waits.
pub proof fn lemma_sessions_go_round()
    ensures
        phase_after(SessionPhase::LoadMessages, SessionEvent::Done) == SessionPhase::LoadStatus,
        phase_after(SessionPhase::LoadStatus, SessionEvent::Done) == SessionPhase::Messages,
        phase_after(SessionPhase::Messages, SessionEvent::Done) == SessionPhase::Command,
        phase_after(SessionPhase::Command, SessionEvent::TimedOut) == SessionPhase::Poll,
        phase_after(SessionPhase::Control, SessionEvent::Done) == SessionPhase::Poll,
        phase_after(SessionPhase::Poll, SessionEvent::Done) == SessionPhase::PolledMessages,
        phase_after(SessionPhase::PolledMessages, SessionEvent::Done)
            == SessionPhase::PolledStatus,
        phase_after(SessionPhase::PolledStatus, SessionEvent::Done) == SessionPhase::Messages,
        forall|command: MediaSessionCommand|
            #[trigger] phase_after(SessionPhase::Command, SessionEvent::Command(command)) == if command
                is Stop {
                SessionPhase::Stop
            } else {
                SessionPhase::Control
            },
{
}

/// How the format of segments is named to receivers.
#[derive(Clone, Copy, Debug, PartialEq, Eq, Structural)]
pub enum HlsSegmentFormat {
    Aac,
    Fmp4,
}

/// How the format of video segments is named to receivers.
#[derive(Clone, Copy, Debug, PartialEq, Eq, Structural)]
pub enum HlsVideoSegmentFormat {
    Mpeg2Ts,
    Fmp4,
}

/// What a receiver is asked to load.
#[derive(Debug)]
pub struct MediaLoad {
    pub url: String,
    pub content_type: String,
    pub live: bool,
    pub hls_segment_format: Option<HlsSegmentFormat>,
    pub hls_video_segment_format: Option<HlsVideoSegmentFormat>,
}

impl MediaLoad {
    /// Media at an address.
    pub fn cast_url(url: &str, content_type: &str, live: bool) -> (load: Self)
        ensures
            load.url@ == url@,
            load.content_type@ == content_type@,
            load.live == live,
            load.hls_segment_format is None,
            load.hls_video_segment_format is None,
    {
        MediaLoad {
            url: url.to_owned(),
            content_type: content_type.to_owned(),
            live,
            hls_segment_format: None,
            hls_video_segment_format: None,
        }
    }

    /// An HLS stream with video segments of a format.
    pub fn cast_url_with_hls_video_format(
        url: &str,
        content_type: &str,
        live: bool,
        format: HlsVideoSegmentFormat,
    ) -> (load: Self)
        ensures
            load.url@ == url@,
            load.content_type@ == content_type@,
            load.live == live,
            load.hls_segment_format == if format == HlsVideoSegmentFormat::Fmp4 {
                Some(HlsSegmentFormat::Fmp4)
            } else {
                None
            },
            load.hls_video_segment_format == Some(format),
    {
        MediaLoad {
            url: url.to_owned(),
            content_type: content_type.to_owned(),
            live,
            hls_segment_format: if format == HlsVideoSegmentFormat::Fmp4 {
                Some(HlsSegmentFormat::Fmp4)
            } else {
                None
            },
            hls_video_segment_format: Some(format),
        }
    }

    /// A live HLS stream of fragmented MP4 segments.
    pub fn cast_fmp4_hls(url: &str) -> (load: Self)
        ensures
            load.url@ == url@,
            load.content_type@ == "application/x-mpegURL"@,
            load.live,
            load.hls_segment_format == Some(HlsSegmentFormat::Fmp4),
            load.hls_video_segment_format == Some(HlsVideoSegmentFormat::Fmp4),
    {
        MediaLoad {
            url: url.to_owned(),
            content_type: "application/x-mpegURL".to_owned(),
            live: true,
            hls_segment_format: Some(HlsSegmentFormat::Fmp4),
            hls_video_segment_format: Some(HlsVideoSegmentFormat::Fmp4),
        }
    }

    /// Where playback starts: other media than a live stream start at the beginning, in seconds. A
    /// live stream starts at its live edge, for which no position is given.
    pub fn start_position(&self) -> (position: Option<Single>)
        ensures
            position == if self.live {
                None
            } else {
                Some(Single { bits: 0 })
            },
    {
        if self.live {
            None
        } else {
            Some(Single { bits: 0 })
        }
    }

    /// How the media is described to the receiver. A live stream has the duration minus one.
    pub fn description(&self) -> (media: MediaDescription)
        ensures
            media.content_id@ == self.url@,
            media.content_type@ == self.content_type@,
            media.live == self.live,
            media.hls_segment_format == self.hls_segment_format,
            media.hls_video_segment_format == self.hls_video_segment_format,
            media.duration == if self.live {
                Some(Single { bits: 0xbf80_0000 })
            } else {
                None
            },
    {
        MediaDescription {
            content_id: self.url.clone(),
            content_type: self.content_type.clone(),
            live: self.live,
            hls_segment_format: self.hls_segment_format,
            hls_video_segment_format: self.hls_video_segment_format,
            duration: if self.live {
                Some(Single { bits: 0xbf80_0000 })
            } else {
                None
            },
        }
    }
}

/// How media is described to a receiver.
#[derive(Debug)]
pub struct MediaDescription {
    pub content_id: String,
    pub content_type: String,
    pub live: bool,
    pub hls_segment_format: Option<HlsSegmentFormat>,
    pub hls_video_segment_format: Option<HlsVideoSegmentFormat>,
    pub duration: Option<Single>,
}

/// What a receiver is asked to load and play from a position.
#[derive(Debug)]
pub struct BufferedMediaLoad {
    pub url: String,
    pub content_type: String,
    pub duration: Option<Single>,
    pub fmp4_hls: bool,
    pub interactive: bool,
}

impl BufferedMediaLoad {
    /// A file.
    pub fn file(url: String, content_type: String, duration: Option<Single>, interactive: bool) -> (load:
        Self)
        ensures
            load == (BufferedMediaLoad { url, content_type, duration, fmp4_hls: false, interactive }),
    {
        BufferedMediaLoad { url, content_type, duration, fmp4_hls: false, interactive }
    }

    /// An HLS stream of fragmented MP4 segments.
    pub fn fmp4_hls(url: String, duration: Option<Single>, interactive: bool) -> (load: Self)
        ensures
            load.url == url,
            load.content_type@ == "application/x-mpegURL"@,
            load.duration == duration,
            load.fmp4_hls,
            load.interactive == interactive,
    {
        BufferedMediaLoad {
            url,
            content_type: "application/x-mpegURL".to_owned(),
            duration,
            fmp4_hls: true,
            interactive,
        }
    }
}

/// How buffered media is described to the receiver.
pub fn buffered_media(media_load: &BufferedMediaLoad) -> (media: MediaDescription)
    ensures
        media.content_id@ == media_load.url@,
        media.content_type@ == media_load.content_type@,
        !media.live,
        media.hls_segment_format == if media_load.fmp4_hls {
            Some(HlsSegmentFormat::Fmp4)
        } else {
            None
        },
        media.hls_video_segment_format == if media_load.fmp4_hls {
            Some(HlsVideoSegmentFormat::Fmp4)
        } else {
            None
        },
        media.duration == usable_duration(media_load.duration),
{
    MediaDescription {
        content_id: media_load.url.clone(),
        content_type: media_load.content_type.clone(),
        live: false,
        hls_segment_format: if media_load.fmp4_hls {
            Some(HlsSegmentFormat::Fmp4)
        } else {
            None
        },
        hls_video_segment_format: if media_load.fmp4_hls {
            Some(HlsVideoSegmentFormat::Fmp4)
        } else {
            None
        },
        duration: normalized_duration(media_load.duration),
    }
}

/// What a session's worker said when it was asked to stop.
#[derive(Debug)]
pub enum DoneSignal {
    Reported(Result<(), String>),
    Gone,
    Late,
}

/// Whether the connection has to be interrupted before the worker can be waited for.
pub fn needs_interrupt(signal: &DoneSignal) -> (interrupt: bool)
    ensures
        interrupt == (*signal is Late),
{
    match signal {
        DoneSignal::Late => true,
        _ => false,
    }
}

/// How a session ended: with what its worker reported at once, or else with what it reported
/// before it ended.
pub fn shutdown_outcome(signal: DoneSignal, panicked: bool, late: Option<Result<(), String>>) -> (result:
    Result<(), String>)
    ensures
        if panicked {
            result matches Err(error) && error@ == "buffered Cast control thread panicked"@
        } else {
            match (signal, late) {
                (DoneSignal::Reported(reported), _) => result == reported,
                (_, Some(reported)) => result == reported,
                (_, None) => result matches Err(error) && error@
                    == "buffered Cast control thread ended without reporting its result"@,
            }
        },
{
    if panicked {
        return Err("buffered Cast control thread panicked".to_owned());
    }
    match signal {
        DoneSignal::Reported(reported) => reported,
        _ => match late {
            Some(reported) => reported,
            None => Err(
                "buffered Cast control thread ended without reporting its result".to_owned(),
            ),
        },
    }
}

} // verus!
