//! Answers to the HTTP requests that receivers make for a live stream.

use vstd::prelude::*;
use vstd::utf8::{decode_utf8, encode_utf8, valid_utf8};

use crate::bytes::push_bytes;
use crate::hls::{
    lemma_segments_are_found_by_number, master_playlist, master_text, HlsStore, StoreView,
};
use crate::text::{
    characters, decimal, find_char, has_prefix, index_of_char, is_word, lemma_decimal_round_trips,
    lemma_index_of_char, lemma_texts_are_taken_apart, lemma_words_are_taken_apart, parse_unsigned,
    push_decimal, spaced, spells, split_words, starts_with, subcharacters, unsigned_number, words,
};

verus! {

/// What `String::from_utf8_lossy` makes of some bytes.
pub uninterp spec fn lossy_text(bytes: Seq<u8>) -> Seq<char>;

/// Calls `String::from_utf8_lossy`.
///
/// Claims that the text depends on the bytes alone, and that valid UTF-8 decodes to itself. What
/// stands in place of invalid bytes is not said.
#[verifier::external_body]
fn lossy(bytes: &[u8]) -> (text: String)
    ensures
        text@ == lossy_text(bytes@),
        valid_utf8(bytes@) ==> text@ == decode_utf8(bytes@),
{
    String::from_utf8_lossy(bytes).into_owned()
}

/// What is sent back for a path.
#[derive(Debug)]
pub struct HttpBody {
    pub content_type: &'static str,
    pub data: Vec<u8>,
}

#[verifier::ext_equal]
pub struct BodyView {
    pub content_type: Seq<char>,
    pub data: Seq<u8>,
}

impl View for HttpBody {
    type V = BodyView;

    open spec fn view(&self) -> BodyView {
        BodyView { content_type: self.content_type@, data: self.data@ }
    }
}

/// A body as far as there is one.
pub open spec fn body_view(body: Option<HttpBody>) -> Option<BodyView> {
    match body {
        Some(body) => Some(body@),
        None => None,
    }
}

/// A body of text.
pub open spec fn text_body(content_type: Seq<char>, text: Seq<char>) -> BodyView {
    BodyView { content_type, data: encode_utf8(text) }
}

fn text_answer(content_type: &'static str, text: &str) -> (body: HttpBody)
    ensures
        body@ == text_body(content_type@, text@),
{
    let data: Vec<u8> = copy_of(text.as_bytes());
    HttpBody { content_type, data }
}

fn copy_of(data: &[u8]) -> (copy: Vec<u8>)
    ensures
        copy@ == data@,
{
    let mut copy: Vec<u8> = Vec::new();
    push_bytes(&mut copy, data);
    assert(copy@ =~= data@);
    copy
}

/// Whether a text ends with another.
pub open spec fn has_suffix(text: Seq<char>, suffix: Seq<char>) -> bool {
    suffix.len() <= text.len() && text.skip(text.len() - suffix.len()) == suffix
}

/// The number between a prefix and a suffix.
pub open spec fn number_between(path: Seq<char>, prefix: Seq<char>, suffix: Seq<char>) -> Option<nat> {
    let rest = path.skip(prefix.len() as int);
    if has_prefix(path, prefix) && has_suffix(rest, suffix) {
        unsigned_number(rest.take(rest.len() - suffix.len()), u64::MAX as nat)
    } else {
        None
    }
}

fn find_number(path: &[char], prefix: &str, suffix: &str) -> (number: Option<u64>)
    ensures
        match number {
            Some(number) => number_between(path@, prefix@, suffix@) == Some(number as nat),
            None => number_between(path@, prefix@, suffix@) is None,
        },
{
    if !starts_with(path, prefix) {
        return None;
    }
    let skipped: usize = characters(prefix).len();
    let ending: Vec<char> = characters(suffix);
    let ghost rest = path@.skip(prefix@.len() as int);
    if path.len() - skipped < ending.len() {
        return None;
    }
    let end: usize = path.len() - ending.len();
    let tail: Vec<char> = subcharacters(path, end, path.len());
    assert(tail@ =~= rest.skip(rest.len() - suffix@.len()));
    if !spells(tail.as_slice(), suffix) {
        return None;
    }
    let middle: Vec<char> = subcharacters(path, skipped, end);
    assert(middle@ =~= rest.take(rest.len() - suffix@.len()));
    parse_unsigned(middle.as_slice(), u64::MAX)
}

/// A number that stands between a prefix and a suffix is read back.
proof fn lemma_number_is_read_back(number: u64, prefix: Seq<char>, suffix: Seq<char>)
    ensures
        number_between(prefix + decimal(number as nat) + suffix, prefix, suffix) == Some(
            number as nat,
        ),
{
    let digits = decimal(number as nat);
    let path = prefix + digits + suffix;
    let rest = path.skip(prefix.len() as int);
    assert(path.take(prefix.len() as int) =~= prefix);
    assert(rest.skip(rest.len() - suffix.len()) =~= suffix);
    assert(rest.take(rest.len() - suffix.len()) =~= digits);
    lemma_decimal_round_trips(number as nat);
    assert(crate::text::is_digit(digits[0]));
}

/// The content types of a stream.
pub open spec fn playlist_type() -> Seq<char> {
    "application/vnd.apple.mpegurl"@
}

/// What the store answers for a path. Audio is there only where it is enabled and advertised to
/// the receiver.
pub open spec fn store_answer(store: HlsStore, path: Seq<char>, advertise_audio: bool) -> Option<
    BodyView,
> {
    let audio = store.audio_enabled && advertise_audio;
    if path == "/"@ {
        Some(text_body("text/plain; charset=utf-8"@, "cast is running\n"@))
    } else if path == "/master.m3u8"@ {
        match store.metadata {
            Some(metadata) => Some(
                text_body(
                    playlist_type(),
                    master_text(
                        metadata.codec@,
                        metadata.width,
                        metadata.height,
                        metadata.fps,
                        metadata.bandwidth,
                        audio,
                    ),
                ),
            ),
            None => None,
        }
    } else if path == "/live.m3u8"@ {
        Some(text_body(playlist_type(), store@.video_playlist()))
    } else if path == "/audio.m3u8"@ && audio {
        Some(text_body(playlist_type(), store@.sound_playlist()))
    } else if path == "/init.mp4"@ {
        match store.init {
            Some(init) => Some(BodyView { content_type: "video/mp4"@, data: init@ }),
            None => None,
        }
    } else if has_prefix(path, "/audio-"@) && audio {
        match number_between(path, "/audio-"@, ".aac"@) {
            Some(number) => audio_segment(store@, number as u64),
            None => None,
        }
    } else {
        match number_between(path, "/segment-"@, ".m4s"@) {
            Some(number) => video_segment(store@, number as u64),
            None => None,
        }
    }
}

/// The video of the segment with a number.
pub open spec fn video_segment(store: StoreView, number: u64) -> Option<BodyView> {
    let position = store.position_of(number);
    if position < store.segments.len() {
        Some(
            BodyView {
                content_type: "video/iso.segment"@,
                data: store.segments[position].video,
            },
        )
    } else {
        None
    }
}

/// The audio of the segment with a number.
pub open spec fn audio_segment(store: StoreView, number: u64) -> Option<BodyView> {
    let position = store.position_of(number);
    if position < store.segments.len() {
        match store.segments[position].audio {
            Some(data) => Some(BodyView { content_type: "audio/aac"@, data }),
            None => None,
        }
    } else {
        None
    }
}

/// A segment is served under its own number: nothing is served under one that no segment has.
pub proof fn lemma_other_numbers_are_not_served(store: StoreView, number: u64)
    ensures
        (forall|i: int|
            0 <= i < store.segments.len() ==> (#[trigger] store.segments[i]).sequence != number)
            ==> video_segment(store, number) is None && audio_segment(store, number) is None,
        video_segment(store, number) matches Some(body) ==> exists|i: int|
            0 <= i < store.segments.len() && (#[trigger] store.segments[i]).sequence == number
                && body.data == store.segments[i].video,
        audio_segment(store, number) matches Some(body) ==> exists|i: int|
            0 <= i < store.segments.len() && (#[trigger] store.segments[i]).sequence == number
                && Some(body.data) == store.segments[i].audio,
{
    lemma_segments_are_found_by_number(store, number);
    let position = store.position_of(number);
    if position < store.segments.len() {
        assert(store.segments[position].sequence == number);
    }
}

/// What is counted where a path is asked for: playlists and the initialization segment whenever
/// they are asked for, media segments where they are there.
#[derive(Clone, Copy, Debug, PartialEq, Eq, Structural)]
pub enum Asked {
    Nothing,
    Playlist,
    Init,
    Media,
}

/// What is counted where a path is asked for.
pub open spec fn asked(path: Seq<char>, audio: bool, answered: bool) -> Asked {
    if path == "/"@ {
        Asked::Nothing
    } else if path == "/master.m3u8"@ || path == "/live.m3u8"@ || (path == "/audio.m3u8"@ && audio) {
        Asked::Playlist
    } else if path == "/init.mp4"@ {
        Asked::Init
    } else if answered {
        Asked::Media
    } else {
        Asked::Nothing
    }
}

impl HlsStore {
    /// The store after something was counted.
    pub open spec fn counting(self, asked: Asked) -> HlsStore {
        HlsStore {
            playlist_requests: if asked == Asked::Playlist {
                self.playlist_requests.wrapping_add(1)
            } else {
                self.playlist_requests
            },
            init_requests: if asked == Asked::Init {
                self.init_requests.wrapping_add(1)
            } else {
                self.init_requests
            },
            segment_requests: if asked == Asked::Media {
                self.segment_requests.wrapping_add(1)
            } else {
                self.segment_requests
            },
            ..self
        }
    }

    fn video_answer(&self, path: &[char]) -> (body: Option<HttpBody>)
        ensures
            body_view(body) == match number_between(path@, "/segment-"@, ".m4s"@) {
                Some(number) => video_segment(self@, number as u64),
                None => None,
            },
    {
        match find_number(path, "/segment-", ".m4s") {
            Some(number) => {
                let index: usize = self.find_segment(number);
                if index < self.segments.len() {
                    assert(self@.segments[index as int] == self.segments@[index as int]@);
                    Some(
                        HttpBody {
                            content_type: "video/iso.segment",
                            data: copy_of(self.segments[index].video.as_slice()),
                        },
                    )
                } else {
                    None
                }
            },
            None => None,
        }
    }

    fn audio_answer(&self, path: &[char]) -> (body: Option<HttpBody>)
        ensures
            body_view(body) == match number_between(path@, "/audio-"@, ".aac"@) {
                Some(number) => audio_segment(self@, number as u64),
                None => None,
            },
    {
        match find_number(path, "/audio-", ".aac") {
            Some(number) => {
                let index: usize = self.find_segment(number);
                if index < self.segments.len() {
                    assert(self@.segments[index as int] == self.segments@[index as int]@);
                    match &self.segments[index].audio {
                        Some(data) => Some(
                            HttpBody {
                                content_type: "audio/aac",
                                data: copy_of(data.as_slice()),
                            },
                        ),
                        None => None,
                    }
                } else {
                    None
                }
            },
            None => None,
        }
    }

    /// Answers a request for a path.
    pub fn response(&mut self, path: &str, advertise_audio: bool) -> (body: Option<HttpBody>)
        requires
            old(self).well_formed(),
        ensures
            final(self).well_formed(),
            body_view(body) == store_answer(*old(self), path@, advertise_audio),
            *final(self) == old(self).counting(
                asked(path@, old(self).audio_enabled && advertise_audio, body is Some),
            ),
    {
        let name: Vec<char> = characters(path);
        let audio: bool = self.audio_enabled && advertise_audio;
        if spells(name.as_slice(), "/") {
            return Some(text_answer("text/plain; charset=utf-8", "cast is running\n"));
        }
        if spells(name.as_slice(), "/master.m3u8") {
            self.playlist_requests = self.playlist_requests.wrapping_add(1);
            return match &self.metadata {
                Some(metadata) => {
                    let text: String = master_playlist(
                        metadata.codec.as_str(),
                        metadata.width,
                        metadata.height,
                        metadata.fps,
                        metadata.bandwidth,
                        audio,
                    );
                    Some(text_answer("application/vnd.apple.mpegurl", text.as_str()))
                },
                None => None,
            };
        }
        if spells(name.as_slice(), "/live.m3u8") {
            self.playlist_requests = self.playlist_requests.wrapping_add(1);
            let text: String = self.playlist();
            return Some(text_answer("application/vnd.apple.mpegurl", text.as_str()));
        }
        if audio && spells(name.as_slice(), "/audio.m3u8") {
            self.playlist_requests = self.playlist_requests.wrapping_add(1);
            let text: String = self.audio_playlist();
            return Some(text_answer("application/vnd.apple.mpegurl", text.as_str()));
        }
        if spells(name.as_slice(), "/init.mp4") {
            self.init_requests = self.init_requests.wrapping_add(1);
            return match &self.init {
                Some(data) => Some(
                    HttpBody { content_type: "video/mp4", data: copy_of(data.as_slice()) },
                ),
                None => None,
            };
        }
        let body: Option<HttpBody> = if audio && starts_with(name.as_slice(), "/audio-") {
            self.audio_answer(name.as_slice())
        } else {
            self.video_answer(name.as_slice())
        };
        if body.is_some() {
            self.segment_requests = self.segment_requests.wrapping_add(1);
        }
        body
    }
}

/// A receiver's private route into one of the stores.
pub struct HlsRoute {
    pub name: String,
    pub store: usize,
    /// Whether audio is advertised to the receiver.
    pub audio: bool,
}

/// The position of the first route with a name from `start` on, or the number of routes.
pub open spec fn route_from(routes: Seq<HlsRoute>, name: Seq<char>, start: int) -> int
    decreases routes.len() - start,
{
    if start >= routes.len() {
        routes.len() as int
    } else if routes[start].name@ == name {
        start
    } else {
        route_from(routes, name, start + 1)
    }
}

/// The route that a path names, and the path inside its store.
pub open spec fn split_route(path: Seq<char>) -> Option<(Seq<char>, Seq<char>)> {
    if path.len() > 0 && path[0] == '/' {
        let rest = path.skip(1);
        let end = index_of_char(rest, '/');
        Some((
            rest.take(end),
            seq!['/'] + if end < rest.len() {
                rest.skip(end + 1)
            } else {
                Seq::empty()
            },
        ))
    } else {
        None
    }
}

/// Which route answers a path.
pub open spec fn route_of(routes: Seq<HlsRoute>, path: Seq<char>) -> Option<int> {
    match split_route(path) {
        Some((name, _)) => {
            let index = route_from(routes, name, 0);
            if index < routes.len() {
                Some(index)
            } else {
                None
            }
        },
        None => None,
    }
}

/// What a path is answered.
pub open spec fn routed(routes: Seq<HlsRoute>, stores: Seq<HlsStore>, path: Seq<char>) -> Option<
    BodyView,
> {
    match (route_of(routes, path), split_route(path)) {
        (Some(index), Some((_, inner))) => store_answer(
            stores[routes[index].store as int],
            inner,
            routes[index].audio,
        ),
        _ => None,
    }
}

/// The stores after a path was asked for.
pub open spec fn stores_after(routes: Seq<HlsRoute>, stores: Seq<HlsStore>, path: Seq<char>) -> Seq<
    HlsStore,
> {
    match (route_of(routes, path), split_route(path)) {
        (Some(index), Some((_, inner))) => {
            let store = stores[routes[index].store as int];
            stores.update(
                routes[index].store as int,
                store.counting(
                    asked(
                        inner,
                        store.audio_enabled && routes[index].audio,
                        routed(routes, stores, path) is Some,
                    ),
                ),
            )
        },
        _ => stores,
    }
}

/// Whether every route leads to a store, and every store is in order.
pub open spec fn routes_lead_to_stores(routes: Seq<HlsRoute>, stores: Seq<HlsStore>) -> bool {
    &&& forall|i: int| 0 <= i < routes.len() ==> (#[trigger] routes[i]).store < stores.len()
    &&& forall|i: int| 0 <= i < stores.len() ==> (#[trigger] stores[i]).well_formed()
}

fn find_route(routes: &[HlsRoute], name: &[char]) -> (index: usize)
    ensures
        index == route_from(routes@, name@, 0),
        index <= routes@.len(),
{
    let mut index: usize = 0;
    while index < routes.len()
        invariant
            index <= routes@.len(),
            route_from(routes@, name@, 0) == route_from(routes@, name@, index as int),
        decreases routes@.len() - index,
    {
        if spells(name, routes[index].name.as_str()) {
            return index;
        }
        index = index + 1;
    }
    index
}

/// Answers a request for a path under the routes of one interface.
pub fn routed_response(routes: &[HlsRoute], stores: &mut Vec<HlsStore>, path: &str) -> (body: Option<
    HttpBody,
>)
    requires
        routes_lead_to_stores(routes@, old(stores)@),
    ensures
        routes_lead_to_stores(routes@, final(stores)@),
        body_view(body) == routed(routes@, old(stores)@, path@),
        final(stores)@ == stores_after(routes@, old(stores)@, path@),
{
    let name: Vec<char> = characters(path);
    if name.len() == 0 || name[0] != '/' {
        return None;
    }
    let rest: Vec<char> = subcharacters(name.as_slice(), 1, name.len());
    assert(rest@ =~= path@.skip(1));
    let end: usize = find_char(rest.as_slice(), '/');
    let route: Vec<char> = subcharacters(rest.as_slice(), 0, end);
    assert(route@ =~= rest@.take(end as int));
    let index: usize = find_route(routes, route.as_slice());
    if index >= routes.len() {
        return None;
    }
    let mut inner: String = "/".to_owned();
    if end < rest.len() {
        let tail: String = crate::text::subtext(rest.as_slice(), end + 1, rest.len());
        inner = inner.concat(tail.as_str());
    }
    proof {
        reveal_strlit("/");
        if let Some((_, expected)) = split_route(path@) {
            assert(inner@ =~= expected);
        }
    }
    let position: usize = routes[index].store;
    assert(routes@[index as int].store < stores@.len());
    let ghost before = stores@;
    let body: Option<HttpBody> = stores[position].response(inner.as_str(), routes[index].audio);
    assert(stores@ =~= before.update(position as int, stores@[position as int]));
    body
}

/// A path whose route is none of the routes is answered with nothing, and nothing is counted.
pub proof fn lemma_unknown_routes_are_not_served(
    routes: Seq<HlsRoute>,
    stores: Seq<HlsStore>,
    path: Seq<char>,
)
    requires
        match split_route(path) {
            Some((name, _)) => forall|i: int|
                0 <= i < routes.len() ==> (#[trigger] routes[i]).name@ != name,
            None => true,
        },
    ensures
        routed(routes, stores, path) is None,
        stores_after(routes, stores, path) == stores,
{
    if let Some((name, _)) = split_route(path) {
        lemma_no_route(routes, name, 0);
    }
}

proof fn lemma_no_route(routes: Seq<HlsRoute>, name: Seq<char>, start: int)
    requires
        0 <= start <= routes.len(),
        forall|i: int| 0 <= i < routes.len() ==> (#[trigger] routes[i]).name@ != name,
    ensures
        route_from(routes, name, start) == routes.len(),
    decreases routes.len() - start,
{
    if start < routes.len() {
        lemma_no_route(routes, name, start + 1);
    }
}

/// What a path is answered depends on the store of its route alone.
pub proof fn lemma_routes_are_isolated(
    routes: Seq<HlsRoute>,
    first: Seq<HlsStore>,
    second: Seq<HlsStore>,
    path: Seq<char>,
)
    requires
        route_of(routes, path) matches Some(index) ==> first[routes[index].store as int]
            == second[routes[index].store as int],
    ensures
        routed(routes, first, path) == routed(routes, second, path),
{
}

proof fn lemma_position(store: StoreView, sequence: u64, start: int, position: int)
    requires
        store.numbered(),
        0 <= start <= position < store.segments.len(),
        store.segments[position].sequence == sequence,
    ensures
        store.position_from(sequence, start) == position,
    decreases position - start,
{
    if start < position {
        assert(store.segments[start].sequence != sequence);
        lemma_position(store, sequence, start + 1, position);
    }
}

/// Every segment that the playlists list can be fetched under the name that they list it with: its
/// video always, and its audio where it has some and audio is advertised to the receiver.
pub proof fn lemma_listed_segments_are_served(store: HlsStore, index: int)
    requires
        store@.gapless(),
        0 <= index < store@.visible().len(),
    ensures
        ({
            let segment = store@.visible()[index];
            let path = "/segment-"@ + decimal(segment.sequence as nat) + ".m4s"@;
            forall|advertise_audio: bool| #[trigger]
                store_answer(store, path, advertise_audio) == Some(
                    BodyView { content_type: "video/iso.segment"@, data: segment.video },
                )
        }),
        ({
            let segment = store@.visible()[index];
            let path = "/audio-"@ + decimal(segment.sequence as nat) + ".aac"@;
            store.audio_enabled ==> store_answer(store, path, true) == match segment.audio {
                Some(data) => Some(BodyView { content_type: "audio/aac"@, data }),
                None => None,
            }
        }),
{
    let segment = store@.visible()[index];
    lemma_position(store@, segment.sequence, 0, store@.hidden() + index);
    reveal_strlit("/segment-");
    reveal_strlit("/");
    reveal_strlit("/master.m3u8");
    reveal_strlit("/live.m3u8");
    reveal_strlit("/audio.m3u8");
    reveal_strlit("/init.mp4");
    reveal_strlit("/audio-");
    assert("/master.m3u8"@[1] == 'm');
    assert("/live.m3u8"@[1] == 'l');
    assert("/audio.m3u8"@[1] == 'a');
    assert("/init.mp4"@[1] == 'i');
    assert("/audio-"@[1] == 'a');
    let video = "/segment-"@ + decimal(segment.sequence as nat) + ".m4s"@;
    lemma_number_is_read_back(segment.sequence, "/segment-"@, ".m4s"@);
    assert(video[1] == 's');
    assert(video.len() > 1);
    if has_prefix(video, "/audio-"@) {
        assert(video.take("/audio-"@.len() as int)[1] == video[1]);
        assert(false);
    }
    let audio = "/audio-"@ + decimal(segment.sequence as nat) + ".aac"@;
    lemma_number_is_read_back(segment.sequence, "/audio-"@, ".aac"@);
    assert(audio[1] == 'a');
    assert(audio[6] == '-');
    assert("/audio.m3u8"@[6] == '.');
    assert(audio.len() > 6);
    assert(audio.take("/audio-"@.len() as int) =~= "/audio-"@);
}

/// The documents of a stream have fixed names: the master playlist where the video is known, the
/// video playlist always, the audio playlist where there is audio for the receiver, and the
/// segment that initializes decoders once it is there.
pub proof fn lemma_documents_have_their_names(store: HlsStore, advertise_audio: bool)
    ensures
        store_answer(store, "/live.m3u8"@, advertise_audio) == Some(
            text_body("application/vnd.apple.mpegurl"@, store@.video_playlist()),
        ),
        store.audio_enabled && advertise_audio ==> store_answer(
            store,
            "/audio.m3u8"@,
            advertise_audio,
        ) == Some(text_body("application/vnd.apple.mpegurl"@, store@.sound_playlist())),
        !(store.audio_enabled && advertise_audio) ==> store_answer(
            store,
            "/audio.m3u8"@,
            advertise_audio,
        ) is None,
        store.init matches Some(init) ==> store_answer(store, "/init.mp4"@, advertise_audio) == Some(
            BodyView { content_type: "video/mp4"@, data: init@ },
        ),
        store.init is None ==> store_answer(store, "/init.mp4"@, advertise_audio) is None,
        store.metadata is None ==> store_answer(store, "/master.m3u8"@, advertise_audio) is None,
        store.metadata matches Some(metadata) ==> store_answer(
            store,
            "/master.m3u8"@,
            advertise_audio,
        ) == Some(
            text_body(
                "application/vnd.apple.mpegurl"@,
                master_text(
                    metadata.codec@,
                    metadata.width,
                    metadata.height,
                    metadata.fps,
                    metadata.bandwidth,
                    store.audio_enabled && advertise_audio,
                ),
            ),
        ),
        asked("/live.m3u8"@, store.audio_enabled && advertise_audio, true) == Asked::Playlist,
        asked("/master.m3u8"@, store.audio_enabled && advertise_audio, true) == Asked::Playlist,
        asked("/init.mp4"@, store.audio_enabled && advertise_audio, true) == Asked::Init,
{
    reveal_strlit("/");
    reveal_strlit("/master.m3u8");
    reveal_strlit("/live.m3u8");
    reveal_strlit("/audio.m3u8");
    reveal_strlit("/init.mp4");
    reveal_strlit("/audio-");
    reveal_strlit("/segment-");
    assert("/master.m3u8"@[1] == 'm');
    assert("/live.m3u8"@[1] == 'l');
    assert("/audio.m3u8"@[1] == 'a');
    assert("/init.mp4"@[1] == 'i');
    assert("/segment-"@[1] == 's');
    if has_prefix("/audio.m3u8"@, "/segment-"@) {
        assert("/audio.m3u8"@.take("/segment-"@.len() as int)[1] == 'a');
    }
}

/// Without audio for the receiver no audio segment can be fetched.
pub proof fn lemma_audio_is_not_served_unasked(store: HlsStore, number: u64, advertise_audio: bool)
    requires
        !(store.audio_enabled && advertise_audio),
    ensures
        store_answer(store, "/audio-"@ + decimal(number as nat) + ".aac"@, advertise_audio) is None,
{
    let path = "/audio-"@ + decimal(number as nat) + ".aac"@;
    reveal_strlit("/");
    reveal_strlit("/master.m3u8");
    reveal_strlit("/live.m3u8");
    reveal_strlit("/audio.m3u8");
    reveal_strlit("/init.mp4");
    reveal_strlit("/audio-");
    reveal_strlit("/segment-");
    assert(path[1] == 'a');
    assert(path[6] == '-');
    assert("/audio.m3u8"@[6] == '.');
    assert("/master.m3u8"@[1] == 'm');
    assert("/live.m3u8"@[1] == 'l');
    assert("/init.mp4"@[1] == 'i');
    assert("/segment-"@[1] == 's');
    assert(path.len() > 1);
    if has_prefix(path, "/segment-"@) {
        assert(path.take("/segment-"@.len() as int)[1] == path[1]);
    }
}

/// A path is taken apart into the name of its route and what is asked of the route's store.
pub proof fn lemma_paths_name_their_route(name: Seq<char>, inner: Seq<char>)
    requires
        !name.contains('/'),
    ensures
        split_route(seq!['/'] + name + seq!['/'] + inner) == Some((name, seq!['/'] + inner)),
        split_route(seq!['/'] + name) == Some((name, seq!['/'])),
        split_route(name) is None,
{
    let path = seq!['/'] + name + seq!['/'] + inner;
    let rest = path.skip(1);
    assert(rest =~= name + seq!['/'] + inner);
    lemma_texts_are_taken_apart(name, '/', inner);
    let bare = seq!['/'] + name;
    assert(bare.skip(1) =~= name);
    lemma_index_of_char(name, '/');
    assert(name.take(name.len() as int) =~= name);
    assert(seq!['/'] + Seq::<char>::empty() =~= seq!['/']);
    if name.len() > 0 {
        assert(name.contains(name[0]));
    }
}

/// A request under a receiver's own route is answered from the receiver's own store, as its route
/// has it, and no other store takes note of it.
pub proof fn lemma_receivers_are_served_from_their_store(
    routes: Seq<HlsRoute>,
    stores: Seq<HlsStore>,
    index: int,
    inner: Seq<char>,
)
    requires
        0 <= index < routes.len(),
        routes[index].store < stores.len(),
        !routes[index].name@.contains('/'),
        forall|j: int| 0 <= j < index ==> (#[trigger] routes[j]).name@ != routes[index].name@,
    ensures
        ({
            let path = seq!['/'] + routes[index].name@ + seq!['/'] + inner;
            let store = routes[index].store as int;
            &&& routed(routes, stores, path) == store_answer(
                stores[store],
                seq!['/'] + inner,
                routes[index].audio,
            )
            &&& stores_after(routes, stores, path).len() == stores.len()
            &&& forall|k: int|
                0 <= k < stores.len() && k != store ==> #[trigger] stores_after(
                    routes,
                    stores,
                    path,
                )[k] == stores[k]
            &&& stores_after(routes, stores, path)[store]@ == stores[store]@
        }),
{
    let path = seq!['/'] + routes[index].name@ + seq!['/'] + inner;
    lemma_paths_name_their_route(routes[index].name@, inner);
    lemma_route_is_found(routes, index, 0);
}

proof fn lemma_route_is_found(routes: Seq<HlsRoute>, index: int, start: int)
    requires
        0 <= start <= index < routes.len(),
        forall|j: int| 0 <= j < index ==> (#[trigger] routes[j]).name@ != routes[index].name@,
    ensures
        route_from(routes, routes[index].name@, start) == index,
    decreases index - start,
{
    if start < index {
        assert(routes[start].name@ != routes[index].name@);
        lemma_route_is_found(routes, index, start + 1);
    }
}

/// An answer as it goes over the wire.
#[derive(Debug)]
pub struct HttpAnswer {
    pub head: String,
    pub data: Vec<u8>,
}

/// The method and the path of a request. Without a path it asks for the root.
pub open spec fn request_line(text: Seq<char>) -> (Seq<char>, Seq<char>) {
    let parts = words(text.take(index_of_char(text, '\n')));
    let target = if parts.len() > 1 {
        parts[1]
    } else {
        "/"@
    };
    (
        if parts.len() > 0 {
            parts[0]
        } else {
            Seq::empty()
        },
        target.take(index_of_char(target, '?')),
    )
}

/// The head of an answer.
pub open spec fn answer_head(status: Seq<char>, body: Option<BodyView>) -> Seq<char> {
    let (content_type, length) = match body {
        Some(body) => (body.content_type, body.data.len()),
        None => ("text/plain; charset=utf-8"@, 0),
    };
    "HTTP/1.1 "@ + status + "\r\nContent-Type: "@ + content_type + "\r\nContent-Length: "@ + decimal(
        length,
    )
        + "\r\nCache-Control: no-store\r\nAccess-Control-Allow-Origin: *\r\nConnection: close\r\n\r\n"@
}

fn write_http(status: &str, body: Option<HttpBody>, head_only: bool) -> (answer: HttpAnswer)
    ensures
        answer.head@ == answer_head(status@, body_view(body)),
        answer.data@ == match body_view(body) {
            Some(body) => if head_only {
                Seq::empty()
            } else {
                body.data
            },
            None => Seq::empty(),
        },
{
    let mut head: String = "HTTP/1.1 ".to_owned().concat(status).concat("\r\nContent-Type: ");
    let data: Vec<u8> = match body {
        Some(body) => {
            head = head.concat(body.content_type).concat("\r\nContent-Length: ");
            push_decimal(&mut head, body.data.len() as u64);
            if head_only {
                Vec::new()
            } else {
                body.data
            }
        },
        None => {
            head = head.concat("text/plain; charset=utf-8").concat("\r\nContent-Length: ");
            push_decimal(&mut head, 0);
            Vec::new()
        },
    };
    HttpAnswer {
        head: head.concat(
            "\r\nCache-Control: no-store\r\nAccess-Control-Allow-Origin: *\r\nConnection: close\r\n\r\n",
        ),
        data,
    }
}

/// Whether a method is one that is answered.
pub open spec fn method_is_answered(method: Seq<char>) -> bool {
    method == "GET"@ || method == "HEAD"@
}

/// The answer to the text of a request.
pub open spec fn answer_for(
    routes: Seq<HlsRoute>,
    stores: Seq<HlsStore>,
    text: Seq<char>,
) -> (Seq<char>, Seq<u8>) {
    let (method, path) = request_line(text);
    if !method_is_answered(method) {
        (answer_head("405 Method Not Allowed"@, None), Seq::empty())
    } else {
        match routed(routes, stores, path) {
            Some(body) => (
                answer_head("200 OK"@, Some(body)),
                if method == "HEAD"@ {
                    Seq::empty()
                } else {
                    body.data
                },
            ),
            None => (answer_head("404 Not Found"@, None), Seq::empty()),
        }
    }
}

/// The stores after the text of a request was answered.
pub open spec fn stores_after_text(
    routes: Seq<HlsRoute>,
    stores: Seq<HlsStore>,
    text: Seq<char>,
) -> Seq<HlsStore> {
    let (method, path) = request_line(text);
    if method_is_answered(method) {
        stores_after(routes, stores, path)
    } else {
        stores
    }
}

/// Only requests that are answered are counted.
pub proof fn lemma_refused_methods_count_nothing(
    routes: Seq<HlsRoute>,
    stores: Seq<HlsStore>,
    text: Seq<char>,
)
    ensures
        request_line(text).0 != "GET"@ && request_line(text).0 != "HEAD"@ ==> stores_after_text(
            routes,
            stores,
            text,
        ) == stores,
        request_line(text).0 == "GET"@ || request_line(text).0 == "HEAD"@ ==> stores_after_text(
            routes,
            stores,
            text,
        ) == stores_after(routes, stores, request_line(text).1),
{
}

/// The first line of a request names the method and the path, which ends at a query; what follows
/// the line does not matter.
pub proof fn lemma_request_lines_are_read(
    method: Seq<char>,
    path: Seq<char>,
    query: Seq<char>,
    version: Seq<char>,
    rest: Seq<char>,
)
    requires
        is_word(method),
        is_word(version),
        is_word(path + seq!['?'] + query),
        is_word(path),
        !path.contains('?'),
        !(spaced(seq![method, path + seq!['?'] + query, version])).contains('\n'),
        !(spaced(seq![method, path, version])).contains('\n'),
    ensures
        request_line(spaced(seq![method, path + seq!['?'] + query, version]) + seq!['\n'] + rest) == (
            method,
            path,
        ),
        request_line(spaced(seq![method, path, version]) + seq!['\n'] + rest) == (method, path),
{
    let target = path + seq!['?'] + query;
    lemma_request_line(method, target, version, rest);
    lemma_request_line(method, path, version, rest);
    lemma_texts_are_taken_apart(path, '?', query);
    lemma_index_of_char(path, '?');
    assert(path.take(path.len() as int) =~= path);
}

proof fn lemma_request_line(
    method: Seq<char>,
    target: Seq<char>,
    version: Seq<char>,
    rest: Seq<char>,
)
    requires
        is_word(method),
        is_word(target),
        is_word(version),
        !(spaced(seq![method, target, version])).contains('\n'),
    ensures
        request_line(spaced(seq![method, target, version]) + seq!['\n'] + rest) == (
            method,
            target.take(index_of_char(target, '?')),
        ),
{
    let list = seq![method, target, version];
    let line = spaced(list);
    lemma_texts_are_taken_apart(line, '\n', rest);
    assert forall|i: int| 0 <= i < list.len() implies is_word(#[trigger] list[i]) by {}
    lemma_words_are_taken_apart(list);
}

/// What is found is answered with status 200, its type, its length and, unless only the head was
/// asked for, its bytes; what is not found with 404, and other methods with 405, without a byte.
pub proof fn lemma_answers_announce_what_follows(
    routes: Seq<HlsRoute>,
    stores: Seq<HlsStore>,
    text: Seq<char>,
)
    ensures
        ({
            let (method, path) = request_line(text);
            let (head, data) = answer_for(routes, stores, text);
            &&& method != "GET"@ && method != "HEAD"@ ==> ("HTTP/1.1 "@
                + "405 Method Not Allowed"@).is_prefix_of(head) && data.len() == 0
            &&& method == "GET"@ || method == "HEAD"@ ==> match routed(routes, stores, path) {
                None => ("HTTP/1.1 "@ + "404 Not Found"@).is_prefix_of(head) && data.len() == 0,
                Some(body) => {
                    &&& ("HTTP/1.1 "@ + "200 OK"@ + "\r\nContent-Type: "@ + body.content_type
                        + "\r\nContent-Length: "@ + decimal(body.data.len())).is_prefix_of(head)
                    &&& method == "GET"@ ==> data == body.data
                    &&& method == "HEAD"@ ==> data.len() == 0
                },
            }
        }),
{
    reveal_strlit("GET");
    reveal_strlit("HEAD");
    assert("GET"@.len() != "HEAD"@.len());
}

/// Answers the text of a request.
pub fn answer_text(routes: &[HlsRoute], stores: &mut Vec<HlsStore>, text: &str) -> (answer: HttpAnswer)
    requires
        routes_lead_to_stores(routes@, old(stores)@),
    ensures
        routes_lead_to_stores(routes@, final(stores)@),
        (answer.head@, answer.data@) == answer_for(routes@, old(stores)@, text@),
        final(stores)@ == stores_after_text(routes@, old(stores)@, text@),
{
    let all: Vec<char> = characters(text);
    let end: usize = find_char(all.as_slice(), '\n');
    let line: Vec<char> = subcharacters(all.as_slice(), 0, end);
    assert(line@ =~= text@.take(end as int));
    let parts: Vec<Vec<char>> = split_words(line.as_slice());
    let ghost split = words(line@);
    assert(parts@.len() == split.len());
    let root: Vec<char> = characters("/");
    let target: &[char] = if parts.len() > 1 {
        assert(crate::text::groups(parts@)[1] == parts@[1]@);
        parts[1].as_slice()
    } else {
        root.as_slice()
    };
    let path_end: usize = find_char(target, '?');
    let path: String = crate::text::subtext(target, 0, path_end);
    assert(path@ =~= target@.take(path_end as int));
    let mut get: bool = false;
    let mut head: bool = false;
    if parts.len() > 0 {
        assert(crate::text::groups(parts@)[0] == parts@[0]@);
        get = spells(parts[0].as_slice(), "GET");
        head = spells(parts[0].as_slice(), "HEAD");
    }
    proof {
        reveal_strlit("GET");
        reveal_strlit("HEAD");
        assert("GET"@.len() == 3 && "HEAD"@.len() == 4);
        assert(get == (request_line(text@).0 == "GET"@));
        assert(head == (request_line(text@).0 == "HEAD"@));
    }
    if !get && !head {
        return write_http("405 Method Not Allowed", None, false);
    }
    match routed_response(routes, stores, path.as_str()) {
        Some(body) => write_http("200 OK", Some(body), head),
        None => write_http("404 Not Found", None, head),
    }
}

/// Answers the bytes of a request.
pub fn handle_http(routes: &[HlsRoute], stores: &mut Vec<HlsStore>, request: &[u8]) -> (answer: HttpAnswer)
    requires
        routes_lead_to_stores(routes@, old(stores)@),
    ensures
        routes_lead_to_stores(routes@, final(stores)@),
        (answer.head@, answer.data@) == answer_for(
            routes@,
            old(stores)@,
            lossy_text(request@),
        ),
        final(stores)@ == stores_after_text(routes@, old(stores)@, lossy_text(request@)),
        valid_utf8(request@) ==> (answer.head@, answer.data@) == answer_for(
            routes@,
            old(stores)@,
            decode_utf8(request@),
        ),
{
    let text: String = lossy(request);
    answer_text(routes, stores, text.as_str())
}

} // verus!
