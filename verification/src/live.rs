//! Casting the desktop as a live HLS stream: what is refused, what is served where, how encoded
//! frames become segments, and when the session ends.

use muxide::fragmented::FragmentedMuxer;
use vstd::prelude::*;

use crate::clock::{media_ticks, MediaClock, MediaTimestamp};
use crate::failure::{first_error, first_of, take_failure};
use crate::h264::{
    avcc_contains_nal_type, avcc_units, avcc_units_from, contains_nal_from,
    lemma_contains_nal_type_searches_every_unit, upper_hex_value, AvccError,
};
use crate::hls::{
    audio_time, seconds_between, video_to_audio_timestamp, HlsStore, HttpStats, PendingView,
    SegmentDuration, StoreView, STARTUP_SEGMENTS, TIMESCALE,
};
use crate::hls_http::HlsRoute;
use crate::mirror::options::{host_refusal, validate_cast_hosts, HostError};
use crate::mirror::pipeline::{next_timestamp, sum_or_last, KEYFRAME_NAL_TYPE};
use crate::muxing::{
    fragment_fits, h264_muxer, init_segment_bytes, media_segment_bytes, muxer_queue,
    muxer_settings, muxer_timeline, muxes_h264_alone, sample_bytes, valid_dimensions,
};
use crate::network::{IpAddr, Ipv6Addr};
use crate::text::{decimal, lemma_separated_texts_go_on, push_decimal, separated};

verus! {

/// What the user asked of a live HLS session. The duration is in nanoseconds.
pub struct LiveOptions {
    pub cast_hosts: Vec<IpAddr>,
    pub cast_port: u16,
    pub display_id: Option<u32>,
    pub extend: bool,
    pub http_port: u16,
    pub fps: u32,
    pub width: u32,
    pub height: u32,
    pub bitrate: i32,
    pub duration: Option<u128>,
    pub serve_only: bool,
    pub audio: bool,
}

/// How long the first segments may take, in nanoseconds.
pub const STARTUP_TIMEOUT: u128 = 12_000_000_000;

/// Why a live session was refused.
#[derive(Debug)]
pub enum LiveRefusal {
    BitrateNotPositive,
    ExtendWithDisplay,
    Hosts(HostError),
    ServeOnlyNeedsOneHost,
}

/// More or fewer hosts than one were named where nothing but serving was asked for.
#[derive(Clone, Copy, Debug, PartialEq, Eq, Structural)]
pub struct ServeOnlyNeedsOneHost {}

/// Serving without a receiver takes exactly one host.
pub fn validate_serve_only(hosts: &[IpAddr], serve_only: bool) -> (result: Result<
    (),
    ServeOnlyNeedsOneHost,
>)
    ensures
        result is Err <==> serve_only && hosts@.len() != 1,
{
    if serve_only && hosts.len() != 1 {
        Err(ServeOnlyNeedsOneHost {  })
    } else {
        Ok(())
    }
}

/// Checks the options of a live session.
pub fn validate_live(options: &LiveOptions) -> (result: Result<(), LiveRefusal>)
    ensures
        if options.bitrate <= 0 {
            result matches Err(LiveRefusal::BitrateNotPositive)
        } else if options.extend && options.display_id is Some {
            result matches Err(LiveRefusal::ExtendWithDisplay)
        } else if let Some(refusal) = host_refusal(options.cast_hosts@) {
            result matches Err(LiveRefusal::Hosts(error)) && error == refusal
        } else if options.serve_only && options.cast_hosts@.len() != 1 {
            result matches Err(LiveRefusal::ServeOnlyNeedsOneHost)
        } else {
            result is Ok
        },
{
    if options.bitrate <= 0 {
        return Err(LiveRefusal::BitrateNotPositive);
    }
    if options.extend && options.display_id.is_some() {
        return Err(LiveRefusal::ExtendWithDisplay);
    }
    if let Err(error) = validate_cast_hosts(options.cast_hosts.as_slice()) {
        return Err(LiveRefusal::Hosts(error));
    }
    match validate_serve_only(options.cast_hosts.as_slice(), options.serve_only) {
        Ok(()) => Ok(()),
        Err(_) => Err(LiveRefusal::ServeOnlyNeedsOneHost),
    }
}

/// The loopback address of the same family.
pub fn loopback_for(address: &IpAddr) -> (loopback: IpAddr)
    ensures
        loopback.is_loopback(),
        address is V4 <==> loopback is V4,
{
    if address.is_ipv4() {
        IpAddr::V4(127, 0, 0, 1)
    } else {
        IpAddr::V6(Ipv6Addr { bits: 1, text: "::1".to_owned() })
    }
}

impl IpAddr {
    /// Whether this is the first loopback address of its family.
    pub open spec fn is_loopback(self) -> bool {
        match self {
            IpAddr::V4(a, b, c, d) => a == 127 && b == 0 && c == 0 && d == 1,
            IpAddr::V6(address) => address.bits == 1 && address.text@ == "::1"@,
        }
    }
}

/// A receiver of a live stream, and where it fetches the stream.
pub struct HlsTarget {
    pub host: IpAddr,
    pub serve_ip: IpAddr,
    pub route: String,
    /// The position of the store that the stream comes from.
    pub store: usize,
}

/// How many stores a session fills: one for each receiver where the desktop is extended, and
/// otherwise one that all share.
pub open spec fn store_count(extend: bool, receivers: int) -> int {
    if extend {
        receivers
    } else {
        1
    }
}

/// The store that the stream of a receiver comes from: its own, or the one that all share.
pub open spec fn store_of(extend: bool, receiver: int) -> int {
    if extend {
        receiver
    } else {
        0
    }
}

/// How many stores a session fills.
pub fn stores_for(extend: bool, receivers: usize) -> (stores: usize)
    ensures
        stores == store_count(extend, receivers as int),
{
    if extend {
        receivers
    } else {
        1
    }
}

/// The store that the stream of a receiver comes from.
pub fn store_for(extend: bool, receiver: usize) -> (store: usize)
    ensures
        store == store_of(extend, receiver as int),
{
    if extend {
        receiver
    } else {
        0
    }
}

/// The display that a store is filled from: its own temporary display where the desktop is
/// extended, and otherwise the one that was asked for.
pub fn display_for(options: &LiveOptions, store: usize, temporary: &[u32]) -> (display: Option<u32>)
    requires
        options.extend ==> store < temporary@.len(),
    ensures
        display == if options.extend {
            Some(temporary@[store as int])
        } else {
            options.display_id
        },
{
    if options.extend {
        Some(temporary[store])
    } else {
        options.display_id
    }
}

/// Every receiver's stream comes from a store of the session, every store has a receiver, and two
/// receivers share a store exactly where the desktop is not extended.
pub proof fn lemma_receivers_have_stores(extend: bool, receivers: int, one: int, other: int)
    requires
        0 <= one < receivers,
        0 <= other < receivers,
    ensures
        0 <= store_of(extend, one) < store_count(extend, receivers),
        forall|store: int|
            0 <= store < store_count(extend, receivers) ==> #[trigger] store_of(extend, store)
                == store && store < receivers,
        one != other ==> (store_of(extend, one) == store_of(extend, other) <==> !extend),
{
}

/// Whether a route was given out before.
pub fn route_is_taken(routes: &[String], candidate: &String) -> (taken: bool)
    ensures
        taken == exists|i: int| 0 <= i < routes@.len() && (#[trigger] routes@[i])@ == candidate@,
{
    let mut index: usize = 0;
    while index < routes.len()
        invariant
            index <= routes@.len(),
            forall|i: int| 0 <= i < index ==> (#[trigger] routes@[i])@ != candidate@,
        decreases routes@.len() - index,
    {
        if routes[index].eq(candidate) {
            assert(routes@[index as int]@ == candidate@);
            return true;
        }
        index = index + 1;
    }
    false
}

/// The first target from `start` on that is served from an address, or the number of targets.
pub open spec fn first_on(targets: Seq<HlsTarget>, address: IpAddr, start: int) -> int
    decreases targets.len() - start,
{
    if start >= targets.len() {
        targets.len() as int
    } else if targets[start].serve_ip.names(&address) {
        start
    } else {
        first_on(targets, address, start + 1)
    }
}

/// The targets that are the first on their address, in order.
pub open spec fn interfaces_of(targets: Seq<HlsTarget>, count: int) -> Seq<usize>
    decreases count,
{
    if count <= 0 {
        Seq::empty()
    } else {
        let before = interfaces_of(targets, count - 1);
        if first_on(targets, targets[count - 1].serve_ip, 0) == count - 1 {
            before.push((count - 1) as usize)
        } else {
            before
        }
    }
}

/// A server is needed on every address exactly once: the order lists the first target of each
/// address, and no other.
pub proof fn lemma_every_address_is_listed_once(targets: Seq<HlsTarget>, count: int, index: int)
    requires
        0 <= index < count <= targets.len(),
        targets.len() <= usize::MAX,
    ensures
        interfaces_of(targets, count).contains(index as usize) <==> forall|j: int|
            0 <= j < index ==> !(#[trigger] targets[j]).serve_ip.names(&targets[index].serve_ip),
        forall|k: int|
            0 <= k < interfaces_of(targets, count).len() ==> (#[trigger] interfaces_of(
                targets,
                count,
            )[k]) < count,
        forall|j: int, k: int|
            0 <= j < k < interfaces_of(targets, count).len() ==> (#[trigger] interfaces_of(
                targets,
                count,
            )[j]) < (#[trigger] interfaces_of(targets, count)[k]),
    decreases count,
{
    let all = interfaces_of(targets, count);
    let front = interfaces_of(targets, count - 1);
    let last = (count - 1) as usize;
    if count > 1 {
        lemma_every_address_is_listed_once(
            targets,
            count - 1,
            if index < count - 1 {
                index
            } else {
                0
            },
        );
    } else {
        assert(front =~= Seq::<usize>::empty());
    }
    assert forall|k: int| 0 <= k < all.len() implies (#[trigger] all[k]) < count by {
        if k < front.len() {
            assert(all[k] == front[k]);
        }
    }
    assert forall|j: int, k: int| 0 <= j < k < all.len() implies (#[trigger] all[j]) < (
    #[trigger] all[k]) by {
        assert(all[j] == front[j]);
        if k < front.len() {
            assert(all[k] == front[k]);
        }
    }
    if index == count - 1 {
        lemma_first_on(targets, targets[index].serve_ip, 0);
        let first = first_on(targets, targets[index].serve_ip, 0);
        lemma_names_itself(targets[index].serve_ip);
        assert(targets[index].serve_ip.names(&targets[index].serve_ip));
        if first == index {
            assert(all.last() == last);
            assert(all[all.len() - 1] == last);
        } else {
            assert(first < index);
            if all.contains(index as usize) {
                let k = choose|k: int| 0 <= k < all.len() && all[k] == index as usize;
                assert(front[k] < count - 1);
            }
        }
    } else {
        if front.contains(index as usize) {
            let k = choose|k: int| 0 <= k < front.len() && front[k] == index as usize;
            assert(all[k] == index as usize);
        }
        if all.contains(index as usize) {
            let k = choose|k: int| 0 <= k < all.len() && all[k] == index as usize;
            assert(k < front.len());
            assert(front[k] == index as usize);
        }
    }
}

proof fn lemma_names_itself(address: IpAddr)
    ensures
        address.names(&address),
{
}

proof fn lemma_first_on(targets: Seq<HlsTarget>, address: IpAddr, start: int)
    requires
        0 <= start <= targets.len(),
    ensures
        start <= first_on(targets, address, start) <= targets.len(),
        first_on(targets, address, start) < targets.len() ==> targets[first_on(
            targets,
            address,
            start,
        )].serve_ip.names(&address),
        forall|i: int|
            start <= i < first_on(targets, address, start) ==> !(
            #[trigger] targets[i]).serve_ip.names(&address),
    decreases targets.len() - start,
{
    if start < targets.len() && !targets[start].serve_ip.names(&address) {
        lemma_first_on(targets, address, start + 1);
    }
}

fn find_on(targets: &[HlsTarget], address: &IpAddr) -> (index: usize)
    ensures
        index == first_on(targets@, *address, 0),
        index <= targets@.len(),
{
    let mut index: usize = 0;
    while index < targets.len()
        invariant
            index <= targets@.len(),
            first_on(targets@, *address, 0) == first_on(targets@, *address, index as int),
        decreases targets@.len() - index,
    {
        if targets[index].serve_ip.same(address) {
            return index;
        }
        index = index + 1;
    }
    index
}

/// The addresses on which a server is needed, each by its first target and in the order of the
/// targets.
pub fn interface_order(targets: &[HlsTarget]) -> (order: Vec<usize>)
    ensures
        order@ == interfaces_of(targets@, targets@.len() as int),
{
    let mut order: Vec<usize> = Vec::new();
    let mut index: usize = 0;
    while index < targets.len()
        invariant
            index <= targets@.len(),
            order@ == interfaces_of(targets@, index as int),
        decreases targets@.len() - index,
    {
        if find_on(targets, &targets[index].serve_ip) == index {
            order.push(index);
        }
        index = index + 1;
    }
    order
}

/// What a look at the starting stream leads to.
#[derive(Debug)]
pub enum LiveTick {
    /// Every capture has its first segments; or time is up, or the user stopped the session.
    Done,
    Fail(String),
    Wait,
}

/// The first error among those of the temporary displays.
pub open spec fn display_error(errors: Seq<Option<String>>) -> Option<String> {
    first_error(errors)
}

/// Looks at the starting stream: whether it is ready, then whether it failed, and last whether it
/// takes too long.
pub fn startup_tick(
    all_ready: bool,
    failure: &mut Option<String>,
    displays: Vec<Option<String>>,
    elapsed: u128,
) -> (tick: LiveTick)
    ensures
        if all_ready {
            tick is Done && *final(failure) == *old(failure)
        } else {
            &&& *final(failure) is None
            &&& match *old(failure) {
                Some(error) => tick matches LiveTick::Fail(message) && message@
                    == "live HLS startup failed: "@ + error@,
                None => match display_error(displays@) {
                    Some(error) => tick matches LiveTick::Fail(message) && message == error,
                    None => if elapsed >= STARTUP_TIMEOUT {
                        tick matches LiveTick::Fail(message) && message@
                            == "timed out waiting for "@ + decimal(STARTUP_SEGMENTS as nat)
                            + " HLS media segments"@
                    } else {
                        tick is Wait
                    },
                },
            }
        },
{
    if all_ready {
        return LiveTick::Done;
    }
    if let Some(error) = take_failure(failure) {
        return LiveTick::Fail("live HLS startup failed: ".to_owned().concat(error.as_str()));
    }
    if let Some(error) = first_of(displays) {
        return LiveTick::Fail(error);
    }
    if elapsed >= STARTUP_TIMEOUT {
        let mut message: String = "timed out waiting for ".to_owned();
        push_decimal(&mut message, STARTUP_SEGMENTS as u64);
        return LiveTick::Fail(message.concat(" HLS media segments"));
    }
    LiveTick::Wait
}

/// A receiver of the running stream.
pub struct ReceiverHealth {
    /// The receiver's address as text.
    pub host: String,
    pub failure: Option<String>,
}

/// The position of the first receiver from `start` on that has failed, or the number of receivers.
pub open spec fn first_failing(receivers: Seq<ReceiverHealth>, start: int) -> int
    decreases receivers.len() - start,
{
    if start >= receivers.len() {
        receivers.len() as int
    } else if receivers[start].failure is Some {
        start
    } else {
        first_failing(receivers, start + 1)
    }
}

/// The first receiver that failed is the one that is reported.
pub proof fn lemma_the_first_failure_is_reported(receivers: Seq<ReceiverHealth>, start: int)
    requires
        0 <= start <= receivers.len(),
    ensures
        start <= first_failing(receivers, start) <= receivers.len(),
        first_failing(receivers, start) < receivers.len() ==> receivers[first_failing(
            receivers,
            start,
        )].failure is Some,
        forall|i: int|
            start <= i < first_failing(receivers, start) ==> (#[trigger] receivers[i]).failure
                is None,
    decreases receivers.len() - start,
{
    if start < receivers.len() && receivers[start].failure is None {
        lemma_the_first_failure_is_reported(receivers, start + 1);
    }
}

/// The message of a receiver's failure.
pub open spec fn receiver_message(receiver: ReceiverHealth) -> Seq<char> {
    "HLS receiver "@ + receiver.host@ + " failed: "@ + (receiver.failure->0)@
}

fn receiver_failure(receivers: &[ReceiverHealth]) -> (message: Option<String>)
    ensures
        ({
            let failing = first_failing(receivers@, 0);
            match message {
                Some(message) => failing < receivers@.len() && message@ == receiver_message(
                    receivers@[failing],
                ),
                None => failing == receivers@.len(),
            }
        }),
{
    let mut index: usize = 0;
    while index < receivers.len()
        invariant
            index <= receivers@.len(),
            first_failing(receivers@, 0) == first_failing(receivers@, index as int),
        decreases receivers@.len() - index,
    {
        if let Some(error) = &receivers[index].failure {
            return Some(
                "HLS receiver ".to_owned().concat(receivers[index].host.as_str()).concat(
                    " failed: ",
                ).concat(error.as_str()),
            );
        }
        index = index + 1;
    }
    None
}

/// Looks at the running stream: at its end first, then at the pipeline, the displays and the
/// receivers.
pub fn live_tick(
    interrupted: bool,
    elapsed: u128,
    duration: Option<u128>,
    failure: &mut Option<String>,
    displays: Vec<Option<String>>,
    receivers: &[ReceiverHealth],
) -> (tick: LiveTick)
    ensures
        if crate::mirror::session::run_is_over(interrupted, elapsed, duration) {
            tick is Done && *final(failure) == *old(failure)
        } else {
            &&& *final(failure) is None
            &&& match *old(failure) {
                Some(error) => tick matches LiveTick::Fail(message) && message@
                    == "live HLS group failed: "@ + error@,
                None => match display_error(displays@) {
                    Some(error) => tick matches LiveTick::Fail(message) && message == error,
                    None => {
                        let failing = first_failing(receivers@, 0);
                        if failing < receivers@.len() {
                            tick matches LiveTick::Fail(message) && message@ == receiver_message(
                                receivers@[failing],
                            )
                        } else {
                            tick is Wait
                        }
                    },
                },
            }
        },
{
    if interrupted {
        return LiveTick::Done;
    }
    if let Some(duration) = duration {
        if elapsed >= duration {
            return LiveTick::Done;
        }
    }
    if let Some(error) = take_failure(failure) {
        return LiveTick::Fail("live HLS group failed: ".to_owned().concat(error.as_str()));
    }
    if let Some(error) = first_of(displays) {
        return LiveTick::Fail(error);
    }
    match receiver_failure(receivers) {
        Some(message) => LiveTick::Fail(message),
        None => LiveTick::Wait,
    }
}

/// The errors with which the parts of a live session ended, each in the order of stopping.
pub struct LiveEnd {
    pub run: Option<String>,
    pub captures: Vec<Option<String>>,
    pub receivers: Vec<Option<String>>,
    pub displays: Vec<Option<String>>,
}

impl LiveEnd {
    /// The error that the session reports: that of the run, or the pipeline's failure where it had
    /// none, before those of the captures, the receivers and the displays.
    pub open spec fn error(self, failure: Option<String>) -> Option<Seq<char>> {
        match (self.run, failure) {
            (Some(error), _) => Some(error@),
            (None, Some(failure)) => Some("live HLS group failed: "@ + failure@),
            (None, None) => match (
                first_error(self.captures@),
                first_error(self.receivers@),
                first_error(self.displays@),
            ) {
                (Some(error), _, _) => Some(error@),
                (None, Some(error), _) => Some(error@),
                (None, None, Some(error)) => Some(error@),
                (None, None, None) => None,
            },
        }
    }

    /// The result of the session.
    pub fn outcome(self, failure: &mut Option<String>) -> (error: Option<String>)
        ensures
            match error {
                Some(error) => self.error(*old(failure)) == Some(error@),
                None => self.error(*old(failure)) is None,
            },
            *final(failure) == if self.run is Some {
                *old(failure)
            } else {
                None
            },
    {
        if self.run.is_some() {
            return self.run;
        }
        if let Some(text) = take_failure(failure) {
            return Some("live HLS group failed: ".to_owned().concat(text.as_str()));
        }
        let captures: Option<String> = first_of(self.captures);
        if captures.is_some() {
            return captures;
        }
        let receivers: Option<String> = first_of(self.receivers);
        if receivers.is_some() {
            return receivers;
        }
        first_of(self.displays)
    }
}

/// Whether a receiver is offered audio at first.
pub fn offers_audio(advertised: bool, store: &HlsStore) -> (offers: bool)
    ensures
        offers == (advertised && store.audio_enabled),
{
    advertised && store.audio_enabled
}

/// What follows an attempt to start a receiver.
#[derive(Clone, Copy, Debug, PartialEq, Eq, Structural)]
pub enum StartStep {
    Done,
    /// The receiver did not take audio: start it once more with video only.
    RetryVideoOnly,
    /// The attempt's error is the result.
    Fail,
}

/// What follows an attempt to start a receiver. One that was offered audio gets another attempt
/// without, and none after that: the second attempt offers no audio.
pub open spec fn step_after_start(offered_audio: bool, started: bool) -> StartStep {
    if started {
        StartStep::Done
    } else if offered_audio {
        StartStep::RetryVideoOnly
    } else {
        StartStep::Fail
    }
}

/// A receiver is started at most twice: one that was offered audio and did not start is tried
/// again without, and whatever comes of that attempt is the result.
pub proof fn lemma_receivers_are_tried_twice_at_most(offered_audio: bool, started: bool)
    ensures
        started <==> step_after_start(offered_audio, started) == StartStep::Done,
        !started && offered_audio <==> step_after_start(offered_audio, started)
            == StartStep::RetryVideoOnly,
        !started && !offered_audio <==> step_after_start(offered_audio, started) == StartStep::Fail,
        step_after_start(false, started) != StartStep::RetryVideoOnly,
{
}

/// What follows an attempt to start the receiver of a route. Before another attempt, audio is not
/// advertised there any more.
pub fn after_start(route: &mut HlsRoute, offered_audio: bool, started: bool) -> (step: StartStep)
    ensures
        step == step_after_start(offered_audio, started),
        *final(route) == (HlsRoute {
            audio: step != StartStep::RetryVideoOnly && old(route).audio,
            ..*old(route)
        }),
{
    if started {
        StartStep::Done
    } else if offered_audio {
        route.audio = false;
        StartStep::RetryVideoOnly
    } else {
        StartStep::Fail
    }
}

/// A receiver that could not be started, and why.
pub struct StartFailure {
    pub host: String,
    pub error: String,
}

/// The failures of some receivers, one after the other.
pub open spec fn joined_failures(failures: Seq<StartFailure>) -> Seq<char>
    decreases failures.len(),
{
    if failures.len() == 0 {
        Seq::empty()
    } else {
        let last = failures.last().host@ + ": "@ + failures.last().error@;
        if failures.len() == 1 {
            last
        } else {
            joined_failures(failures.drop_last()) + "; "@ + last
        }
    }
}

/// The failures are listed in the order of the receivers, each behind its host, with a semicolon
/// between two.
pub proof fn lemma_failures_are_listed_in_order(failures: Seq<StartFailure>, texts: Seq<Seq<char>>)
    requires
        texts.len() == failures.len(),
        forall|i: int|
            0 <= i < failures.len() ==> #[trigger] texts[i] == failures[i].host@ + ": "@
                + failures[i].error@,
    ensures
        joined_failures(failures) == separated(texts, "; "@),
    decreases failures.len(),
{
    if failures.len() > 0 {
        let front = texts.drop_last();
        lemma_failures_are_listed_in_order(failures.drop_last(), front);
        lemma_separated_texts_go_on(front, "; "@, texts.last());
        assert(front.push(texts.last()) =~= texts);
    }
}

/// The error of a group of which not every receiver could be started.
pub fn start_error(failures: &[StartFailure]) -> (error: Option<String>)
    ensures
        match error {
            Some(error) => failures@.len() > 0 && error@
                == "could not start every HLS receiver: "@ + joined_failures(failures@),
            None => failures@.len() == 0,
        },
{
    if failures.len() == 0 {
        return None;
    }
    let mut joined: String = String::new();
    let mut index: usize = 0;
    assert(failures@.take(0) =~= Seq::<StartFailure>::empty());
    while index < failures.len()
        invariant
            index <= failures@.len(),
            joined@ == joined_failures(failures@.take(index as int)),
        decreases failures@.len() - index,
    {
        assert(failures@.take(index + 1).drop_last() =~= failures@.take(index as int));
        let last: String = failures[index].host.clone().concat(": ").concat(
            failures[index].error.as_str(),
        );
        if index == 0 {
            joined = last;
        } else {
            joined = joined.concat("; ").concat(last.as_str());
        }
        index = index + 1;
    }
    assert(failures@.take(index as int) =~= failures@);
    Some("could not start every HLS receiver: ".to_owned().concat(joined.as_str()))
}

/// The hosts of the first `count` targets that share a store, one after the other.
pub open spec fn sharing_hosts(targets: Seq<HlsTarget>, store: usize, count: int) -> Seq<char>
    decreases count,
{
    if count <= 0 {
        Seq::empty()
    } else {
        let before = sharing_hosts(targets, store, count - 1);
        let target = targets[count - 1];
        if target.store != store {
            before
        } else if first_with(targets, store, 0) == count - 1 {
            target.host.printed()
        } else {
            before + ", "@ + target.host.printed()
        }
    }
}

/// The first target from `start` on with a store, or the number of targets.
pub open spec fn first_with(targets: Seq<HlsTarget>, store: usize, start: int) -> int
    decreases targets.len() - start,
{
    if start >= targets.len() {
        targets.len() as int
    } else if targets[start].store == store {
        start
    } else {
        first_with(targets, store, start + 1)
    }
}

proof fn lemma_first_with(targets: Seq<HlsTarget>, store: usize, start: int)
    requires
        0 <= start <= targets.len(),
    ensures
        start <= first_with(targets, store, start) <= targets.len(),
        first_with(targets, store, start) < targets.len() ==> targets[first_with(
            targets,
            store,
            start,
        )].store == store,
        forall|i: int|
            start <= i < first_with(targets, store, start) ==> (#[trigger] targets[i]).store
                != store,
    decreases targets.len() - start,
{
    if start < targets.len() && targets[start].store != store {
        lemma_first_with(targets, store, start + 1);
    }
}

/// The hosts that share a store are listed in the order of the receivers, and no other host is:
/// `hosts` says at which places they stand.
pub proof fn lemma_sharing_hosts_are_listed_in_order(
    targets: Seq<HlsTarget>,
    store: usize,
    count: int,
    hosts: Seq<int>,
    texts: Seq<Seq<char>>,
)
    requires
        0 <= count <= targets.len(),
        texts.len() == hosts.len(),
        forall|i: int|
            0 <= i < hosts.len() ==> 0 <= #[trigger] hosts[i] < count && targets[hosts[i]].store
                == store && texts[i] == targets[hosts[i]].host.printed(),
        forall|i: int, j: int| 0 <= i < j < hosts.len() ==> hosts[i] < hosts[j],
        forall|k: int| 0 <= k < count && (#[trigger] targets[k]).store == store ==> hosts.contains(k),
    ensures
        sharing_hosts(targets, store, count) == separated(texts, ", "@),
    decreases count,
{
    if count == 0 {
        if hosts.len() > 0 {
            assert(0 <= hosts[0] < count);
        }
        assert(texts =~= Seq::empty());
    } else if targets[count - 1].store != store {
        assert forall|i: int| 0 <= i < hosts.len() implies 0 <= #[trigger] hosts[i] < count - 1 by {
            assert(targets[hosts[i]].store == store);
        }
        lemma_sharing_hosts_are_listed_in_order(targets, store, count - 1, hosts, texts);
    } else {
        assert(hosts.contains(count - 1));
        let place = choose|i: int| 0 <= i < hosts.len() && hosts[i] == count - 1;
        let last = hosts.len() - 1;
        if place < last {
            assert(hosts[place] < hosts[last]);
        }
        let front = hosts.drop_last();
        assert forall|i: int| 0 <= i < front.len() implies 0 <= #[trigger] front[i] < count - 1
            && targets[front[i]].store == store && texts.drop_last()[i]
            == targets[front[i]].host.printed() by {
            assert(hosts[i] < hosts[last]);
        }
        assert forall|k: int|
            0 <= k < count - 1 && (#[trigger] targets[k]).store == store implies front.contains(k) by {
            assert(hosts.contains(k));
            let i = choose|i: int| 0 <= i < hosts.len() && hosts[i] == k;
            assert(front[i] == k);
        }
        lemma_sharing_hosts_are_listed_in_order(targets, store, count - 1, front, texts.drop_last());
        lemma_separated_texts_go_on(texts.drop_last(), ", "@, texts.last());
        assert(texts.drop_last().push(texts.last()) =~= texts);
        lemma_first_with(targets, store, 0);
        let first = first_with(targets, store, 0);
        if first == count - 1 {
            if front.len() > 0 {
                assert(targets[front[0]].store == store);
            }
        } else {
            assert(targets[count - 1].store == store);
            assert(first < count - 1);
            assert(front.contains(first));
        }
    }
}

/// The line that sums one store up.
pub open spec fn store_line(hosts: Seq<char>, stats: HttpStats) -> Seq<char> {
    "HLS source for "@ + hosts + " served "@ + decimal(stats.playlists as nat) + " playlists, "@
        + decimal(stats.init_segments as nat) + " init segments, and "@ + decimal(
        stats.media_segments as nat,
    ) + " media segments."@
}

fn find_with(targets: &[HlsTarget], store: usize) -> (index: usize)
    ensures
        index == first_with(targets@, store, 0),
        index <= targets@.len(),
{
    let mut index: usize = 0;
    while index < targets.len()
        invariant
            index <= targets@.len(),
            first_with(targets@, store, 0) == first_with(targets@, store, index as int),
        decreases targets@.len() - index,
    {
        if targets[index].store == store {
            return index;
        }
        index = index + 1;
    }
    index
}

/// The line that sums up the store of a target, unless an earlier target shares it.
pub fn stats_line(targets: &[HlsTarget], index: usize, stats: HttpStats) -> (line: Option<String>)
    requires
        index < targets@.len(),
    ensures
        ({
            let store = targets@[index as int].store;
            match line {
                Some(line) => first_with(targets@, store, 0) == index && line@ == store_line(
                    sharing_hosts(targets@, store, targets@.len() as int),
                    stats,
                ),
                None => first_with(targets@, store, 0) != index,
            }
        }),
{
    let store: usize = targets[index].store;
    let first: usize = find_with(targets, store);
    if first != index {
        return None;
    }
    let mut hosts: String = String::new();
    let mut position: usize = 0;
    while position < targets.len()
        invariant
            position <= targets@.len(),
            first == first_with(targets@, store, 0),
            hosts@ == sharing_hosts(targets@, store, position as int),
        decreases targets@.len() - position,
    {
        if targets[position].store == store {
            let host: String = targets[position].host.text();
            if position == first {
                hosts = host;
            } else {
                hosts = hosts.concat(", ").concat(host.as_str());
            }
        }
        position = position + 1;
    }
    let mut line: String = "HLS source for ".to_owned().concat(hosts.as_str()).concat(" served ");
    push_decimal(&mut line, stats.playlists);
    line = line.concat(" playlists, ");
    push_decimal(&mut line, stats.init_segments);
    line = line.concat(" init segments, and ");
    push_decimal(&mut line, stats.media_segments);
    Some(line.concat(" media segments."))
}

/// The two upper-case hexadecimal digits of a byte.
pub open spec fn upper_hex(byte: u8) -> Seq<char> {
    seq![upper_hex_digit(byte / 16), upper_hex_digit((byte % 16) as u8)]
}

/// An upper-case hexadecimal digit.
pub open spec fn upper_hex_digit(value: u8) -> char {
    if value < 10 {
        (48 + value) as char
    } else {
        (55 + value) as char
    }
}

fn push_upper_hex(text: &mut String, byte: u8)
    ensures
        final(text)@ == old(text)@ + upper_hex(byte),
{
    push_upper_hex_digit(text, byte / 16);
    push_upper_hex_digit(text, byte % 16);
    assert(text@ =~= old(text)@ + upper_hex(byte));
}

fn push_upper_hex_digit(text: &mut String, value: u8)
    requires
        value < 16,
    ensures
        final(text)@ == old(text)@.push(upper_hex_digit(value)),
{
    if value < 10 {
        text.push((48 + value) as char);
    } else {
        text.push((55 + value) as char);
    }
}

/// The codec name of a stream with a sequence parameter set: its profile, its constraints and its
/// level.
pub open spec fn codec_name(sps: Seq<u8>) -> Option<Seq<char>> {
    if sps.len() >= 4 {
        Some("avc1."@ + upper_hex(sps[1]) + upper_hex(sps[2]) + upper_hex(sps[3]))
    } else {
        None
    }
}

/// The codec name spells the profile, the constraints and the level of the parameter set, each in
/// two hexadecimal digits.
pub proof fn lemma_codec_names_spell_the_parameter_set(sps: Seq<u8>)
    ensures
        sps.len() < 4 <==> codec_name(sps) is None,
        codec_name(sps) matches Some(name) ==> {
            &&& name.len() == 11
            &&& name.take(5) == "avc1."@
            &&& upper_hex_value(name[5]) * 16 + upper_hex_value(name[6]) == sps[1]
            &&& upper_hex_value(name[7]) * 16 + upper_hex_value(name[8]) == sps[2]
            &&& upper_hex_value(name[9]) * 16 + upper_hex_value(name[10]) == sps[3]
        },
{
    reveal_strlit("avc1.");
    if sps.len() >= 4 {
        let name = codec_name(sps)->0;
        assert(name.take(5) =~= "avc1."@);
        assert(name[5] == upper_hex(sps[1])[0] && name[6] == upper_hex(sps[1])[1]);
        assert(name[7] == upper_hex(sps[2])[0] && name[8] == upper_hex(sps[2])[1]);
        assert(name[9] == upper_hex(sps[3])[0] && name[10] == upper_hex(sps[3])[1]);
    }
}

/// The codec name of a stream with a sequence parameter set.
pub fn avc_codec_string(sps: &[u8]) -> (name: Option<String>)
    ensures
        match name {
            Some(name) => codec_name(sps@) == Some(name@),
            None => codec_name(sps@) is None,
        },
{
    if sps.len() < 4 {
        return None;
    }
    let mut name: String = "avc1.".to_owned();
    push_upper_hex(&mut name, sps[1]);
    push_upper_hex(&mut name, sps[2]);
    push_upper_hex(&mut name, sps[3]);
    Some(name)
}

/// Frames between keyframes: half a second, and at least one.
pub fn live_keyframe_interval(fps: u32) -> (interval: i32)
    ensures
        interval == if fps == 0 {
            1int
        } else if fps == u32::MAX {
            fps as int / 2
        } else {
            (fps + 1) / 2
        },
{
    let interval: u32 = fps.saturating_add(1) / 2;
    if interval == 0 {
        1
    } else {
        interval as i32
    }
}

/// The timestamp of a frame: the candidate, but always after the frame before.
pub fn advance_timestamp(last: Option<u64>, candidate: u64, fallback_step: u64) -> (timestamp: u64)
    ensures
        timestamp == match last {
            Some(last) => if candidate <= last {
                sum_or_last(last, fallback_step)
            } else {
                candidate
            },
            None => candidate,
        },
{
    match last {
        Some(last) => if candidate <= last {
            last.saturating_add(fallback_step)
        } else {
            candidate
        },
        None => candidate,
    }
}

/// Why a frame could not be added to the stream.
#[derive(Debug)]
pub enum LiveError {
    /// The access unit cannot be taken apart.
    Frame(AvccError),
    /// The first keyframe came without its parameter sets.
    ParameterSetsMissing,
    /// The muxer cannot hold a video of this width and height.
    Dimensions(u32, u32),
    /// The muxer refused the frame.
    Refused,
}

/// The state of the segmenting side between two frames.
pub struct LivePipeline {
    pub muxer: Option<FragmentedMuxer>,
    pub frames_in_segment: u32,
    pub bytes_in_segment: u64,
    /// The segments that were flushed.
    pub flushed: u32,
    pub last_timestamp: Option<u64>,
    pub segment_start_timestamp: Option<u64>,
    pub fps: u32,
    pub width: u32,
    pub height: u32,
    pub bitrate: u32,
}

/// What a stream without a usable parameter set is said to hold.
pub open spec fn fallback_codec() -> Seq<char> {
    "avc1.42001F"@
}

impl LivePipeline {
    /// Whether the counts are those of the muxer, and no sample lies after the last timestamp.
    pub open spec fn well_formed(self) -> bool {
        &&& self.segment_start_timestamp is Some <==> self.muxer is Some
        &&& match self.muxer {
            Some(muxer) => {
                let (number, decode_time, last) = muxer_timeline(muxer);
                &&& muxes_h264_alone(muxer)
                &&& muxer_queue(muxer).len() == self.frames_in_segment
                &&& sample_bytes(muxer_queue(muxer)) == self.bytes_in_segment
                &&& number == self.flushed + 1
                &&& forall|i: int|
                    0 <= i < muxer_queue(muxer).len() ==> (#[trigger] muxer_queue(muxer)[i]).1
                        <= i64::MAX
                &&& match (last, self.last_timestamp) {
                    (Some(sample), Some(stamped)) => sample <= stamped,
                    (Some(_), None) => false,
                    (None, _) => true,
                }
            },
            None => self.frames_in_segment == 0 && self.bytes_in_segment == 0 && self.flushed == 0,
        }
    }

    pub fn new(fps: u32, width: u32, height: u32, bitrate: u32) -> (pipeline: Self)
        ensures
            pipeline.well_formed(),
            pipeline == (LivePipeline {
                muxer: None,
                frames_in_segment: 0,
                bytes_in_segment: 0,
                flushed: 0,
                last_timestamp: None,
                segment_start_timestamp: None,
                fps,
                width,
                height,
                bitrate,
            }),
    {
        LivePipeline {
            muxer: None,
            frames_in_segment: 0,
            bytes_in_segment: 0,
            flushed: 0,
            last_timestamp: None,
            segment_start_timestamp: None,
            fps,
            width,
            height,
            bitrate,
        }
    }

    /// The timestamp of the next frame on the video clock.
    pub fn normalized_timestamp(&mut self, clock: &mut MediaClock, time: MediaTimestamp) -> (timestamp:
        u64)
        requires
            old(self).fps > 0,
            old(self).well_formed(),
            old(clock).well_formed(),
        ensures
            final(self).well_formed(),
            final(clock).well_formed(),
            final(clock).origin == if time.usable() {
                Some(old(clock).origin_with(time))
            } else {
                old(clock).origin
            },
            timestamp == next_timestamp(
                old(self).last_timestamp,
                if time.usable() {
                    media_ticks(old(clock).origin_with(time), time, TIMESCALE)
                } else {
                    None
                },
                TIMESCALE / old(self).fps as u64,
            ),
            *final(self) == (LivePipeline { last_timestamp: Some(timestamp), ..*old(self) }),
    {
        let step: u64 = TIMESCALE / self.fps as u64;
        let candidate: u64 = match clock.ticks(time, TIMESCALE) {
            Some(ticks) => ticks,
            None => match self.last_timestamp {
                Some(last) => last.saturating_add(step),
                None => 0,
            },
        };
        let timestamp: u64 = advance_timestamp(self.last_timestamp, candidate, step);
        self.last_timestamp = Some(timestamp);
        timestamp
    }

    /// Whether a frame of so many bytes fits the current segment.
    pub open spec fn room_for(self, bytes: int) -> bool {
        &&& self.bytes_in_segment + bytes + 16 * (self.frames_in_segment + 1) + 96 <= u32::MAX
        &&& self.flushed < u32::MAX - 1
    }

    /// Whether a frame of so many bytes fits the current segment.
    pub fn has_room(&self, bytes: usize) -> (room: bool)
        ensures
            room == self.room_for(bytes as int),
    {
        self.flushed < u32::MAX - 1 && self.bytes_in_segment <= u32::MAX as u64 && bytes as u128
            + self.bytes_in_segment as u128 + 16 * (self.frames_in_segment as u128 + 1) + 96
            <= u32::MAX as u128
    }

    /// Whether the parameter sets of an access unit are needed: the stream starts with it.
    pub fn needs_parameter_sets(&self, data: &[u8]) -> (result: Result<bool, AvccError>)
        ensures
            match contains_nal_from(data@, 0, KEYFRAME_NAL_TYPE) {
                Ok(keyframe) => result == Ok::<bool, AvccError>(keyframe && self.muxer is None),
                Err(error) => result == Err::<bool, AvccError>(error),
            },
    {
        match avcc_contains_nal_type(data, KEYFRAME_NAL_TYPE) {
            Ok(keyframe) => Ok(keyframe && self.muxer.is_none()),
            Err(error) => Err(error),
        }
    }

    /// What is added to a muxer's queue for a frame.
    pub open spec fn sample(timestamp: u64, data: Seq<u8>, keyframe: bool) -> (
        u64,
        u64,
        Seq<u8>,
        bool,
    ) {
        (timestamp, timestamp, data, keyframe)
    }

    /// Whether a frame opens the stream.
    pub open spec fn opens(self, data: Seq<u8>) -> bool {
        data.len() > 0 && self.muxer is None && contains_nal_from(data, 0, KEYFRAME_NAL_TYPE) == Ok::<
            bool,
            AvccError,
        >(true)
    }

    /// Whether a frame closes the current segment.
    pub open spec fn closes(self, data: Seq<u8>) -> bool {
        self.muxer is Some && self.frames_in_segment > 0 && contains_nal_from(
            data,
            0,
            KEYFRAME_NAL_TYPE,
        ) == Ok::<bool, AvccError>(true)
    }

    /// Why a frame is not added, where it is not.
    pub open spec fn refusal(self, data: Seq<u8>, has_sets: bool) -> Option<LiveError> {
        match contains_nal_from(data, 0, KEYFRAME_NAL_TYPE) {
            Err(error) => Some(LiveError::Frame(error)),
            Ok(_) => if self.opens(data) && !has_sets {
                Some(LiveError::ParameterSetsMissing)
            } else if self.opens(data) && !valid_dimensions(self.width, self.height) {
                Some(LiveError::Dimensions(self.width, self.height))
            } else {
                None
            },
        }
    }

    /// The segment that is added to the store where a frame closes it.
    pub open spec fn closed_segment(self, timestamp: u64) -> PendingView {
        let muxer = self.muxer->0;
        let start = self.segment_start_timestamp->0;
        let (number, decode_time, last) = muxer_timeline(muxer);
        PendingView {
            duration: SegmentDuration { seconds: seconds_between(start, timestamp) },
            start,
            end: timestamp,
            video: media_segment_bytes(number, decode_time, muxer_queue(muxer)),
        }
    }

    /// The queue of the muxer, as far as there is one.
    pub open spec fn queue(self) -> Seq<(u64, u64, Seq<u8>, bool)> {
        match self.muxer {
            Some(muxer) => muxer_queue(muxer),
            None => Seq::empty(),
        }
    }

    /// Starts the stream: makes the muxer, and publishes what decoders need first.
    fn open(&mut self, timestamp: u64, sps: Vec<u8>, pps: Vec<u8>, store: &mut HlsStore) -> (opened:
        bool)
        requires
            old(self).well_formed(),
            old(self).muxer is None,
            old(self).last_timestamp == Some(timestamp),
            old(store).well_formed(),
        ensures
            opened == valid_dimensions(old(self).width, old(self).height),
            final(self).well_formed(),
            final(store).well_formed(),
            final(store)@ == old(store)@,
            !opened ==> *final(self) == *old(self) && *final(store) == *old(store),
            opened ==> {
                &&& final(self).muxer matches Some(muxer)
                &&& muxes_h264_alone(muxer)
                &&& muxer_settings(muxer) == (old(self).width, old(self).height, sps@, pps@)
                &&& muxer_queue(muxer).len() == 0
                &&& muxer_timeline(muxer) == (1u32, 0u64, None::<u64>)
                &&& *final(self) == (LivePipeline {
                    muxer: Some(muxer),
                    segment_start_timestamp: Some(timestamp),
                    ..*old(self)
                })
                &&& old(self).described(*old(store), *final(store), sps@, pps@)
            },
    {
        let codec: String = match avc_codec_string(sps.as_slice()) {
            Some(codec) => codec,
            None => "avc1.42001F".to_owned(),
        };
        match h264_muxer(self.width, self.height, self.fps, sps, pps) {
            Ok(mut muxer) => {
                let init: Vec<u8> = muxer.init_segment();
                store.set_init(
                    init,
                    codec.as_str(),
                    self.width,
                    self.height,
                    self.fps,
                    self.bitrate,
                );
                self.muxer = Some(muxer);
                self.segment_start_timestamp = Some(timestamp);
                true
            },
            Err(_) => false,
        }
    }

    /// Whether a store was told what the stream holds, and nothing else of it changed.
    pub open spec fn described(
        self,
        before: HlsStore,
        after: HlsStore,
        sps: Seq<u8>,
        pps: Seq<u8>,
    ) -> bool {
        &&& after@ == before@
        &&& after.init matches Some(init) && init@ == init_segment_bytes(
            self.width,
            self.height,
            sps,
            pps,
        )
        &&& after.metadata matches Some(metadata) && metadata.codec@ == match codec_name(sps) {
            Some(name) => name,
            None => fallback_codec(),
        } && metadata.width == self.width && metadata.height == self.height && metadata.fps
            == self.fps && metadata.bandwidth == self.bitrate
        &&& after.playlist_requests == before.playlist_requests
        &&& after.init_requests == before.init_requests
        &&& after.segment_requests == before.segment_requests
    }

    /// Adds an encoded frame to the stream. The first keyframe opens it, with the parameter sets
    /// that come with it; every later one closes a segment. The result is the audio sample up to
    /// which audio has to be there for a closed segment.
    pub fn add_frame(
        &mut self,
        data: &[u8],
        timestamp: u64,
        own_sets: Option<(Vec<u8>, Vec<u8>)>,
        store: &mut HlsStore,
    ) -> (result: Result<Option<u64>, LiveError>)
        requires
            old(self).well_formed(),
            old(self).last_timestamp == Some(timestamp),
            timestamp <= i64::MAX,
            old(self).room_for(data@.len() as int),
            old(store).well_formed(),
        ensures
            final(self).well_formed(),
            final(store).well_formed(),
            ({
                let refusal = old(self).refusal(data@, own_sets is Some);
                let keyframe = contains_nal_from(data@, 0, KEYFRAME_NAL_TYPE) == Ok::<
                    bool,
                    AvccError,
                >(true);
                let sample = Self::sample(timestamp, data@, keyframe);
                match refusal {
                    Some(error) => {
                        &&& result == Err::<Option<u64>, LiveError>(error)
                        &&& *final(self) == *old(self)
                        &&& *final(store) == *old(store)
                    },
                    None => if data@.len() == 0 || (old(self).muxer is None && !keyframe) {
                        &&& result == Ok::<Option<u64>, LiveError>(None)
                        &&& *final(self) == *old(self)
                        &&& *final(store) == *old(store)
                    } else if old(self).opens(data@) {
                        &&& result == Ok::<Option<u64>, LiveError>(None)
                        &&& final(self).queue() == seq![sample]
                        &&& final(self).segment_start_timestamp == Some(timestamp)
                        &&& match own_sets {
                            Some((sps, pps)) => {
                                &&& muxer_settings(final(self).muxer->0) == (
                                    old(self).width,
                                    old(self).height,
                                    sps@,
                                    pps@,
                                )
                                &&& old(self).described(*old(store), *final(store), sps@, pps@)
                            },
                            None => true,
                        }
                    } else if old(self).closes(data@) {
                        &&& result == Ok::<Option<u64>, LiveError>(Some(audio_time(timestamp)))
                        &&& final(self).queue() == seq![sample]
                        &&& final(self).segment_start_timestamp == Some(timestamp)
                        &&& muxer_settings(final(self).muxer->0) == muxer_settings(
                            old(self).muxer->0,
                        )
                        &&& final(store)@ == (StoreView {
                            pending: old(store)@.pending.push(
                                old(self).closed_segment(timestamp),
                            ),
                            ..old(store)@
                        }).published()
                        &&& final(store).same_requests(*old(store))
                    } else {
                        &&& result == Ok::<Option<u64>, LiveError>(None)
                        &&& final(self).queue() == old(self).queue().push(sample)
                        &&& final(self).segment_start_timestamp
                            == old(self).segment_start_timestamp
                        &&& muxer_settings(final(self).muxer->0) == muxer_settings(
                            old(self).muxer->0,
                        )
                        &&& *final(store) == *old(store)
                    },
                }
            }),
            final(self).last_timestamp == old(self).last_timestamp,
            final(self).fps == old(self).fps,
            final(self).width == old(self).width,
            final(self).height == old(self).height,
            final(self).bitrate == old(self).bitrate,
    {
        let keyframe: bool = match avcc_contains_nal_type(data, KEYFRAME_NAL_TYPE) {
            Ok(keyframe) => keyframe,
            Err(error) => {
                return Err(LiveError::Frame(error));
            },
        };
        if data.len() == 0 {
            return Ok(None);
        }
        if self.muxer.is_none() {
            if !keyframe {
                return Ok(None);
            }
            match own_sets {
                None => {
                    return Err(LiveError::ParameterSetsMissing);
                },
                Some((sps, pps)) => {
                    if !self.open(timestamp, sps, pps, store) {
                        return Err(LiveError::Dimensions(self.width, self.height));
                    }
                },
            }
        }
        let ghost opened = *self;
        let mut advance: Option<u64> = None;
        let mut muxer: FragmentedMuxer = match self.muxer.take() {
            Some(muxer) => muxer,
            None => {
                return Err(LiveError::Refused);
            },
        };
        let ghost queue = muxer_queue(muxer);
        assert(opened.muxer == Some(muxer));
        if keyframe && self.frames_in_segment > 0 {
            let start: u64 = match self.segment_start_timestamp {
                Some(start) => start,
                None => timestamp,
            };
            assert(fragment_fits(queue));
            if let Some(segment) = muxer.flush_segment() {
                advance = Some(video_to_audio_timestamp(timestamp));
                store.push_segment(
                    segment,
                    SegmentDuration::between(start, timestamp),
                    start,
                    timestamp,
                );
            }
            self.frames_in_segment = 0;
            self.bytes_in_segment = 0;
            self.flushed = self.flushed + 1;
            self.segment_start_timestamp = Some(timestamp);
        }
        let ghost before = muxer_queue(muxer);
        let written: bool = muxer.write_video(timestamp, timestamp, data, keyframe).is_ok();
        let ghost after = muxer_queue(muxer);
        self.muxer = Some(muxer);
        assert(written);
        assert(after.drop_last() =~= before);
        self.frames_in_segment = self.frames_in_segment + 1;
        self.bytes_in_segment = self.bytes_in_segment + data.len() as u64;
        proof {
            assert forall|i: int| 0 <= i < after.len() implies (#[trigger] after[i]).1
                <= i64::MAX by {
                if i < before.len() {
                    assert(after[i] == before[i]);
                }
            }
            assert(sample_bytes(before) + data@.len() == sample_bytes(after));
            assert(self.frames_in_segment == after.len());
            assert(self.bytes_in_segment == sample_bytes(after));
            if before.len() == 0 {
                assert(after =~= seq![Self::sample(timestamp, data@, keyframe)]);
            }
        }
        Ok(advance)
    }
}

/// A frame is a keyframe where one of its NAL units is of type five. The first keyframe opens the
/// stream, and every later one closes a segment that has frames.
pub proof fn lemma_keyframes_open_and_close(pipeline: LivePipeline, data: Seq<u8>, units: Seq<Seq<u8>>)
    requires
        avcc_units(data) == Ok::<Seq<Seq<u8>>, AvccError>(units),
        data.len() > 0,
    ensures
        pipeline.opens(data) <==> pipeline.muxer is None && exists|i: int|
            0 <= i < units.len() && (#[trigger] units[i])[0] & 0x1f == 5,
        pipeline.closes(data) <==> pipeline.muxer is Some && pipeline.frames_in_segment > 0
            && exists|i: int| 0 <= i < units.len() && (#[trigger] units[i])[0] & 0x1f == 5,
        pipeline.refusal(data, true) is None || pipeline.opens(data),
{
    lemma_contains_nal_type_searches_every_unit(data, 0, KEYFRAME_NAL_TYPE);
    let split = avcc_units_from(data, 0)->Ok_0;
    assert(split == units);
    if exists|i: int| 0 <= i < units.len() && (#[trigger] units[i])[0] & 0x1f == 5 {
        let i = choose|i: int| 0 <= i < units.len() && (#[trigger] units[i])[0] & 0x1f == 5;
        assert(split[i][0] & 0x1f == KEYFRAME_NAL_TYPE);
    }
    if exists|i: int| 0 <= i < split.len() && (#[trigger] split[i])[0] & 0x1f == KEYFRAME_NAL_TYPE {
        let i = choose|i: int|
            0 <= i < split.len() && (#[trigger] split[i])[0] & 0x1f == KEYFRAME_NAL_TYPE;
        assert(units[i][0] & 0x1f == 5);
    }
}

/// A closed segment plays from the frame that opened it up to the one that closes it.
pub proof fn lemma_segments_reach_from_keyframe_to_keyframe(pipeline: LivePipeline, timestamp: u64)
    requires
        pipeline.well_formed(),
        pipeline.muxer is Some,
    ensures
        Some(pipeline.closed_segment(timestamp).start) == pipeline.segment_start_timestamp,
        pipeline.closed_segment(timestamp).end == timestamp,
        pipeline.closed_segment(timestamp).duration.seconds == seconds_between(
            pipeline.closed_segment(timestamp).start,
            timestamp,
        ),
        pipeline.closed_segment(timestamp).video == media_segment_bytes(
            (pipeline.flushed + 1) as u32,
            muxer_timeline(pipeline.muxer->0).1,
            pipeline.queue(),
        ),
{
}

} // verus!
