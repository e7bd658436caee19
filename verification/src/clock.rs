//! Spans of time in nanoseconds, and the media clock that audio and video share.

use vstd::prelude::*;

verus! {

pub const NANOS_PER_SECOND: u64 = 1_000_000_000;

pub const NANOS_PER_MILLISECOND: u64 = 1_000_000;

pub const NANOS_PER_MICROSECOND: u64 = 1_000;

/// The longest span that the platform can measure.
pub const LONGEST_SPAN: u128 = 18_446_744_073_709_551_615_999_999_999;

/// Whole microseconds, as many as a counter holds.
pub open spec fn micros_of(nanos: int) -> u64 {
    if nanos / 1000 <= u64::MAX {
        (nanos / 1000) as u64
    } else {
        u64::MAX
    }
}

/// The whole microseconds of a span; a span that is too long for the counter fills it.
pub fn duration_micros(nanos: u128) -> (micros: u64)
    ensures
        micros == micros_of(nanos as int),
{
    let micros: u128 = nanos / 1_000;
    if micros <= u64::MAX as u128 {
        micros as u64
    } else {
        u64::MAX
    }
}

/// The nanoseconds between two readings of a monotonic clock; zero where the later reading does
/// not lie after the earlier one.
pub open spec fn span(earlier: u64, later: u64) -> u64 {
    if later >= earlier {
        (later - earlier) as u64
    } else {
        0
    }
}

/// The nanoseconds between two readings of a monotonic clock.
pub fn elapsed(earlier: u64, later: u64) -> (nanos: u64)
    ensures
        nanos == span(earlier, later),
{
    later.saturating_sub(earlier)
}

/// The whole microseconds between two readings of a monotonic clock.
pub fn elapsed_micros(earlier: u64, later: u64) -> (micros: u64)
    ensures
        micros == span(earlier, later) / 1000,
{
    elapsed(earlier, later) / NANOS_PER_MICROSECOND
}

/// Milliseconds, rounded up to whole ones.
pub fn micros_to_millis_ceil(micros: u64) -> (millis: u64)
    ensures
        millis == (micros + 999) / 1000,
{
    let whole: u64 = micros / 1_000;
    if micros % 1_000 == 0 {
        whole
    } else {
        whole + 1
    }
}

/// The 64-bit NTP timestamp of a moment `seconds` and `nanos` after the Unix epoch: seconds since
/// 1900 in the upper half, modulo the 32 bits that it has, and the fraction of a second in the
/// lower half.
pub open spec fn ntp_of(seconds: int, nanos: int) -> int {
    ((seconds + 2_208_988_800) % 0x1_0000_0000) * 0x1_0000_0000 + (nanos * 0x1_0000_0000)
        / 1_000_000_000
}

/// The NTP timestamp that a sender report carries.
#[verifier::spinoff_prover]
pub fn ntp_timestamp(seconds: u64, nanos: u32) -> (timestamp: u64)
    requires
        nanos < 1_000_000_000,
    ensures
        timestamp == ntp_of(seconds as int, nanos as int),
{
    let upper: u64 = (seconds % 0x1_0000_0000 + 2_208_988_800) % 0x1_0000_0000;
    let fraction: u64 = nanos as u64 * 0x1_0000_0000 / 1_000_000_000;
    assert(upper == (seconds + 2_208_988_800) % 0x1_0000_0000) by {
        vstd::arithmetic::div_mod::lemma_add_mod_noop(
            seconds as int,
            2_208_988_800,
            0x1_0000_0000,
        );
    }
    assert(fraction < 0x1_0000_0000);
    upper * 0x1_0000_0000 + fraction
}

/// A moment of a capture clock: `value` parts of `1/timescale` seconds.
#[derive(Clone, Copy, Debug, PartialEq, Eq, Structural)]
pub struct MediaTimestamp {
    pub value: i64,
    pub timescale: i32,
    pub valid: bool,
}

impl MediaTimestamp {
    pub fn new(value: i64, timescale: i32) -> (timestamp: Self)
        ensures
            timestamp == (MediaTimestamp { value, timescale, valid: true }),
    {
        MediaTimestamp { value, timescale, valid: true }
    }

    pub fn invalid() -> (timestamp: Self)
        ensures
            timestamp == (MediaTimestamp { value: 0, timescale: 0, valid: false }),
    {
        MediaTimestamp { value: 0, timescale: 0, valid: false }
    }

    /// Whether the timestamp names a moment.
    pub open spec fn usable(self) -> bool {
        self.valid && self.value >= 0 && self.timescale > 0
    }
}

/// How far `time` lies after `origin`, in parts of the product of both timescales.
pub open spec fn media_delta(origin: MediaTimestamp, time: MediaTimestamp) -> int {
    time.value * origin.timescale - origin.value * time.timescale
}

/// The whole ticks of a clock from `origin` to `time`; none before the origin, and nothing where
/// the count does not fit.
pub open spec fn media_ticks(origin: MediaTimestamp, time: MediaTimestamp, timescale: u64) -> Option<
    u64,
> {
    let delta = media_delta(origin, time);
    if delta < 0 {
        Some(0)
    } else if delta * timescale > i128::MAX {
        None
    } else {
        let ticks = delta * timescale / (time.timescale * origin.timescale);
        if ticks <= u64::MAX {
            Some(ticks as u64)
        } else {
            None
        }
    }
}

/// The clock of a session. Its first usable timestamp is the epoch of audio and video alike.
#[derive(Clone, Copy, Debug, PartialEq, Eq, Structural)]
pub struct MediaClock {
    pub origin: Option<MediaTimestamp>,
}

impl MediaClock {
    pub open spec fn well_formed(&self) -> bool {
        self.origin matches Some(origin) ==> origin.usable()
    }

    /// The epoch once a usable timestamp was seen.
    pub open spec fn origin_with(self, time: MediaTimestamp) -> MediaTimestamp {
        match self.origin {
            Some(origin) => origin,
            None => time,
        }
    }

    /// A clock without an epoch.
    pub fn new() -> (clock: Self)
        ensures
            clock.origin is None,
            clock.well_formed(),
    {
        MediaClock { origin: None }
    }

    /// The ticks of a clock at `target_timescale` from the epoch to `time`.
    pub fn ticks(&mut self, time: MediaTimestamp, target_timescale: u64) -> (ticks: Option<u64>)
        requires
            old(self).well_formed(),
        ensures
            final(self).well_formed(),
            !time.usable() ==> ticks is None && *final(self) == *old(self),
            time.usable() ==> final(self).origin == Some(old(self).origin_with(time)) && ticks
                == media_ticks(old(self).origin_with(time), time, target_timescale),
    {
        if !time.valid || time.value < 0 || time.timescale <= 0 {
            return None;
        }
        let origin: MediaTimestamp = match self.origin {
            Some(origin) => origin,
            None => time,
        };
        self.origin = Some(origin);
        proof {
            lemma_media_products(origin, time);
        }
        let ahead: i128 = time.value as i128 * origin.timescale as i128;
        let behind: i128 = origin.value as i128 * time.timescale as i128;
        let delta: i128 = ahead - behind;
        if delta < 0 {
            return Some(0);
        }
        let denominator: u128 = time.timescale as u128 * origin.timescale as u128;
        let scaled: u128 = match (delta as u128).checked_mul(target_timescale as u128) {
            Some(scaled) => scaled,
            None => {
                return None;
            },
        };
        if scaled > i128::MAX as u128 {
            return None;
        }
        let ticks: u128 = scaled / denominator;
        if ticks <= u64::MAX as u128 {
            Some(ticks as u64)
        } else {
            None
        }
    }
}

/// An NTP timestamp counts seconds from 1900 in its upper half, so that a second later it is one
/// greater there, and the fraction of a second in its lower half, rounded down.
pub proof fn lemma_ntp_timestamps_count_seconds(seconds: int, nanos: int)
    requires
        0 <= seconds,
        0 <= nanos < 1_000_000_000,
    ensures
        ntp_of(seconds, nanos) / 0x1_0000_0000 == (seconds + 2_208_988_800) % 0x1_0000_0000,
        (ntp_of(seconds, nanos) % 0x1_0000_0000) * 1_000_000_000 <= nanos * 0x1_0000_0000 < (ntp_of(
            seconds,
            nanos,
        ) % 0x1_0000_0000 + 1) * 1_000_000_000,
        (seconds + 2_208_988_801) % 0x1_0000_0000 != 0 ==> ntp_of(seconds + 1, nanos) - ntp_of(
            seconds,
            nanos,
        ) == 0x1_0000_0000,
{
}

/// The ticks of a clock at the epoch are none, and a whole number of seconds after it as many as
/// the clock has in that time.
pub proof fn lemma_seconds_have_their_ticks(origin: MediaTimestamp, seconds: int, timescale: u64)
    requires
        origin.usable(),
        0 <= seconds <= 0x1_0000_0000,
        origin.value + seconds * origin.timescale <= i64::MAX,
        timescale <= 0x10_0000,
    ensures
        media_ticks(
            origin,
            MediaTimestamp {
                value: (origin.value + seconds * origin.timescale) as i64,
                timescale: origin.timescale,
                valid: true,
            },
            timescale,
        ) == Some((seconds * timescale) as u64),
        media_ticks(origin, origin, timescale) == Some(0u64),
{
    let scale = origin.timescale as int;
    let value = origin.value as int;
    let rate = timescale as int;
    assert(0 <= seconds * scale) by (nonlinear_arith)
        requires
            0 <= seconds,
            0 < scale,
    ;
    let later = MediaTimestamp {
        value: (origin.value + seconds * origin.timescale) as i64,
        timescale: origin.timescale,
        valid: true,
    };
    let square = scale * scale;
    let count = seconds * rate;
    assert(media_delta(origin, later) == seconds * square) by (nonlinear_arith)
        requires
            media_delta(origin, later) == (value + seconds * scale) * scale - value * scale,
            square == scale * scale,
    ;
    assert(0 < square <= 0x4000_0000_0000_0000) by (nonlinear_arith)
        requires
            square == scale * scale,
            0 < scale <= 0x8000_0000,
    ;
    assert(0 <= count <= 0x10_0000_0000_0000) by (nonlinear_arith)
        requires
            count == seconds * rate,
            0 <= seconds <= 0x1_0000_0000,
            0 <= rate <= 0x10_0000,
    ;
    assert(seconds * square * rate == count * square && 0 <= seconds * square) by (nonlinear_arith)
        requires
            count == seconds * rate,
            0 <= seconds,
            0 < square,
    ;
    assert(count * square <= 0x10_0000_0000_0000 * 0x4000_0000_0000_0000) by (nonlinear_arith)
        requires
            0 <= count <= 0x10_0000_0000_0000,
            0 < square <= 0x4000_0000_0000_0000,
    ;
    assert(count * square / square == count) by (nonlinear_arith)
        requires
            0 < square,
    ;
    assert(media_delta(origin, origin) == 0);
    assert(0int * timescale / square == 0) by (nonlinear_arith)
        requires
            0 < square,
    ;
    assert(0int * timescale == 0);
}

/// Spans are the differences of readings, and their microseconds the thousandth part.
pub proof fn lemma_spans_are_differences(earlier: u64, later: u64)
    ensures
        earlier <= later ==> span(earlier, later) + earlier == later,
        later <= earlier ==> span(earlier, later) == 0,
        1000 * micros_of(span(earlier, later) as int) <= span(earlier, later) < 1000 * (micros_of(
            span(earlier, later) as int,
        ) + 1),
{
}

proof fn lemma_media_products(origin: MediaTimestamp, time: MediaTimestamp)
    requires
        origin.usable(),
        time.usable(),
    ensures
        0 <= time.value * origin.timescale <= 0x8000_0000_0000_0000 * 0x8000_0000,
        0 <= origin.value * time.timescale <= 0x8000_0000_0000_0000 * 0x8000_0000,
        0 < time.timescale * origin.timescale <= 0x8000_0000 * 0x8000_0000,
{
    let tv = time.value as int;
    let ov = origin.value as int;
    let ts = time.timescale as int;
    let os = origin.timescale as int;
    assert(0 <= tv * os <= 0x8000_0000_0000_0000 * 0x8000_0000) by (nonlinear_arith)
        requires
            0 <= tv <= 0x8000_0000_0000_0000,
            0 <= os <= 0x8000_0000,
    ;
    assert(0 <= ov * ts <= 0x8000_0000_0000_0000 * 0x8000_0000) by (nonlinear_arith)
        requires
            0 <= ov <= 0x8000_0000_0000_0000,
            0 <= ts <= 0x8000_0000,
    ;
    assert(0 < ts * os <= 0x8000_0000 * 0x8000_0000) by (nonlinear_arith)
        requires
            0 < ts <= 0x8000_0000,
            0 < os <= 0x8000_0000,
    ;
}

/// The epoch itself is tick zero on every timescale.
pub proof fn lemma_the_epoch_is_tick_zero(origin: MediaTimestamp, timescale: u64)
    requires
        origin.usable(),
    ensures
        media_ticks(origin, origin, timescale) == Some(0u64),
{
    let square = origin.timescale * origin.timescale;
    lemma_media_products(origin, origin);
    assert(media_delta(origin, origin) == 0);
    assert(0 * timescale == 0) by (nonlinear_arith);
    assert(0int / square == 0) by (nonlinear_arith)
        requires
            square > 0,
    ;
}

/// Time does not run backwards: of two moments on any timescales, the later one has no fewer
/// ticks, as long as both counts fit.
pub proof fn lemma_media_ticks_are_monotonic(
    origin: MediaTimestamp,
    earlier: MediaTimestamp,
    later: MediaTimestamp,
    timescale: u64,
)
    requires
        origin.usable(),
        earlier.usable(),
        later.usable(),
        earlier.value * later.timescale <= later.value * earlier.timescale,
        media_ticks(origin, earlier, timescale) is Some,
        media_ticks(origin, later, timescale) is Some,
    ensures
        media_ticks(origin, earlier, timescale)->0 <= media_ticks(origin, later, timescale)->0,
{
    let d1 = media_delta(origin, earlier);
    let d2 = media_delta(origin, later);
    let s1 = earlier.timescale as int;
    let s2 = later.timescale as int;
    let os = origin.timescale as int;
    let ov = origin.value as int;
    let v1 = earlier.value as int;
    let v2 = later.value as int;
    let t = timescale as int;
    assert(d1 * s2 <= d2 * s1) by (nonlinear_arith)
        requires
            d1 == v1 * os - ov * s1,
            d2 == v2 * os - ov * s2,
            v1 * s2 <= v2 * s1,
            os > 0,
    ;
    if d1 >= 0 {
        assert(d2 >= 0) by (nonlinear_arith)
            requires
                d1 * s2 <= d2 * s1,
                d1 >= 0,
                s1 > 0,
                s2 > 0,
        ;
        let n1 = s1 * os;
        let n2 = s2 * os;
        let q1 = d1 * t / n1;
        lemma_media_products(origin, earlier);
        lemma_media_products(origin, later);
        vstd::arithmetic::div_mod::lemma_fundamental_div_mod(d1 * t, n1);
        assert(q1 >= 0 && q1 * n1 <= d1 * t) by (nonlinear_arith)
            requires
                q1 == d1 * t / n1,
                d1 * t == n1 * q1 + (d1 * t) % n1,
                n1 > 0,
                d1 >= 0,
                t >= 0,
        ;
        assert(q1 * n2 <= d2 * t) by (nonlinear_arith)
            requires
                q1 * n1 <= d1 * t,
                n1 == s1 * os,
                n2 == s2 * os,
                d1 * s2 <= d2 * s1,
                s1 > 0,
                s2 > 0,
                t >= 0,
        {
            assert(q1 * (s1 * os) * s2 <= d1 * t * s2);
            assert(q1 * (s1 * os) * s2 == q1 * (s2 * os) * s1);
            assert(d1 * t * s2 == d1 * s2 * t);
            assert(d1 * s2 * t <= d2 * s1 * t);
            assert(d2 * s1 * t == d2 * t * s1);
            assert(q1 * (s2 * os) * s1 <= d2 * t * s1);
        }
        assert(q1 <= d2 * t / n2) by (nonlinear_arith)
            requires
                q1 * n2 <= d2 * t,
                n2 > 0,
        ;
    }
}

} // verus!
