//! Times of captured frames, and the end of a capture.

use vstd::prelude::*;

verus! {

/// The ticks of a clock in a span of nanoseconds.
pub open spec fn ticks_in(nanos: int, timescale: u64) -> int {
    let held = if nanos <= u64::MAX {
        nanos
    } else {
        u64::MAX as int
    };
    let scaled = if held * timescale <= u64::MAX {
        held * timescale
    } else {
        u64::MAX as int
    };
    scaled / 1_000_000_000
}

/// The ticks of a clock in a span of nanoseconds.
pub fn duration_ticks(nanos: u128, timescale: u64) -> (ticks: u64)
    ensures
        ticks == ticks_in(nanos as int, timescale),
{
    let held: u64 = if nanos <= u64::MAX as u128 {
        nanos as u64
    } else {
        u64::MAX
    };
    assert(0 <= held * timescale <= 0xffff_ffff_ffff_ffff * 0xffff_ffff_ffff_ffff)
        by (nonlinear_arith)
        requires
            0 <= held <= 0xffff_ffff_ffff_ffff,
            0 <= timescale <= 0xffff_ffff_ffff_ffff,
    ;
    let full: u128 = held as u128 * timescale as u128;
    let scaled: u64 = if full <= u64::MAX as u128 {
        full as u64
    } else {
        u64::MAX
    };
    scaled / 1_000_000_000
}

/// A span has its share of the ticks of a second, rounded down.
pub proof fn lemma_spans_have_their_ticks(nanos: int, timescale: u64)
    requires
        0 <= nanos <= u64::MAX,
        nanos * timescale <= u64::MAX,
    ensures
        ticks_in(nanos, timescale) * 1_000_000_000 <= nanos * timescale < (ticks_in(
            nanos,
            timescale,
        ) + 1) * 1_000_000_000,
{
}

/// How many epochs a program has made.
#[derive(Debug)]
pub struct EpochCounter {
    pub made: u64,
}

impl EpochCounter {
    pub fn new() -> (counter: Self)
        ensures
            counter.made == 0,
    {
        EpochCounter { made: 0 }
    }
}

/// The moment from which every stream of a session counts. An epoch is one of its own even where
/// another was made at the same reading of the clock; its copies are the same epoch.
#[derive(Clone, Copy, Debug, PartialEq, Eq, Structural)]
pub struct CaptureEpoch {
    /// A reading of the monotonic clock in nanoseconds.
    pub started: u64,
    /// How many epochs were made before.
    pub number: u64,
}

impl CaptureEpoch {
    /// Whether this epoch was made before the counter came to where it is.
    pub open spec fn made_before(self, counter: EpochCounter) -> bool {
        self.number < counter.made
    }

    /// Whether two values are the same epoch.
    pub open spec fn is_same_as(self, other: CaptureEpoch) -> bool {
        self.number == other.number
    }

    /// A new epoch, apart from every one that was made before.
    pub fn new(now: u64, counter: &mut EpochCounter) -> (epoch: Self)
        requires
            old(counter).made < u64::MAX,
        ensures
            epoch.started == now,
            epoch.number == old(counter).made,
            final(counter).made == old(counter).made + 1,
            epoch.made_before(*final(counter)),
            forall|earlier: CaptureEpoch| #[trigger]
                earlier.made_before(*old(counter)) ==> earlier.made_before(*final(counter))
                    && !earlier.is_same_as(epoch),
    {
        let epoch: CaptureEpoch = CaptureEpoch { started: now, number: counter.made };
        counter.made = counter.made + 1;
        epoch
    }

    /// The ticks of a clock from the epoch to `now`.
    pub fn ticks(&self, now: u64, timescale: u64) -> (ticks: u64)
        ensures
            ticks == ticks_in(crate::clock::span(self.started, now) as int, timescale),
    {
        duration_ticks(crate::clock::elapsed(self.started, now) as u128, timescale)
    }

    /// Whether two values are the same epoch.
    pub fn shares_origin_with(&self, other: &Self) -> (shared: bool)
        ensures
            shared == self.is_same_as(*other),
    {
        self.number == other.number
    }
}

/// What follows an attempt to capture a temporary display.
#[derive(Clone, Copy, Debug, PartialEq, Eq, Structural)]
pub enum CaptureAttempt {
    Started,
    Retry,
    GiveUp,
}

/// How long a temporary display may take to become ready, in nanoseconds.
pub const DISPLAY_PATIENCE: u64 = 2_000_000_000;

/// What follows an attempt that was made at `now` to capture a display that is there since
/// `started`.
pub fn after_attempt(succeeded: bool, started: u64, now: u64) -> (next: CaptureAttempt)
    ensures
        next == if succeeded {
            CaptureAttempt::Started
        } else if now < started + DISPLAY_PATIENCE {
            CaptureAttempt::Retry
        } else {
            CaptureAttempt::GiveUp
        },
{
    if succeeded {
        CaptureAttempt::Started
    } else if now < started || now - started < DISPLAY_PATIENCE {
        CaptureAttempt::Retry
    } else {
        CaptureAttempt::GiveUp
    }
}

/// How long a frame may wait for the encoder of a plain capture, in milliseconds: the time between
/// two frames, rounded up.
pub fn frame_deadline(fps: u32) -> (millis: u64)
    requires
        fps > 0,
    ensures
        millis * fps >= 1000,
        (millis - 1) * fps < 1000,
{
    let rate: u64 = fps as u64;
    let millis: u64 = (1000 + (rate - 1)) / rate;
    assert(millis * fps >= 1000 && (millis - 1) * fps < 1000) by (nonlinear_arith)
        requires
            fps > 0,
            millis == (1000 + (fps - 1)) / (fps as int),
    ;
    millis
}

/// Whether a plain capture can run with a bitrate.
pub fn has_bitrate(bitrate: i32) -> (result: bool)
    ensures
        result == (bitrate > 0),
{
    bitrate > 0
}

/// What follows once the capture itself was asked to stop.
#[derive(Clone, Copy, Debug, PartialEq, Eq, Structural)]
pub enum StopStep {
    /// The capture could not be stopped: its error is the result.
    Fail,
    /// Remove the temporary display: how that ends is the result.
    RemoveDisplay,
    /// Everything is stopped.
    Done,
}

/// What is stopped when a capture ends: the capture itself, and after it the temporary display,
/// unless the capture could not be stopped.
#[derive(Clone, Copy, Debug, PartialEq, Eq, Structural)]
pub struct RunningCapture {
    pub has_display: bool,
    pub stopped: bool,
}

impl RunningCapture {
    pub fn new(has_display: bool) -> (capture: Self)
        ensures
            capture == (RunningCapture { has_display, stopped: false }),
    {
        RunningCapture { has_display, stopped: false }
    }

    /// The state once a stop was asked for.
    pub open spec fn begun(self) -> RunningCapture {
        RunningCapture { stopped: true, ..self }
    }

    /// What follows once the capture was asked to stop.
    pub open spec fn step_after(self, capture_failed: bool) -> StopStep {
        if capture_failed {
            StopStep::Fail
        } else if self.has_display {
            StopStep::RemoveDisplay
        } else {
            StopStep::Done
        }
    }

    /// The state once the capture was asked to stop.
    pub open spec fn after(self, capture_failed: bool) -> RunningCapture {
        RunningCapture { has_display: capture_failed && self.has_display, ..self }
    }

    /// Whether the capture has to be stopped now. It is stopped once; where it was stopped
    /// before, a stop succeeds and does nothing.
    pub fn begin_stop(&mut self) -> (stops: bool)
        ensures
            stops == !old(self).stopped,
            *final(self) == old(self).begun(),
    {
        let stops: bool = !self.stopped;
        self.stopped = true;
        stops
    }

    /// What follows once the capture was asked to stop, and whether that failed.
    pub fn finish_stop(&mut self, capture_failed: bool) -> (step: StopStep)
        ensures
            step == old(self).step_after(capture_failed),
            *final(self) == old(self).after(capture_failed),
    {
        if capture_failed {
            return StopStep::Fail;
        }
        if self.has_display {
            self.has_display = false;
            StopStep::RemoveDisplay
        } else {
            StopStep::Done
        }
    }
}

/// How the two parts of a stop would end, if they are asked to stop.
pub struct StopAttempt {
    pub capture_fails: bool,
    pub display_fails: bool,
}

/// What is asked to stop.
pub enum StopCall {
    Capture,
    Display,
}

/// What one stop amounts to: the state after it, what is asked to stop, in order, and whether the
/// stop succeeds.
pub open spec fn stop(capture: RunningCapture, attempt: StopAttempt) -> (
    RunningCapture,
    Seq<StopCall>,
    bool,
) {
    let begun = capture.begun();
    if capture.stopped {
        (begun, Seq::empty(), true)
    } else {
        let after = begun.after(attempt.capture_fails);
        match begun.step_after(attempt.capture_fails) {
            StopStep::Fail => (after, seq![StopCall::Capture], false),
            StopStep::RemoveDisplay => (
                after,
                seq![StopCall::Capture, StopCall::Display],
                !attempt.display_fails,
            ),
            StopStep::Done => (after, seq![StopCall::Capture], true),
        }
    }
}

/// The state after some stops, one after the other.
pub open spec fn state_after(capture: RunningCapture, attempts: Seq<StopAttempt>) -> RunningCapture
    decreases attempts.len(),
{
    if attempts.len() == 0 {
        capture
    } else {
        stop(state_after(capture, attempts.drop_last()), attempts.last()).0
    }
}

/// What is asked to stop over some stops, in order.
pub open spec fn calls_over(capture: RunningCapture, attempts: Seq<StopAttempt>) -> Seq<StopCall>
    decreases attempts.len(),
{
    if attempts.len() == 0 {
        Seq::empty()
    } else {
        calls_over(capture, attempts.drop_last()) + stop(
            state_after(capture, attempts.drop_last()),
            attempts.last(),
        ).1
    }
}

/// Over any series of stops, the last of which may be that of a dropped capture, the capture is
/// asked to stop exactly once, by the first of them. The display is asked at most once and only
/// after the capture has stopped. The first stop fails where something that it asked fails, and
/// every later one succeeds and asks nothing.
pub proof fn lemma_captures_stop_once(has_display: bool, attempts: Seq<StopAttempt>)
    requires
        attempts.len() > 0,
    ensures
        ({
            let capture = RunningCapture { has_display, stopped: false };
            let first = attempts[0];
            &&& calls_over(capture, attempts) == if has_display && !first.capture_fails {
                seq![StopCall::Capture, StopCall::Display]
            } else {
                seq![StopCall::Capture]
            }
            &&& stop(capture, first).2 == !(first.capture_fails || (has_display
                && first.display_fails))
            &&& state_after(capture, attempts).stopped
            &&& forall|later: StopAttempt| #[trigger]
                stop(state_after(capture, attempts), later) == (
                    state_after(capture, attempts),
                    Seq::<StopCall>::empty(),
                    true,
                )
        }),
    decreases attempts.len(),
{
    let capture = RunningCapture { has_display, stopped: false };
    let before = attempts.drop_last();
    if before.len() == 0 {
        assert(state_after(capture, before) == capture);
        assert(calls_over(capture, before) =~= Seq::empty());
        assert(attempts.last() == attempts[0]);
        assert(calls_over(capture, attempts) =~= stop(capture, attempts[0]).1);
    } else {
        lemma_captures_stop_once(has_display, before);
        assert(before[0] == attempts[0]);
        assert(stop(state_after(capture, before), attempts.last()) == (
            state_after(capture, before),
            Seq::<StopCall>::empty(),
            true,
        ));
        assert(calls_over(capture, attempts) =~= calls_over(capture, before));
    }
}

} // verus!
