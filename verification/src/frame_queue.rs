//! A one-place queue of raw frames: a new frame replaces one that still waits, and a frame that
//! waited too long is dropped once the receiver has something to show.

use vstd::prelude::*;

use crate::clock::{duration_micros, elapsed, micros_of, span};

verus! {

/// How many frames came in, were replaced and were too old. The counts wrap around when full.
#[derive(Clone, Copy, Debug, PartialEq, Eq, Structural)]
pub struct LatestFrameMetrics {
    pub submitted: u64,
    pub replaced: u64,
    pub expired: u64,
}

impl LatestFrameMetrics {
    /// The counts in the order submitted, replaced, expired.
    pub fn snapshot(&self) -> (counts: (u64, u64, u64))
        ensures
            counts == (self.submitted, self.replaced, self.expired),
    {
        (self.submitted, self.replaced, self.expired)
    }
}

/// A frame that waits, and when it was handed in.
pub struct PendingFrame<F> {
    pub frame: F,
    /// A reading of the monotonic clock, in nanoseconds.
    pub submitted_at: u64,
}

/// The queue takes no frames any more.
#[derive(Clone, Copy, Debug, PartialEq, Eq, Structural)]
pub struct QueueStopped {}

/// What the worker does next.
pub enum QueueStep<F> {
    /// Nothing waits: sleep until a frame comes or the queue stops.
    Wait,
    /// The queue was stopped: end.
    Stop,
    /// Work on this frame.
    Frame(PendingFrame<F>),
}

/// A queue that holds the newest frame only.
pub struct LatestFrameQueue<F> {
    pub pending: Option<PendingFrame<F>>,
    pub stopping: bool,
    pub metrics: LatestFrameMetrics,
}

impl<F> LatestFrameQueue<F> {
    pub fn new() -> (queue: Self)
        ensures
            queue.pending is None,
            !queue.stopping,
            queue.metrics == (LatestFrameMetrics { submitted: 0, replaced: 0, expired: 0 }),
    {
        LatestFrameQueue {
            pending: None,
            stopping: false,
            metrics: LatestFrameMetrics { submitted: 0, replaced: 0, expired: 0 },
        }
    }

    /// Hands a frame in. Returns the frame that it replaces, if one still waited.
    pub fn submit(&mut self, frame: F, now: u64) -> (result: Result<Option<F>, QueueStopped>)
        ensures
            result is Err <==> old(self).stopping,
            result is Err ==> *final(self) == *old(self),
            result matches Ok(replaced) ==> {
                &&& final(self).pending == Some(PendingFrame { frame, submitted_at: now })
                &&& !final(self).stopping
                &&& replaced == match old(self).pending {
                    Some(waiting) => Some(waiting.frame),
                    None => None,
                }
                &&& final(self).metrics == LatestFrameMetrics {
                    submitted: old(self).metrics.submitted.wrapping_add(1),
                    replaced: if old(self).pending is Some {
                        old(self).metrics.replaced.wrapping_add(1)
                    } else {
                        old(self).metrics.replaced
                    },
                    expired: old(self).metrics.expired,
                }
            },
    {
        if self.stopping {
            return Err(QueueStopped {  });
        }
        self.metrics.submitted = self.metrics.submitted.wrapping_add(1);
        let waiting: Option<PendingFrame<F>> = self.pending.take();
        self.pending = Some(PendingFrame { frame, submitted_at: now });
        match waiting {
            Some(waiting) => {
                self.metrics.replaced = self.metrics.replaced.wrapping_add(1);
                Ok(Some(waiting.frame))
            },
            None => Ok(None),
        }
    }

    /// Takes the next step of the worker. A stopped queue hands nothing out.
    pub fn next(&mut self) -> (step: QueueStep<F>)
        ensures
            final(self).stopping == old(self).stopping,
            final(self).metrics == old(self).metrics,
            if old(self).stopping {
                step is Stop && final(self).pending == old(self).pending
            } else {
                match old(self).pending {
                    None => step is Wait && final(self).pending is None,
                    Some(waiting) => step == QueueStep::Frame(waiting) && final(self).pending is None,
                }
            },
    {
        if self.stopping {
            return QueueStep::Stop;
        }
        match self.pending.take() {
            Some(waiting) => QueueStep::Frame(waiting),
            None => QueueStep::Wait,
        }
    }

    /// Judges a frame that was taken. Returns how long it waited, in microseconds, or nothing
    /// where it waited longer than `max_age` although a reference frame went out already: then it
    /// counts as expired.
    pub fn judge(
        &mut self,
        started_at: Option<u64>,
        submitted_at: u64,
        now: u64,
        has_reference_frame: bool,
        max_age: Option<u128>,
    ) -> (wait_micros: Option<u64>)
        ensures
            final(self).pending == old(self).pending,
            final(self).stopping == old(self).stopping,
            ({
                let start = match started_at {
                    Some(start) => start,
                    None => submitted_at,
                };
                if stale(span(start, now), has_reference_frame, max_age) {
                    wait_micros is None && final(self).metrics == LatestFrameMetrics {
                        expired: old(self).metrics.expired.wrapping_add(1),
                        ..old(self).metrics
                    }
                } else {
                    wait_micros == Some(micros_of(span(start, now) as int)) && final(self).metrics
                        == old(self).metrics
                }
            }),
    {
        let start: u64 = match started_at {
            Some(start) => start,
            None => submitted_at,
        };
        let wait: u64 = elapsed(start, now);
        if has_reference_frame {
            if let Some(deadline) = max_age {
                if wait as u128 > deadline {
                    self.metrics.expired = self.metrics.expired.wrapping_add(1);
                    return None;
                }
            }
        }
        Some(duration_micros(wait as u128))
    }

    /// Stops the queue and drops what waits.
    pub fn stop(&mut self) -> (dropped: Option<F>)
        ensures
            final(self).stopping,
            final(self).pending is None,
            final(self).metrics == old(self).metrics,
            dropped == match old(self).pending {
                Some(waiting) => Some(waiting.frame),
                None => None,
            },
    {
        self.stopping = true;
        match self.pending.take() {
            Some(waiting) => Some(waiting.frame),
            None => None,
        }
    }
}

/// Whether a frame is too old to encode. The first frame never is: a receiver without a reference
/// frame has nothing to show.
pub open spec fn stale(wait: u64, has_reference_frame: bool, max_age: Option<u128>) -> bool {
    has_reference_frame && match max_age {
        Some(deadline) => wait > deadline,
        None => false,
    }
}

/// Without a reference frame, or without a deadline, no frame is dropped for its age.
pub proof fn lemma_reference_frames_are_never_dropped(wait: u64, max_age: Option<u128>)
    ensures
        !stale(wait, false, max_age),
        !stale(wait, true, None),
{
}

/// With a reference frame, a frame may wait as long as its deadline and not longer.
pub proof fn lemma_frames_may_wait_for_their_deadline(wait: u64, deadline: u128)
    ensures
        wait <= deadline ==> !stale(wait, true, Some(deadline)),
        wait > deadline ==> stale(wait, true, Some(deadline)),
{
}

} // verus!
