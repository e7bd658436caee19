//! Adaptive bitrate for a group of receivers that share one encoder.
//!
//! Every receiver reports one health window after another. A round is complete when each of them
//! has reported; one congested window in a complete round lowers the target at once, and the
//! target rises only after several healthy rounds in a row.

use vstd::prelude::*;

verus! {

/// The healthy rounds in a row that raise the target.
pub const HEALTHY_RATE_WINDOWS_BEFORE_INCREASE: u8 = 3;

/// The least bitrate that a target with a high enough ceiling falls to.
pub const MINIMUM_TARGET_BITRATE: u64 = 500_000;

/// What one receiver observed over one window.
#[derive(Clone, Copy, Debug, PartialEq, Eq, Structural)]
pub struct RateWindowHealth {
    pub congested: bool,
    pub acknowledged_bps: u64,
}

/// A target bitrate that took effect.
#[derive(Clone, Copy, Debug, PartialEq, Eq, Structural)]
pub struct RateChange {
    pub bitrate: u64,
    pub increase: bool,
}

pub open spec fn min_int(a: int, b: int) -> int {
    if a <= b {
        a
    } else {
        b
    }
}

pub open spec fn max_int(a: int, b: int) -> int {
    if a >= b {
        a
    } else {
        b
    }
}

/// The floor of a group whose ceiling is `maximum`.
pub open spec fn floor_for(maximum: u64) -> int {
    min_int(max_int((maximum / 4) as int, MINIMUM_TARGET_BITRATE as int), maximum as int)
}

/// Four fifths of `current`, but not below `minimum`.
pub open spec fn lowered(current: u64, minimum: u64) -> int {
    max_int(min_int(current * 80, u64::MAX as int) / 100, minimum as int)
}

/// One twentieth or 100 kbit/s above `current`, whichever is more, but not above `maximum`.
pub open spec fn raised(current: u64, maximum: u64) -> int {
    min_int(
        max_int(
            min_int(current * 105, u64::MAX as int) / 100,
            min_int(current + 100_000, u64::MAX as int),
        ),
        maximum as int,
    )
}

/// A window joined with an earlier one of the same receiver in the same round: congestion in
/// either counts, and the lower acknowledged rate stays.
pub open spec fn joined(earlier: Option<RateWindowHealth>, health: RateWindowHealth) -> RateWindowHealth {
    match earlier {
        None => health,
        Some(earlier) => RateWindowHealth {
            congested: earlier.congested || health.congested,
            acknowledged_bps: min_int(
                earlier.acknowledged_bps as int,
                health.acknowledged_bps as int,
            ) as u64,
        },
    }
}

pub open spec fn round_complete(reports: Seq<Option<RateWindowHealth>>) -> bool {
    forall|i: int| 0 <= i < reports.len() ==> #[trigger] reports[i] is Some
}

pub open spec fn round_congested(reports: Seq<Option<RateWindowHealth>>) -> bool {
    exists|i: int| 0 <= i < reports.len() && (#[trigger] reports[i])->0.congested
}

pub open spec fn no_reports(count: nat) -> Seq<Option<RateWindowHealth>> {
    Seq::new(count, |i: int| None)
}

/// The state of a group between two reports.
#[verifier::ext_equal]
pub struct RateState {
    pub enabled: bool,
    pub minimum: u64,
    pub maximum: u64,
    pub target: u64,
    pub reports: Seq<Option<RateWindowHealth>>,
    pub healthy_rounds: u8,
}

impl RateState {
    pub open spec fn well_formed(self) -> bool {
        &&& self.minimum == floor_for(self.maximum)
        &&& self.minimum <= self.target <= self.maximum
        &&& self.reports.len() > 0
        &&& !round_complete(self.reports)
        &&& self.healthy_rounds < HEALTHY_RATE_WINDOWS_BEFORE_INCREASE
    }

    /// The state with another target, and the change that observers see.
    pub open spec fn retargeted(self, next: u64, increase: bool) -> (RateState, Option<RateChange>) {
        if next == self.target {
            (self, None)
        } else {
            (RateState { target: next, ..self }, Some(RateChange { bitrate: next, increase }))
        }
    }

    pub open spec fn after_decrease(self) -> (RateState, Option<RateChange>) {
        if self.enabled {
            self.retargeted(lowered(self.target, self.minimum) as u64, false)
        } else {
            (self, None)
        }
    }

    pub open spec fn after_increase(self) -> (RateState, Option<RateChange>) {
        if self.enabled {
            self.retargeted(raised(self.target, self.maximum) as u64, true)
        } else {
            (self, None)
        }
    }

    /// The state once every receiver has reported, before the target moves.
    pub open spec fn round_closed(self, healthy_rounds: u8) -> RateState {
        RateState { reports: no_reports(self.reports.len()), healthy_rounds, ..self }
    }

    pub open spec fn after_report(self, receiver: int, health: RateWindowHealth) -> (
        RateState,
        Option<RateChange>,
    ) {
        if !(0 <= receiver < self.reports.len()) {
            (self, None)
        } else {
            let reports = self.reports.update(receiver, Some(joined(self.reports[receiver], health)));
            if !round_complete(reports) {
                (RateState { reports, ..self }, None)
            } else if round_congested(reports) {
                self.round_closed(0).after_decrease()
            } else if self.healthy_rounds + 1 >= HEALTHY_RATE_WINDOWS_BEFORE_INCREASE {
                self.round_closed(0).after_increase()
            } else {
                (self.round_closed((self.healthy_rounds + 1) as u8), None)
            }
        }
    }

    /// The state after a whole history of reports.
    pub open spec fn after_reports(self, history: Seq<(int, RateWindowHealth)>) -> RateState
        decreases history.len(),
    {
        if history.len() == 0 {
            self
        } else {
            self.after_reports(history.drop_last()).after_report(history.last().0, history.last().1).0
        }
    }
}

/// The least target that a group with this ceiling can reach is at most the ceiling.
proof fn lemma_floor(maximum: u64)
    ensures
        0 <= floor_for(maximum) <= maximum,
{
}

/// A state stays well formed whatever is reported: the target never leaves the range between the
/// floor and the ceiling, and neither end of the range moves.
pub proof fn lemma_report_keeps_the_target_in_range(
    state: RateState,
    receiver: int,
    health: RateWindowHealth,
)
    requires
        state.well_formed(),
    ensures
        state.after_report(receiver, health).0.well_formed(),
        state.after_report(receiver, health).0.minimum == state.minimum,
        state.after_report(receiver, health).0.maximum == state.maximum,
        state.after_report(receiver, health).0.reports.len() == state.reports.len(),
{
    let reports = no_reports(state.reports.len());
    assert(reports[0] is None);
    lemma_floor(state.maximum);
}

/// Over any history of reports the target stays between the floor and the ceiling.
pub proof fn lemma_reports_keep_the_target_in_range(
    state: RateState,
    history: Seq<(int, RateWindowHealth)>,
)
    requires
        state.well_formed(),
    ensures
        state.after_reports(history).well_formed(),
        state.after_reports(history).minimum == state.minimum,
        state.after_reports(history).maximum == state.maximum,
    decreases history.len(),
{
    if history.len() > 0 {
        lemma_reports_keep_the_target_in_range(state, history.drop_last());
        lemma_report_keeps_the_target_in_range(
            state.after_reports(history.drop_last()),
            history.last().0,
            history.last().1,
        );
    }
}

/// The worst receiver decides: when a report completes a round in which any receiver saw
/// congestion, an enabled group falls to four fifths of its target or to the floor, and it never
/// rises on such a report.
pub proof fn lemma_worst_receiver_decides(state: RateState, receiver: int, health: RateWindowHealth)
    requires
        state.well_formed(),
        0 <= receiver < state.reports.len(),
        round_complete(
            state.reports.update(receiver, Some(joined(state.reports[receiver], health))),
        ),
        health.congested || exists|i: int|
            0 <= i < state.reports.len() && (#[trigger] state.reports[i] matches Some(report)
                && report.congested),
    ensures
        state.enabled ==> state.after_report(receiver, health).0.target == lowered(
            state.target,
            state.minimum,
        ),
        state.after_report(receiver, health).0.target <= state.target,
        state.after_report(receiver, health).0.healthy_rounds == 0,
{
    let reports = state.reports.update(receiver, Some(joined(state.reports[receiver], health)));
    if health.congested {
        assert(reports[receiver]->0.congested);
    } else {
        let i = choose|i: int|
            0 <= i < state.reports.len() && (#[trigger] state.reports[i] matches Some(report)
                && report.congested);
        assert(reports[i]->0.congested);
    }
    lemma_floor(state.maximum);
}

/// A group that adapts nothing keeps its target whatever is reported.
pub proof fn lemma_disabled_groups_keep_their_target(
    state: RateState,
    receiver: int,
    health: RateWindowHealth,
)
    requires
        !state.enabled,
    ensures
        state.after_report(receiver, health).0.target == state.target,
        state.after_report(receiver, health).1 is None,
{
}

/// A step down takes a fifth of the target off, rounded in the receiver's favor, but stops at the
/// floor. A step up adds a twentieth or 100 kbit/s, whichever is more, but stops at the ceiling.
pub proof fn lemma_steps_of_the_target(current: u64, minimum: u64, maximum: u64)
    requires
        minimum <= current <= maximum,
        current <= 0x100_0000_0000_0000,
    ensures
        lowered(current, minimum) >= minimum,
        lowered(current, minimum) == minimum || 5 * lowered(current, minimum) <= 4 * current < 5
            * lowered(current, minimum) + 5,
        5 * minimum <= 4 * current ==> 5 * lowered(current, minimum) <= 4 * current < 5 * lowered(
            current,
            minimum,
        ) + 5,
        raised(current, maximum) <= maximum,
        raised(current, maximum) == maximum || raised(current, maximum) - current >= 100_000,
        raised(current, maximum) == maximum || 20 * raised(current, maximum) > 21 * current - 20,
        raised(current, maximum) - current <= 100_000 || 20 * raised(current, maximum) <= 21
            * current,
{
}

/// The floor of a target is a quarter of its ceiling, but at least 500 kbit/s, unless the ceiling
/// itself is lower.
pub proof fn lemma_floors(maximum: u64)
    ensures
        maximum < 500_000 ==> floor_for(maximum) == maximum,
        500_000 <= maximum <= 2_000_000 ==> floor_for(maximum) == 500_000,
        maximum >= 2_000_000 ==> 4 * floor_for(maximum) <= maximum < 4 * floor_for(maximum) + 4,
{
}

/// The target of one receiver rises with the third healthy window in a row and not before, and a
/// congested window in between starts the count over.
pub proof fn lemma_three_healthy_windows_raise(
    state: RateState,
    first: RateWindowHealth,
    second: RateWindowHealth,
    third: RateWindowHealth,
)
    requires
        state.well_formed(),
        state.enabled,
        state.reports.len() == 1,
        state.healthy_rounds == 0,
        !first.congested,
        !second.congested,
        !third.congested,
    ensures
        ({
            let once = state.after_report(0, first);
            let twice = once.0.after_report(0, second);
            let thrice = twice.0.after_report(0, third);
            &&& once.0.target == state.target && once.1 is None
            &&& twice.0.target == state.target && twice.1 is None
            &&& thrice.0.target == raised(state.target, state.maximum)
            &&& thrice.0.healthy_rounds == 0
            &&& state.target < state.maximum ==> thrice.0.target > state.target && thrice.1 == Some(
                RateChange { bitrate: thrice.0.target, increase: true },
            )
            &&& state.target == state.maximum ==> thrice.1 is None
        }),
{
    lemma_single_reports_close_rounds(state, first);
    let once = state.after_report(0, first).0;
    lemma_single_reports_close_rounds(once, second);
    let twice = once.after_report(0, second).0;
    lemma_single_reports_close_rounds(twice, third);
}

/// A congested window lowers the target of one receiver at once, and tells of it.
pub proof fn lemma_one_congested_window_lowers(state: RateState, health: RateWindowHealth)
    requires
        state.well_formed(),
        state.enabled,
        state.reports.len() == 1,
        health.congested,
    ensures
        ({
            let after = state.after_report(0, health);
            &&& after.0.target == lowered(state.target, state.minimum)
            &&& after.0.healthy_rounds == 0
            &&& after.0.target < state.target ==> after.1 == Some(
                RateChange { bitrate: after.0.target, increase: false },
            )
            &&& after.0.target == state.target ==> after.1 is None
        }),
{
    lemma_single_reports_close_rounds(state, health);
}

proof fn lemma_single_reports_close_rounds(state: RateState, health: RateWindowHealth)
    requires
        state.well_formed(),
        state.reports.len() == 1,
    ensures
        ({
            let reports = state.reports.update(0, Some(joined(state.reports[0], health)));
            &&& round_complete(reports)
            &&& round_congested(reports) <==> health.congested
            &&& state.after_report(0, health).0.well_formed()
            &&& state.after_report(0, health).0.reports.len() == 1
            &&& state.after_report(0, health).0.enabled == state.enabled
            &&& state.after_report(0, health).0.maximum == state.maximum
        }),
{
    let reports = state.reports.update(0, Some(joined(state.reports[0], health)));
    assert(state.reports[0] is None) by {
        if state.reports[0] is Some {
            assert(round_complete(state.reports));
        }
    }
    assert(reports[0] == Some(health));
    lemma_report_keeps_the_target_in_range(state, 0, health);
}

/// A round waits for every receiver: as long as one has not reported the target stays, and what
/// was reported is kept, with the worst of it where one receiver reports twice.
pub proof fn lemma_rounds_wait_for_every_receiver(
    state: RateState,
    receiver: int,
    other: int,
    health: RateWindowHealth,
)
    requires
        0 <= receiver < state.reports.len(),
        0 <= other < state.reports.len(),
        other != receiver,
        state.reports[other] is None,
    ensures
        ({
            let after = state.after_report(receiver, health);
            &&& after.1 is None
            &&& after.0.target == state.target
            &&& after.0.healthy_rounds == state.healthy_rounds
            &&& after.0.reports[receiver] matches Some(kept) && {
                &&& health.congested ==> kept.congested
                &&& kept.acknowledged_bps <= health.acknowledged_bps
                &&& state.reports[receiver] is None ==> kept == health
                &&& state.reports[receiver] matches Some(earlier) ==> kept.congested == (
                earlier.congested || health.congested) && (kept.acknowledged_bps
                    == earlier.acknowledged_bps || kept.acknowledged_bps == health.acknowledged_bps)
                    && kept.acknowledged_bps <= earlier.acknowledged_bps
            }
            &&& forall|i: int|
                0 <= i < state.reports.len() && i != receiver ==> #[trigger] after.0.reports[i]
                    == state.reports[i]
        }),
{
    let reports = state.reports.update(receiver, Some(joined(state.reports[receiver], health)));
    assert(reports[other] is None);
}

/// The bitrate target of a group of receivers.
pub struct AdaptiveRateControl {
    enabled: bool,
    minimum_bitrate: u64,
    maximum_bitrate: u64,
    target_bitrate: u64,
    reports: Vec<Option<RateWindowHealth>>,
    healthy_rounds: u8,
}

impl View for AdaptiveRateControl {
    type V = RateState;

    closed spec fn view(&self) -> RateState {
        RateState {
            enabled: self.enabled,
            minimum: self.minimum_bitrate,
            maximum: self.maximum_bitrate,
            target: self.target_bitrate,
            reports: self.reports@,
            healthy_rounds: self.healthy_rounds,
        }
    }
}

impl AdaptiveRateControl {
    pub open spec fn well_formed(&self) -> bool {
        self@.well_formed()
    }

    /// A target for one receiver.
    pub fn new(maximum_bitrate: u64, enabled: bool) -> (control: Self)
        ensures
            control.well_formed(),
            control@ == (RateState {
                enabled,
                minimum: floor_for(maximum_bitrate) as u64,
                maximum: maximum_bitrate,
                target: maximum_bitrate,
                reports: no_reports(1),
                healthy_rounds: 0,
            }),
    {
        Self::new_group(maximum_bitrate, enabled, 1)
    }

    /// A target that `participants` receivers share. It starts at the ceiling.
    pub fn new_group(maximum_bitrate: u64, enabled: bool, participants: usize) -> (control: Self)
        requires
            participants > 0,
        ensures
            control.well_formed(),
            control@ == (RateState {
                enabled,
                minimum: floor_for(maximum_bitrate) as u64,
                maximum: maximum_bitrate,
                target: maximum_bitrate,
                reports: no_reports(participants as nat),
                healthy_rounds: 0,
            }),
    {
        let mut minimum_bitrate: u64 = maximum_bitrate / 4;
        if minimum_bitrate < MINIMUM_TARGET_BITRATE {
            minimum_bitrate = MINIMUM_TARGET_BITRATE;
        }
        if minimum_bitrate > maximum_bitrate {
            minimum_bitrate = maximum_bitrate;
        }
        let mut reports: Vec<Option<RateWindowHealth>> = Vec::new();
        while reports.len() < participants
            invariant
                reports@ == no_reports(reports@.len()),
                reports@.len() <= participants,
            decreases participants - reports@.len(),
        {
            reports.push(None);
            assert(reports@ =~= no_reports(reports@.len()));
        }
        assert(reports@[0] is None);
        AdaptiveRateControl {
            enabled,
            minimum_bitrate,
            maximum_bitrate,
            target_bitrate: maximum_bitrate,
            reports,
            healthy_rounds: 0,
        }
    }

    pub fn target_bitrate(&self) -> (bitrate: u64)
        ensures
            bitrate == self@.target,
    {
        self.target_bitrate
    }

    /// Lowers the target by a fifth, down to the floor.
    pub fn decrease(&mut self) -> (change: Option<RateChange>)
        requires
            old(self).well_formed(),
        ensures
            (final(self)@, change) == old(self)@.after_decrease(),
            final(self).well_formed(),
    {
        if !self.enabled {
            return None;
        }
        let scaled: u64 = if self.target_bitrate > u64::MAX / 80 {
            u64::MAX / 100
        } else {
            self.target_bitrate * 80 / 100
        };
        let next: u64 = if scaled < self.minimum_bitrate {
            self.minimum_bitrate
        } else {
            scaled
        };
        self.set_target(next, false)
    }

    /// Raises the target by a twentieth or by 100 kbit/s, up to the ceiling.
    pub fn increase(&mut self) -> (change: Option<RateChange>)
        requires
            old(self).well_formed(),
        ensures
            (final(self)@, change) == old(self)@.after_increase(),
            final(self).well_formed(),
    {
        if !self.enabled {
            return None;
        }
        let scaled: u64 = if self.target_bitrate > u64::MAX / 105 {
            u64::MAX / 100
        } else {
            self.target_bitrate * 105 / 100
        };
        let stepped: u64 = self.target_bitrate.saturating_add(100_000);
        let higher: u64 = if scaled >= stepped {
            scaled
        } else {
            stepped
        };
        let next: u64 = if higher <= self.maximum_bitrate {
            higher
        } else {
            self.maximum_bitrate
        };
        self.set_target(next, true)
    }

    fn set_target(&mut self, next: u64, increase: bool) -> (change: Option<RateChange>)
        ensures
            (final(self)@, change) == old(self)@.retargeted(next, increase),
    {
        if next == self.target_bitrate {
            return None;
        }
        self.target_bitrate = next;
        Some(RateChange { bitrate: next, increase })
    }

    /// Takes one window of one receiver, and moves the target where that completes a round.
    /// A receiver outside the group is ignored.
    pub fn report_window(&mut self, target: usize, health: RateWindowHealth) -> (change: Option<
        RateChange,
    >)
        requires
            old(self).well_formed(),
        ensures
            (final(self)@, change) == old(self)@.after_report(target as int, health),
            final(self).well_formed(),
    {
        proof {
            lemma_report_keeps_the_target_in_range(self@, target as int, health);
        }
        if target >= self.reports.len() {
            return None;
        }
        let merged: RateWindowHealth = match self.reports[target] {
            None => health,
            Some(earlier) => RateWindowHealth {
                congested: earlier.congested || health.congested,
                acknowledged_bps: if earlier.acknowledged_bps <= health.acknowledged_bps {
                    earlier.acknowledged_bps
                } else {
                    health.acknowledged_bps
                },
            },
        };
        self.reports.set(target, Some(merged));
        let ghost reports = self.reports@;
        assert(reports =~= old(self)@.reports.update(
            target as int,
            Some(joined(old(self)@.reports[target as int], health)),
        ));

        let mut congested: bool = false;
        let mut index: usize = 0;
        while index < self.reports.len()
            invariant
                index <= self.reports@.len(),
                self.reports@ == reports,
                forall|i: int| 0 <= i < index ==> #[trigger] reports[i] is Some,
                congested == (exists|i: int| 0 <= i < index && (#[trigger] reports[i])->0.congested),
                *self == (AdaptiveRateControl { reports: self.reports, ..*old(self) }),
                reports == old(self)@.reports.update(
                    target as int,
                    Some(joined(old(self)@.reports[target as int], health)),
                ),
                0 <= target < old(self)@.reports.len(),
                old(self)@.after_report(target as int, health).0.well_formed(),
            decreases self.reports@.len() - index,
        {
            match self.reports[index] {
                None => {
                    assert(!round_complete(reports));
                    return None;
                },
                Some(report) => {
                    if report.congested {
                        congested = true;
                        assert(reports[index as int]->0.congested);
                    }
                },
            }
            index = index + 1;
        }
        assert(round_complete(reports));
        let mut cleared: usize = 0;
        while cleared < self.reports.len()
            invariant
                cleared <= self.reports@.len(),
                self.reports@.len() == reports.len(),
                forall|i: int| 0 <= i < cleared ==> #[trigger] self.reports@[i] is None,
                *self == (AdaptiveRateControl { reports: self.reports, ..*old(self) }),
            decreases self.reports@.len() - cleared,
        {
            self.reports.set(cleared, None);
            cleared = cleared + 1;
        }
        assert(self.reports@ =~= no_reports(reports.len()));
        if congested {
            self.healthy_rounds = 0;
            self.decrease()
        } else {
            self.healthy_rounds = self.healthy_rounds + 1;
            if self.healthy_rounds >= HEALTHY_RATE_WINDOWS_BEFORE_INCREASE {
                self.healthy_rounds = 0;
                self.increase()
            } else {
                None
            }
        }
    }
}

} // verus!
