//! Latency distributions, the live graph of them, and the playout delays that they recommend.

use std::collections::VecDeque;

use vstd::prelude::*;

use crate::clock::{micros_to_millis_ceil, LONGEST_SPAN};
use crate::mirror::stats::{larger, larger_of, LatencySample};
use crate::synthetic::{
    frame_at_elapsed, frame_due, phase_at, phase_for_frame, quarter_of, SyntheticPhase,
};

verus! {

/// The seconds that the live graph remembers.
pub const PROFILE_HISTORY_SECONDS: usize = 60;

/// The columns of the live graph.
pub const PROFILE_GRAPH_COLUMNS: usize = 44;

pub open spec fn ascending(values: Seq<u64>) -> bool {
    forall|i: int, j: int| 0 <= i <= j < values.len() ==> values[i] <= values[j]
}

/// The values in ascending order.
pub open spec fn sorted(values: Seq<u64>) -> Seq<u64> {
    choose|order: Seq<u64>| ascending(order) && #[trigger] order.to_multiset() == values.to_multiset()
}

/// The sum of the values.
pub open spec fn total(values: Seq<u64>) -> nat
    decreases values.len(),
{
    if values.len() == 0 {
        0
    } else {
        total(values.drop_last()) + values.last() as nat
    }
}

/// The sum of two groups of values is the sum of both together, and that of one value the value.
pub proof fn lemma_totals_add_up(first: Seq<u64>, second: Seq<u64>, value: u64)
    ensures
        total(first + second) == total(first) + total(second),
        total(seq![value]) == value,
        total(Seq::empty()) == 0,
    decreases second.len(),
{
    assert(seq![value].drop_last() =~= Seq::<u64>::empty());
    assert(total(seq![value].drop_last()) == 0);
    assert(seq![value].last() == value);
    if second.len() == 0 {
        assert(first + second =~= first);
    } else {
        lemma_totals_add_up(first, second.drop_last(), value);
        assert((first + second).drop_last() =~= first + second.drop_last());
    }
}

proof fn lemma_ascending_is_unique(first: Seq<u64>, second: Seq<u64>)
    requires
        ascending(first),
        ascending(second),
        first.to_multiset() == second.to_multiset(),
    ensures
        first == second,
    decreases first.len(),
{
    broadcast use vstd::seq_lib::group_to_multiset_ensures;

    assert(first.len() == first.to_multiset().len());
    assert(second.len() == second.to_multiset().len());
    if first.len() > 0 {
        let last = first.len() - 1;
        assert(first.to_multiset().count(first[last]) > 0);
        assert(second.to_multiset().count(second[last]) > 0);
        assert(second.contains(first[last]));
        assert(first.contains(second[last]));
        let i = choose|i: int| 0 <= i < second.len() && second[i] == first[last];
        let j = choose|j: int| 0 <= j < first.len() && first[j] == second[last];
        assert(second[i] <= second[last]);
        assert(first[j] <= first[last]);
        assert(first[last] == second[last]);
        let a = first.drop_last();
        let b = second.drop_last();
        assert(first =~= a.push(first[last]));
        assert(second =~= b.push(second[last]));
        assert(first.to_multiset() =~= a.to_multiset().insert(first[last]));
        assert(second.to_multiset() =~= b.to_multiset().insert(first[last]));
        assert(a.to_multiset() =~= first.to_multiset().remove(first[last]));
        assert(b.to_multiset() =~= second.to_multiset().remove(first[last]));
        lemma_ascending_is_unique(a, b);
    } else {
        assert(first =~= second);
    }
}

/// Merges two ascending runs into one.
fn merge(left: &Vec<u64>, right: &Vec<u64>) -> (merged: Vec<u64>)
    requires
        ascending(left@),
        ascending(right@),
    ensures
        ascending(merged@),
        merged@.to_multiset() == left@.to_multiset().add(right@.to_multiset()),
{
    broadcast use vstd::seq_lib::group_to_multiset_ensures;

    let mut merged: Vec<u64> = Vec::new();
    let mut i: usize = 0;
    let mut j: usize = 0;
    assert(left@.take(0) =~= Seq::<u64>::empty());
    assert(right@.take(0) =~= Seq::<u64>::empty());
    assert(merged@.to_multiset() =~= left@.take(0).to_multiset().add(right@.take(0).to_multiset()));
    while i < left.len() || j < right.len()
        invariant
            i <= left@.len(),
            j <= right@.len(),
            ascending(left@),
            ascending(right@),
            ascending(merged@),
            forall|k: int, l: int|
                0 <= k < merged@.len() && i <= l < left@.len() ==> merged@[k] <= left@[l],
            forall|k: int, l: int|
                0 <= k < merged@.len() && j <= l < right@.len() ==> merged@[k] <= right@[l],
            merged@.to_multiset() == left@.take(i as int).to_multiset().add(
                right@.take(j as int).to_multiset(),
            ),
        decreases left@.len() - i + right@.len() - j,
    {
        broadcast use vstd::seq_lib::group_to_multiset_ensures;

        if j >= right.len() || (i < left.len() && left[i] <= right[j]) {
            merged.push(left[i]);
            assert(left@.take(i + 1) =~= left@.take(i as int).push(left@[i as int]));
            i = i + 1;
        } else {
            merged.push(right[j]);
            assert(right@.take(j + 1) =~= right@.take(j as int).push(right@[j as int]));
            j = j + 1;
        }
        assert(merged@.to_multiset() =~= left@.take(i as int).to_multiset().add(
            right@.take(j as int).to_multiset(),
        ));
    }
    assert(left@.take(i as int) =~= left@);
    assert(right@.take(j as int) =~= right@);
    merged
}

/// The values from `start` up to `end` in ascending order.
fn sort_range(values: &[u64], start: usize, end: usize) -> (order: Vec<u64>)
    requires
        start <= end <= values@.len(),
    ensures
        ascending(order@),
        order@.to_multiset() == values@.subrange(start as int, end as int).to_multiset(),
    decreases end - start,
{
    broadcast use vstd::seq_lib::group_to_multiset_ensures;

    let mut order: Vec<u64> = Vec::new();
    if end - start <= 1 {
        if start < end {
            order.push(values[start]);
        }
        assert(order@ =~= values@.subrange(start as int, end as int));
        return order;
    }
    let middle: usize = start + (end - start) / 2;
    let left: Vec<u64> = sort_range(values, start, middle);
    let right: Vec<u64> = sort_range(values, middle, end);
    proof {
        let a = values@.subrange(start as int, middle as int);
        let b = values@.subrange(middle as int, end as int);
        vstd::seq_lib::lemma_multiset_commutative(a, b);
        assert(a + b =~= values@.subrange(start as int, end as int));
    }
    merge(&left, &right)
}

/// The values in ascending order.
pub fn sort_values(values: &[u64]) -> (order: Vec<u64>)
    ensures
        order@ == sorted(values@),
        ascending(order@),
        order@.to_multiset() == values@.to_multiset(),
        order@.len() == values@.len(),
{
    broadcast use vstd::seq_lib::group_to_multiset_ensures;

    let order: Vec<u64> = sort_range(values, 0, values.len());
    assert(values@.subrange(0, values@.len() as int) =~= values@);
    proof {
        lemma_ascending_is_unique(order@, sorted(values@));
        assert(order@.len() == order@.to_multiset().len());
        assert(values@.len() == values@.to_multiset().len());
    }
    order
}

/// There is an ascending order of any values, with the same values in it.
pub proof fn lemma_sorted(values: Seq<u64>)
    ensures
        ascending(sorted(values)),
        sorted(values).to_multiset() == values.to_multiset(),
        sorted(values).len() == values.len(),
    decreases values.len(),
{
    broadcast use vstd::seq_lib::group_to_multiset_ensures;

    let leq = |a: u64, b: u64| a <= b;
    let order = values.sort_by(leq);
    values.lemma_sort_by_ensures(leq);
    assert(order.to_multiset() =~= values.to_multiset());
    assert forall|i: int, j: int| 0 <= i <= j < order.len() implies order[i] <= order[j] by {
        if i < j {
            assert(leq(order[i], order[j]));
        }
    }
    assert(ascending(order));
    assert(sorted(values).len() == sorted(values).to_multiset().len());
    assert(values.len() == values.to_multiset().len());
}

/// How latencies are spread, in microseconds.
#[derive(Clone, Copy, Debug, PartialEq, Eq, Structural)]
pub struct LatencyDistribution {
    pub count: usize,
    pub average_micros: u64,
    pub p50_micros: u64,
    pub p95_micros: u64,
    pub p99_micros: u64,
    pub max_micros: u64,
}

/// The place of a percentile among `count` sorted values: the nearest rank.
pub open spec fn rank_of(count: usize, percentage: usize) -> int {
    let product = if percentage * count <= usize::MAX {
        percentage * count
    } else {
        usize::MAX as int
    };
    let ceiling = (product + 99) / 100;
    let rank = if ceiling > 0 {
        ceiling - 1
    } else {
        0
    };
    if rank < count - 1 {
        rank
    } else {
        count - 1
    }
}

/// The distribution of some values; there is none of no values.
pub open spec fn distribution_of(values: Seq<u64>) -> Option<LatencyDistribution> {
    if values.len() == 0 {
        None
    } else {
        let order = sorted(values);
        let count = values.len() as usize;
        Some(
            LatencyDistribution {
                count,
                average_micros: (total(values) / values.len()) as u64,
                p50_micros: order[rank_of(count, 50)],
                p95_micros: order[rank_of(count, 95)],
                p99_micros: order[rank_of(count, 99)],
                max_micros: order[values.len() - 1],
            },
        )
    }
}

/// A percentile is a value of the sample with at least that share of the sample at or below it,
/// and percentiles rise with their percentage up to the largest value.
pub proof fn lemma_percentiles_are_nearest_ranks(values: Seq<u64>, percentage: usize)
    requires
        0 < values.len(),
        100 * values.len() <= usize::MAX,
        1 <= percentage <= 100,
    ensures
        0 <= rank_of(values.len() as usize, percentage) < values.len(),
        percentage * values.len() <= 100 * (rank_of(values.len() as usize, percentage) + 1),
        100 * rank_of(values.len() as usize, percentage) < percentage * values.len(),
        forall|i: int|
            0 <= i <= rank_of(values.len() as usize, percentage) ==> #[trigger] sorted(values)[i] <= sorted(
                values,
            )[rank_of(values.len() as usize, percentage)],
        distribution_of(values) matches Some(distribution) ==> distribution.p50_micros
            <= distribution.p95_micros <= distribution.p99_micros <= distribution.max_micros,
{
    lemma_sorted(values);
    let n = values.len() as int;
    let p = percentage as int;
    assert(0 < p * n <= 100 * n) by (nonlinear_arith)
        requires
            1 <= p <= 100,
            n > 0,
    ;
}

/// A distribution counts its values, averages them, rounded down, and no value lies above its
/// maximum, which is one of them.
pub proof fn lemma_distributions_measure_their_values(values: Seq<u64>)
    requires
        0 < values.len() <= usize::MAX,
    ensures
        distribution_of(values) matches Some(distribution) && {
            &&& distribution.count == values.len()
            &&& distribution.average_micros * values.len() <= total(values) < (
            distribution.average_micros + 1) * values.len()
            &&& forall|i: int|
                0 <= i < values.len() ==> #[trigger] values[i] <= distribution.max_micros
            &&& values.contains(distribution.max_micros)
        },
{
    broadcast use vstd::seq_lib::group_to_multiset_ensures;

    lemma_sorted(values);
    lemma_total_bound(values);
    let order = sorted(values);
    let n = values.len() as int;
    let sum = total(values) as int;
    let average = sum / n;
    assert(0 <= average <= u64::MAX && average * n <= sum < (average + 1) * n) by (nonlinear_arith)
        requires
            average == sum / n,
            0 <= sum <= n * u64::MAX,
            n > 0,
    ;
    let largest = order[n - 1];
    assert forall|i: int| 0 <= i < values.len() implies #[trigger] values[i] <= largest by {
        assert(values.to_multiset().count(values[i]) > 0);
        assert(order.contains(values[i]));
        let j = choose|j: int| 0 <= j < order.len() && order[j] == values[i];
        assert(order[j] <= order[n - 1]);
    }
    assert(order.to_multiset().count(largest) > 0);
    assert(values.contains(largest));
}

/// The percentiles of a distribution stand at the nearest ranks of half, of nineteen twentieths and
/// of ninety-nine hundredths of its values in their order.
pub proof fn lemma_distributions_hold_their_percentiles(values: Seq<u64>) -> (ranks: (int, int, int))
    requires
        0 < values.len(),
        100 * values.len() <= usize::MAX,
    ensures
        0 <= ranks.0 <= ranks.1 <= ranks.2 < values.len(),
        2 * ranks.0 < values.len() <= 2 * (ranks.0 + 1),
        20 * ranks.1 < 19 * values.len() <= 20 * (ranks.1 + 1),
        100 * ranks.2 < 99 * values.len() <= 100 * (ranks.2 + 1),
        distribution_of(values) matches Some(distribution) && distribution.p50_micros == sorted(
            values,
        )[ranks.0] && distribution.p95_micros == sorted(values)[ranks.1]
            && distribution.p99_micros == sorted(values)[ranks.2],
{
    let count = values.len() as usize;
    lemma_percentiles_are_nearest_ranks(values, 50);
    lemma_percentiles_are_nearest_ranks(values, 95);
    lemma_percentiles_are_nearest_ranks(values, 99);
    (rank_of(count, 50), rank_of(count, 95), rank_of(count, 99))
}

/// The nearest-rank percentile of sorted values.
pub fn percentile(sorted: &[u64], percentage: usize) -> (value: u64)
    requires
        sorted@.len() > 0,
    ensures
        value == sorted@[rank_of(sorted@.len() as usize, percentage)],
        0 <= rank_of(sorted@.len() as usize, percentage) < sorted@.len(),
{
    let product: usize = match percentage.checked_mul(sorted.len()) {
        Some(product) => product,
        None => usize::MAX,
    };
    let whole: usize = product / 100;
    let ceiling: usize = if product % 100 == 0 {
        whole
    } else {
        whole + 1
    };
    let rank: usize = if ceiling > 0 {
        ceiling - 1
    } else {
        0
    };
    let rank: usize = if rank < sorted.len() - 1 {
        rank
    } else {
        sorted.len() - 1
    };
    assert(0 <= percentage * sorted@.len()) by (nonlinear_arith);
    sorted[rank]
}

proof fn lemma_total_bound(values: Seq<u64>)
    ensures
        total(values) <= values.len() * u64::MAX,
    decreases values.len(),
{
    if values.len() > 0 {
        lemma_total_bound(values.drop_last());
        assert(values.len() * u64::MAX == (values.len() - 1) * u64::MAX + u64::MAX)
            by (nonlinear_arith)
            requires
                values.len() > 0,
        ;
    }
}

/// The sum of some values.
pub(crate) fn sum_of(values: &[u64]) -> (sum: u128)
    ensures
        sum == total(values@),
{
    let mut sum: u128 = 0;
    let mut index: usize = 0;
    assert(values@.take(0) =~= Seq::<u64>::empty());
    while index < values.len()
        invariant
            index <= values@.len(),
            sum == total(values@.take(index as int)),
        decreases values@.len() - index,
    {
        proof {
            lemma_total_bound(values@.take(index + 1));
            assert(values@.take(index + 1).drop_last() =~= values@.take(index as int));
            assert((index + 1) * u64::MAX <= u128::MAX) by (nonlinear_arith)
                requires
                    index + 1 <= 0x1_0000_0000_0000_0000,
                    u64::MAX == 0xffff_ffff_ffff_ffff,
            ;
        }
        sum = sum + values[index] as u128;
        index = index + 1;
    }
    assert(values@.take(index as int) =~= values@);
    sum
}

impl LatencyDistribution {
    /// The distribution of some values; there is none of no values.
    pub fn from_values(values: &[u64]) -> (distribution: Option<Self>)
        ensures
            distribution == distribution_of(values@),
    {
        if values.len() == 0 {
            return None;
        }
        let sum: u128 = sum_of(values);
        let average: u128 = sum / values.len() as u128;
        proof {
            lemma_total_bound(values@);
            assert(average <= u64::MAX) by (nonlinear_arith)
                requires
                    average == sum as int / values@.len() as int,
                    sum <= values@.len() * u64::MAX,
                    values@.len() > 0,
            ;
        }
        let order: Vec<u64> = sort_values(values);
        Some(
            LatencyDistribution {
                count: order.len(),
                average_micros: average as u64,
                p50_micros: percentile(order.as_slice(), 50),
                p95_micros: percentile(order.as_slice(), 95),
                p99_micros: percentile(order.as_slice(), 99),
                max_micros: order[order.len() - 1],
            },
        )
    }
}

/// The delays that a receiver can be asked for, in milliseconds.
pub open spec fn delay_steps() -> Seq<u64> {
    seq![
        10u64, 15u64, 20u64, 25u64, 33u64, 40u64, 50u64, 60u64, 75u64, 100u64, 125u64, 150u64,
        200u64, 250u64, 300u64, 400u64, 500u64, 750u64, 1_000u64, 1_500u64, 2_000u64, 3_000u64,
        5_000u64,
    ]
}

/// The first step from `index` on that is not below `milliseconds`, or the longest step.
pub open spec fn step_from(milliseconds: u64, index: int) -> u64
    decreases delay_steps().len() - index,
{
    if index >= delay_steps().len() - 1 {
        5_000
    } else if delay_steps()[index] >= milliseconds {
        delay_steps()[index]
    } else {
        step_from(milliseconds, index + 1)
    }
}

/// The shortest delay that covers `milliseconds`, or the longest that there is.
pub open spec fn covering_step(milliseconds: u64) -> u64 {
    step_from(milliseconds, 0)
}

/// The shortest delay that covers `milliseconds`, or the longest that there is.
pub fn round_target_delay(milliseconds: u64) -> (delay: u64)
    ensures
        delay == covering_step(milliseconds),
{
    let steps: [u64; 23] = [
        10,
        15,
        20,
        25,
        33,
        40,
        50,
        60,
        75,
        100,
        125,
        150,
        200,
        250,
        300,
        400,
        500,
        750,
        1_000,
        1_500,
        2_000,
        3_000,
        5_000,
    ];
    assert(steps@ =~= delay_steps());
    let mut index: usize = 0;
    while index < 22
        invariant
            index <= 22,
            steps@ == delay_steps(),
            covering_step(milliseconds) == step_from(milliseconds, index as int),
        decreases 22 - index,
    {
        if steps[index] >= milliseconds {
            return steps[index];
        }
        index = index + 1;
    }
    5_000
}

proof fn lemma_step_from(milliseconds: u64, index: int)
    requires
        0 <= index < delay_steps().len(),
    ensures
        delay_steps().contains(step_from(milliseconds, index)),
        step_from(milliseconds, index) >= milliseconds || step_from(milliseconds, index) == 5_000,
    decreases delay_steps().len() - index,
{
    if index >= delay_steps().len() - 1 {
        assert(delay_steps()[22] == 5_000);
    } else if delay_steps()[index] < milliseconds {
        lemma_step_from(milliseconds, index + 1);
    }
}

proof fn lemma_steps_rise(first: int, second: int)
    requires
        0 <= first < second < 23,
    ensures
        delay_steps()[first] < delay_steps()[second],
{
}

/// A delay is covered by the shortest step that is not below it: it is one of the steps, and no
/// shorter one would do.
pub proof fn lemma_the_shortest_step_covers(milliseconds: u64, index: int)
    requires
        0 <= index < 23,
    ensures
        delay_steps().len() == 23,
        delay_steps().contains(covering_step(milliseconds)),
        delay_steps()[index] >= milliseconds ==> covering_step(milliseconds) <= delay_steps()[index],
        milliseconds <= 5_000 ==> covering_step(milliseconds) >= milliseconds,
        milliseconds > 5_000 ==> covering_step(milliseconds) == 5_000,
        delay_steps()[0] == 10,
        delay_steps()[22] == 5_000,
{
    lemma_step_from(milliseconds, 0);
    if delay_steps()[index] >= milliseconds {
        lemma_least_step(milliseconds, 0, index);
    }
    if milliseconds > 5_000 {
        assert forall|step: u64| delay_steps().contains(step) implies step <= 5_000 by {
            let i = choose|i: int| 0 <= i < delay_steps().len() && delay_steps()[i] == step;
            assert(delay_steps()[i] <= 5_000);
        }
    }
}

proof fn lemma_least_step(milliseconds: u64, start: int, index: int)
    requires
        0 <= start <= index < 23,
        delay_steps()[index] >= milliseconds,
    ensures
        step_from(milliseconds, start) <= delay_steps()[index],
    decreases 23 - start,
{
    if start >= 22 {
        assert(delay_steps()[22] == 5_000);
    } else if delay_steps()[start] >= milliseconds {
        if start < index {
            lemma_steps_rise(start, index);
        }
    } else {
        assert(start != index);
        lemma_least_step(milliseconds, start + 1, index);
    }
}

/// The delays that a profile recommends, in milliseconds.
#[derive(Clone, Copy, Debug, PartialEq, Eq, Structural)]
pub struct LatencyRecommendations {
    pub aggressive_ms: u64,
    pub balanced_ms: u64,
    pub resilient_ms: u64,
}

/// Whole milliseconds, rounded up.
pub open spec fn millis_ceil(micros: u64) -> int {
    (micros + 999) / 1000
}

/// The length of a frame in milliseconds, rounded up. A rate of zero counts as one per second.
pub open spec fn frame_millis(fps: u32) -> int {
    (1_000 + (if fps == 0 {
        1
    } else {
        fps as int
    }) - 1) / (if fps == 0 {
        1
    } else {
        fps as int
    })
}

/// The margin for lost packets: none without loss, and more from a tenth of a percent and from
/// one percent on.
pub open spec fn loss_margin(retransmissions: u64, packets: u64) -> int {
    let scaled = if retransmissions * 10_000 <= u64::MAX {
        retransmissions * 10_000
    } else {
        u64::MAX as int
    };
    let basis_points = if packets == 0 {
        0
    } else {
        scaled / packets as int
    };
    if basis_points >= 100 {
        100
    } else if basis_points >= 10 {
        50
    } else if basis_points >= 1 {
        25
    } else {
        0
    }
}

/// The delays that a distribution recommends.
pub open spec fn recommended(
    pipeline: LatencyDistribution,
    fps: u32,
    retransmissions: u64,
    packets: u64,
) -> LatencyRecommendations {
    let frame = frame_millis(fps);
    let margin = loss_margin(retransmissions, packets);
    let p95 = millis_ceil(pipeline.p95_micros);
    let p99 = millis_ceil(pipeline.p99_micros);
    let maximum = millis_ceil(pipeline.max_micros);
    let aggressive = covering_step(
        (p95 + if frame / 2 >= 10 {
            frame / 2
        } else {
            10
        }) as u64,
    );
    let balanced = larger(covering_step((p99 + frame + margin) as u64), aggressive);
    let resilient = larger(
        covering_step(
            ((if maximum >= p99 + frame {
                maximum
            } else {
                p99 + frame
            }) + frame + margin) as u64,
        ),
        balanced,
    );
    LatencyRecommendations {
        aggressive_ms: aggressive,
        balanced_ms: balanced,
        resilient_ms: resilient,
    }
}

fn frame_length_millis(fps: u32) -> (millis: u64)
    ensures
        millis == frame_millis(fps),
        1 <= millis <= 1_000,
{
    let rate: u64 = if fps == 0 {
        1
    } else {
        fps as u64
    };
    let millis: u64 = (1_000 + rate - 1) / rate;
    assert(1 <= millis <= 1_000) by (nonlinear_arith)
        requires
            rate >= 1,
            millis == (1_000 + rate - 1) / rate as int,
    ;
    millis
}

/// The playout delays that cover a measured distribution: its 95th percentile with little margin,
/// its 99th with a frame and the observed loss, and its maximum with more.
pub fn recommend_latency(
    pipeline: LatencyDistribution,
    fps: u32,
    retransmissions: u64,
    packets: u64,
) -> (recommendations: LatencyRecommendations)
    ensures
        recommendations == recommended(pipeline, fps, retransmissions, packets),
{
    let frame_ms: u64 = frame_length_millis(fps);
    let scaled: u64 = match retransmissions.checked_mul(10_000) {
        Some(scaled) => scaled,
        None => u64::MAX,
    };
    let basis_points: u64 = if packets == 0 {
        0
    } else {
        scaled / packets
    };
    let margin: u64 = if basis_points >= 100 {
        100
    } else if basis_points >= 10 {
        50
    } else if basis_points >= 1 {
        25
    } else {
        0
    };
    let p95_ms: u64 = micros_to_millis_ceil(pipeline.p95_micros);
    let p99_ms: u64 = micros_to_millis_ceil(pipeline.p99_micros);
    let max_ms: u64 = micros_to_millis_ceil(pipeline.max_micros);
    let half: u64 = larger_of(frame_ms / 2, 10);
    let aggressive_ms: u64 = round_target_delay(p95_ms + half);
    let balanced_ms: u64 = larger_of(round_target_delay(p99_ms + frame_ms + margin), aggressive_ms);
    let resilient_ms: u64 = larger_of(
        round_target_delay(larger_of(max_ms, p99_ms + frame_ms) + frame_ms + margin),
        balanced_ms,
    );
    LatencyRecommendations { aggressive_ms, balanced_ms, resilient_ms }
}

/// Every recommendation is a delay that a receiver can be asked for, a safer one is never
/// shorter, and each covers what it stands for unless the longest delay is too short for it.
pub proof fn lemma_recommendations_are_ordered_steps(
    pipeline: LatencyDistribution,
    fps: u32,
    retransmissions: u64,
    packets: u64,
)
    ensures
        ({
            let delays = recommended(pipeline, fps, retransmissions, packets);
            &&& delays.aggressive_ms <= delays.balanced_ms <= delays.resilient_ms <= 5_000
            &&& delay_steps().contains(delays.aggressive_ms)
            &&& delay_steps().contains(delays.balanced_ms)
            &&& delay_steps().contains(delays.resilient_ms)
            &&& delays.aggressive_ms >= millis_ceil(pipeline.p95_micros) || delays.aggressive_ms
                == 5_000
            &&& delays.balanced_ms >= millis_ceil(pipeline.p99_micros) + frame_millis(fps)
                || delays.balanced_ms == 5_000
            &&& delays.resilient_ms >= millis_ceil(pipeline.max_micros) + frame_millis(fps)
                || delays.resilient_ms == 5_000
        }),
{
    let rate = if fps == 0 {
        1
    } else {
        fps as int
    };
    let frame = frame_millis(fps);
    assert(1 <= frame <= 1_000) by (nonlinear_arith)
        requires
            rate >= 1,
            frame == (1_000 + rate - 1) / rate,
    ;
    let margin = loss_margin(retransmissions, packets);
    let p95 = millis_ceil(pipeline.p95_micros);
    let p99 = millis_ceil(pipeline.p99_micros);
    let maximum = millis_ceil(pipeline.max_micros);
    lemma_step_from(
        (p95 + if frame / 2 >= 10 {
            frame / 2
        } else {
            10
        }) as u64,
        0,
    );
    lemma_step_from((p99 + frame + margin) as u64, 0);
    lemma_step_from(
        ((if maximum >= p99 + frame {
            maximum
        } else {
            p99 + frame
        }) + frame + margin) as u64,
        0,
    );
    assert forall|step: u64| delay_steps().contains(step) implies step <= 5_000 by {
        let i = choose|i: int| 0 <= i < delay_steps().len() && delay_steps()[i] == step;
        assert(delay_steps()[i] <= 5_000);
    }
}

/// A frame lasts its share of a second, and millisecond counts are rounded up.
pub proof fn lemma_milliseconds_are_rounded_up(micros: u64, fps: u32)
    ensures
        1000 * millis_ceil(micros) >= micros > 1000 * (millis_ceil(micros) - 1),
        fps > 0 ==> frame_millis(fps) * fps >= 1000 > (frame_millis(fps) - 1) * fps,
        fps == 0 ==> frame_millis(fps) == 1000,
{
    if fps > 0 {
        let rate = fps as int;
        let frame = (1_000 + rate - 1) / rate;
        assert(frame * rate >= 1000 && 1000 > (frame - 1) * rate) by (nonlinear_arith)
            requires
                rate > 0,
                frame == (1_000 + rate - 1) / rate,
        ;
    }
}

/// The margin for lost packets goes by their share: none below a hundredth of a percent, and more
/// from there, from a tenth of a percent and from one percent on.
pub proof fn lemma_margins_go_by_the_loss(retransmissions: u64, packets: u64)
    requires
        packets > 0,
        retransmissions <= 0x4_0000_0000_0000,
    ensures
        retransmissions * 10_000 < packets ==> loss_margin(retransmissions, packets) == 0,
        retransmissions * 10_000 >= packets && retransmissions * 1_000 < packets ==> loss_margin(
            retransmissions,
            packets,
        ) == 25,
        retransmissions * 1_000 >= packets && retransmissions * 100 < packets ==> loss_margin(
            retransmissions,
            packets,
        ) == 50,
        retransmissions * 100 >= packets ==> loss_margin(retransmissions, packets) == 100,
{
    let scaled = retransmissions * 10_000;
    let share = packets as int;
    let points = scaled / share;
    assert(points * share <= scaled < (points + 1) * share) by (nonlinear_arith)
        requires
            points == scaled / share,
            share > 0,
    ;
    if points >= 100 {
        assert(points * share >= 100 * share) by (nonlinear_arith)
            requires
                points >= 100,
                share > 0,
        ;
    } else {
        assert((points + 1) * share <= 100 * share) by (nonlinear_arith)
            requires
                points + 1 <= 100,
                share > 0,
        ;
    }
    if points >= 10 {
        assert(points * share >= 10 * share) by (nonlinear_arith)
            requires
                points >= 10,
                share > 0,
        ;
    } else {
        assert((points + 1) * share <= 10 * share) by (nonlinear_arith)
            requires
                points + 1 <= 10,
                share > 0,
        ;
    }
    if points >= 1 {
        assert(points * share >= share) by (nonlinear_arith)
            requires
                points >= 1,
                share > 0,
        ;
    } else {
        assert((points + 1) * share <= share) by (nonlinear_arith)
            requires
                points + 1 <= 1,
                share > 0,
        ;
    }
}

/// Each recommendation is the shortest delay that covers what it stands for: the 95th percentile
/// with half a frame and at least ten milliseconds, the 99th with a frame and the margin for loss,
/// and the maximum, or the 99th and a frame where that is more, with a frame and that margin.
pub proof fn lemma_recommendations_are_no_longer_than_needed(
    pipeline: LatencyDistribution,
    fps: u32,
    retransmissions: u64,
    packets: u64,
    index: int,
)
    requires
        0 <= index < 23,
    ensures
        ({
            let delays = recommended(pipeline, fps, retransmissions, packets);
            let step = delay_steps()[index];
            let frame = frame_millis(fps);
            let margin = loss_margin(retransmissions, packets);
            let p95 = millis_ceil(pipeline.p95_micros);
            let p99 = millis_ceil(pipeline.p99_micros);
            let most = millis_ceil(pipeline.max_micros);
            &&& step >= p95 + 10 && 2 * (step - p95) >= frame ==> delays.aggressive_ms <= step
            &&& step >= p99 + frame + margin && step >= delays.aggressive_ms ==> delays.balanced_ms
                <= step
            &&& step >= most + frame + margin && step >= p99 + 2 * frame + margin && step
                >= delays.balanced_ms ==> delays.resilient_ms <= step
            &&& delays.aggressive_ms < 5_000 ==> delays.aggressive_ms >= p95 + 10 && 2 * (
            delays.aggressive_ms - p95) + 1 >= frame
            &&& delays.balanced_ms < 5_000 ==> delays.balanced_ms >= p99 + frame + margin
            &&& delays.resilient_ms < 5_000 ==> delays.resilient_ms >= most + frame + margin
                && delays.resilient_ms >= p99 + 2 * frame + margin
        }),
{
    let frame = frame_millis(fps);
    lemma_milliseconds_are_rounded_up(pipeline.p95_micros, fps);
    let rate = if fps == 0 {
        1
    } else {
        fps as int
    };
    assert(1 <= frame <= 1_000) by (nonlinear_arith)
        requires
            rate >= 1,
            frame == (1_000 + rate - 1) / rate,
    ;
    let margin = loss_margin(retransmissions, packets);
    let p95 = millis_ceil(pipeline.p95_micros);
    let p99 = millis_ceil(pipeline.p99_micros);
    let most = millis_ceil(pipeline.max_micros);
    let low = p95 + if frame / 2 >= 10 {
        frame / 2
    } else {
        10
    };
    let middle = p99 + frame + margin;
    let high = (if most >= p99 + frame {
        most
    } else {
        p99 + frame
    }) + frame + margin;
    lemma_the_shortest_step_covers(low as u64, index);
    lemma_the_shortest_step_covers(middle as u64, index);
    lemma_the_shortest_step_covers(high as u64, index);
}

/// The frame-length latencies of some samples, from capture to acknowledgement.
pub open spec fn pipeline_values(samples: Seq<LatencySample>) -> Seq<u64> {
    samples.map_values(|sample: LatencySample| sample.pipeline_micros)
}

/// The latencies of the samples from `start` on.
fn pipeline_from(samples: &[LatencySample], start: usize) -> (values: Vec<u64>)
    requires
        start <= samples@.len(),
    ensures
        values@ == pipeline_values(samples@.skip(start as int)),
{
    let mut values: Vec<u64> = Vec::new();
    let mut index: usize = start;
    while index < samples.len()
        invariant
            start <= index <= samples@.len(),
            values@ == pipeline_values(samples@.subrange(start as int, index as int)),
        decreases samples@.len() - index,
    {
        values.push(samples[index].pipeline_micros);
        index = index + 1;
        assert(values@ =~= pipeline_values(samples@.subrange(start as int, index as int)));
    }
    assert(samples@.subrange(start as int, index as int) =~= samples@.skip(start as int));
    values
}

/// The live graph of a profile.
pub struct LiveLatencyGraph {
    /// In nanoseconds.
    pub duration: u128,
    pub synthetic: bool,
    pub fps: u32,
    /// When the graph is due next, in nanoseconds after the start.
    pub next_draw: u128,
    pub last_sample_count: usize,
    /// The 95th percentile of each second, in milliseconds, oldest first.
    pub history: VecDeque<Option<u64>>,
}

/// What one redraw of the graph shows.
pub struct GraphFrame {
    pub interval_p95: Option<u64>,
    pub overall: Option<LatencyDistribution>,
    pub sparkline: String,
    pub scale_ms: u64,
    pub elapsed_seconds: u64,
    pub duration_seconds: u64,
    pub progress: String,
    pub phase: Option<SyntheticPhase>,
}

/// The block for a level from zero to seven.
pub open spec fn block(level: int) -> char {
    if level == 0 {
        '▁'
    } else if level == 1 {
        '▂'
    } else if level == 2 {
        '▃'
    } else if level == 3 {
        '▄'
    } else if level == 4 {
        '▅'
    } else if level == 5 {
        '▆'
    } else if level == 6 {
        '▇'
    } else {
        '█'
    }
}

/// The largest value of a history.
pub open spec fn peak(history: Seq<Option<u64>>) -> u64
    decreases history.len(),
{
    if history.len() == 0 {
        0
    } else {
        larger(
            peak(history.drop_last()),
            match history.last() {
                Some(value) => value,
                None => 0,
            },
        )
    }
}

/// The top of the scale: the next multiple of 25 above the peak, and above ten.
pub open spec fn scale_for(history: Seq<Option<u64>>) -> int {
    (larger(peak(history), 10) + 24) / 25 * 25
}

/// The column for one second.
pub open spec fn column(value: Option<u64>, scale: int) -> char {
    match value {
        None => '·',
        Some(value) => {
            let scaled = if value * 7 <= u64::MAX {
                value * 7
            } else {
                u64::MAX as int
            };
            let level = (scaled + scale - 1) / scale;
            block(
                if level < 7 {
                    level
                } else {
                    7
                },
            )
        },
    }
}

/// The graph of a history: the newest seconds, to the right.
pub open spec fn graph_of(history: Seq<Option<u64>>) -> Seq<char> {
    let visible = if history.len() < PROFILE_GRAPH_COLUMNS {
        history.len() as int
    } else {
        PROFILE_GRAPH_COLUMNS as int
    };
    Seq::new((PROFILE_GRAPH_COLUMNS - visible) as nat, |i: int| ' ') + history.skip(
        history.len() - visible,
    ).map_values(|value: Option<u64>| column(value, scale_for(history)))
}

/// The graph is always as wide as its columns.
pub proof fn lemma_the_graph_has_a_fixed_width(history: Seq<Option<u64>>)
    ensures
        graph_of(history).len() == PROFILE_GRAPH_COLUMNS,
{
}

/// The graph shows the newest seconds to the right, each at the height of its value: the scale
/// ends at a multiple of 25 that no value exceeds, its foot is zero, its top the end of the scale,
/// and a second without a value is a dot.
pub proof fn lemma_the_graph_shows_the_newest_seconds(history: Seq<Option<u64>>, back: int)
    requires
        0 <= back < 44,
        back < history.len(),
        peak(history) <= 0x1_0000_0000,
    ensures
        graph_of(history)[43 - back] == column(
            history[history.len() - 1 - back],
            scale_for(history),
        ),
        history.len() <= 43 ==> graph_of(history)[0] == ' ',
        scale_for(history) % 25 == 0,
        peak(history) <= scale_for(history),
        10 <= scale_for(history),
        scale_for(history) < peak(history) + 25 || scale_for(history) == 25,
        history[history.len() - 1 - back] matches Some(value) ==> value <= peak(history),
        column(None, scale_for(history)) == '·',
        column(Some(0), scale_for(history)) == '▁',
        column(Some(scale_for(history) as u64), scale_for(history)) == '█',
{
    lemma_no_value_exceeds_the_peak(history, history.len() - 1 - back);
    let scale = scale_for(history);
    assert((scale - 1) / scale == 0) by (nonlinear_arith)
        requires
            scale > 0,
    ;
    assert((scale * 7 + scale - 1) / scale == 7) by (nonlinear_arith)
        requires
            scale > 0,
    ;
}

proof fn lemma_no_value_exceeds_the_peak(history: Seq<Option<u64>>, index: int)
    requires
        0 <= index < history.len(),
    ensures
        history[index] matches Some(value) ==> value <= peak(history),
    decreases history.len(),
{
    if index < history.len() - 1 {
        lemma_no_value_exceeds_the_peak(history.drop_last(), index);
    }
}

fn block_character(level: u64) -> (character: char)
    ensures
        character == block(level as int),
{
    if level == 0 {
        '▁'
    } else if level == 1 {
        '▂'
    } else if level == 2 {
        '▃'
    } else if level == 3 {
        '▄'
    } else if level == 4 {
        '▅'
    } else if level == 5 {
        '▆'
    } else if level == 6 {
        '▇'
    } else {
        '█'
    }
}

fn column_character(value: Option<u64>, scale: u64) -> (character: char)
    requires
        scale > 0,
    ensures
        character == column(value, scale as int),
{
    match value {
        None => '·',
        Some(value) => {
            let scaled: u64 = match value.checked_mul(7) {
                Some(scaled) => scaled,
                None => u64::MAX,
            };
            let whole: u64 = scaled / scale;
            proof {
                let s = scale as int;
                vstd::arithmetic::div_mod::lemma_fundamental_div_mod(scaled as int, s);
                let q = scaled as int / s;
                let r = scaled as int % s;
                if r == 0 {
                    assert((s * q + s - 1) / s == q) by (nonlinear_arith)
                        requires
                            s > 0,
                    ;
                } else {
                    assert((s * q + r + s - 1) / s == q + 1) by (nonlinear_arith)
                        requires
                            0 < r < s,
                    ;
                }
            }
            let level: u64 = if whole >= 7 {
                7
            } else if scaled % scale == 0 {
                whole
            } else {
                whole + 1
            };
            block_character(level)
        },
    }
}

impl LiveLatencyGraph {
    pub fn new(duration: u128, synthetic: bool, fps: u32) -> (graph: Self)
        ensures
            graph.duration == duration,
            graph.synthetic == synthetic,
            graph.fps == fps,
            graph.next_draw == 1_000_000_000,
            graph.last_sample_count == 0,
            graph.history@ == Seq::<Option<u64>>::empty(),
    {
        LiveLatencyGraph {
            duration,
            synthetic,
            fps,
            next_draw: 1_000_000_000,
            last_sample_count: 0,
            history: VecDeque::new(),
        }
    }

    /// Whether the graph is to be drawn now. If so, it is due again at the next whole second.
    pub fn take_due(&mut self, elapsed: u128) -> (due: bool)
        requires
            elapsed <= LONGEST_SPAN,
        ensures
            due == (elapsed >= old(self).next_draw),
            final(self).next_draw == if due {
                if elapsed / 1_000_000_000 < u64::MAX {
                    (elapsed / 1_000_000_000 + 1) * 1_000_000_000
                } else {
                    u64::MAX * 1_000_000_000
                }
            } else {
                old(self).next_draw as int
            },
            final(self).duration == old(self).duration,
            final(self).synthetic == old(self).synthetic,
            final(self).fps == old(self).fps,
            final(self).last_sample_count == old(self).last_sample_count,
            final(self).history == old(self).history,
    {
        if elapsed < self.next_draw {
            return false;
        }
        let seconds: u64 = (elapsed / 1_000_000_000) as u64;
        self.next_draw = seconds.saturating_add(1) as u128 * 1_000_000_000;
        true
    }

    /// The graph of the recent seconds, and the top of its scale in milliseconds.
    pub fn sparkline(&self) -> (result: (String, u64))
        requires
            scale_for(self.history@) <= u64::MAX,
        ensures
            result.0@ == graph_of(self.history@),
            result.1 == scale_for(self.history@),
    {
        let mut maximum: u64 = 0;
        let mut index: usize = 0;
        assert(self.history@.take(0) =~= Seq::<Option<u64>>::empty());
        while index < self.history.len()
            invariant
                index <= self.history@.len(),
                maximum == peak(self.history@.take(index as int)),
            decreases self.history@.len() - index,
        {
            assert(self.history@.take(index + 1).drop_last() =~= self.history@.take(index as int));
            if let Some(value) = self.history[index] {
                maximum = larger_of(maximum, value);
            }
            index = index + 1;
        }
        assert(self.history@.take(index as int) =~= self.history@);
        let top: u64 = larger_of(maximum, 10);
        let steps: u64 = if top % 25 == 0 {
            top / 25
        } else {
            top / 25 + 1
        };
        let scale_ms: u64 = steps * 25;
        let visible: usize = if self.history.len() < PROFILE_GRAPH_COLUMNS {
            self.history.len()
        } else {
            PROFILE_GRAPH_COLUMNS
        };
        let mut graph: String = String::new();
        let mut blank: usize = 0;
        while blank < PROFILE_GRAPH_COLUMNS - visible
            invariant
                blank <= PROFILE_GRAPH_COLUMNS - visible,
                visible <= PROFILE_GRAPH_COLUMNS,
                graph@ == Seq::new(blank as nat, |i: int| ' '),
            decreases PROFILE_GRAPH_COLUMNS - visible - blank,
        {
            graph.push(' ');
            blank = blank + 1;
            assert(graph@ =~= Seq::new(blank as nat, |i: int| ' '));
        }
        let ghost margin = graph@;
        let start: usize = self.history.len() - visible;
        let mut position: usize = start;
        while position < self.history.len()
            invariant
                start <= position <= self.history@.len(),
                scale_ms == scale_for(self.history@),
                scale_ms > 0,
                graph@ == margin + self.history@.subrange(
                    start as int,
                    position as int,
                ).map_values(|value: Option<u64>| column(value, scale_for(self.history@))),
            decreases self.history@.len() - position,
        {
            let ghost before = graph@;
            graph.push(column_character(self.history[position], scale_ms));
            position = position + 1;
            assert(graph@ =~= margin + self.history@.subrange(
                start as int,
                position as int,
            ).map_values(|value: Option<u64>| column(value, scale_for(self.history@))));
        }
        assert(self.history@.subrange(start as int, position as int) =~= self.history@.skip(
            start as int,
        ));
        assert(graph@ =~= graph_of(self.history@));
        (graph, scale_ms)
    }

    /// Whether every remembered second is a latency that a clock in microseconds can show.
    pub open spec fn well_formed(&self) -> bool {
        forall|i: int|
            0 <= i < self.history@.len() ==> ((#[trigger] self.history@[i]) matches Some(value)
                ==> value <= u64::MAX / 1000 + 1)
    }

    /// The 95th percentile of the samples since the last redraw, in milliseconds.
    pub open spec fn interval_of(&self, samples: Seq<LatencySample>) -> Option<u64> {
        if self.last_sample_count > samples.len() {
            None
        } else {
            match distribution_of(pipeline_values(samples.skip(self.last_sample_count as int))) {
                Some(distribution) => Some(millis_ceil(distribution.p95_micros) as u64),
                None => None,
            }
        }
    }

    /// The history with one more second in it: only the newest are kept.
    pub open spec fn history_with(&self, value: Option<u64>) -> Seq<Option<u64>> {
        let all = self.history@.push(value);
        if all.len() > PROFILE_HISTORY_SECONDS {
            all.skip(all.len() - PROFILE_HISTORY_SECONDS)
        } else {
            all
        }
    }

    /// Takes the samples so far in, and says what to draw.
    pub fn draw(&mut self, samples: &[LatencySample], elapsed: u128) -> (frame: GraphFrame)
        requires
            old(self).well_formed(),
            elapsed <= LONGEST_SPAN,
            old(self).duration <= LONGEST_SPAN,
        ensures
            final(self).well_formed(),
            final(self).duration == old(self).duration,
            final(self).synthetic == old(self).synthetic,
            final(self).fps == old(self).fps,
            final(self).next_draw == old(self).next_draw,
            final(self).last_sample_count == samples@.len(),
            final(self).history@ == old(self).history_with(old(self).interval_of(samples@)),
            frame.interval_p95 == old(self).interval_of(samples@),
            frame.overall == distribution_of(pipeline_values(samples@)),
            frame.sparkline@ == graph_of(final(self).history@),
            frame.scale_ms == scale_for(final(self).history@),
            frame.elapsed_seconds == if elapsed <= old(self).duration {
                elapsed / 1_000_000_000
            } else {
                old(self).duration / 1_000_000_000
            },
            frame.duration_seconds == old(self).duration / 1_000_000_000,
            frame.progress@ == bar_of(elapsed, old(self).duration, 30),
            frame.phase == if old(self).synthetic {
                Some(
                    phase_at(quarter_of(frame_due(elapsed, old(self).fps) as int, old(self).fps)),
                )
            } else {
                None
            },
    {
        let interval_p95: Option<u64> = if self.last_sample_count > samples.len() {
            None
        } else {
            let recent: Vec<u64> = pipeline_from(samples, self.last_sample_count);
            match LatencyDistribution::from_values(recent.as_slice()) {
                Some(distribution) => Some(micros_to_millis_ceil(distribution.p95_micros)),
                None => None,
            }
        };
        self.last_sample_count = samples.len();
        let ghost before = self.history@;
        self.history.push_back(interval_p95);
        while self.history.len() > PROFILE_HISTORY_SECONDS
            invariant
                self.duration == old(self).duration,
                self.synthetic == old(self).synthetic,
                self.fps == old(self).fps,
                self.next_draw == old(self).next_draw,
                self.last_sample_count == samples@.len(),
                before == old(self).history@,
                self.history@.len() <= before.len() + 1,
                self.history@ == before.push(interval_p95).skip(
                    before.len() + 1 - self.history@.len(),
                ),
                self.history@.len() >= PROFILE_HISTORY_SECONDS || self.history@.len()
                    == before.len() + 1,
            decreases self.history@.len(),
        {
            let ghost longer = self.history@;
            self.history.pop_front();
            assert(self.history@ =~= longer.skip(1));
            assert(self.history@ =~= before.push(interval_p95).skip(
                before.len() + 1 - self.history@.len(),
            ));
        }
        assert(self.history@ =~= old(self).history_with(interval_p95));
        proof {
            lemma_peak_bound(self.history@);
        }
        let all: Vec<u64> = pipeline_from(samples, 0);
        assert(samples@.skip(0) =~= samples@);
        let overall: Option<LatencyDistribution> = LatencyDistribution::from_values(all.as_slice());
        let (sparkline, scale_ms) = self.sparkline();
        let duration_seconds: u64 = (self.duration / 1_000_000_000) as u64;
        let elapsed_seconds: u64 = if elapsed <= self.duration {
            (elapsed / 1_000_000_000) as u64
        } else {
            duration_seconds
        };
        let phase: Option<SyntheticPhase> = if self.synthetic {
            let (phase, _) = phase_for_frame(frame_at_elapsed(elapsed, self.fps), self.fps);
            Some(phase)
        } else {
            None
        };
        let progress: String = progress_bar(elapsed, self.duration, 30);
        GraphFrame {
            interval_p95,
            overall,
            sparkline,
            scale_ms,
            elapsed_seconds,
            duration_seconds,
            progress,
            phase,
        }
    }
}

proof fn lemma_peak_bound(history: Seq<Option<u64>>)
    requires
        forall|i: int|
            0 <= i < history.len() ==> ((#[trigger] history[i]) matches Some(value) ==> value
                <= u64::MAX / 1000 + 1),
    ensures
        peak(history) <= u64::MAX / 1000 + 1,
    decreases history.len(),
{
    if history.len() > 0 {
        let front = history.drop_last();
        assert forall|i: int| 0 <= i < front.len() implies ((#[trigger] front[i]) matches Some(value)
            ==> value <= u64::MAX / 1000 + 1) by {
            assert(front[i] == history[i]);
        }
        lemma_peak_bound(front);
        assert(history[history.len() - 1] == history.last());
    }
}

/// The part of a bar of `width` that is filled. The product that it comes from is held at the
/// largest number of 128 bits.
pub open spec fn filled_part(elapsed: u128, duration: u128, width: usize) -> int {
    let total = if duration / 1_000_000 >= 1 {
        duration as int / 1_000_000
    } else {
        1
    };
    let done = if elapsed / 1_000_000 <= total {
        elapsed as int / 1_000_000
    } else {
        total
    };
    (if done * width <= u128::MAX {
        done * width
    } else {
        u128::MAX as int
    }) / total
}

/// A bar that is filled as far as time has passed.
pub open spec fn bar_of(elapsed: u128, duration: u128, width: usize) -> Seq<char> {
    let filled = filled_part(elapsed, duration, width);
    Seq::new(filled as nat, |i: int| '█') + Seq::new((width - filled) as nat, |i: int| '░')
}

/// The bar fills in step with the time: nothing of it at the start, all of it at the end, and in
/// between the share of the time that has passed, rounded down. It has the same width throughout.
pub proof fn lemma_bars_fill_with_the_time(elapsed: u128, duration: u128, width: usize)
    requires
        duration >= 1_000_000,
        duration / 1_000_000 <= 0xffff_ffff_ffff_ffff,
    ensures
        ({
            let total = duration / 1_000_000;
            let filled = filled_part(elapsed, duration, width);
            &&& 0 <= filled <= width
            &&& elapsed / 1_000_000 <= total ==> filled * total <= (elapsed / 1_000_000) * width < (
            filled + 1) * total
            &&& elapsed >= duration ==> filled == width
            &&& elapsed < 1_000_000 ==> filled == 0
            &&& bar_of(elapsed, duration, width).len() == width
            &&& forall|i: int|
                0 <= i < width ==> #[trigger] bar_of(elapsed, duration, width)[i] == if i < filled {
                    '█'
                } else {
                    '░'
                }
        }),
{
    let total = duration as int / 1_000_000;
    let done = if elapsed / 1_000_000 <= total {
        elapsed as int / 1_000_000
    } else {
        total
    };
    let wide = width as int;
    assert(0 <= done * wide <= total * wide && total * wide <= 0xffff_ffff_ffff_ffff
        * 0xffff_ffff_ffff_ffff) by (nonlinear_arith)
        requires
            0 <= done <= total <= 0xffff_ffff_ffff_ffff,
            0 <= wide <= 0xffff_ffff_ffff_ffff,
    ;
    let filled = done * wide / total;
    assert(0 <= filled <= wide && filled * total <= done * wide < (filled + 1) * total)
        by (nonlinear_arith)
        requires
            0 <= done * wide <= total * wide,
            total > 0,
            wide >= 0,
            filled == done * wide / total,
    ;
    assert(done == total ==> filled == wide) by (nonlinear_arith)
        requires
            filled == done * wide / total,
            total > 0,
    ;
    assert(done == 0 ==> filled == 0) by (nonlinear_arith)
        requires
            filled == done * wide / total,
            total > 0,
    ;
}

/// A bar that is filled as far as time has passed. Each of its characters takes three bytes.
pub fn progress_bar(elapsed: u128, duration: u128, width: usize) -> (bar: String)
    requires
        3 * width <= isize::MAX,
    ensures
        bar@ == bar_of(elapsed, duration, width),
        0 <= filled_part(elapsed, duration, width) <= width,
        bar@.len() == width,
{
    let total: u128 = if duration / 1_000_000 >= 1 {
        duration / 1_000_000
    } else {
        1
    };
    let done: u128 = if elapsed / 1_000_000 <= total {
        elapsed / 1_000_000
    } else {
        total
    };
    assert(0 <= done * width <= total * width) by (nonlinear_arith)
        requires
            done <= total,
    ;
    let product: u128 = match done.checked_mul(width as u128) {
        Some(product) => product,
        None => u128::MAX,
    };
    let filled: u128 = product / total;
    assert(filled <= width) by (nonlinear_arith)
        requires
            filled == product as int / total as int,
            product <= done * width,
            done * width <= total * width,
            total > 0,
    ;
    let filled: usize = filled as usize;
    let mut bar: String = String::new();
    let mut index: usize = 0;
    while index < filled
        invariant
            index <= filled,
            bar@ == Seq::new(index as nat, |i: int| '█'),
        decreases filled - index,
    {
        bar.push('█');
        index = index + 1;
        assert(bar@ =~= Seq::new(index as nat, |i: int| '█'));
    }
    let ghost full = bar@;
    while index < width
        invariant
            filled <= index <= width,
            bar@ == full + Seq::new((index - filled) as nat, |i: int| '░'),
        decreases width - index,
    {
        bar.push('░');
        index = index + 1;
        assert(bar@ =~= full + Seq::new((index - filled) as nat, |i: int| '░'));
    }
    assert(bar@ =~= bar_of(elapsed, duration, width));
    bar
}

} // verus!
