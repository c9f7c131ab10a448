//! Latency histograms: what recording, merging and reading do to the counts
//! that an `hdrhistogram::Histogram` holds.
//!
//! A histogram with one microsecond as its lowest discernible value and three
//! significant digits keeps values below 2048 apart and counts larger values
//! in groups whose width doubles with each doubling of the value.

use hdrhistogram::Histogram;
use vstd::prelude::*;

use crate::double::Double;
use crate::tally;

verus! {

/// Longest latency that a histogram tracks, in microseconds.
pub const MAX_LATENCY_US: u64 = 60_000_000;

/// Significant digits that a histogram keeps.
pub const SIGNIFICANT_DIGITS: u8 = 3;

/// A histogram of latencies in microseconds, from one up to the longest
/// latency that is tracked.
#[verifier::external_body]
pub struct LatencyHistogram {
    inner: Histogram<u64>,
}

/// `hdrhistogram::CreationError`, carried through without a look inside.
#[verifier::external_type_specification]
#[verifier::external_body]
pub struct ExCreationError(hdrhistogram::CreationError);

/// `hdrhistogram::AdditionError`, carried through without a look inside.
#[verifier::external_type_specification]
#[verifier::external_body]
pub struct ExAdditionError(hdrhistogram::AdditionError);

/// `hdrhistogram::RecordError`, carried through without a look inside.
#[verifier::external_type_specification]
#[verifier::external_body]
pub struct ExRecordError(hdrhistogram::RecordError);

/// The counts that a histogram holds: for each group of values that it does not
/// tell apart and that holds a recorded value, the lowest value of the group,
/// with the number of values recorded in it.
pub uninterp spec fn latency_counts(histogram: LatencyHistogram) -> Map<u64, u64>;

/// The value below or at which a percentage of the recorded values lies.
pub uninterp spec fn percentile(counts: Map<u64, u64>, percent: u8) -> u64;

/// The mean of the recorded values, as the bits of a double.
pub uninterp spec fn mean_bits(counts: Map<u64, u64>) -> u64;

/// The width of the group of values that a value is counted in.
pub open spec fn group_width(value: nat) -> nat
    decreases value,
{
    if value < 2048 {
        1
    } else {
        2 * group_width(value / 2)
    }
}

/// The lowest value of the group that a value is counted in.
pub open spec fn group_floor(value: u64) -> u64 {
    (value - value as int % group_width(value as nat) as int) as u64
}

/// The highest value of the group that a value is counted in.
pub open spec fn group_ceiling(value: u64) -> int {
    group_floor(value) + group_width(value as nat) - 1
}

/// `key` is the lowest key of a tally.
pub open spec fn is_lowest_key(counts: Map<u64, u64>, key: u64) -> bool {
    counts.contains_key(key) && forall|other: u64| #[trigger]
        counts.contains_key(other) ==> key <= other
}

/// `key` is the highest key of a tally.
pub open spec fn is_highest_key(counts: Map<u64, u64>, key: u64) -> bool {
    counts.contains_key(key) && forall|other: u64| #[trigger]
        counts.contains_key(other) ==> other <= key
}

/// `value` is the highest value of the highest group of a tally.
pub open spec fn is_highest_value(counts: Map<u64, u64>, value: u64) -> bool {
    exists|key: u64| #[trigger] is_highest_key(counts, key) && value == group_ceiling(key)
}

/// `value` is the highest value of one of the groups of a tally.
pub open spec fn is_group_value(counts: Map<u64, u64>, value: u64) -> bool {
    exists|key: u64| #[trigger] counts.contains_key(key) && value == group_ceiling(key)
}

/// How many recorded values lie in the groups up to that of a value.
pub open spec fn entries_up_to(counts: Map<u64, u64>, value: u64) -> nat {
    tally::total(counts.restrict(Set::new(|key: u64| key <= value)))
}

/// How many recorded values lie in the groups below that of a value.
pub open spec fn entries_below(counts: Map<u64, u64>, value: u64) -> nat {
    tally::total(counts.restrict(Set::new(|key: u64| key < group_floor(value))))
}

/// Whether a percentage of the recorded values lies at or below a value, and less
/// than that percentage in the groups below it.
pub open spec fn is_percentile(counts: Map<u64, u64>, percent: u8, value: u64) -> bool {
    let part = percent * tally::total(counts);
    &&& 100 * entries_up_to(counts, value) >= part
    &&& 100 * entries_below(counts, value) < part
}

proof fn lemma_group_doubles(value: u64)
    requires
        value >= 2048,
    ensures
        group_ceiling(value) == 2 * group_ceiling((value / 2) as u64) + 1,
{
    let half = value / 2;
    let width = group_width(half as nat);
    lemma_group_width_positive(half as nat);
    assert(group_width(value as nat) == 2 * width);
    let rest = half as int % width as int;
    assert(value as int % (2 * width) as int == 2 * rest + value as int % 2) by (nonlinear_arith)
        requires
            width > 0,
            half == value / 2,
            rest == half as int % width as int,
    {
        let q = half as int / width as int;
        assert(half == width * q + rest);
        assert(value == 2 * half + value as int % 2);
        assert(value == (2 * width) * q + (2 * rest + value as int % 2));
        assert(0 <= 2 * rest + value as int % 2 < 2 * width);
        vstd::arithmetic::div_mod::lemma_fundamental_div_mod_converse(
            value as int,
            2 * width as int,
            q,
            2 * rest + value as int % 2,
        );
    }
    lemma_group_floor_fits(value);
    lemma_group_floor_fits(half);
}

proof fn lemma_group_width_positive(value: nat)
    ensures
        group_width(value) > 0,
    decreases value,
{
    if value >= 2048 {
        lemma_group_width_positive(value / 2);
    }
}

proof fn lemma_group_floor_fits(value: u64)
    ensures
        0 <= value as int % group_width(value as nat) as int <= value,
        group_floor(value) == value - value as int % group_width(value as nat) as int,
{
    let width = group_width(value as nat) as int;
    lemma_group_width_positive(value as nat);
    assert(0 <= value as int % width <= value) by (nonlinear_arith)
        requires
            width > 0,
            value >= 0,
    ;
}

/// Values below 2048 are told apart from every other.
pub proof fn law_small_values_are_exact(value: u64)
    requires
        value < 2048,
    ensures
        group_floor(value) == value,
        group_ceiling(value) == value,
{
    lemma_group_floor_fits(value);
}

/// A value lies in its group.
pub proof fn law_value_is_in_its_group(value: u64)
    ensures
        group_floor(value) <= value <= group_ceiling(value),
{
    lemma_group_width_positive(value as nat);
    lemma_group_floor_fits(value);
    assert(value as int % group_width(value as nat) as int <= group_width(value as nat) - 1)
        by (nonlinear_arith)
        requires
            group_width(value as nat) > 0,
    ;
}

/// The lowest value of a group is no less than one, for values from one on.
pub proof fn lemma_group_floor_positive(value: u64)
    requires
        value >= 1,
    ensures
        1 <= group_floor(value) <= value,
    decreases value,
{
    law_value_is_in_its_group(value);
    if value < 2048 {
        law_small_values_are_exact(value);
    } else {
        let half = (value / 2) as u64;
        lemma_group_floor_positive(half);
        lemma_group_doubles(value);
        assert(group_width(value as nat) == 2 * group_width(half as nat));
    }
}

/// A larger value is in the same group or in a higher one.
pub proof fn law_groups_ascend(low: u64, high: u64)
    requires
        low <= high,
    ensures
        group_ceiling(low) <= group_ceiling(high),
    decreases high,
{
    if high < 2048 {
        law_small_values_are_exact(low);
        law_small_values_are_exact(high);
    } else if low < 2048 {
        law_small_values_are_exact(low);
        law_value_is_in_its_group(high);
    } else {
        lemma_group_doubles(low);
        lemma_group_doubles(high);
        law_groups_ascend((low / 2) as u64, (high / 2) as u64);
    }
}

/// The lowest value of a group is in that group.
pub proof fn lemma_floor_is_in_the_group(value: u64)
    ensures
        group_ceiling(group_floor(value)) == group_ceiling(value),
        value >= 2048 ==> group_floor(value) >= 2048,
    decreases value,
{
    if value < 2048 {
        law_small_values_are_exact(value);
    } else {
        let half = (value / 2) as u64;
        lemma_floor_is_in_the_group(half);
        lemma_group_doubles(value);
        lemma_group_floor_fits(value);
        lemma_group_floor_fits(half);
        assert(group_width(value as nat) == 2 * group_width(half as nat));
        assert(group_floor(value) == 2 * group_floor(half));
        if half < 2048 {
            law_small_values_are_exact(half);
        }
        lemma_group_doubles(group_floor(value));
    }
}

/// The highest value of a group lies between the lowest recorded value and the
/// highest.
pub proof fn lemma_group_value_between(counts: Map<u64, u64>, low: u64, value: u64, high: u64)
    requires
        is_lowest_key(counts, low),
        is_group_value(counts, value),
        is_highest_value(counts, high),
    ensures
        low <= value <= high,
{
    let key = choose|key: u64| #[trigger] counts.contains_key(key) && value == group_ceiling(key);
    let top = choose|key: u64| #[trigger] is_highest_key(counts, key) && high == group_ceiling(key);
    law_value_is_in_its_group(key);
    law_groups_ascend(key, top);
}

impl LatencyHistogram {
    /// The counts of the histogram.
    pub open spec fn view(self) -> Map<u64, u64> {
        latency_counts(self)
    }

    /// `Histogram::new_with_bounds`, with one as the lowest discernible value,
    /// makes a histogram without recorded values. It accepts these bounds.
    #[verifier::external_body]
    pub(crate) fn new() -> (created: Result<LatencyHistogram, hdrhistogram::CreationError>)
        ensures
            created is Ok,
            latency_counts(created->Ok_0) == tally::blank::<u64>(),
    {
        let inner = Histogram::new_with_bounds(1, MAX_LATENCY_US, SIGNIFICANT_DIGITS)?;
        Ok(LatencyHistogram { inner })
    }

    /// `Histogram::record` counts one value in its group and changes nothing
    /// else; a count that has reached its largest value stays there. It accepts
    /// every value up to the highest trackable one.
    #[verifier::external_body]
    pub(crate) fn record(&mut self, value: u64) -> (recorded: Result<
        (),
        hdrhistogram::RecordError,
    >)
        requires
            1 <= value <= MAX_LATENCY_US,
        ensures
            recorded is Ok,
            latency_counts(*final(self)) == tally::plus(
                latency_counts(*old(self)),
                group_floor(value),
                1,
            ),
    {
        self.inner.record(value)
    }

    /// `Histogram::add` adds the counts of another histogram of the same bounds,
    /// group by group, and holds each sum at the largest count. It accepts every
    /// histogram of the same bounds.
    #[verifier::external_body]
    pub(crate) fn add(&mut self, other: &LatencyHistogram) -> (added: Result<
        (),
        hdrhistogram::AdditionError,
    >)
        ensures
            added is Ok,
            latency_counts(*final(self)) == tally::merged(
                latency_counts(*old(self)),
                latency_counts(*other),
            ),
    {
        self.inner.add(&other.inner)
    }

    /// `Histogram::is_empty` tells whether no value was recorded.
    #[verifier::external_body]
    pub(crate) fn is_empty(&self) -> (empty: bool)
        ensures
            empty == (latency_counts(*self) == tally::blank::<u64>()),
    {
        self.inner.is_empty()
    }

    /// `Histogram::min` is the lowest value of the lowest group that holds a
    /// recorded value.
    #[verifier::external_body]
    pub(crate) fn min(&self) -> (lowest: u64)
        requires
            latency_counts(*self) != tally::blank::<u64>(),
        ensures
            is_lowest_key(latency_counts(*self), lowest),
    {
        self.inner.min()
    }

    /// `Histogram::max` is the highest value of the highest group that holds a
    /// recorded value.
    #[verifier::external_body]
    pub(crate) fn max(&self) -> (highest: u64)
        requires
            latency_counts(*self) != tally::blank::<u64>(),
        ensures
            is_highest_value(latency_counts(*self), highest),
    {
        self.inner.max()
    }

    /// `Histogram::value_at_percentile` is a function of the counts and the
    /// percentage. It answers with the highest value of a group that holds a
    /// recorded value, and never with less than for a lower percentage. It finds
    /// the group through a floating-point product, rounded up to a whole number
    /// of values. The doubles next to these three fractions do not lie above
    /// them, so that the number is the one that the fractions give as long as
    /// there are no more than 2^40 recorded values; beyond that the group is left
    /// unsaid. The sum of the counts has to fit in a `u64`: otherwise the scan
    /// overflows.
    #[verifier::external_body]
    pub(crate) fn value_at_percentile(&self, percent: u8) -> (value: u64)
        requires
            percent == 50 || percent == 95 || percent == 99,
            latency_counts(*self) != tally::blank::<u64>(),
            tally::total(latency_counts(*self)) < u64::MAX,
        ensures
            value == percentile(latency_counts(*self), percent),
            is_group_value(latency_counts(*self), value),
            tally::total(latency_counts(*self)) <= 0x100_0000_0000 ==> is_percentile(
                latency_counts(*self),
                percent,
                value,
            ),
            forall|lower: u8|
                1 <= lower <= percent ==> #[trigger] percentile(latency_counts(*self), lower)
                    <= value,
    {
        self.inner.value_at_percentile(percent.into())
    }

    /// `Histogram::mean` is a function of the counts; its value goes through
    /// floating point and is handed out as the bits of a double.
    #[verifier::external_body]
    pub(crate) fn mean(&self) -> (mean: Double)
        requires
            latency_counts(*self) != tally::blank::<u64>(),
            tally::total(latency_counts(*self)) < u64::MAX,
        ensures
            mean.bits == mean_bits(latency_counts(*self)),
    {
        Double { bits: self.inner.mean().to_bits() }
    }
}

} // verus!
