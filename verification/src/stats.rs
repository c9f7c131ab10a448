//! Counters and latency histograms of a target, whole and by record type:
//! recording samples, merging shards, and the summary of a measurement.

use vstd::prelude::*;

use crate::config::Target;
use crate::double::Double;
use crate::histogram;
use crate::histogram::{LatencyHistogram, MAX_LATENCY_US};
use crate::label_map::LabelMap;
use crate::record_type;
use crate::record_type::RecordType;
use crate::span::Span;
use crate::tally;
use crate::text;

verus! {

/// The latencies of the responses, in microseconds.
#[derive(Debug, Clone, Copy, PartialEq, Eq, Structural)]
pub struct LatencySummary {
    pub min_us: Option<u64>,
    pub mean_us: Option<Double>,
    pub p50_us: Option<u64>,
    pub p95_us: Option<u64>,
    pub p99_us: Option<u64>,
    pub max_us: Option<u64>,
}

/// What was measured of one record type.
#[derive(Debug, Clone, Copy, PartialEq, Eq, Structural)]
pub struct TypeResult {
    pub attempts: u64,
    pub responses: u64,
    pub successes: u64,
    pub timeouts: u64,
    pub errors: u64,
    pub qps: Double,
    pub latency: LatencySummary,
}

/// What was measured of one target.
#[derive(Debug, Clone)]
pub struct TargetResult {
    pub target: Target,
    pub elapsed_ms: u64,
    pub attempts: u64,
    pub responses: u64,
    pub successes: u64,
    pub timeouts: u64,
    pub errors: u64,
    pub truncated: u64,
    pub authenticated_data: u64,
    pub rrsig_responses: u64,
    pub dnssec_records: u64,
    pub bytes_sent: u64,
    pub bytes_received: u64,
    pub response_codes: LabelMap<u64>,
    pub latency: LatencySummary,
    pub qps: Double,
    pub by_record_type: LabelMap<TypeResult>,
}

/// Counters and latencies of a number of queries.
pub struct Bucket {
    attempts: u64,
    responses: u64,
    successes: u64,
    timeouts: u64,
    errors: u64,
    truncated: u64,
    authenticated_data: u64,
    rrsig_responses: u64,
    dnssec_records: u64,
    bytes_sent: u64,
    bytes_received: u64,
    response_codes: LabelMap<u64>,
    histogram: LatencyHistogram,
}

/// What a `Bucket` holds.
pub ghost struct BucketModel {
    pub attempts: u64,
    pub responses: u64,
    pub successes: u64,
    pub timeouts: u64,
    pub errors: u64,
    pub truncated: u64,
    pub authenticated_data: u64,
    pub rrsig_responses: u64,
    pub dnssec_records: u64,
    pub bytes_sent: u64,
    pub bytes_received: u64,
    pub response_codes: Map<Seq<char>, u64>,
    pub latencies: Map<u64, u64>,
}

/// A response, as it is recorded.
pub ghost struct Reply {
    pub latency_us: u64,
    pub bytes_sent: u64,
    pub bytes_received: u64,
    pub response_code: Seq<char>,
    pub truncated: bool,
    pub authenticated_data: bool,
    pub dnssec_records: u64,
    pub rrsig_response: bool,
}

/// One where a condition holds, and zero elsewhere.
pub open spec fn one_if(condition: bool) -> u64 {
    if condition {
        1
    } else {
        0
    }
}

/// A latency brought into the range that is tracked.
pub open spec fn clamped(latency_us: u64) -> u64 {
    if latency_us < 1 {
        1
    } else if latency_us > MAX_LATENCY_US {
        MAX_LATENCY_US
    } else {
        latency_us
    }
}

/// A bucket without samples.
pub open spec fn empty_bucket() -> BucketModel {
    BucketModel {
        attempts: 0,
        responses: 0,
        successes: 0,
        timeouts: 0,
        errors: 0,
        truncated: 0,
        authenticated_data: 0,
        rrsig_responses: 0,
        dnssec_records: 0,
        bytes_sent: 0,
        bytes_received: 0,
        response_codes: tally::blank(),
        latencies: tally::blank(),
    }
}

/// A bucket after one more response.
pub open spec fn replied(bucket: BucketModel, reply: Reply) -> BucketModel {
    BucketModel {
        attempts: tally::sat_add(bucket.attempts, 1),
        responses: tally::sat_add(bucket.responses, 1),
        successes: tally::sat_add(bucket.successes, one_if(reply.response_code == "NoError"@)),
        timeouts: bucket.timeouts,
        errors: bucket.errors,
        truncated: tally::sat_add(bucket.truncated, one_if(reply.truncated)),
        authenticated_data: tally::sat_add(
            bucket.authenticated_data,
            one_if(reply.authenticated_data),
        ),
        rrsig_responses: tally::sat_add(bucket.rrsig_responses, one_if(reply.rrsig_response)),
        dnssec_records: tally::sat_add(bucket.dnssec_records, reply.dnssec_records),
        bytes_sent: tally::sat_add(bucket.bytes_sent, reply.bytes_sent),
        bytes_received: tally::sat_add(bucket.bytes_received, reply.bytes_received),
        response_codes: tally::plus(bucket.response_codes, reply.response_code, 1),
        latencies: tally::plus(
            bucket.latencies,
            histogram::group_floor(clamped(reply.latency_us)),
            1,
        ),
    }
}

/// A bucket after one more query that no response came to in time.
pub open spec fn timed_out(bucket: BucketModel, bytes_sent: u64) -> BucketModel {
    BucketModel {
        attempts: tally::sat_add(bucket.attempts, 1),
        timeouts: tally::sat_add(bucket.timeouts, 1),
        bytes_sent: tally::sat_add(bucket.bytes_sent, bytes_sent),
        ..bucket
    }
}

/// A bucket after one more query that failed.
pub open spec fn failed(bucket: BucketModel, bytes_sent: u64) -> BucketModel {
    BucketModel {
        attempts: tally::sat_add(bucket.attempts, 1),
        errors: tally::sat_add(bucket.errors, 1),
        bytes_sent: tally::sat_add(bucket.bytes_sent, bytes_sent),
        ..bucket
    }
}

/// The bucket that holds the samples of both.
pub open spec fn merged_bucket(left: BucketModel, right: BucketModel) -> BucketModel {
    BucketModel {
        attempts: tally::sat_add(left.attempts, right.attempts),
        responses: tally::sat_add(left.responses, right.responses),
        successes: tally::sat_add(left.successes, right.successes),
        timeouts: tally::sat_add(left.timeouts, right.timeouts),
        errors: tally::sat_add(left.errors, right.errors),
        truncated: tally::sat_add(left.truncated, right.truncated),
        authenticated_data: tally::sat_add(left.authenticated_data, right.authenticated_data),
        rrsig_responses: tally::sat_add(left.rrsig_responses, right.rrsig_responses),
        dnssec_records: tally::sat_add(left.dnssec_records, right.dnssec_records),
        bytes_sent: tally::sat_add(left.bytes_sent, right.bytes_sent),
        bytes_received: tally::sat_add(left.bytes_received, right.bytes_received),
        response_codes: tally::merged(left.response_codes, right.response_codes),
        latencies: tally::merged(left.latencies, right.latencies),
    }
}

/// What holds of the counters of every bucket: each attempt is counted once
/// more, as a response, a timeout or an error; each response has one response
/// code and one latency, in the range that is tracked; a success is a response
/// without an error; and no more responses are truncated, authenticated or
/// signed than there are.
pub open spec fn sound(bucket: BucketModel) -> bool {
    &&& bucket.attempts == tally::sat_add(
        tally::sat_add(bucket.responses, bucket.timeouts),
        bucket.errors,
    )
    &&& bucket.response_codes.dom().finite()
    &&& bucket.responses == tally::held(tally::total(bucket.response_codes))
    &&& bucket.latencies.dom().finite()
    &&& bucket.responses == tally::held(tally::total(bucket.latencies))
    &&& forall|latency: u64| #[trigger]
        bucket.latencies.contains_key(latency) ==> 1 <= latency <= MAX_LATENCY_US
    &&& tally::all_counted(bucket.response_codes)
    &&& tally::all_counted(bucket.latencies)
    &&& bucket.successes == tally::count(bucket.response_codes, "NoError"@)
    &&& bucket.successes <= bucket.responses
    &&& bucket.truncated <= bucket.responses
    &&& bucket.authenticated_data <= bucket.responses
    &&& bucket.rrsig_responses <= bucket.responses
}

/// The counters of a bucket without samples are sound.
pub proof fn law_empty_is_sound()
    ensures
        sound(empty_bucket()),
{
}

/// Recording a response keeps the counters sound.
pub proof fn law_reply_keeps_sound(bucket: BucketModel, reply: Reply)
    requires
        sound(bucket),
    ensures
        sound(replied(bucket, reply)),
{
    tally::lemma_total_plus(bucket.response_codes, reply.response_code, 1);
    tally::lemma_total_plus(
        bucket.latencies,
        histogram::group_floor(clamped(reply.latency_us)),
        1,
    );
    histogram::lemma_group_floor_positive(clamped(reply.latency_us));
}

/// Recording a timeout or an error keeps the counters sound.
pub proof fn law_failure_keeps_sound(bucket: BucketModel, bytes_sent: u64)
    requires
        sound(bucket),
    ensures
        sound(timed_out(bucket, bytes_sent)),
        sound(failed(bucket, bytes_sent)),
{
}

/// Merging keeps the counters sound.
pub proof fn law_merge_keeps_sound(left: BucketModel, right: BucketModel)
    requires
        sound(left),
        sound(right),
    ensures
        sound(merged_bucket(left, right)),
{
    tally::lemma_total_merged(left.response_codes, right.response_codes);
    tally::lemma_total_merged(left.latencies, right.latencies);
}

/// There are latencies and response codes exactly where there are responses.
pub proof fn law_latencies_are_those_of_responses(bucket: BucketModel)
    requires
        sound(bucket),
    ensures
        bucket.responses == 0 <==> bucket.latencies == tally::blank::<u64>(),
        bucket.responses == 0 <==> bucket.response_codes == tally::blank::<Seq<char>>(),
{
    tally::lemma_total_of_counted(bucket.latencies);
    tally::lemma_total_of_counted(bucket.response_codes);
}

/// Timeouts and errors change no latency and no response code.
pub proof fn law_failures_leave_latencies(bucket: BucketModel, bytes_sent: u64)
    ensures
        timed_out(bucket, bytes_sent).latencies == bucket.latencies,
        timed_out(bucket, bytes_sent).response_codes == bucket.response_codes,
        failed(bucket, bytes_sent).latencies == bucket.latencies,
        failed(bucket, bytes_sent).response_codes == bucket.response_codes,
{
}

/// Merging two buckets does not depend on their order.
pub proof fn law_merge_commutes(left: BucketModel, right: BucketModel)
    ensures
        merged_bucket(left, right) == merged_bucket(right, left),
{
    tally::law_merged_commutes(left.response_codes, right.response_codes);
    tally::law_merged_commutes(left.latencies, right.latencies);
}

/// Merging three buckets does not depend on how they are grouped.
pub proof fn law_merge_associates(a: BucketModel, b: BucketModel, c: BucketModel)
    ensures
        merged_bucket(merged_bucket(a, b), c) == merged_bucket(a, merged_bucket(b, c)),
{
    tally::law_merged_associates(a.response_codes, b.response_codes, c.response_codes);
    tally::law_merged_associates(a.latencies, b.latencies, c.latencies);
}

/// A bucket without samples adds nothing to another.
pub proof fn law_merge_with_empty(bucket: BucketModel)
    ensures
        merged_bucket(bucket, empty_bucket()) == bucket,
        merged_bucket(empty_bucket(), bucket) == bucket,
{
    tally::law_merged_with_empty(bucket.response_codes);
    tally::law_merged_with_empty(bucket.latencies);
}

/// It does not matter in which of two buckets a sample is recorded before they
/// are merged.
#[verifier::rlimit(40)]
pub proof fn law_record_then_merge(
    left: BucketModel,
    right: BucketModel,
    reply: Reply,
    bytes_sent: u64,
)
    ensures
        merged_bucket(replied(left, reply), right) == replied(merged_bucket(left, right), reply),
        merged_bucket(left, replied(right, reply)) == replied(merged_bucket(left, right), reply),
        merged_bucket(timed_out(left, bytes_sent), right) == timed_out(
            merged_bucket(left, right),
            bytes_sent,
        ),
        merged_bucket(left, timed_out(right, bytes_sent)) == timed_out(
            merged_bucket(left, right),
            bytes_sent,
        ),
        merged_bucket(failed(left, bytes_sent), right) == failed(
            merged_bucket(left, right),
            bytes_sent,
        ),
        merged_bucket(left, failed(right, bytes_sent)) == failed(
            merged_bucket(left, right),
            bytes_sent,
        ),
{
    let code = reply.response_code;
    let group = histogram::group_floor(clamped(reply.latency_us));
    tally::law_plus_then_merged(left.response_codes, right.response_codes, code, 1);
    tally::law_plus_then_merged(left.latencies, right.latencies, group, 1);
    tally::law_plus_then_merged(right.response_codes, left.response_codes, code, 1);
    tally::law_plus_then_merged(right.latencies, left.latencies, group, 1);
    law_merge_commutes(left, right);
    law_merge_commutes(left, replied(right, reply));
    law_merge_commutes(left, timed_out(right, bytes_sent));
    law_merge_commutes(left, failed(right, bytes_sent));
}

/// Counts more of a label.
fn count_label(counts: &mut LabelMap<u64>, label: &str, amount: u64)
    requires
        old(counts).wf(),
    ensures
        final(counts).wf(),
        final(counts)@ == tally::plus(old(counts)@, label@, amount),
{
    let (place, found) = counts.find(label);
    if found {
        let ghost before = *counts;
        let value = counts.values[place].saturating_add(amount);
        counts.values[place] = value;
        proof {
            LabelMap::lemma_set(before, *counts, place as int, value);
        }
    } else {
        counts.add(place, label.to_owned(), amount);
    }
    assert(counts@ =~= tally::plus(old(counts)@, label@, amount));
}

/// Adds the counts of another map.
fn add_counts(counts: &mut LabelMap<u64>, other: &LabelMap<u64>)
    requires
        old(counts).wf(),
        other.wf(),
    ensures
        final(counts).wf(),
        final(counts)@ == tally::merged(old(counts)@, other@),
{
    let ghost labels = other.label_texts();
    assert(crate::label_map::first_counts(labels, other.values@, 0) =~= tally::blank::<Seq<char>>());
    proof {
        tally::law_merged_with_empty(counts@);
    }
    for i in 0..other.labels.len()
        invariant
            counts.wf(),
            other.wf(),
            labels == other.label_texts(),
            counts@ == tally::merged(old(counts)@, crate::label_map::first_counts(labels, other.values@, i as int)),
    {
        proof {
            crate::label_map::lemma_first_counts(labels, other.values@, i as int);
        }
        let ghost before = counts@;
        assert(other.label_texts()[i as int] == other.labels[i as int]@);
        count_label(counts, &other.labels[i], other.values[i]);
        assert(counts@ =~= tally::merged(
            old(counts)@,
            crate::label_map::first_counts(labels, other.values@, i + 1),
        ));
    }
    assert(other.label_texts().take(other.labels.len() as int) =~= other.label_texts());
    assert(other.values@.take(other.labels.len() as int) =~= other.values@);
}

impl Bucket {
    /// What the bucket holds.
    pub closed spec fn view(self) -> BucketModel {
        BucketModel {
            attempts: self.attempts,
            responses: self.responses,
            successes: self.successes,
            timeouts: self.timeouts,
            errors: self.errors,
            truncated: self.truncated,
            authenticated_data: self.authenticated_data,
            rrsig_responses: self.rrsig_responses,
            dnssec_records: self.dnssec_records,
            bytes_sent: self.bytes_sent,
            bytes_received: self.bytes_received,
            response_codes: self.response_codes@,
            latencies: self.histogram@,
        }
    }

    /// Whether the response codes are in order and the counters are sound.
    pub closed spec fn wf(self) -> bool {
        self.response_codes.wf() && sound(self@)
    }

    fn new() -> (created: Result<Bucket, hdrhistogram::CreationError>)
        ensures
            created is Ok,
            created->Ok_0.wf(),
            created->Ok_0@ == empty_bucket(),
    {
        let histogram = match LatencyHistogram::new() {
            Ok(histogram) => histogram,
            Err(error) => {
                return Err(error);
            },
        };
        Ok(
            Bucket {
                attempts: 0,
                responses: 0,
                successes: 0,
                timeouts: 0,
                errors: 0,
                truncated: 0,
                authenticated_data: 0,
                rrsig_responses: 0,
                dnssec_records: 0,
                bytes_sent: 0,
                bytes_received: 0,
                response_codes: LabelMap::new(),
                histogram,
            },
        )
    }

    fn record_response(
        &mut self,
        latency_us: u64,
        bytes_sent: u64,
        bytes_received: u64,
        response_code: &str,
        truncated: bool,
        authenticated_data: bool,
        dnssec_records: u64,
        rrsig_response: bool,
    )
        requires
            old(self).wf(),
        ensures
            final(self).wf(),
            final(self)@ == replied(
                old(self)@,
                Reply {
                    latency_us,
                    bytes_sent,
                    bytes_received,
                    response_code: response_code@,
                    truncated,
                    authenticated_data,
                    dnssec_records,
                    rrsig_response,
                },
            ),
    {
        let ghost reply = Reply {
            latency_us,
            bytes_sent,
            bytes_received,
            response_code: response_code@,
            truncated,
            authenticated_data,
            dnssec_records,
            rrsig_response,
        };
        proof {
            law_reply_keeps_sound(self@, reply);
        }
        self.attempts = self.attempts.saturating_add(1);
        self.responses = self.responses.saturating_add(1);
        if text::str_same(response_code, "NoError") {
            self.successes = self.successes.saturating_add(1);
        }
        if truncated {
            self.truncated = self.truncated.saturating_add(1);
        }
        if authenticated_data {
            self.authenticated_data = self.authenticated_data.saturating_add(1);
        }
        if rrsig_response {
            self.rrsig_responses = self.rrsig_responses.saturating_add(1);
        }
        self.dnssec_records = self.dnssec_records.saturating_add(dnssec_records);
        self.bytes_sent = self.bytes_sent.saturating_add(bytes_sent);
        self.bytes_received = self.bytes_received.saturating_add(bytes_received);
        count_label(&mut self.response_codes, response_code, 1);
        let latency: u64 = if latency_us < 1 {
            1
        } else if latency_us > MAX_LATENCY_US {
            MAX_LATENCY_US
        } else {
            latency_us
        };
        let _ = self.histogram.record(latency);
    }

    fn record_timeout(&mut self, bytes_sent: u64)
        requires
            old(self).wf(),
        ensures
            final(self).wf(),
            final(self)@ == timed_out(old(self)@, bytes_sent),
    {
        proof {
            law_failure_keeps_sound(self@, bytes_sent);
        }
        self.attempts = self.attempts.saturating_add(1);
        self.timeouts = self.timeouts.saturating_add(1);
        self.bytes_sent = self.bytes_sent.saturating_add(bytes_sent);
    }

    fn record_error(&mut self, bytes_sent: u64)
        requires
            old(self).wf(),
        ensures
            final(self).wf(),
            final(self)@ == failed(old(self)@, bytes_sent),
    {
        proof {
            law_failure_keeps_sound(self@, bytes_sent);
        }
        self.attempts = self.attempts.saturating_add(1);
        self.errors = self.errors.saturating_add(1);
        self.bytes_sent = self.bytes_sent.saturating_add(bytes_sent);
    }

    fn merge(&mut self, other: &Bucket) -> (merged: Result<(), hdrhistogram::AdditionError>)
        requires
            old(self).wf(),
            other.wf(),
        ensures
            merged is Ok,
            final(self).wf(),
            final(self)@ == merged_bucket(old(self)@, other@),
    {
        proof {
            law_merge_keeps_sound(self@, other@);
        }
        self.attempts = self.attempts.saturating_add(other.attempts);
        self.responses = self.responses.saturating_add(other.responses);
        self.successes = self.successes.saturating_add(other.successes);
        self.timeouts = self.timeouts.saturating_add(other.timeouts);
        self.errors = self.errors.saturating_add(other.errors);
        self.truncated = self.truncated.saturating_add(other.truncated);
        self.authenticated_data = self.authenticated_data.saturating_add(other.authenticated_data);
        self.rrsig_responses = self.rrsig_responses.saturating_add(other.rrsig_responses);
        self.dnssec_records = self.dnssec_records.saturating_add(other.dnssec_records);
        self.bytes_sent = self.bytes_sent.saturating_add(other.bytes_sent);
        self.bytes_received = self.bytes_received.saturating_add(other.bytes_received);
        add_counts(&mut self.response_codes, &other.response_codes);
        self.histogram.add(&other.histogram)
    }
}

/// The summary of no latencies.
pub open spec fn no_latency() -> LatencySummary {
    LatencySummary {
        min_us: None,
        mean_us: None,
        p50_us: None,
        p95_us: None,
        p99_us: None,
        max_us: None,
    }
}

/// Whether a summary is that of the given latencies.
pub open spec fn summarizes(latencies: Map<u64, u64>, summary: LatencySummary) -> bool {
    if latencies == tally::blank::<u64>() {
        summary == no_latency()
    } else {
        &&& summary.min_us is Some
        &&& histogram::is_lowest_key(latencies, summary.min_us->0)
        &&& summary.mean_us == Some(Double { bits: histogram::mean_bits(latencies) })
        &&& summary.p50_us == Some(histogram::percentile(latencies, 50))
        &&& summary.p95_us == Some(histogram::percentile(latencies, 95))
        &&& summary.p99_us == Some(histogram::percentile(latencies, 99))
        &&& summary.max_us is Some
        &&& histogram::is_highest_value(latencies, summary.max_us->0)
        &&& histogram::is_group_value(latencies, summary.p50_us->0)
        &&& histogram::is_group_value(latencies, summary.p95_us->0)
        &&& histogram::is_group_value(latencies, summary.p99_us->0)
        &&& tally::total(latencies) <= 0x100_0000_0000 ==> has_percentiles(latencies, summary)
    }
}

/// Whether the percentiles of a summary are those of the given latencies.
pub open spec fn has_percentiles(latencies: Map<u64, u64>, summary: LatencySummary) -> bool {
    &&& histogram::is_percentile(latencies, 50, summary.p50_us->0)
    &&& histogram::is_percentile(latencies, 95, summary.p95_us->0)
    &&& histogram::is_percentile(latencies, 99, summary.p99_us->0)
}

/// Whether the latencies of a summary ascend from the lowest to the highest.
pub open spec fn ascends(summary: LatencySummary) -> bool {
    summary.min_us is Some ==> {
        &&& summary.min_us->0 <= summary.p50_us->0
        &&& summary.p50_us->0 <= summary.p95_us->0
        &&& summary.p95_us->0 <= summary.p99_us->0
        &&& summary.p99_us->0 <= summary.max_us->0
    }
}

/// The summary of no latencies.
fn empty_latency() -> (summary: LatencySummary)
    ensures
        summary == no_latency(),
{
    LatencySummary {
        min_us: None,
        mean_us: None,
        p50_us: None,
        p95_us: None,
        p99_us: None,
        max_us: None,
    }
}

impl Bucket {
    fn latency_summary(&self) -> (summary: LatencySummary)
        requires
            self.wf(),
            self@.responses < u64::MAX,
        ensures
            summarizes(self@.latencies, summary),
            ascends(summary),
            summary == no_latency() <==> self@.responses == 0,
    {
        proof {
            law_latencies_are_those_of_responses(self@);
        }
        if self.histogram.is_empty() {
            return empty_latency();
        }
        let min_us = self.histogram.min();
        let mean_us = self.histogram.mean();
        let p50_us = self.histogram.value_at_percentile(50);
        let p95_us = self.histogram.value_at_percentile(95);
        let p99_us = self.histogram.value_at_percentile(99);
        let max_us = self.histogram.max();
        proof {
            histogram::lemma_group_value_between(self.histogram@, min_us, p50_us, max_us);
            histogram::lemma_group_value_between(self.histogram@, min_us, p99_us, max_us);
        }
        LatencySummary {
            min_us: Some(min_us),
            mean_us: Some(mean_us),
            p50_us: Some(p50_us),
            p95_us: Some(p95_us),
            p99_us: Some(p99_us),
            max_us: Some(max_us),
        }
    }
}

/// Counters and latencies of a target: of all queries, and of those of each
/// record type.
pub struct Aggregate {
    total: Bucket,
    by_type: LabelMap<Bucket>,
}

/// What an `Aggregate` holds.
pub ghost struct AggregateModel {
    pub total: BucketModel,
    pub by_type: Map<Seq<char>, BucketModel>,
}

/// What the buckets of a map hold.
pub open spec fn bucket_models(buckets: Map<Seq<char>, Bucket>) -> Map<Seq<char>, BucketModel> {
    Map::new(
        |label: Seq<char>| buckets.contains_key(label),
        |label: Seq<char>| buckets[label]@,
    )
}

/// An aggregate without samples, for record types with the given labels.
pub open spec fn empty_aggregate(labels: Seq<Seq<char>>) -> AggregateModel {
    AggregateModel {
        total: empty_bucket(),
        by_type: Map::new(
            |label: Seq<char>| labels.contains(label),
            |label: Seq<char>| empty_bucket(),
        ),
    }
}

/// The buckets of record types after one of them changed, where it is there.
pub open spec fn with_type(
    by_type: Map<Seq<char>, BucketModel>,
    label: Seq<char>,
    change: spec_fn(BucketModel) -> BucketModel,
) -> Map<Seq<char>, BucketModel> {
    if by_type.contains_key(label) {
        by_type.insert(label, change(by_type[label]))
    } else {
        by_type
    }
}

/// An aggregate after a change of the bucket of all queries, and of that of a
/// record type.
pub open spec fn changed(
    aggregate: AggregateModel,
    label: Seq<char>,
    change: spec_fn(BucketModel) -> BucketModel,
) -> AggregateModel {
    AggregateModel {
        total: change(aggregate.total),
        by_type: with_type(aggregate.by_type, label, change),
    }
}

/// An aggregate after one more response to a query for a record type.
pub open spec fn with_reply(
    aggregate: AggregateModel,
    label: Seq<char>,
    reply: Reply,
) -> AggregateModel {
    changed(aggregate, label, |bucket: BucketModel| replied(bucket, reply))
}

/// An aggregate after one more query for a record type that no response came to
/// in time.
pub open spec fn with_timeout(
    aggregate: AggregateModel,
    label: Seq<char>,
    bytes_sent: u64,
) -> AggregateModel {
    changed(aggregate, label, |bucket: BucketModel| timed_out(bucket, bytes_sent))
}

/// An aggregate after one more query for a record type that failed.
pub open spec fn with_error(
    aggregate: AggregateModel,
    label: Seq<char>,
    bytes_sent: u64,
) -> AggregateModel {
    changed(aggregate, label, |bucket: BucketModel| failed(bucket, bytes_sent))
}

/// The aggregate that holds the samples of both, for the record types of the
/// first.
pub open spec fn merged_aggregate(left: AggregateModel, right: AggregateModel) -> AggregateModel {
    AggregateModel {
        total: merged_bucket(left.total, right.total),
        by_type: Map::new(
            |label: Seq<char>| left.by_type.contains_key(label),
            |label: Seq<char>|
                if right.by_type.contains_key(label) {
                    merged_bucket(left.by_type[label], right.by_type[label])
                } else {
                    left.by_type[label]
                },
        ),
    }
}

/// What holds of the counters of every aggregate: those of each bucket are
/// sound, and no record type has more responses than there are.
pub open spec fn sound_aggregate(aggregate: AggregateModel) -> bool {
    &&& sound(aggregate.total)
    &&& forall|label: Seq<char>| #[trigger]
        aggregate.by_type.contains_key(label) ==> sound(aggregate.by_type[label])
            && aggregate.by_type[label].responses <= aggregate.total.responses
}

impl Aggregate {
    /// What the aggregate holds.
    pub closed spec fn view(self) -> AggregateModel {
        AggregateModel { total: self.total@, by_type: bucket_models(self.by_type@) }
    }

    /// The labels of the record types, in order.
    pub closed spec fn type_labels(self) -> Seq<Seq<char>> {
        self.by_type.label_texts()
    }

    /// Whether the buckets are in order and the counters are sound.
    pub closed spec fn wf(self) -> bool {
        &&& self.total.wf()
        &&& self.by_type.wf()
        &&& forall|i: int| 0 <= i < self.by_type.values.len() ==> (#[trigger] self.by_type.values[
        i]).wf()
        &&& sound_aggregate(self@)
    }

    /// An aggregate without samples for the given record types.
    pub fn new(record_types: &[RecordType]) -> (created: Result<
        Aggregate,
        hdrhistogram::CreationError,
    >)
        ensures
            created is Ok,
            created->Ok_0.wf(),
            created->Ok_0@ == empty_aggregate(record_type::labels(record_types@)),
    {
        let ghost labels = record_type::labels(record_types@);
        let mut by_type: LabelMap<Bucket> = LabelMap::new();
        for i in 0..record_types.len()
            invariant
                labels == record_type::labels(record_types@),
                by_type.wf(),
                forall|j: int|
                    0 <= j < by_type.values.len() ==> (#[trigger] by_type.values[j]).wf(),
                bucket_models(by_type@) == empty_aggregate(labels.take(i as int)).by_type,
        {
            let label = record_type::record_type_label(record_types[i]);
            let ghost name = label@;
            let ghost before = by_type@;
            assert(labels[i as int] == name);
            assert forall|other: Seq<char>| labels.take(i + 1).contains(other) == (labels.take(
                i as int,
            ).contains(other) || other == name) by {
                lemma_take_contains(labels, i as int, other);
            }
            let (place, found) = by_type.find(&label);
            if !found {
                let bucket = match Bucket::new() {
                    Ok(bucket) => bucket,
                    Err(error) => {
                        return Err(error);
                    },
                };
                by_type.add(place, label, bucket);
            } else {
                assert(bucket_models(before).contains_key(name));
            }
            let ghost had = bucket_models(before);
            let ghost has = bucket_models(by_type@);
            let ghost empty = empty_aggregate(labels.take(i + 1)).by_type;
            assert forall|other: Seq<char>| #[trigger] has.dom().contains(
                other,
            ) == empty.dom().contains(other) by {
                assert(had.contains_key(other) == labels.take(i as int).contains(other));
            }
            assert forall|other: Seq<char>| has.dom().contains(other) implies #[trigger] has[other]
                == empty[other] by {
                assert(had.contains_key(other) == labels.take(i as int).contains(other));
                if had.contains_key(other) {
                    assert(had[other] == empty_bucket());
                }
            }
            assert(has =~= empty);
        }
        assert(labels.take(record_types.len() as int) =~= labels);
        let total = match Bucket::new() {
            Ok(bucket) => bucket,
            Err(error) => {
                return Err(error);
            },
        };
        let aggregate = Aggregate { total, by_type };
        proof {
            law_empty_is_sound();
        }
        Ok(aggregate)
    }
}

proof fn lemma_take_contains(labels: Seq<Seq<char>>, i: int, label: Seq<char>)
    requires
        0 <= i < labels.len(),
    ensures
        labels.take(i + 1).contains(label) == (labels.take(i).contains(label) || label
            == labels[i]),
{
    let fewer = labels.take(i);
    let more = labels.take(i + 1);
    if more.contains(label) {
        let j = more.index_of(label);
        if j < i {
            assert(fewer[j] == label);
        }
    }
    if fewer.contains(label) {
        assert(more[fewer.index_of(label)] == label);
    }
    assert(more[i] == labels[i]);
}

/// Whether a change of a bucket keeps its counters sound, takes away no
/// response, and leaves no bucket with more responses than another that had as
/// many or more before.
spec fn is_recording(change: spec_fn(BucketModel) -> BucketModel) -> bool {
    &&& forall|bucket: BucketModel| sound(bucket) ==> sound(#[trigger] change(bucket))
    &&& forall|bucket: BucketModel| bucket.responses <= (#[trigger] change(bucket)).responses
    &&& forall|fewer: BucketModel, more: BucketModel|
        fewer.responses <= more.responses ==> (#[trigger] change(fewer)).responses <= (
        #[trigger] change(more)).responses
}

proof fn lemma_recordings(reply: Reply, bytes_sent: u64)
    ensures
        is_recording(|bucket: BucketModel| replied(bucket, reply)),
        is_recording(|bucket: BucketModel| timed_out(bucket, bytes_sent)),
        is_recording(|bucket: BucketModel| failed(bucket, bytes_sent)),
{
    assert forall|bucket: BucketModel| sound(bucket) implies sound(
        #[trigger] replied(bucket, reply),
    ) by {
        law_reply_keeps_sound(bucket, reply);
    }
    assert forall|bucket: BucketModel| sound(bucket) implies sound(
        #[trigger] timed_out(bucket, bytes_sent),
    ) && sound(failed(bucket, bytes_sent)) by {
        law_failure_keeps_sound(bucket, bytes_sent);
    }
    assert forall|bucket: BucketModel| sound(bucket) implies sound(
        #[trigger] failed(bucket, bytes_sent),
    ) by {
        law_failure_keeps_sound(bucket, bytes_sent);
    }
}

/// Recording a sample keeps the counters of an aggregate sound.
proof fn lemma_changed_is_sound(
    aggregate: AggregateModel,
    label: Seq<char>,
    change: spec_fn(BucketModel) -> BucketModel,
)
    requires
        sound_aggregate(aggregate),
        is_recording(change),
    ensures
        sound_aggregate(changed(aggregate, label, change)),
{
    let after = changed(aggregate, label, change);
    assert forall|other: Seq<char>| #[trigger] after.by_type.contains_key(other) implies sound(
        after.by_type[other],
    ) && after.by_type[other].responses <= after.total.responses by {
        assert(aggregate.by_type.contains_key(other));
    }
}

proof fn lemma_changed_bucket(
    before: LabelMap<Bucket>,
    after: LabelMap<Bucket>,
    place: int,
    label: Seq<char>,
    change: spec_fn(BucketModel) -> BucketModel,
)
    requires
        before.wf(),
        0 <= place < before.labels.len(),
        before.label_texts()[place] == label,
        before@.contains_key(label),
        before@[label] == before.values[place],
        after.label_texts() == before.label_texts(),
        after.values@ == before.values@.update(place, after.values[place]),
        after.values[place]@ == change(before.values[place]@),
    ensures
        after.wf(),
        bucket_models(after@) == with_type(bucket_models(before@), label, change),
{
    LabelMap::lemma_set(before, after, place, after.values[place]);
    assert(bucket_models(after@) =~= with_type(bucket_models(before@), label, change));
}

impl Aggregate {
    /// Records a response to a query for a record type.
    pub fn record_response(
        &mut self,
        record_type: RecordType,
        latency_us: u64,
        bytes_sent: u64,
        bytes_received: u64,
        response_code: &str,
        truncated: bool,
        authenticated_data: bool,
        dnssec_records: u64,
        rrsig_response: bool,
    )
        requires
            old(self).wf(),
        ensures
            final(self).wf(),
            final(self).type_labels() == old(self).type_labels(),
            final(self)@ == with_reply(
                old(self)@,
                record_type::label(record_type.code),
                Reply {
                    latency_us,
                    bytes_sent,
                    bytes_received,
                    response_code: response_code@,
                    truncated,
                    authenticated_data,
                    dnssec_records,
                    rrsig_response,
                },
            ),
    {
        let ghost reply = Reply {
            latency_us,
            bytes_sent,
            bytes_received,
            response_code: response_code@,
            truncated,
            authenticated_data,
            dnssec_records,
            rrsig_response,
        };
        let ghost change = |bucket: BucketModel| replied(bucket, reply);
        let label = record_type::record_type_label(record_type);
        proof {
            lemma_recordings(reply, bytes_sent);
            lemma_changed_is_sound(self@, label@, change);
        }
        self.total.record_response(
            latency_us,
            bytes_sent,
            bytes_received,
            response_code,
            truncated,
            authenticated_data,
            dnssec_records,
            rrsig_response,
        );
        let (place, found) = self.by_type.find(&label);
        if found {
            let ghost before = self.by_type;
            self.by_type.values[place].record_response(
                latency_us,
                bytes_sent,
                bytes_received,
                response_code,
                truncated,
                authenticated_data,
                dnssec_records,
                rrsig_response,
            );
            proof {
                lemma_changed_bucket(before, self.by_type, place as int, label@, change);
            }
        }
    }

    /// Records that no response came in time to a query for a record type.
    pub fn record_timeout(&mut self, record_type: RecordType, bytes_sent: u64)
        requires
            old(self).wf(),
        ensures
            final(self).wf(),
            final(self).type_labels() == old(self).type_labels(),
            final(self)@ == with_timeout(
                old(self)@,
                record_type::label(record_type.code),
                bytes_sent,
            ),
    {
        let ghost change = |bucket: BucketModel| timed_out(bucket, bytes_sent);
        let label = record_type::record_type_label(record_type);
        proof {
            lemma_recordings(arbitrary(), bytes_sent);
            lemma_changed_is_sound(self@, label@, change);
        }
        self.total.record_timeout(bytes_sent);
        let (place, found) = self.by_type.find(&label);
        if found {
            let ghost before = self.by_type;
            self.by_type.values[place].record_timeout(bytes_sent);
            proof {
                lemma_changed_bucket(before, self.by_type, place as int, label@, change);
            }
        }
    }

    /// Records that a query for a record type failed.
    pub fn record_error(&mut self, record_type: RecordType, bytes_sent: u64)
        requires
            old(self).wf(),
        ensures
            final(self).wf(),
            final(self).type_labels() == old(self).type_labels(),
            final(self)@ == with_error(
                old(self)@,
                record_type::label(record_type.code),
                bytes_sent,
            ),
    {
        let ghost change = |bucket: BucketModel| failed(bucket, bytes_sent);
        let label = record_type::record_type_label(record_type);
        proof {
            lemma_recordings(arbitrary(), bytes_sent);
            lemma_changed_is_sound(self@, label@, change);
        }
        self.total.record_error(bytes_sent);
        let (place, found) = self.by_type.find(&label);
        if found {
            let ghost before = self.by_type;
            self.by_type.values[place].record_error(bytes_sent);
            proof {
                lemma_changed_bucket(before, self.by_type, place as int, label@, change);
            }
        }
    }
}

/// Merging keeps the counters of an aggregate sound.
pub proof fn law_merge_keeps_aggregate_sound(left: AggregateModel, right: AggregateModel)
    requires
        sound_aggregate(left),
        sound_aggregate(right),
    ensures
        sound_aggregate(merged_aggregate(left, right)),
{
    let both = merged_aggregate(left, right);
    law_merge_keeps_sound(left.total, right.total);
    assert forall|label: Seq<char>| #[trigger] both.by_type.contains_key(label) implies sound(
        both.by_type[label],
    ) && both.by_type[label].responses <= both.total.responses by {
        assert(left.by_type.contains_key(label));
        if right.by_type.contains_key(label) {
            law_merge_keeps_sound(left.by_type[label], right.by_type[label]);
        }
    }
}

/// The buckets of one map after those of another were added to them, for the
/// given labels.
spec fn partly_merged(
    left: Map<Seq<char>, BucketModel>,
    right: Map<Seq<char>, BucketModel>,
    labels: Seq<Seq<char>>,
) -> Map<Seq<char>, BucketModel> {
    Map::new(
        |label: Seq<char>| left.contains_key(label),
        |label: Seq<char>|
            if labels.contains(label) {
                merged_bucket(left[label], right[label])
            } else {
                left[label]
            },
    )
}

impl Aggregate {
    /// Adds the samples of another aggregate. Those of a record type that this
    /// aggregate does not have are added to the bucket of all queries only.
    pub fn merge(&mut self, other: &Aggregate) -> (merged: Result<(), hdrhistogram::AdditionError>)
        requires
            old(self).wf(),
            other.wf(),
        ensures
            merged is Ok,
            final(self).wf(),
            final(self).type_labels() == old(self).type_labels(),
            final(self)@ == merged_aggregate(old(self)@, other@),
    {
        let ghost left = bucket_models(self.by_type@);
        let ghost right = bucket_models(other.by_type@);
        let ghost labels = other.by_type.label_texts();
        proof {
            law_merge_keeps_aggregate_sound(self@, other@);
        }
        match self.total.merge(&other.total) {
            Ok(_) => {},
            Err(error) => {
                return Err(error);
            },
        }
        assert(bucket_models(self.by_type@) =~= partly_merged(left, right, labels.take(0)));
        for i in 0..other.by_type.labels.len()
            invariant
                other.wf(),
                self.by_type.wf(),
                self.total@ == merged_bucket(old(self).total@, other.total@),
                self.total.wf(),
                self.by_type.label_texts() == old(self).by_type.label_texts(),
                left == bucket_models(old(self).by_type@),
                right == bucket_models(other.by_type@),
                labels == other.by_type.label_texts(),
                bucket_models(self.by_type@) == partly_merged(left, right, labels.take(i as int)),
                forall|j: int|
                    0 <= j < self.by_type.values.len() ==> (#[trigger] self.by_type.values[j]).wf(),
        {
            let ghost before = self.by_type;
            let ghost label = labels[i as int];
            assert(label == other.by_type.labels[i as int]@);
            proof {
                crate::label_map::lemma_index_in_ascending(labels, i as int);
                assert(!labels.take(i as int).contains(label)) by {
                    if labels.take(i as int).contains(label) {
                        let j = labels.take(i as int).index_of(label);
                        assert(labels[j] == label);
                        text::lemma_less_irreflexive(label);
                    }
                }
                assert forall|other_label: Seq<char>| labels.take(i + 1).contains(other_label) == (
                labels.take(i as int).contains(other_label) || other_label == label) by {
                    lemma_take_contains(labels, i as int, other_label);
                }
            }
            let ghost addend = other.by_type.values[i as int]@;
            assert(right.contains_key(label) && right[label] == addend);
            let ghost change = |bucket: BucketModel| merged_bucket(bucket, addend);
            let (place, found) = self.by_type.find(&other.by_type.labels[i]);
            if found {
                assert(bucket_models(before@).contains_key(label));
                assert(bucket_models(before@)[label] == left[label]);
                match self.by_type.values[place].merge(&other.by_type.values[i]) {
                    Ok(_) => {},
                    Err(error) => {
                        return Err(error);
                    },
                }
                proof {
                    lemma_changed_bucket(before, self.by_type, place as int, label, change);
                }
            } else {
                assert(!bucket_models(before@).contains_key(label));
            }
            assert(bucket_models(self.by_type@) =~= partly_merged(left, right, labels.take(i + 1)));
        }
        assert(labels.take(other.by_type.labels.len() as int) =~= labels);
        assert(partly_merged(left, right, labels) =~= merged_aggregate(
            old(self)@,
            other@,
        ).by_type);
        Ok(())
    }
}

/// The rate over a length of time: zero over none.
pub open spec fn rate_over(elapsed: Span, rate: Double) -> Double {
    if elapsed.in_nanos() == 0 {
        Double { bits: 0 }
    } else {
        rate
    }
}

/// Whether a result is that of a record type with the given bucket.
pub open spec fn is_type_result(bucket: BucketModel, qps: Double, result: TypeResult) -> bool {
    &&& result.attempts == bucket.attempts
    &&& result.responses == bucket.responses
    &&& result.successes == bucket.successes
    &&& result.timeouts == bucket.timeouts
    &&& result.errors == bucket.errors
    &&& result.qps == qps
    &&& summarizes(bucket.latencies, result.latency)
    &&& ascends(result.latency)
    &&& result.latency == no_latency() <==> result.responses == 0
}

impl TargetResult {
    /// Whether the response codes and the record types are in order.
    pub open spec fn wf(self) -> bool {
        self.response_codes.wf() && self.by_record_type.wf()
    }

    /// Whether the result is that of a target with the given aggregate, whose
    /// record types have the given labels, after a length of time. The rates of
    /// the record types are in the order of the labels.
    pub open spec fn is_of(
        self,
        aggregate: AggregateModel,
        labels: Seq<Seq<char>>,
        elapsed: Span,
        qps: Double,
        type_qps: Seq<Double>,
    ) -> bool {
        &&& self.elapsed_ms == elapsed.in_millis()
        &&& self.attempts == aggregate.total.attempts
        &&& self.responses == aggregate.total.responses
        &&& self.successes == aggregate.total.successes
        &&& self.timeouts == aggregate.total.timeouts
        &&& self.errors == aggregate.total.errors
        &&& self.truncated == aggregate.total.truncated
        &&& self.authenticated_data == aggregate.total.authenticated_data
        &&& self.rrsig_responses == aggregate.total.rrsig_responses
        &&& self.dnssec_records == aggregate.total.dnssec_records
        &&& self.bytes_sent == aggregate.total.bytes_sent
        &&& self.bytes_received == aggregate.total.bytes_received
        &&& self.response_codes@ == aggregate.total.response_codes
        &&& summarizes(aggregate.total.latencies, self.latency)
        &&& ascends(self.latency)
        &&& self.latency == no_latency() <==> self.responses == 0
        &&& self.qps == rate_over(elapsed, qps)
        &&& self.by_record_type.label_texts() == labels
        &&& forall|i: int|
            0 <= i < labels.len() ==> is_type_result(
                aggregate.by_type[labels[i]],
                rate_over(elapsed, type_qps[i]),
                #[trigger] self.by_record_type.values[i],
            )
    }

    /// The result of a target without samples.
    pub fn empty(target: Target, qps: Double) -> (result: TargetResult)
        ensures
            result.wf(),
            result.target@ == target@,
            result.qps == qps,
            result.elapsed_ms == 0,
            result.attempts == 0,
            result.responses == 0,
            result.successes == 0,
            result.timeouts == 0,
            result.errors == 0,
            result.truncated == 0,
            result.authenticated_data == 0,
            result.rrsig_responses == 0,
            result.dnssec_records == 0,
            result.bytes_sent == 0,
            result.bytes_received == 0,
            result.response_codes@ == tally::blank::<Seq<char>>(),
            result.latency == no_latency(),
            result.by_record_type.label_texts().len() == 0,
    {
        TargetResult {
            target,
            elapsed_ms: 0,
            attempts: 0,
            responses: 0,
            successes: 0,
            timeouts: 0,
            errors: 0,
            truncated: 0,
            authenticated_data: 0,
            rrsig_responses: 0,
            dnssec_records: 0,
            bytes_sent: 0,
            bytes_received: 0,
            response_codes: LabelMap::new(),
            latency: empty_latency(),
            qps,
            by_record_type: LabelMap::new(),
        }
    }
}

impl Aggregate {
    /// The counters of every aggregate are sound, whatever was recorded in it or
    /// merged into it.
    pub proof fn law_counters_are_sound(&self)
        requires
            self.wf(),
        ensures
            sound_aggregate(self@),
    {
    }

    /// The labels of the record types ascend, and they are those of the buckets.
    pub proof fn law_type_labels(&self)
        requires
            self.wf(),
        ensures
            crate::label_map::is_ascending(self.type_labels()),
            forall|label: Seq<char>| #[trigger]
                self@.by_type.contains_key(label) <==> self.type_labels().contains(label),
    {
    }

    /// Aggregates with the same contents have the same labels.
    pub proof fn law_contents_decide_the_labels(&self, other: &Aggregate)
        requires
            self.wf(),
            other.wf(),
            self@.by_type.dom() == other@.by_type.dom(),
        ensures
            self.type_labels() == other.type_labels(),
    {
        self.law_type_labels();
        other.law_type_labels();
        assert forall|label: Seq<char>|
            self.type_labels().contains(label) == other.type_labels().contains(label) by {
            assert(self@.by_type.dom().contains(label) == other@.by_type.dom().contains(label));
            assert(self@.by_type.contains_key(label) == self.type_labels().contains(label));
            assert(other@.by_type.contains_key(label) == other.type_labels().contains(label));
        }
        crate::label_map::lemma_ascending_is_unique(self.type_labels(), other.type_labels());
    }

    /// How many responses were recorded.
    pub fn responses(&self) -> (responses: u64)
        ensures
            responses == self@.total.responses,
    {
        self.total.responses
    }

    /// How many responses were recorded of each record type, in the order of
    /// the labels.
    pub fn type_responses(&self) -> (responses: Vec<u64>)
        requires
            self.wf(),
        ensures
            responses.len() == self.type_labels().len(),
            forall|i: int|
                0 <= i < responses.len() ==> #[trigger] responses[i]
                    == self@.by_type[self.type_labels()[i]].responses,
    {
        let ghost labels = self.by_type.label_texts();
        let mut responses: Vec<u64> = Vec::new();
        for i in 0..self.by_type.values.len()
            invariant
                self.wf(),
                labels == self.by_type.label_texts(),
                responses.len() == i,
                forall|j: int|
                    0 <= j < responses.len() ==> #[trigger] responses[j]
                        == self@.by_type[labels[j]].responses,
        {
            proof {
                crate::label_map::lemma_index_in_ascending(labels, i as int);
            }
            responses.push(self.by_type.values[i].responses);
        }
        responses
    }

    /// The result of the target after a length of time, with the rates of all
    /// responses and of those of each record type, in the order of the labels.
    pub fn finish(
        self,
        target: Target,
        elapsed: Span,
        qps: Double,
        type_qps: &[Double],
    ) -> (result: TargetResult)
        requires
            self.wf(),
            self@.total.responses < u64::MAX,
            type_qps.len() == self.type_labels().len(),
        ensures
            result.wf(),
            result.target@ == target@,
            result.is_of(self@, self.type_labels(), elapsed, qps, type_qps@),
    {
        let ghost aggregate = self@;
        let ghost labels = self.by_type.label_texts();
        let latency = self.total.latency_summary();
        let still = elapsed.is_zero();
        let mut values: Vec<TypeResult> = Vec::new();
        for i in 0..self.by_type.values.len()
            invariant
                self.wf(),
                self@.total.responses < u64::MAX,
                aggregate == self@,
                labels == self.by_type.label_texts(),
                type_qps.len() == labels.len(),
                still == (elapsed.in_nanos() == 0),
                values.len() == i,
                forall|j: int|
                    0 <= j < values.len() ==> is_type_result(
                        aggregate.by_type[labels[j]],
                        rate_over(elapsed, type_qps[j]),
                        #[trigger] values[j],
                    ),
        {
            let bucket = &self.by_type.values[i];
            proof {
                crate::label_map::lemma_index_in_ascending(labels, i as int);
                assert(aggregate.by_type.contains_key(labels[i as int]));
                assert(aggregate.by_type[labels[i as int]] == bucket@);
            }
            let rate = if still {
                Double { bits: 0 }
            } else {
                type_qps[i]
            };
            values.push(
                TypeResult {
                    attempts: bucket.attempts,
                    responses: bucket.responses,
                    successes: bucket.successes,
                    timeouts: bucket.timeouts,
                    errors: bucket.errors,
                    qps: rate,
                    latency: bucket.latency_summary(),
                },
            );
        }
        let total = self.total;
        let by_type = self.by_type;
        let rate = if still {
            Double { bits: 0 }
        } else {
            qps
        };
        TargetResult {
            target,
            elapsed_ms: elapsed.millis(),
            attempts: total.attempts,
            responses: total.responses,
            successes: total.successes,
            timeouts: total.timeouts,
            errors: total.errors,
            truncated: total.truncated,
            authenticated_data: total.authenticated_data,
            rrsig_responses: total.rrsig_responses,
            dnssec_records: total.dnssec_records,
            bytes_sent: total.bytes_sent,
            bytes_received: total.bytes_received,
            response_codes: total.response_codes,
            latency,
            qps: rate,
            by_record_type: LabelMap { labels: by_type.labels, values },
        }
    }
}

/// Merging two aggregates of the same record types does not depend on their
/// order.
pub proof fn law_aggregate_merge_commutes(left: AggregateModel, right: AggregateModel)
    requires
        left.by_type.dom() == right.by_type.dom(),
    ensures
        merged_aggregate(left, right) == merged_aggregate(right, left),
{
    law_merge_commutes(left.total, right.total);
    assert forall|label: Seq<char>| left.by_type.dom().contains(label) implies (
    #[trigger] merged_aggregate(left, right).by_type[label]) == merged_aggregate(
        right,
        left,
    ).by_type[label] by {
        assert(right.by_type.dom().contains(label));
        law_merge_commutes(left.by_type[label], right.by_type[label]);
    }
    assert(merged_aggregate(left, right).by_type =~= merged_aggregate(right, left).by_type);
}

/// Merging three aggregates of the same record types does not depend on how
/// they are grouped.
pub proof fn law_aggregate_merge_associates(
    a: AggregateModel,
    b: AggregateModel,
    c: AggregateModel,
)
    requires
        a.by_type.dom() == b.by_type.dom(),
        b.by_type.dom() == c.by_type.dom(),
    ensures
        merged_aggregate(merged_aggregate(a, b), c) == merged_aggregate(a, merged_aggregate(b, c)),
{
    let left = merged_aggregate(merged_aggregate(a, b), c);
    let right = merged_aggregate(a, merged_aggregate(b, c));
    law_merge_associates(a.total, b.total, c.total);
    assert forall|label: Seq<char>| a.by_type.dom().contains(label) implies (
    #[trigger] left.by_type[label]) == right.by_type[label] by {
        assert(b.by_type.dom().contains(label));
        assert(c.by_type.dom().contains(label));
        law_merge_associates(a.by_type[label], b.by_type[label], c.by_type[label]);
    }
    assert(left.by_type =~= right.by_type);
}

/// An aggregate without samples adds nothing to another of the same record
/// types.
pub proof fn law_aggregate_merge_with_empty(aggregate: AggregateModel, labels: Seq<Seq<char>>)
    requires
        aggregate.by_type.dom() == empty_aggregate(labels).by_type.dom(),
    ensures
        merged_aggregate(empty_aggregate(labels), aggregate) == aggregate,
        merged_aggregate(aggregate, empty_aggregate(labels)) == aggregate,
{
    let empty = empty_aggregate(labels);
    law_merge_with_empty(aggregate.total);
    assert forall|label: Seq<char>| aggregate.by_type.dom().contains(label) implies (
    #[trigger] merged_aggregate(empty, aggregate).by_type[label]) == aggregate.by_type[label] by {
        assert(empty.by_type.dom().contains(label));
        law_merge_with_empty(aggregate.by_type[label]);
    }
    assert forall|label: Seq<char>| aggregate.by_type.dom().contains(label) implies (
    #[trigger] merged_aggregate(aggregate, empty).by_type[label]) == aggregate.by_type[label] by {
        assert(empty.by_type.dom().contains(label));
        law_merge_with_empty(aggregate.by_type[label]);
    }
    assert(merged_aggregate(empty, aggregate).by_type =~= aggregate.by_type);
    assert(merged_aggregate(aggregate, empty).by_type =~= aggregate.by_type);
}

/// Whether it does not matter if a bucket is changed before it is merged with
/// another, or after.
pub open spec fn passes_merge(change: spec_fn(BucketModel) -> BucketModel) -> bool {
    forall|a: BucketModel, b: BucketModel|
        merged_bucket(#[trigger] change(a), b) == change(#[trigger] merged_bucket(a, b))
}

proof fn lemma_change_then_merge(
    left: AggregateModel,
    right: AggregateModel,
    label: Seq<char>,
    change: spec_fn(BucketModel) -> BucketModel,
)
    requires
        passes_merge(change),
    ensures
        merged_aggregate(changed(left, label, change), right) == changed(
            merged_aggregate(left, right),
            label,
            change,
        ),
{
    let first = merged_aggregate(changed(left, label, change), right);
    let then = changed(merged_aggregate(left, right), label, change);
    assert forall|other: Seq<char>| left.by_type.dom().contains(other) implies (
    #[trigger] first.by_type[other]) == then.by_type[other] by {
        if other == label && right.by_type.contains_key(other) {
            let both = merged_bucket(left.by_type[other], right.by_type[other]);
            assert(merged_bucket(change(left.by_type[other]), right.by_type[other]) == change(both));
        }
    }
    assert(first.by_type =~= then.by_type);
}

/// What is recorded of a query.
pub ghost enum Sample {
    Answer { reply: Reply },
    Timeout { bytes_sent: u64 },
    Error { bytes_sent: u64 },
}

/// A bucket after one more sample.
pub open spec fn sampled(bucket: BucketModel, sample: Sample) -> BucketModel {
    match sample {
        Sample::Answer { reply } => replied(bucket, reply),
        Sample::Timeout { bytes_sent } => timed_out(bucket, bytes_sent),
        Sample::Error { bytes_sent } => failed(bucket, bytes_sent),
    }
}

/// An aggregate after one more sample of a query for a record type.
pub open spec fn with_sample(
    aggregate: AggregateModel,
    label: Seq<char>,
    sample: Sample,
) -> AggregateModel {
    changed(aggregate, label, |bucket: BucketModel| sampled(bucket, sample))
}

/// Recording a response, a timeout or an error records the sample of that kind.
pub proof fn law_samples_are_what_is_recorded(
    aggregate: AggregateModel,
    label: Seq<char>,
    reply: Reply,
    bytes_sent: u64,
)
    ensures
        with_reply(aggregate, label, reply) == with_sample(
            aggregate,
            label,
            Sample::Answer { reply },
        ),
        with_timeout(aggregate, label, bytes_sent) == with_sample(
            aggregate,
            label,
            Sample::Timeout { bytes_sent },
        ),
        with_error(aggregate, label, bytes_sent) == with_sample(
            aggregate,
            label,
            Sample::Error { bytes_sent },
        ),
{
    let answer = Sample::Answer { reply };
    let timeout = Sample::Timeout { bytes_sent };
    let error = Sample::Error { bytes_sent };
    assert((|bucket: BucketModel| replied(bucket, reply)) =~= (|bucket: BucketModel|
        sampled(bucket, answer)));
    assert((|bucket: BucketModel| timed_out(bucket, bytes_sent)) =~= (|bucket: BucketModel|
        sampled(bucket, timeout)));
    assert((|bucket: BucketModel| failed(bucket, bytes_sent)) =~= (|bucket: BucketModel|
        sampled(bucket, error)));
}

/// A sample that is recorded before a merge is counted as one that is recorded
/// after it.
pub proof fn law_sample_then_merge(
    left: AggregateModel,
    right: AggregateModel,
    label: Seq<char>,
    sample: Sample,
)
    ensures
        merged_aggregate(with_sample(left, label, sample), right) == with_sample(
            merged_aggregate(left, right),
            label,
            sample,
        ),
{
    let change = |bucket: BucketModel| sampled(bucket, sample);
    assert forall|a: BucketModel, b: BucketModel|
        merged_bucket(#[trigger] change(a), b) == change(#[trigger] merged_bucket(a, b)) by {
        match sample {
            Sample::Answer { reply } => law_record_then_merge(a, b, reply, 0),
            Sample::Timeout { bytes_sent } => law_record_then_merge(a, b, arbitrary(), bytes_sent),
            Sample::Error { bytes_sent } => law_record_then_merge(a, b, arbitrary(), bytes_sent),
        }
    }
    lemma_change_then_merge(left, right, label, change);
}

/// Recording and merging neither add a record type nor take one away, so what an
/// aggregate holds does not grow with the number of samples.
pub proof fn law_record_types_stay(
    aggregate: AggregateModel,
    other: AggregateModel,
    label: Seq<char>,
    sample: Sample,
)
    ensures
        with_sample(aggregate, label, sample).by_type.dom() == aggregate.by_type.dom(),
        merged_aggregate(aggregate, other).by_type.dom() == aggregate.by_type.dom(),
{
    assert(with_sample(aggregate, label, sample).by_type.dom() =~= aggregate.by_type.dom());
    assert(merged_aggregate(aggregate, other).by_type.dom() =~= aggregate.by_type.dom());
}

} // verus!
