//! What the figures of a target count: how each query that came to its end
//! changes them, and what they are after any number of queries.

use vstd::prelude::*;

use crate::dns;
use crate::double::Double;
use crate::engine;
use crate::engine::Placed;
use crate::histogram;
use crate::record_type::RecordType;
use crate::span::Span;
use crate::stats;
use crate::stats::{
    AggregateModel, BucketModel, LatencySummary, Reply, Sample, TargetResult, TypeResult,
};
use crate::tally;
use crate::worker;
use crate::worker::Outcome;

verus! {

/// Whether a counter grew by an amount, or reached the largest count.
pub open spec fn grew(before: u64, after: u64, by: int) -> bool {
    if before + by <= 0xffff_ffff_ffff_ffff {
        after == before + by
    } else {
        after == 0xffff_ffff_ffff_ffff
    }
}

/// Whether a tally counts one more of a key, and as many as before of all others.
pub open spec fn counts_one_more<K>(before: Map<K, u64>, after: Map<K, u64>, key: K) -> bool {
    &&& after.contains_key(key)
    &&& before.contains_key(key) ==> grew(before[key], after[key], 1)
    &&& !before.contains_key(key) ==> after[key] == 1
    &&& forall|other: K|
        other != key ==> after.contains_key(other) == #[trigger] before.contains_key(other)
    &&& forall|other: K|
        other != key && #[trigger] before.contains_key(other) ==> after[other] == before[other]
}

/// Whether a bucket counts one more answer than before: one attempt and one
/// response, a success where there was no error, the flags that were set, the
/// records and bytes that came, the response code, and the latency in
/// microseconds, in its group.
pub open spec fn counts_answer(before: BucketModel, after: BucketModel, reply: Reply) -> bool {
    &&& grew(before.attempts, after.attempts, 1)
    &&& grew(before.responses, after.responses, 1)
    &&& after.timeouts == before.timeouts
    &&& after.errors == before.errors
    &&& if reply.response_code == "NoError"@ {
        grew(before.successes, after.successes, 1)
    } else {
        after.successes == before.successes
    }
    &&& if reply.truncated {
        grew(before.truncated, after.truncated, 1)
    } else {
        after.truncated == before.truncated
    }
    &&& if reply.authenticated_data {
        grew(before.authenticated_data, after.authenticated_data, 1)
    } else {
        after.authenticated_data == before.authenticated_data
    }
    &&& if reply.rrsig_response {
        grew(before.rrsig_responses, after.rrsig_responses, 1)
    } else {
        after.rrsig_responses == before.rrsig_responses
    }
    &&& grew(before.dnssec_records, after.dnssec_records, reply.dnssec_records as int)
    &&& grew(before.bytes_sent, after.bytes_sent, reply.bytes_sent as int)
    &&& grew(before.bytes_received, after.bytes_received, reply.bytes_received as int)
    &&& counts_one_more(before.response_codes, after.response_codes, reply.response_code)
    &&& reply.latency_us == 0 ==> counts_one_more(
        before.latencies,
        after.latencies,
        histogram::group_floor(1),
    )
    &&& 1 <= reply.latency_us <= 60_000_000 ==> counts_one_more(
        before.latencies,
        after.latencies,
        histogram::group_floor(reply.latency_us),
    )
    &&& reply.latency_us > 60_000_000 ==> counts_one_more(
        before.latencies,
        after.latencies,
        histogram::group_floor(60_000_000),
    )
}

/// Whether nothing but attempts, timeouts, errors and the bytes that were sent
/// differs.
pub open spec fn same_responses(before: BucketModel, after: BucketModel) -> bool {
    &&& after.responses == before.responses
    &&& after.successes == before.successes
    &&& after.truncated == before.truncated
    &&& after.authenticated_data == before.authenticated_data
    &&& after.rrsig_responses == before.rrsig_responses
    &&& after.dnssec_records == before.dnssec_records
    &&& after.bytes_received == before.bytes_received
    &&& after.response_codes == before.response_codes
    &&& after.latencies == before.latencies
}

/// Whether a bucket counts one more query that no response came to in time.
pub open spec fn counts_timeout(before: BucketModel, after: BucketModel, sent: u64) -> bool {
    &&& grew(before.attempts, after.attempts, 1)
    &&& grew(before.timeouts, after.timeouts, 1)
    &&& after.errors == before.errors
    &&& grew(before.bytes_sent, after.bytes_sent, sent as int)
    &&& same_responses(before, after)
}

/// Whether a bucket counts one more query that failed.
pub open spec fn counts_error(before: BucketModel, after: BucketModel, sent: u64) -> bool {
    &&& grew(before.attempts, after.attempts, 1)
    &&& grew(before.errors, after.errors, 1)
    &&& after.timeouts == before.timeouts
    &&& grew(before.bytes_sent, after.bytes_sent, sent as int)
    &&& same_responses(before, after)
}

/// Whether something is counted in total and for one record type, where the
/// aggregate has it, and nothing for the others.
pub open spec fn counted_for(
    before: AggregateModel,
    after: AggregateModel,
    label: Seq<char>,
    counts: spec_fn(BucketModel, BucketModel) -> bool,
) -> bool {
    &&& counts(before.total, after.total)
    &&& before.by_type.contains_key(label) ==> counts(before.by_type[label], after.by_type[label])
    &&& forall|other: Seq<char>|
        after.by_type.contains_key(other) == #[trigger] before.by_type.contains_key(other)
    &&& forall|other: Seq<char>|
        other != label && #[trigger] before.by_type.contains_key(other) ==> after.by_type[other]
            == before.by_type[other]
}

proof fn lemma_one_more<K>(tally: Map<K, u64>, key: K)
    ensures
        counts_one_more(tally, tally::plus(tally, key, 1), key),
{
}

proof fn lemma_answer_is_counted(bucket: BucketModel, reply: Reply)
    ensures
        counts_answer(bucket, stats::replied(bucket, reply), reply),
{
    lemma_one_more(bucket.response_codes, reply.response_code);
    lemma_one_more(bucket.latencies, histogram::group_floor(stats::clamped(reply.latency_us)));
}

/// Recording a response counts one more answer, in total and for its record type.
pub proof fn law_response_is_counted(aggregate: AggregateModel, label: Seq<char>, reply: Reply)
    ensures
        counted_for(
            aggregate,
            stats::with_reply(aggregate, label, reply),
            label,
            |before: BucketModel, after: BucketModel| counts_answer(before, after, reply),
        ),
{
    lemma_answer_is_counted(aggregate.total, reply);
    lemma_answer_is_counted(aggregate.by_type[label], reply);
}

/// Recording a timeout counts one more timeout, and an error one more error, in
/// total and for its record type.
pub proof fn law_failures_are_counted(aggregate: AggregateModel, label: Seq<char>, sent: u64)
    ensures
        counted_for(
            aggregate,
            stats::with_timeout(aggregate, label, sent),
            label,
            |before: BucketModel, after: BucketModel| counts_timeout(before, after, sent),
        ),
        counted_for(
            aggregate,
            stats::with_error(aggregate, label, sent),
            label,
            |before: BucketModel, after: BucketModel| counts_error(before, after, sent),
        ),
{
}

/// An answer that is accepted is counted with the latency that it took, the bytes
/// that were sent and came back, and what was observed of it. One that is refused
/// is counted as an error.
pub proof fn law_observed_answer_is_counted(
    aggregate: AggregateModel,
    label: Seq<char>,
    sent: u64,
    latency_us: u64,
    received: u64,
    observed: Result<dns::ObservationModel, dns::ResponseFault>,
)
    ensures
        ({
            let after = worker::with_observed(
                aggregate,
                label,
                sent,
                latency_us,
                received,
                observed,
            );
            match observed {
                Ok(seen) => counted_for(
                    aggregate,
                    after,
                    label,
                    |old: BucketModel, new: BucketModel|
                        counts_answer(
                            old,
                            new,
                            Reply {
                                latency_us: latency_us,
                                bytes_sent: sent,
                                bytes_received: received,
                                response_code: seen.response_code,
                                truncated: seen.truncated,
                                authenticated_data: seen.authenticated_data,
                                dnssec_records: seen.dnssec_records as u64,
                                rrsig_response: seen.rrsig_response,
                            },
                        ),
                ),
                Err(_) => counted_for(
                    aggregate,
                    after,
                    label,
                    |old: BucketModel, new: BucketModel| counts_error(old, new, sent),
                ),
            }
        }),
{
    if let Ok(seen) = observed {
        let reply = Reply {
            latency_us,
            bytes_sent: sent,
            bytes_received: received,
            response_code: seen.response_code,
            truncated: seen.truncated,
            authenticated_data: seen.authenticated_data,
            dnssec_records: seen.dnssec_records as u64,
            rrsig_response: seen.rrsig_response,
        };
        law_response_is_counted(aggregate, label, reply);
    } else {
        law_failures_are_counted(aggregate, label, sent);
    }
}

/// What became of a query is counted once: as an error where it could not be
/// written, with no bytes sent; as a timeout; as an error where the network
/// failed; and else as an answer of the bytes that came back, or as an error
/// where they are no response to the query.
pub proof fn law_outcome_is_counted(
    aggregate: AggregateModel,
    label: Seq<char>,
    id: u16,
    outcome: Outcome,
)
    ensures
        ({
            let after = worker::with_outcome(aggregate, label, id, outcome);
            match outcome {
                Outcome::Unbuilt => counted_for(
                    aggregate,
                    after,
                    label,
                    |old: BucketModel, new: BucketModel| counts_error(old, new, 0),
                ),
                Outcome::TimedOut { sent } => counted_for(
                    aggregate,
                    after,
                    label,
                    |old: BucketModel, new: BucketModel| counts_timeout(old, new, sent),
                ),
                Outcome::Failed { sent } => counted_for(
                    aggregate,
                    after,
                    label,
                    |old: BucketModel, new: BucketModel| counts_error(old, new, sent),
                ),
                Outcome::Answered { sent, latency_us, wire } => match dns::wire_observation(
                    id,
                    wire@,
                ) {
                    Ok(seen) => counted_for(
                        aggregate,
                        after,
                        label,
                        |old: BucketModel, new: BucketModel|
                            counts_answer(
                                old,
                                new,
                                Reply {
                                    latency_us: latency_us,
                                    bytes_sent: sent,
                                    bytes_received: wire@.len() as u64,
                                    response_code: seen.response_code,
                                    truncated: seen.truncated,
                                    authenticated_data: seen.authenticated_data,
                                    dnssec_records: seen.dnssec_records as u64,
                                    rrsig_response: seen.rrsig_response,
                                },
                            ),
                    ),
                    Err(_) => counted_for(
                        aggregate,
                        after,
                        label,
                        |old: BucketModel, new: BucketModel| counts_error(old, new, sent),
                    ),
                },
            }
        }),
{
    match outcome {
        Outcome::Unbuilt => law_failures_are_counted(aggregate, label, 0),
        Outcome::TimedOut { sent } => law_failures_are_counted(aggregate, label, sent),
        Outcome::Failed { sent } => law_failures_are_counted(aggregate, label, sent),
        Outcome::Answered { sent, latency_us, wire } => law_observed_answer_is_counted(
            aggregate,
            label,
            sent,
            latency_us,
            wire.len() as u64,
            dns::wire_observation(id, wire@),
        ),
    }
}

/// In an aggregate that had no samples, an accepted answer that took between a
/// microsecond and a minute leaves exactly the group of its latency, counted
/// once, in total and for its record type.
pub proof fn law_first_latency_is_the_one_it_took(
    labels: Seq<Seq<char>>,
    label: Seq<char>,
    sent: u64,
    latency_us: u64,
    received: u64,
    seen: dns::ObservationModel,
)
    requires
        1 <= latency_us <= 60_000_000,
        labels.contains(label),
    ensures
        ({
            let after = worker::with_observed(
                stats::empty_aggregate(labels),
                label,
                sent,
                latency_us,
                received,
                Ok(seen),
            );
            &&& after.total.latencies == map![histogram::group_floor(latency_us) => 1u64]
            &&& after.by_type.contains_key(label)
            &&& after.by_type[label].latencies == map![
                histogram::group_floor(latency_us) => 1u64
            ]
        }),
{
    let after = worker::with_observed(
        stats::empty_aggregate(labels),
        label,
        sent,
        latency_us,
        received,
        Ok(seen),
    );
    let one = map![histogram::group_floor(latency_us) => 1u64];
    assert(after.total.latencies =~= one);
    assert(after.by_type[label].latencies =~= one);
}

/// The summary of a single latency shows the group that holds it: its lowest
/// value is at most the latency, all others at least.
pub proof fn law_summary_of_one_latency(latency_us: u64, summary: LatencySummary)
    requires
        1 <= latency_us <= 60_000_000,
        stats::summarizes(map![histogram::group_floor(latency_us) => 1u64], summary),
    ensures
        summary.min_us == Some(histogram::group_floor(latency_us)),
        summary.min_us->0 <= latency_us,
        summary.p50_us == summary.max_us,
        summary.p95_us == summary.max_us,
        summary.p99_us == summary.max_us,
        summary.max_us is Some,
        summary.max_us->0 >= latency_us,
        latency_us < 2048 ==> summary.min_us->0 == latency_us && summary.max_us->0 == latency_us,
{
    let key = histogram::group_floor(latency_us);
    let one = map![key => 1u64];
    assert(one.contains_key(key));
    assert(one != tally::blank::<u64>()) by {
        assert(!tally::blank::<u64>().contains_key(key));
    }
    histogram::law_value_is_in_its_group(latency_us);
    histogram::lemma_floor_is_in_the_group(latency_us);
    if latency_us < 2048 {
        histogram::law_small_values_are_exact(latency_us);
    }
}

/// The sum of an amount over samples.
pub open spec fn sum_over(samples: Seq<Placed>, amount: spec_fn(Sample) -> nat) -> nat
    decreases samples.len(),
{
    if samples.len() == 0 {
        0
    } else {
        sum_over(samples.drop_last(), amount) + amount(samples.last().sample)
    }
}

/// The samples of queries for a record type.
pub open spec fn of_type(samples: Seq<Placed>, label: Seq<char>) -> Seq<Placed> {
    samples.filter(|placed: Placed| placed.label == label)
}

/// A sum, held at the largest count.
pub open spec fn up_to_largest(n: nat) -> u64 {
    if n < 0x1_0000_0000_0000_0000 {
        n as u64
    } else {
        0xffff_ffff_ffff_ffff
    }
}

/// One where a sample is an answer of which something holds.
pub open spec fn if_answer(sample: Sample, holds: spec_fn(Reply) -> bool) -> nat {
    match sample {
        Sample::Answer { reply } => if holds(reply) {
            1
        } else {
            0
        },
        _ => 0,
    }
}

/// An amount of a sample that is an answer.
pub open spec fn of_answer(sample: Sample, amount: spec_fn(Reply) -> u64) -> nat {
    match sample {
        Sample::Answer { reply } => amount(reply) as nat,
        _ => 0,
    }
}

/// The bytes that were sent.
pub open spec fn bytes_sent(sample: Sample) -> nat {
    match sample {
        Sample::Answer { reply } => reply.bytes_sent as nat,
        Sample::Timeout { bytes_sent } => bytes_sent as nat,
        Sample::Error { bytes_sent } => bytes_sent as nat,
    }
}

/// Whether a bucket holds the counts of samples: an attempt for each, a response
/// for each answer, and so on.
pub open spec fn counts_samples(bucket: BucketModel, samples: Seq<Placed>) -> bool {
    &&& bucket.attempts == up_to_largest(samples.len())
    &&& bucket.responses == up_to_largest(
        sum_over(samples, |sample: Sample| if_answer(sample, |reply: Reply| true)),
    )
    &&& bucket.timeouts == up_to_largest(
        sum_over(
            samples,
            |sample: Sample|
                if sample is Timeout {
                    1
                } else {
                    0
                },
        ),
    )
    &&& bucket.errors == up_to_largest(
        sum_over(
            samples,
            |sample: Sample|
                if sample is Error {
                    1
                } else {
                    0
                },
        ),
    )
    &&& bucket.successes == up_to_largest(
        sum_over(
            samples,
            |sample: Sample|
                if_answer(sample, |reply: Reply| reply.response_code == "NoError"@),
        ),
    )
    &&& bucket.truncated == up_to_largest(
        sum_over(samples, |sample: Sample| if_answer(sample, |reply: Reply| reply.truncated)),
    )
    &&& bucket.authenticated_data == up_to_largest(
        sum_over(
            samples,
            |sample: Sample| if_answer(sample, |reply: Reply| reply.authenticated_data),
        ),
    )
    &&& bucket.rrsig_responses == up_to_largest(
        sum_over(
            samples,
            |sample: Sample| if_answer(sample, |reply: Reply| reply.rrsig_response),
        ),
    )
    &&& bucket.dnssec_records == up_to_largest(
        sum_over(
            samples,
            |sample: Sample| of_answer(sample, |reply: Reply| reply.dnssec_records),
        ),
    )
    &&& bucket.bytes_sent == up_to_largest(
        sum_over(samples, |sample: Sample| bytes_sent(sample)),
    )
    &&& bucket.bytes_received == up_to_largest(
        sum_over(
            samples,
            |sample: Sample| of_answer(sample, |reply: Reply| reply.bytes_received),
        ),
    )
}

#[verifier::rlimit(40)]
proof fn lemma_one_more_sample(bucket: BucketModel, samples: Seq<Placed>)
    requires
        samples.len() > 0,
        counts_samples(bucket, samples.drop_last()),
    ensures
        counts_samples(stats::sampled(bucket, samples.last().sample), samples),
{
}

/// After any number of samples, an aggregate counts them: in total all, and for
/// each record type those of its queries.
pub proof fn law_samples_are_counted(labels: Seq<Seq<char>>, samples: Seq<Placed>)
    ensures
        ({
            let all = engine::recorded_in_one(labels, samples);
            &&& counts_samples(all.total, samples)
            &&& forall|label: Seq<char>| #[trigger]
                all.by_type.contains_key(label) <==> labels.contains(label)
            &&& forall|label: Seq<char>|
                labels.contains(label) ==> counts_samples(
                    #[trigger] all.by_type[label],
                    of_type(samples, label),
                )
        }),
    decreases samples.len(),
{
    reveal(Seq::filter);
    let all = engine::recorded_in_one(labels, samples);
    if samples.len() > 0 {
        let rest = samples.drop_last();
        let placed = samples.last();
        let before = engine::recorded_in_one(labels, rest);
        law_samples_are_counted(labels, rest);
        lemma_one_more_sample(before.total, samples);
        assert forall|label: Seq<char>| labels.contains(label) implies counts_samples(
            #[trigger] all.by_type[label],
            of_type(samples, label),
        ) by {
            assert(before.by_type.contains_key(label));
            assert(counts_samples(before.by_type[label], of_type(rest, label)));
            if placed.label == label {
                assert(of_type(samples, label) == of_type(rest, label).push(placed));
                assert(of_type(samples, label).drop_last() =~= of_type(rest, label));
                lemma_one_more_sample(before.by_type[label], of_type(samples, label));
            } else {
                assert(of_type(samples, label) == of_type(rest, label));
            }
        }
        assert forall|label: Seq<char>| #[trigger] all.by_type.contains_key(label)
            <==> labels.contains(label) by {
            assert(before.by_type.contains_key(label) <==> labels.contains(label));
        }
    } else {
        assert forall|label: Seq<char>| labels.contains(label) implies counts_samples(
            #[trigger] all.by_type[label],
            of_type(samples, label),
        ) by {
            assert(of_type(samples, label).len() == 0);
        }
    }
}

/// The result of a target shows what was counted: each figure is that of the
/// samples, in total and of each record type, in the order of the labels.
pub proof fn law_result_counts_samples(
    result: TargetResult,
    labels: Seq<Seq<char>>,
    samples: Seq<Placed>,
    order: Seq<Seq<char>>,
    elapsed: Span,
    qps: Double,
    type_qps: Seq<Double>,
)
    requires
        result.is_of(engine::recorded_in_one(labels, samples), order, elapsed, qps, type_qps),
        forall|i: int| 0 <= i < order.len() ==> labels.contains(#[trigger] order[i]),
    ensures
        counts_samples(
            BucketModel {
                attempts: result.attempts,
                responses: result.responses,
                successes: result.successes,
                timeouts: result.timeouts,
                errors: result.errors,
                truncated: result.truncated,
                authenticated_data: result.authenticated_data,
                rrsig_responses: result.rrsig_responses,
                dnssec_records: result.dnssec_records,
                bytes_sent: result.bytes_sent,
                bytes_received: result.bytes_received,
                response_codes: result.response_codes@,
                latencies: Map::empty(),
            },
            samples,
        ),
        result.by_record_type.label_texts() == order,
        forall|i: int|
            0 <= i < order.len() ==> {
                let item = #[trigger] result.by_record_type.values[i];
                let of = of_type(samples, order[i]);
                &&& item.attempts == up_to_largest(of.len())
                &&& item.responses == up_to_largest(
                    sum_over(of, |sample: Sample| if_answer(sample, |reply: Reply| true)),
                )
                &&& item.successes == up_to_largest(
                    sum_over(
                        of,
                        |sample: Sample|
                            if_answer(sample, |reply: Reply| reply.response_code == "NoError"@),
                    ),
                )
                &&& item.timeouts == up_to_largest(
                    sum_over(
                        of,
                        |sample: Sample|
                            if sample is Timeout {
                                1
                            } else {
                                0
                            },
                    ),
                )
                &&& item.errors == up_to_largest(
                    sum_over(
                        of,
                        |sample: Sample|
                            if sample is Error {
                                1
                            } else {
                                0
                            },
                    ),
                )
                &&& item.responses == 0 <==> item.latency.min_us is None
            },
        result.responses == 0 <==> result.latency.min_us is None,
{
    let all = engine::recorded_in_one(labels, samples);
    law_samples_are_counted(labels, samples);
    assert forall|i: int| 0 <= i < order.len() implies counts_samples(
        #[trigger] all.by_type[order[i]],
        of_type(samples, order[i]),
    ) by {
        assert(labels.contains(order[i]));
    }
}

/// The result of a target says how long the measurement took, in whole
/// milliseconds, as far as that fits; and its rates are the given ones, but zero
/// where it took no time.
pub proof fn law_result_times_the_measurement(
    result: TargetResult,
    aggregate: AggregateModel,
    labels: Seq<Seq<char>>,
    elapsed: Span,
    qps: Double,
    type_qps: Seq<Double>,
)
    requires
        result.is_of(aggregate, labels, elapsed, qps, type_qps),
        elapsed.nanos < 1_000_000_000,
    ensures
        ({
            let nanos = elapsed.secs * 1_000_000_000 + elapsed.nanos;
            if elapsed.secs < 18_446_744_073_709_551 {
                result.elapsed_ms * 1_000_000 <= nanos < (result.elapsed_ms + 1) * 1_000_000
            } else {
                result.elapsed_ms * 1_000_000 <= nanos && (nanos < (result.elapsed_ms + 1)
                    * 1_000_000 || result.elapsed_ms == 0xffff_ffff_ffff_ffff)
            }
        }),
        elapsed.secs == 0 && elapsed.nanos == 0 ==> result.qps.bits == 0,
        elapsed.secs > 0 || elapsed.nanos > 0 ==> result.qps == qps,
        forall|i: int|
            0 <= i < labels.len() ==> (#[trigger] result.by_record_type.values[i]).qps == (if
                elapsed.secs == 0 && elapsed.nanos == 0 {
                Double { bits: 0 }
            } else {
                type_qps[i]
            }),
{
}

/// The latencies of a result are those of the samples: the lowest is no higher
/// than any that was recorded, and the highest no lower.
pub proof fn law_result_spans_latencies(
    result: TargetResult,
    aggregate: AggregateModel,
    labels: Seq<Seq<char>>,
    elapsed: Span,
    qps: Double,
    type_qps: Seq<Double>,
    key: u64,
)
    requires
        result.is_of(aggregate, labels, elapsed, qps, type_qps),
        aggregate.total.latencies.contains_key(key),
    ensures
        result.latency.min_us is Some,
        result.latency.min_us->0 <= key,
        aggregate.total.latencies.contains_key(result.latency.min_us->0),
        result.latency.max_us is Some,
        result.latency.max_us->0 >= key,
        result.latency.min_us->0 <= result.latency.p50_us->0 <= result.latency.p95_us->0
            <= result.latency.p99_us->0 <= result.latency.max_us->0,
{
    let latencies = aggregate.total.latencies;
    assert(latencies != tally::blank::<u64>()) by {
        assert(!tally::blank::<u64>().contains_key(key));
    }
    let top = choose|top: u64| #[trigger]
        histogram::is_highest_key(latencies, top) && result.latency.max_us->0
            == histogram::group_ceiling(top);
    histogram::law_value_is_in_its_group(top);
    assert(key <= top);
}

/// A connection is dropped exactly after a timeout, a failure, a refused answer,
/// and an answer to a zone transfer.
pub proof fn law_connections_are_dropped(record_type: RecordType, id: u16, outcome: Outcome)
    ensures
        worker::drops_connection(record_type, id, outcome) <==> match outcome {
            Outcome::Unbuilt => false,
            Outcome::TimedOut { sent } => true,
            Outcome::Failed { sent } => true,
            Outcome::Answered { sent, latency_us, wire } => {
                ||| record_type.code == 251
                ||| record_type.code == 252
                ||| dns::wire_observation(id, wire@) is Err
            },
        },
{
}

/// Half of the latencies lie at or below the first percentile that a summary
/// shows, 95 of a hundred at or below the second, and 99 of a hundred at or below
/// the third; in the groups below each lie less than that. There may be as many
/// as 2^40 of them.
pub proof fn law_percentiles_split_the_latencies(
    latencies: Map<u64, u64>,
    summary: LatencySummary,
)
    requires
        stats::summarizes(latencies, summary),
        exists|key: u64| latencies.contains_key(key),
        tally::total(latencies) <= 0x100_0000_0000,
    ensures
        summary.p50_us is Some,
        summary.p95_us is Some,
        summary.p99_us is Some,
        splits(latencies, 50, summary.p50_us->0),
        splits(latencies, 95, summary.p95_us->0),
        splits(latencies, 99, summary.p99_us->0),
        summary.mean_us == Some(Double { bits: histogram::mean_bits(latencies) }),
{
    let key = choose|key: u64| latencies.contains_key(key);
    assert(latencies != tally::blank::<u64>()) by {
        assert(!tally::blank::<u64>().contains_key(key));
    }
}

/// Whether as many of a hundred latencies lie at or below a value, and less in
/// the groups below that of the value.
pub open spec fn splits(latencies: Map<u64, u64>, of_hundred: int, value: u64) -> bool {
    let all = tally::total(latencies);
    let up_to = tally::total(latencies.restrict(Set::new(|key: u64| key <= value)));
    let below = tally::total(
        latencies.restrict(Set::new(|key: u64| key < histogram::group_floor(value))),
    );
    &&& 100 * up_to >= of_hundred * all
    &&& 100 * below < of_hundred * all
}

/// The latencies of a record type in a result are those of its samples.
pub proof fn law_type_result_spans_latencies(
    bucket: BucketModel,
    qps: Double,
    item: TypeResult,
    key: u64,
)
    requires
        stats::is_type_result(bucket, qps, item),
        bucket.latencies.contains_key(key),
    ensures
        item.qps == qps,
        item.latency.min_us is Some,
        item.latency.min_us->0 <= key,
        bucket.latencies.contains_key(item.latency.min_us->0),
        item.latency.max_us is Some,
        item.latency.max_us->0 >= key,
        item.latency.min_us->0 <= item.latency.p50_us->0 <= item.latency.p95_us->0
            <= item.latency.p99_us->0 <= item.latency.max_us->0,
        stats::summarizes(bucket.latencies, item.latency),
{
    let latencies = bucket.latencies;
    assert(latencies != tally::blank::<u64>()) by {
        assert(!tally::blank::<u64>().contains_key(key));
    }
    let top = choose|top: u64| #[trigger]
        histogram::is_highest_key(latencies, top) && item.latency.max_us->0
            == histogram::group_ceiling(top);
    histogram::law_value_is_in_its_group(top);
    assert(key <= top);
}

/// Whether a tally counts the keys of two others, each as often as both do.
pub open spec fn counts_both<K>(left: Map<K, u64>, right: Map<K, u64>, both: Map<K, u64>) -> bool {
    forall|key: K|
        {
            &&& #[trigger] both.contains_key(key) <==> left.contains_key(key)
                || right.contains_key(key)
            &&& left.contains_key(key) && right.contains_key(key) ==> grew(
                left[key],
                both[key],
                right[key] as int,
            )
            &&& left.contains_key(key) && !right.contains_key(key) ==> both[key] == left[key]
            &&& !left.contains_key(key) && right.contains_key(key) ==> both[key] == right[key]
        }
}

/// Whether a bucket counts what two others count.
pub open spec fn holds_both(left: BucketModel, right: BucketModel, both: BucketModel) -> bool {
    &&& grew(left.attempts, both.attempts, right.attempts as int)
    &&& grew(left.responses, both.responses, right.responses as int)
    &&& grew(left.successes, both.successes, right.successes as int)
    &&& grew(left.timeouts, both.timeouts, right.timeouts as int)
    &&& grew(left.errors, both.errors, right.errors as int)
    &&& grew(left.truncated, both.truncated, right.truncated as int)
    &&& grew(left.authenticated_data, both.authenticated_data, right.authenticated_data as int)
    &&& grew(left.rrsig_responses, both.rrsig_responses, right.rrsig_responses as int)
    &&& grew(left.dnssec_records, both.dnssec_records, right.dnssec_records as int)
    &&& grew(left.bytes_sent, both.bytes_sent, right.bytes_sent as int)
    &&& grew(left.bytes_received, both.bytes_received, right.bytes_received as int)
    &&& counts_both(left.response_codes, right.response_codes, both.response_codes)
    &&& counts_both(left.latencies, right.latencies, both.latencies)
}

/// Merging one aggregate into another adds every count of it, in total and for
/// each record type of the other, up to the largest count.
pub proof fn law_merge_adds_every_count(left: AggregateModel, right: AggregateModel)
    ensures
        ({
            let both = stats::merged_aggregate(left, right);
            &&& holds_both(left.total, right.total, both.total)
            &&& both.by_type.dom() == left.by_type.dom()
            &&& forall|label: Seq<char>|
                #![trigger both.by_type[label]]
                left.by_type.contains_key(label) && right.by_type.contains_key(label)
                    ==> holds_both(left.by_type[label], right.by_type[label], both.by_type[label])
            &&& forall|label: Seq<char>|
                #![trigger both.by_type[label]]
                left.by_type.contains_key(label) && !right.by_type.contains_key(label)
                    ==> both.by_type[label] == left.by_type[label]
        }),
{
    let both = stats::merged_aggregate(left, right);
    assert(both.by_type.dom() =~= left.by_type.dom());
}

} // verus!
