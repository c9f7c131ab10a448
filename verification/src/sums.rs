//! What the counters of a target add up to: those of its record types, in its
//! buckets and in its result.

use vstd::prelude::*;

use crate::double::Double;
use crate::histogram;
use crate::label_map;
use crate::span::Span;
use crate::stats;
use crate::stats::{BucketModel, TargetResult, TypeResult};
use crate::tally;

verus! {

/// One counter of the buckets of record types.
pub open spec fn counter_of(
    by_type: Map<Seq<char>, BucketModel>,
    counter: spec_fn(BucketModel) -> u64,
) -> Map<Seq<char>, u64> {
    Map::new(
        |label: Seq<char>| by_type.contains_key(label),
        |label: Seq<char>| counter(by_type[label]),
    )
}

/// Whether a counter begins at zero, grows with each sample by an amount that is
/// that of the sample alone, and is added when buckets are merged.
pub open spec fn adds_up(counter: spec_fn(BucketModel) -> u64) -> bool {
    &&& counter(stats::empty_bucket()) == 0
    &&& forall|bucket: BucketModel, sample: stats::Sample|
        counter(#[trigger] stats::sampled(bucket, sample)) == tally::sat_add(
            counter(bucket),
            counter(stats::sampled(stats::empty_bucket(), sample)),
        )
    &&& forall|left: BucketModel, right: BucketModel|
        counter(#[trigger] stats::merged_bucket(left, right)) == tally::sat_add(
            counter(left),
            counter(right),
        )
}

/// Whether a counter of all queries is the sum of that counter over the record
/// types, held at the largest count.
pub open spec fn sums_up(
    aggregate: stats::AggregateModel,
    counter: spec_fn(BucketModel) -> u64,
) -> bool {
    &&& aggregate.by_type.dom().finite()
    &&& counter(aggregate.total) == tally::held(
        tally::total(counter_of(aggregate.by_type, counter)),
    )
}

/// Attempts, responses, successes, timeouts and errors add up.
pub proof fn law_counters_add_up()
    ensures
        adds_up(|bucket: BucketModel| bucket.attempts),
        adds_up(|bucket: BucketModel| bucket.responses),
        adds_up(|bucket: BucketModel| bucket.successes),
        adds_up(|bucket: BucketModel| bucket.timeouts),
        adds_up(|bucket: BucketModel| bucket.errors),
{
}

/// Without samples, counters are the sums over the record types.
pub proof fn law_sums_without_samples(
    labels: Seq<Seq<char>>,
    counter: spec_fn(BucketModel) -> u64,
)
    requires
        adds_up(counter),
    ensures
        sums_up(stats::empty_aggregate(labels), counter),
{
    let empty = stats::empty_aggregate(labels);
    vstd::seq_lib::seq_to_set_is_finite(labels);
    assert(empty.by_type.dom() =~= labels.to_set());
    let counts = counter_of(empty.by_type, counter);
    assert(counts.dom() =~= empty.by_type.dom());
    tally::lemma_total_of_zeros(counts);
}

/// A sample of a query for one of the record types leaves counters the sums over
/// the record types.
pub proof fn law_sums_after_sample(
    aggregate: stats::AggregateModel,
    label: Seq<char>,
    sample: stats::Sample,
    counter: spec_fn(BucketModel) -> u64,
)
    requires
        adds_up(counter),
        sums_up(aggregate, counter),
        aggregate.by_type.contains_key(label),
    ensures
        sums_up(stats::with_sample(aggregate, label, sample), counter),
{
    let after = stats::with_sample(aggregate, label, sample);
    let amount = counter(stats::sampled(stats::empty_bucket(), sample));
    let counts = counter_of(aggregate.by_type, counter);
    assert(counts.dom() =~= aggregate.by_type.dom());
    assert(after.by_type.dom() =~= aggregate.by_type.dom());
    assert(counter_of(after.by_type, counter) =~= tally::plus(counts, label, amount));
    tally::lemma_total_plus(counts, label, amount);
}

/// Merging aggregates of the same record types leaves counters the sums over the
/// record types.
pub proof fn law_sums_after_merge(
    left: stats::AggregateModel,
    right: stats::AggregateModel,
    counter: spec_fn(BucketModel) -> u64,
)
    requires
        adds_up(counter),
        sums_up(left, counter),
        sums_up(right, counter),
        left.by_type.dom() == right.by_type.dom(),
    ensures
        sums_up(stats::merged_aggregate(left, right), counter),
{
    let both = stats::merged_aggregate(left, right);
    let a = counter_of(left.by_type, counter);
    let b = counter_of(right.by_type, counter);
    assert(a.dom() =~= left.by_type.dom());
    assert(b.dom() =~= right.by_type.dom());
    assert(both.by_type.dom() =~= left.by_type.dom());
    assert(counter_of(both.by_type, counter) =~= tally::merged(a, b));
    tally::lemma_total_merged(a, b);
}

/// One counter of the results of record types.
pub open spec fn listed(results: Seq<TypeResult>, counter: spec_fn(TypeResult) -> u64) -> Seq<u64> {
    results.map_values(counter)
}

proof fn lemma_listed(
    result: TargetResult,
    aggregate: stats::AggregateModel,
    labels: Seq<Seq<char>>,
    bucket_counter: spec_fn(BucketModel) -> u64,
    counter: spec_fn(TypeResult) -> u64,
)
    requires
        label_map::is_ascending(labels),
        forall|label: Seq<char>| #[trigger]
            aggregate.by_type.contains_key(label) <==> labels.contains(label),
        result.by_record_type.values.len() == labels.len(),
        forall|i: int|
            0 <= i < labels.len() ==> counter(#[trigger] result.by_record_type.values[i])
                == bucket_counter(aggregate.by_type[labels[i]]),
    ensures
        tally::total(counter_of(aggregate.by_type, bucket_counter)) == label_map::sum(
            listed(result.by_record_type.values@, counter),
        ),
{
    let values = listed(result.by_record_type.values@, counter);
    let counts = counter_of(aggregate.by_type, bucket_counter);
    assert forall|label: Seq<char>| labels.contains(label) implies #[trigger] counts[label]
        == values[labels.index_of(label)] by {
        let i = labels.index_of(label);
        assert(labels[i] == label);
        assert(counter(result.by_record_type.values[i]) == bucket_counter(
            aggregate.by_type[labels[i]],
        ));
        assert(aggregate.by_type.contains_key(label));
    }
    assert forall|label: Seq<char>| #[trigger] counts.dom().contains(label) == labels.contains(
        label,
    ) by {
        assert(aggregate.by_type.contains_key(label) <==> labels.contains(label));
    }
    assert(counts =~= label_map::paired(labels, values));
    label_map::lemma_total_is_sum(labels, values);
}

/// In the result of a target, attempts are responses, timeouts and errors
/// together; the response codes are those of the responses; successes are the
/// responses without an error; and no more responses are truncated,
/// authenticated or signed than there are. Each up to the largest count.
pub proof fn law_result_counters_agree(
    result: TargetResult,
    aggregate: stats::AggregateModel,
    labels: Seq<Seq<char>>,
    elapsed: Span,
    qps: Double,
    type_qps: Seq<Double>,
)
    requires
        result.wf(),
        result.is_of(aggregate, labels, elapsed, qps, type_qps),
        stats::sound_aggregate(aggregate),
    ensures
        result.attempts == tally::held(
            (result.responses + result.timeouts + result.errors) as nat,
        ),
        result.responses == tally::held(label_map::sum(result.response_codes.values@)),
        result.successes == tally::count(result.response_codes@, "NoError"@),
        result.successes <= result.responses,
        result.truncated <= result.responses,
        result.authenticated_data <= result.responses,
        result.rrsig_responses <= result.responses,
{
    label_map::lemma_total_is_sum(
        result.response_codes.label_texts(),
        result.response_codes.values@,
    );
}

/// In the result of a target all of whose samples were of its record types,
/// attempts, responses, successes, timeouts and errors are the sums over the
/// record types, up to the largest count.
pub proof fn law_result_sums_over_types(
    result: TargetResult,
    aggregate: stats::AggregateModel,
    labels: Seq<Seq<char>>,
    elapsed: Span,
    qps: Double,
    type_qps: Seq<Double>,
)
    requires
        result.wf(),
        result.is_of(aggregate, labels, elapsed, qps, type_qps),
        label_map::is_ascending(labels),
        forall|label: Seq<char>| #[trigger]
            aggregate.by_type.contains_key(label) <==> labels.contains(label),
        sums_up(aggregate, |bucket: BucketModel| bucket.attempts),
        sums_up(aggregate, |bucket: BucketModel| bucket.responses),
        sums_up(aggregate, |bucket: BucketModel| bucket.successes),
        sums_up(aggregate, |bucket: BucketModel| bucket.timeouts),
        sums_up(aggregate, |bucket: BucketModel| bucket.errors),
    ensures
        result.attempts == tally::held(
            label_map::sum(
                listed(result.by_record_type.values@, |item: TypeResult| item.attempts),
            ),
        ),
        result.responses == tally::held(
            label_map::sum(
                listed(result.by_record_type.values@, |item: TypeResult| item.responses),
            ),
        ),
        result.successes == tally::held(
            label_map::sum(
                listed(result.by_record_type.values@, |item: TypeResult| item.successes),
            ),
        ),
        result.timeouts == tally::held(
            label_map::sum(
                listed(result.by_record_type.values@, |item: TypeResult| item.timeouts),
            ),
        ),
        result.errors == tally::held(
            label_map::sum(listed(result.by_record_type.values@, |item: TypeResult| item.errors)),
        ),
{
    assert(result.by_record_type.label_texts().len() == result.by_record_type.labels.len());
    lemma_listed(
        result,
        aggregate,
        labels,
        |bucket: BucketModel| bucket.attempts,
        |item: TypeResult| item.attempts,
    );
    lemma_listed(
        result,
        aggregate,
        labels,
        |bucket: BucketModel| bucket.responses,
        |item: TypeResult| item.responses,
    );
    lemma_listed(
        result,
        aggregate,
        labels,
        |bucket: BucketModel| bucket.successes,
        |item: TypeResult| item.successes,
    );
    lemma_listed(
        result,
        aggregate,
        labels,
        |bucket: BucketModel| bucket.timeouts,
        |item: TypeResult| item.timeouts,
    );
    lemma_listed(
        result,
        aggregate,
        labels,
        |bucket: BucketModel| bucket.errors,
        |item: TypeResult| item.errors,
    );
}

proof fn lemma_summary_is_decided(
    latencies: Map<u64, u64>,
    first: stats::LatencySummary,
    second: stats::LatencySummary,
)
    requires
        stats::summarizes(latencies, first),
        stats::summarizes(latencies, second),
    ensures
        first == second,
{
    if latencies != tally::blank::<u64>() {
        let a = first.min_us->0;
        let b = second.min_us->0;
        assert(latencies.contains_key(a) && latencies.contains_key(b));
        let high = first.max_us->0;
        let other = second.max_us->0;
        let top = choose|key: u64| #[trigger]
            histogram::is_highest_key(latencies, key) && high == histogram::group_ceiling(key);
        let peak = choose|key: u64| #[trigger]
            histogram::is_highest_key(latencies, key) && other == histogram::group_ceiling(key);
        assert(latencies.contains_key(top) && latencies.contains_key(peak));
    }
}

/// What an aggregate holds decides every field of the result: results of
/// aggregates with the same contents, after the same time, are the same.
pub proof fn law_contents_decide_the_result(
    first: TargetResult,
    second: TargetResult,
    aggregate: stats::AggregateModel,
    labels: Seq<Seq<char>>,
    elapsed: Span,
    qps: Double,
    type_qps: Seq<Double>,
)
    requires
        first.wf(),
        second.wf(),
        first.is_of(aggregate, labels, elapsed, qps, type_qps),
        second.is_of(aggregate, labels, elapsed, qps, type_qps),
    ensures
        first.elapsed_ms == second.elapsed_ms,
        first.attempts == second.attempts,
        first.responses == second.responses,
        first.successes == second.successes,
        first.timeouts == second.timeouts,
        first.errors == second.errors,
        first.truncated == second.truncated,
        first.authenticated_data == second.authenticated_data,
        first.rrsig_responses == second.rrsig_responses,
        first.dnssec_records == second.dnssec_records,
        first.bytes_sent == second.bytes_sent,
        first.bytes_received == second.bytes_received,
        first.response_codes.label_texts() == second.response_codes.label_texts(),
        first.response_codes.values@ == second.response_codes.values@,
        first.latency == second.latency,
        first.qps == second.qps,
        first.by_record_type.label_texts() == second.by_record_type.label_texts(),
        first.by_record_type.values@ == second.by_record_type.values@,
{
    lemma_summary_is_decided(aggregate.total.latencies, first.latency, second.latency);
    let a = first.response_codes;
    let b = second.response_codes;
    assert forall|label: Seq<char>| a.label_texts().contains(label) == b.label_texts().contains(
        label,
    ) by {
        assert(a@.dom().contains(label) == b@.dom().contains(label));
    }
    label_map::lemma_ascending_is_unique(a.label_texts(), b.label_texts());
    assert(a.label_texts().len() == a.values.len() && b.label_texts().len() == b.values.len());
    assert forall|i: int| 0 <= i < a.values.len() implies a.values@[i] == b.values@[i] by {
        label_map::lemma_index_in_ascending(a.label_texts(), i);
        let label = a.label_texts()[i];
        assert(a@[label] == a.values@[i]);
        assert(b@[label] == b.values@[i]);
    }
    assert(a.values@ =~= b.values@);
    let p = first.by_record_type;
    let q = second.by_record_type;
    assert(p.label_texts().len() == p.values.len() && q.label_texts().len() == q.values.len());
    assert forall|i: int| 0 <= i < labels.len() implies p.values@[i] == q.values@[i] by {
        let x = p.values[i];
        let y = q.values[i];
        lemma_summary_is_decided(aggregate.by_type[labels[i]].latencies, x.latency, y.latency);
    }
    assert(p.values@ =~= q.values@);
}

} // verus!
