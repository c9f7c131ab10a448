//! The result of a run: shards put together, targets in order and ranked, and
//! the configuration as it was used.

use vstd::prelude::*;

use crate::config;
use crate::config::{RunConfig, RunLimit, Target, Transport};
use crate::names::DnsName;
use crate::order;
use crate::record_type;
use crate::record_type::RecordType;
use crate::report;
use crate::report::RankingEntry;
use crate::stats;
use crate::stats::{Aggregate, TargetResult};
use crate::sums;
use crate::text;

verus! {

/// The version of the form of a `RunResult`.
pub const SCHEMA_VERSION: u32 = 1;

/// A moment: seconds since the beginning of 1970 in UTC, and nanoseconds since
/// the last whole second.
#[derive(Debug, Clone, Copy, PartialEq, Eq, Structural)]
pub struct Timestamp {
    pub secs: i64,
    pub nanos: u32,
}

/// A moment in the form of RFC 3339.
pub uninterp spec fn rfc3339_text(secs: i64, nanos: u32) -> Seq<char>;

impl Timestamp {
    /// Whether the moment is within the years that the calendar reaches, from
    /// the year -262143 to the year 262142, and the nanoseconds are less than a
    /// second.
    pub open spec fn wf(self) -> bool {
        -8_334_601_228_800 <= self.secs <= 8_210_266_876_799 && self.nanos < 1_000_000_000
    }

    /// `DateTime::to_rfc3339`, of the moment that `DateTime::from_timestamp`
    /// makes in UTC, is a function of the seconds and nanoseconds.
    #[verifier::external_body]
    pub(crate) fn rfc3339(&self) -> (shown: String)
        requires
            self.wf(),
        ensures
            shown@ == rfc3339_text(self.secs, self.nanos),
    {
        let moment = chrono::DateTime::from_timestamp(self.secs, self.nanos).unwrap();
        moment.to_rfc3339()
    }
}

/// The configuration of a run, as results show it.
#[derive(Debug, Clone)]
pub struct ConfigSnapshot {
    pub targets: Vec<Target>,
    pub names: Vec<String>,
    pub record_types: Vec<String>,
    pub transport: String,
    pub requests: Option<u64>,
    pub duration_ms: Option<u64>,
    pub concurrency: usize,
    pub rate: Option<u64>,
    pub timeout_ms: u64,
    pub warmup: u64,
    pub dnssec: bool,
    pub edns_payload: u16,
    pub workers: usize,
    pub seed: u64,
}

/// The result of a run.
#[derive(Debug, Clone)]
pub struct RunResult {
    pub schema_version: u32,
    pub started_at: Timestamp,
    pub config: ConfigSnapshot,
    pub results: Vec<TargetResult>,
    pub ranking: Vec<RankingEntry>,
    pub interrupted: bool,
}

/// The names of a list, as people read them.
pub open spec fn name_texts(names: Seq<DnsName>) -> Seq<Seq<char>> {
    names.map_values(|name: DnsName| name.text())
}

/// The name of a transport.
pub open spec fn transport_name(transport: Transport) -> Seq<char> {
    match transport {
        Transport::Udp => "udp"@,
        Transport::Tcp => "tcp"@,
    }
}

impl ConfigSnapshot {
    /// Whether the snapshot is that of a configuration.
    pub open spec fn is_of(self, config: RunConfig) -> bool {
        &&& config::target_models(self.targets@) == config::target_models(config.targets@)
        &&& text::texts(self.names@) == name_texts(config.names@)
        &&& text::texts(self.record_types@) == record_type::labels(config.record_types@)
        &&& self.transport@ == transport_name(config.transport)
        &&& match config.limit {
            RunLimit::Requests(requests) => self.requests == Some(requests) && self.duration_ms
                is None,
            RunLimit::Duration(duration) => self.requests is None && self.duration_ms == Some(
                duration.in_millis(),
            ),
        }
        &&& self.concurrency == config.concurrency
        &&& self.rate == config.rate
        &&& self.timeout_ms == config.timeout.in_millis()
        &&& self.warmup == config.warmup
        &&& self.dnssec == config.dnssec
        &&& self.edns_payload == config.edns_payload
        &&& self.workers == config.workers
        &&& self.seed == config.seed
    }

    /// The configuration of a run, as results show it.
    pub fn from(config: &RunConfig) -> (snapshot: ConfigSnapshot)
        requires
            config.wf(),
        ensures
            snapshot.is_of(*config),
    {
        let (requests, duration_ms) = match config.limit {
            RunLimit::Requests(requests) => (Some(requests), None),
            RunLimit::Duration(duration) => (None, Some(duration.millis())),
        };
        let mut targets: Vec<Target> = Vec::new();
        for i in 0..config.targets.len()
            invariant
                config::target_models(targets@) == config::target_models(config.targets@).take(
                    i as int,
                ),
        {
            let target = config.targets[i].duplicate();
            let ghost had = config::target_models(targets@);
            targets.push(target);
            assert(config::target_models(targets@) =~= had.push(target@));
            assert(config::target_models(targets@) =~= config::target_models(
                config.targets@,
            ).take(i + 1));
        }
        assert(config::target_models(targets@) =~= config::target_models(config.targets@));
        let mut names: Vec<String> = Vec::new();
        for i in 0..config.names.len()
            invariant
                config.wf(),
                text::texts(names@) == name_texts(config.names@).take(i as int),
        {
            let name = config.names[i].to_text();
            let ghost had = text::texts(names@);
            names.push(name);
            assert(text::texts(names@) =~= had.push(name@));
            assert(text::texts(names@) =~= name_texts(config.names@).take(i + 1));
        }
        assert(text::texts(names@) =~= name_texts(config.names@));
        let mut record_types: Vec<String> = Vec::new();
        for i in 0..config.record_types.len()
            invariant
                text::texts(record_types@) == record_type::labels(config.record_types@).take(
                    i as int,
                ),
        {
            let label = record_type::record_type_label(config.record_types[i]);
            let ghost had = text::texts(record_types@);
            record_types.push(label);
            assert(text::texts(record_types@) =~= had.push(label@));
            assert(text::texts(record_types@) =~= record_type::labels(config.record_types@).take(
                i + 1,
            ));
        }
        assert(text::texts(record_types@) =~= record_type::labels(config.record_types@));
        ConfigSnapshot {
            targets,
            names,
            record_types,
            transport: match config.transport {
                Transport::Udp => "udp".to_owned(),
                Transport::Tcp => "tcp".to_owned(),
            },
            requests,
            duration_ms,
            concurrency: config.concurrency,
            rate: config.rate,
            timeout_ms: config.timeout.millis(),
            warmup: config.warmup,
            dnssec: config.dnssec,
            edns_payload: config.edns_payload,
            workers: config.workers,
            seed: config.seed,
        }
    }
}

/// What the shards of a target hold together.
pub open spec fn merged_shards(
    labels: Seq<Seq<char>>,
    shards: Seq<stats::AggregateModel>,
) -> stats::AggregateModel
    decreases shards.len(),
{
    if shards.len() == 0 {
        stats::empty_aggregate(labels)
    } else {
        stats::merged_aggregate(merged_shards(labels, shards.drop_last()), shards.last())
    }
}

/// What shards hold.
pub open spec fn shard_models(shards: Seq<&Aggregate>) -> Seq<stats::AggregateModel> {
    shards.map_values(|shard: &Aggregate| shard@)
}

/// Why the shards of a target could not be put together.
#[derive(Debug)]
#[allow(inconsistent_fields)]
pub enum ShardError {
    /// No histogram could be made.
    Creation { cause: hdrhistogram::CreationError },
    /// A histogram could not be added.
    Addition { cause: hdrhistogram::AdditionError },
}

/// Puts the shards of a target together.
pub fn merge_shards(record_types: &[RecordType], shards: &[&Aggregate]) -> (merged: Result<
    Aggregate,
    ShardError,
>)
    requires
        forall|i: int| 0 <= i < shards.len() ==> (#[trigger] shards[i]).wf(),
    ensures
        merged is Ok,
        merged->Ok_0.wf(),
        merged->Ok_0@ == merged_shards(
            record_type::labels(record_types@),
            shard_models(shards@),
        ),
{
    let ghost labels = record_type::labels(record_types@);
    let ghost models = shard_models(shards@);
    let mut aggregate = match Aggregate::new(record_types) {
        Ok(aggregate) => aggregate,
        Err(cause) => {
            return Err(ShardError::Creation { cause });
        },
    };
    assert(models.take(0) =~= Seq::empty());
    for i in 0..shards.len()
        invariant
            forall|j: int| 0 <= j < shards.len() ==> (#[trigger] shards[j]).wf(),
            models == shard_models(shards@),
            aggregate.wf(),
            aggregate@ == merged_shards(labels, models.take(i as int)),
    {
        assert(models.take(i + 1).drop_last() =~= models.take(i as int));
        assert(models[i as int] == shards[i as int]@);
        match aggregate.merge(shards[i]) {
            Ok(_) => {},
            Err(cause) => {
                return Err(ShardError::Addition { cause });
            },
        }
    }
    assert(models.take(shards.len() as int) =~= models);
    Ok(aggregate)
}

/// A sample of a query for a record type, and the shard that it is recorded in.
pub ghost struct Placed {
    pub shard: int,
    pub label: Seq<char>,
    pub sample: stats::Sample,
}

/// Shards after samples were recorded in them.
pub open spec fn recorded(
    labels: Seq<Seq<char>>,
    count: nat,
    samples: Seq<Placed>,
) -> Seq<stats::AggregateModel>
    decreases samples.len(),
{
    if samples.len() == 0 {
        Seq::new(count, |i: int| stats::empty_aggregate(labels))
    } else {
        let before = recorded(labels, count, samples.drop_last());
        let placed = samples.last();
        before.update(
            placed.shard,
            stats::with_sample(before[placed.shard], placed.label, placed.sample),
        )
    }
}

/// One aggregate after all samples were recorded in it.
pub open spec fn recorded_in_one(
    labels: Seq<Seq<char>>,
    samples: Seq<Placed>,
) -> stats::AggregateModel
    decreases samples.len(),
{
    if samples.len() == 0 {
        stats::empty_aggregate(labels)
    } else {
        stats::with_sample(
            recorded_in_one(labels, samples.drop_last()),
            samples.last().label,
            samples.last().sample,
        )
    }
}

/// Whether shards are all for the record types with the given labels.
pub open spec fn same_types(labels: Seq<Seq<char>>, shards: Seq<stats::AggregateModel>) -> bool {
    forall|i: int|
        0 <= i < shards.len() ==> (#[trigger] shards[i]).by_type.dom() == stats::empty_aggregate(
            labels,
        ).by_type.dom()
}

proof fn lemma_merged_shards_types(labels: Seq<Seq<char>>, shards: Seq<stats::AggregateModel>)
    ensures
        merged_shards(labels, shards).by_type.dom() == stats::empty_aggregate(labels).by_type.dom(),
    decreases shards.len(),
{
    if shards.len() > 0 {
        lemma_merged_shards_types(labels, shards.drop_last());
        stats::law_record_types_stay(
            merged_shards(labels, shards.drop_last()),
            shards.last(),
            arbitrary(),
            arbitrary(),
        );
    }
}

/// A sample that is recorded in one of the shards is counted once when they are
/// put together, whichever shard it is.
pub proof fn law_sample_in_any_shard(
    labels: Seq<Seq<char>>,
    shards: Seq<stats::AggregateModel>,
    shard: int,
    label: Seq<char>,
    sample: stats::Sample,
)
    requires
        0 <= shard < shards.len(),
        same_types(labels, shards),
    ensures
        merged_shards(
            labels,
            shards.update(shard, stats::with_sample(shards[shard], label, sample)),
        ) == stats::with_sample(merged_shards(labels, shards), label, sample),
    decreases shards.len(),
{
    let with = stats::with_sample(shards[shard], label, sample);
    let after = shards.update(shard, with);
    let rest = shards.drop_last();
    let merged = merged_shards(labels, rest);
    assert(same_types(labels, rest)) by {
        assert forall|i: int| 0 <= i < rest.len() implies (#[trigger] rest[i]).by_type.dom()
            == stats::empty_aggregate(labels).by_type.dom() by {
            assert(rest[i] == shards[i]);
        }
    }
    lemma_merged_shards_types(labels, rest);
    if shard == shards.len() - 1 {
        let last = shards.last();
        assert(after.drop_last() =~= rest);
        assert(shards[shard] == last);
        stats::law_record_types_stay(last, last, label, sample);
        stats::law_aggregate_merge_commutes(merged, with);
        stats::law_sample_then_merge(last, merged, label, sample);
        stats::law_aggregate_merge_commutes(last, merged);
    } else {
        law_sample_in_any_shard(labels, rest, shard, label, sample);
        assert(rest[shard] == shards[shard]);
        assert(after.drop_last() =~= rest.update(shard, with));
        stats::law_sample_then_merge(merged, shards.last(), label, sample);
    }
}

proof fn lemma_empty_shards(labels: Seq<Seq<char>>, count: nat)
    ensures
        merged_shards(labels, Seq::new(count, |i: int| stats::empty_aggregate(labels)))
            == stats::empty_aggregate(labels),
    decreases count,
{
    let shards = Seq::new(count, |i: int| stats::empty_aggregate(labels));
    if count > 0 {
        lemma_empty_shards(labels, (count - 1) as nat);
        assert(shards.drop_last() =~= Seq::new(
            (count - 1) as nat,
            |i: int| stats::empty_aggregate(labels),
        ));
        stats::law_aggregate_merge_with_empty(stats::empty_aggregate(labels), labels);
    }
}

/// The result of a target does not depend on how its samples were spread over
/// shards: put together, they hold what one aggregate of all samples holds.
pub proof fn law_shards_hold_what_one_would(
    labels: Seq<Seq<char>>,
    count: nat,
    samples: Seq<Placed>,
)
    requires
        forall|i: int| 0 <= i < samples.len() ==> 0 <= (#[trigger] samples[i]).shard < count,
    ensures
        recorded(labels, count, samples).len() == count,
        same_types(labels, recorded(labels, count, samples)),
        merged_shards(labels, recorded(labels, count, samples)) == recorded_in_one(labels, samples),
    decreases samples.len(),
{
    if samples.len() == 0 {
        lemma_empty_shards(labels, count);
    } else {
        let placed = samples.last();
        let before = recorded(labels, count, samples.drop_last());
        assert(0 <= placed.shard < count) by {
            assert(samples[samples.len() - 1] == placed);
        }
        assert forall|i: int| 0 <= i < samples.drop_last().len() implies 0 <= (
        #[trigger] samples.drop_last()[i]).shard < count by {
            assert(samples[i] == samples.drop_last()[i]);
        }
        law_shards_hold_what_one_would(labels, count, samples.drop_last());
        law_sample_in_any_shard(labels, before, placed.shard, placed.label, placed.sample);
        stats::law_record_types_stay(
            before[placed.shard],
            before[placed.shard],
            placed.label,
            placed.sample,
        );
        let after = recorded(labels, count, samples);
        assert forall|i: int| 0 <= i < after.len() implies (#[trigger] after[i]).by_type.dom()
            == stats::empty_aggregate(labels).by_type.dom() by {
            assert(before[i].by_type.dom() == stats::empty_aggregate(labels).by_type.dom());
        }
    }
}

proof fn lemma_recorded_types(labels: Seq<Seq<char>>, samples: Seq<Placed>)
    ensures
        recorded_in_one(labels, samples).by_type.dom() == stats::empty_aggregate(
            labels,
        ).by_type.dom(),
    decreases samples.len(),
{
    if samples.len() > 0 {
        let before = recorded_in_one(labels, samples.drop_last());
        lemma_recorded_types(labels, samples.drop_last());
        stats::law_record_types_stay(before, before, samples.last().label, samples.last().sample);
    }
}

/// Merging an aggregate into another gives what one aggregate of the samples of
/// both would hold, in either order.
pub proof fn law_merge_is_recording_both(
    labels: Seq<Seq<char>>,
    first: Seq<Placed>,
    second: Seq<Placed>,
)
    ensures
        stats::merged_aggregate(
            recorded_in_one(labels, first),
            recorded_in_one(labels, second),
        ) == recorded_in_one(labels, first + second),
        stats::merged_aggregate(
            recorded_in_one(labels, second),
            recorded_in_one(labels, first),
        ) == recorded_in_one(labels, first + second),
    decreases second.len(),
{
    let a = recorded_in_one(labels, first);
    let b = recorded_in_one(labels, second);
    lemma_recorded_types(labels, first);
    lemma_recorded_types(labels, second);
    stats::law_aggregate_merge_commutes(a, b);
    if second.len() == 0 {
        stats::law_aggregate_merge_with_empty(a, labels);
        assert(first + second =~= first);
    } else {
        let rest = second.drop_last();
        let placed = second.last();
        let c = recorded_in_one(labels, rest);
        law_merge_is_recording_both(labels, first, rest);
        stats::law_sample_then_merge(c, a, placed.label, placed.sample);
        assert((first + second).drop_last() =~= first + rest);
        assert((first + second).last() == placed);
    }
}

/// Where every sample is of a query for one of the record types, the counters
/// that add up are the sums over the record types.
pub proof fn law_recorded_sums_up(
    labels: Seq<Seq<char>>,
    samples: Seq<Placed>,
    counter: spec_fn(stats::BucketModel) -> u64,
)
    requires
        sums::adds_up(counter),
        forall|i: int| 0 <= i < samples.len() ==> labels.contains((#[trigger] samples[i]).label),
    ensures
        sums::sums_up(recorded_in_one(labels, samples), counter),
    decreases samples.len(),
{
    if samples.len() == 0 {
        sums::law_sums_without_samples(labels, counter);
    } else {
        let rest = samples.drop_last();
        let placed = samples.last();
        assert forall|i: int| 0 <= i < rest.len() implies labels.contains(
            (#[trigger] rest[i]).label,
        ) by {
            assert(rest[i] == samples[i]);
        }
        assert(samples[samples.len() - 1] == placed);
        law_recorded_sums_up(labels, rest, counter);
        lemma_recorded_types(labels, rest);
        assert(stats::empty_aggregate(labels).by_type.dom().contains(placed.label));
        sums::law_sums_after_sample(
            recorded_in_one(labels, rest),
            placed.label,
            placed.sample,
            counter,
        );
    }
}

/// The samples that are responses.
pub open spec fn answers(samples: Seq<Placed>) -> Seq<Placed>
    decreases samples.len(),
{
    if samples.len() == 0 {
        samples
    } else if samples.last().sample is Answer {
        answers(samples.drop_last()).push(samples.last())
    } else {
        answers(samples.drop_last())
    }
}

/// Latencies and response codes are those of the responses: leaving out timeouts
/// and errors changes none, in total and of each record type.
pub proof fn law_latencies_are_of_answers(labels: Seq<Seq<char>>, samples: Seq<Placed>)
    ensures
        ({
            let all = recorded_in_one(labels, samples);
            let answered = recorded_in_one(labels, answers(samples));
            &&& all.total.latencies == answered.total.latencies
            &&& all.total.response_codes == answered.total.response_codes
            &&& all.total.responses == answered.total.responses
            &&& all.by_type.dom() == answered.by_type.dom()
            &&& forall|label: Seq<char>| #[trigger]
                all.by_type.contains_key(label) ==> all.by_type[label].latencies
                    == answered.by_type[label].latencies
        }),
    decreases samples.len(),
{
    lemma_recorded_types(labels, samples);
    lemma_recorded_types(labels, answers(samples));
    if samples.len() > 0 {
        let rest = samples.drop_last();
        let placed = samples.last();
        law_latencies_are_of_answers(labels, rest);
        lemma_recorded_types(labels, rest);
        lemma_recorded_types(labels, answers(rest));
        let before = recorded_in_one(labels, rest);
        let before_answered = recorded_in_one(labels, answers(rest));
        if placed.sample is Answer {
            assert(answers(samples).drop_last() =~= answers(rest));
        }
        let all = recorded_in_one(labels, samples);
        let answered = recorded_in_one(labels, answers(samples));
        assert forall|label: Seq<char>| #[trigger] all.by_type.contains_key(label) implies
            all.by_type[label].latencies == answered.by_type[label].latencies by {
            assert(all.by_type.dom().contains(label));
            assert(before.by_type.dom().contains(label));
            assert(before.by_type.contains_key(label));
            assert(before_answered.by_type.dom().contains(label));
            assert(before_answered.by_type.contains_key(label));
            assert(before.by_type[label].latencies == before_answered.by_type[label].latencies);
        }
    }
}

/// The order of results: by the labels of their targets.
pub open spec fn by_label() -> spec_fn(TargetResult, TargetResult) -> bool {
    |a: TargetResult, b: TargetResult| text::less(a.target.label@, b.target.label@)
}

/// Puts results in the order of the labels of their targets.
fn sort_results(results: Vec<TargetResult>) -> (list: Vec<TargetResult>)
    ensures
        list@ == order::sorted(results@, by_label()),
{
    let ghost all = results@;
    let ghost before = by_label();
    let mut rest = results;
    let mut list: Vec<TargetResult> = Vec::new();
    assert(all.skip(all.len() as int) =~= Seq::empty());
    assert(all.take(all.len() as int) =~= all);
    while rest.len() > 0
        invariant
            rest.len() <= all.len(),
            before == by_label(),
            rest@ == all.take(rest.len() as int),
            list@ == order::sorted(all.skip(rest.len() as int), before),
        decreases rest.len(),
    {
        let ghost count = rest.len();
        let ghost sorted = list@;
        match rest.pop() {
            Some(item) => {
                assert(all.skip(count - 1).drop_first() =~= all.skip(count as int));
                assert(item == all[count - 1]);
                let mut place: usize = 0;
                while place < list.len() && text::str_less(
                    &list[place].target.label,
                    &item.target.label,
                )
                    invariant
                        before == by_label(),
                        sorted == list@,
                        place <= list.len(),
                        forall|j: int| 0 <= j < place ==> before(#[trigger] sorted[j], item),
                    ensures
                        place <= list.len(),
                        forall|j: int| 0 <= j < place ==> before(#[trigger] sorted[j], item),
                        place < list.len() ==> !before(sorted[place as int], item),
                    decreases list.len() - place,
                {
                    place += 1;
                }
                proof {
                    order::lemma_place_is_unique(sorted, before, item, place as int);
                }
                list.insert(place, item);
                assert(rest@ =~= all.take(rest.len() as int));
            },
            None => {},
        }
    }
    assert(all.skip(0) =~= all);
    list
}

/// The result of a run: its targets in the order of their labels, and ranked.
pub fn assemble(
    started_at: Timestamp,
    config: &RunConfig,
    results: Vec<TargetResult>,
    interrupted: bool,
) -> (run: RunResult)
    requires
        config.wf(),
        forall|i: int| 0 <= i < results.len() ==> !(#[trigger] results[i]).qps.is_nan(),
    ensures
        run.schema_version == SCHEMA_VERSION,
        run.started_at == started_at,
        run.config.is_of(*config),
        run.results@ == order::sorted(results@, by_label()),
        report::are_entries(run.ranking@, report::ranked(run.results@)),
        run.interrupted == interrupted,
{
    let ghost given = results@;
    let results = sort_results(results);
    proof {
        order::law_sorted_keeps_items(given, by_label());
        lemma_same_items(given, results@);
    }
    let ranking = report::rank_results(&results);
    RunResult {
        schema_version: SCHEMA_VERSION,
        started_at,
        config: ConfigSnapshot::from(config),
        results,
        ranking,
        interrupted,
    }
}

proof fn lemma_same_items(given: Seq<TargetResult>, list: Seq<TargetResult>)
    requires
        list.to_multiset() == given.to_multiset(),
        forall|i: int| 0 <= i < given.len() ==> !(#[trigger] given[i]).qps.is_nan(),
    ensures
        forall|i: int| 0 <= i < list.len() ==> !(#[trigger] list[i]).qps.is_nan(),
{
    broadcast use vstd::seq_lib::group_to_multiset_ensures;

    assert forall|i: int| 0 <= i < list.len() implies !(#[trigger] list[i]).qps.is_nan() by {
        assert(list.contains(list[i]));
        assert(list.to_multiset().count(list[i]) > 0);
        assert(given.contains(list[i]));
        let j = given.index_of(list[i]);
        assert(!given[j].qps.is_nan());
    }
}

proof fn lemma_by_label_is_weak_order()
    ensures
        order::is_weak_order(by_label()),
{
    let before = by_label();
    assert forall|a: TargetResult| !#[trigger] before(a, a) by {
        text::lemma_less_irreflexive(a.target.label@);
    }
    assert forall|a: TargetResult, b: TargetResult, c: TargetResult| #[trigger]
        before(a, b) && #[trigger] before(b, c) implies before(a, c) by {
        text::lemma_less_transitive(a.target.label@, b.target.label@, c.target.label@);
    }
    assert forall|a: TargetResult, b: TargetResult, c: TargetResult| #[trigger]
        before(a, c) && !before(a, b) implies #[trigger] before(b, c) by {
        text::lemma_less_total(a.target.label@, b.target.label@);
        if a.target.label@ != b.target.label@ {
            text::lemma_less_transitive(b.target.label@, a.target.label@, c.target.label@);
        }
    }
}

/// A run reports every result that it was given, once, in the order of the
/// labels, and ranks each of them.
pub proof fn law_every_target_is_reported(results: Seq<TargetResult>)
    ensures
        ({
            let list = order::sorted(results, by_label());
            &&& list.len() == results.len()
            &&& list.to_multiset() == results.to_multiset()
            &&& report::ranked(list).len() == results.len()
            &&& forall|i: int, j: int|
                0 <= i < j < list.len() ==> !text::less(
                    (#[trigger] list[j]).target.label@,
                    (#[trigger] list[i]).target.label@,
                )
        }),
{
    let list = order::sorted(results, by_label());
    let before = by_label();
    lemma_by_label_is_weak_order();
    order::law_sorted_keeps_items(results, before);
    order::law_sorted_is_in_order(results, before);
    report::law_ranking_is_complete_and_in_order(list);
    assert forall|i: int, j: int| 0 <= i < j < list.len() implies !text::less(
        (#[trigger] list[j]).target.label@,
        (#[trigger] list[i]).target.label@,
    ) by {
        assert(!before(list[j], list[i]));
    }
}

} // verus!
