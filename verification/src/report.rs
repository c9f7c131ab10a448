//! The ranking of targets, the table that people read, and where results go.

use vstd::prelude::*;

use crate::address_text;
use crate::cli::OutputFormat;
use crate::double;
use crate::double::Double;
use crate::engine;
use crate::engine::RunResult;
use crate::order;
use crate::stats::{TargetResult, TypeResult};
use crate::text;

verus! {

/// The place of a target in the ranking.
#[derive(Debug, Clone)]
pub struct RankingEntry {
    pub rank: usize,
    pub target: String,
    pub qps: Double,
}

/// What a target is ranked by.
pub ghost struct Standing {
    pub label: Seq<char>,
    pub qps: Double,
}

/// What the target of a result is ranked by.
pub open spec fn standing(result: TargetResult) -> Standing {
    Standing { label: result.target.label@, qps: result.qps }
}

/// What the targets of results are ranked by.
pub open spec fn standings(results: Seq<TargetResult>) -> Seq<Standing> {
    results.map_values(|result: TargetResult| standing(result))
}

/// The order of the ranking: the higher rate first, and of equal rates the label
/// that comes first.
pub open spec fn outranks() -> spec_fn(Standing, Standing) -> bool {
    |a: Standing, b: Standing|
        a.qps.key() > b.qps.key() || (a.qps.key() == b.qps.key() && text::less(a.label, b.label))
}

/// The targets in the order of the ranking.
pub open spec fn ranked(results: Seq<TargetResult>) -> Seq<Standing> {
    order::sorted(standings(results), outranks())
}

/// Whether entries are those of targets in the given order, numbered from one.
pub open spec fn are_entries(entries: Seq<RankingEntry>, order: Seq<Standing>) -> bool {
    &&& entries.len() == order.len()
    &&& forall|i: int|
        0 <= i < entries.len() ==> (#[trigger] entries[i]).rank == i + 1 && entries[i].target@
            == order[i].label && entries[i].qps == order[i].qps
}

/// What entries rank their targets by.
pub open spec fn entry_standings(entries: Seq<RankingEntry>) -> Seq<Standing> {
    entries.map_values(
        |entry: RankingEntry| Standing { label: entry.target@, qps: entry.qps },
    )
}

/// The ranking of results, by rate.
pub fn rank_results(results: &[TargetResult]) -> (entries: Vec<RankingEntry>)
    requires
        forall|i: int| 0 <= i < results.len() ==> !(#[trigger] results[i]).qps.is_nan(),
    ensures
        are_entries(entries@, ranked(results@)),
{
    let ghost all = standings(results@);
    let ghost before = outranks();
    let mut entries: Vec<RankingEntry> = Vec::new();
    let mut i: usize = results.len();
    assert(all.skip(i as int) =~= Seq::empty());
    assert(entry_standings(entries@) =~= order::sorted(all.skip(i as int), before));
    while i > 0
        invariant
            i <= results.len(),
            all == standings(results@),
            before == outranks(),
            entry_standings(entries@) == order::sorted(all.skip(i as int), before),
        decreases i,
    {
        i -= 1;
        let ghost rest = all.skip(i + 1);
        let ghost sorted = entry_standings(entries@);
        let ghost item = all[i as int];
        assert(all.skip(i as int).drop_first() =~= rest);
        let key = results[i].qps.order_key();
        let mut place: usize = 0;
        while place < entries.len() && (entries[place].qps.order_key() > key || (
        entries[place].qps.order_key() == key && text::str_less(
            &entries[place].target,
            &results[i].target.label,
        )))
            invariant
                i < results.len(),
                all == standings(results@),
                before == outranks(),
                item == all[i as int],
                sorted == entry_standings(entries@),
                key == item.qps.key(),
                place <= entries.len(),
                forall|j: int| 0 <= j < place ==> before(#[trigger] sorted[j], item),
            ensures
                place <= entries.len(),
                forall|j: int| 0 <= j < place ==> before(#[trigger] sorted[j], item),
                place < entries.len() ==> !before(sorted[place as int], item),
            decreases entries.len() - place,
        {
            place += 1;
        }
        proof {
            order::lemma_place_is_unique(sorted, before, item, place as int);
        }
        let entry = RankingEntry {
            rank: 0,
            target: results[i].target.label.clone(),
            qps: results[i].qps,
        };
        let ghost shown = Standing { label: entry.target@, qps: entry.qps };
        assert(shown == item);
        entries.insert(place, entry);
        assert(entry_standings(entries@) =~= sorted.insert(place as int, item));
    }
    assert(all.skip(0) =~= all);
    let ghost order = ranked(results@);
    let count = entries.len();
    for j in 0..count
        invariant
            count == entries.len(),
            entry_standings(entries@) == order,
            forall|k: int| 0 <= k < j ==> (#[trigger] entries[k]).rank == k + 1,
    {
        let ghost had = entry_standings(entries@);
        entries[j].rank = j + 1;
        assert(entry_standings(entries@) =~= had);
    }
    assert forall|k: int| 0 <= k < entries.len() implies (#[trigger] entries[k]).target@
        == order[k].label && entries[k].qps == order[k].qps by {
        assert(entry_standings(entries@)[k] == order[k]);
    }
    entries
}

proof fn lemma_outranks_is_weak_order()
    ensures
        order::is_weak_order(outranks()),
{
    let before = outranks();
    assert forall|a: Standing| !#[trigger] before(a, a) by {
        text::lemma_less_irreflexive(a.label);
    }
    assert forall|a: Standing, b: Standing, c: Standing| #[trigger]
        before(a, b) && #[trigger] before(b, c) implies before(a, c) by {
        if a.qps.key() == c.qps.key() {
            text::lemma_less_transitive(a.label, b.label, c.label);
        }
    }
    assert forall|a: Standing, b: Standing, c: Standing| #[trigger]
        before(a, c) && !before(a, b) implies #[trigger] before(b, c) by {
        if a.qps.key() == c.qps.key() && a.qps.key() == b.qps.key() {
            text::lemma_less_total(a.label, b.label);
            if a.label != b.label {
                text::lemma_less_transitive(b.label, a.label, c.label);
            }
        }
    }
}

/// The ranking holds every target once, the higher rate first, and targets of
/// equal rates in the order of their labels.
pub proof fn law_ranking_is_complete_and_in_order(results: Seq<TargetResult>)
    ensures
        ranked(results).len() == results.len(),
        ranked(results).to_multiset() == standings(results).to_multiset(),
        forall|i: int, j: int|
            0 <= i < j < ranked(results).len() ==> {
                let first = #[trigger] ranked(results)[i];
                let then = #[trigger] ranked(results)[j];
                &&& first.qps.key() >= then.qps.key()
                &&& first.qps.key() == then.qps.key() ==> first.label == then.label || text::less(
                    first.label,
                    then.label,
                )
            },
{
    lemma_outranks_is_weak_order();
    order::law_sorted_keeps_items(standings(results), outranks());
    order::law_sorted_is_in_order(standings(results), outranks());
    let list = ranked(results);
    let before = outranks();
    assert forall|i: int, j: int| 0 <= i < j < list.len() implies {
        let first = #[trigger] list[i];
        let then = #[trigger] list[j];
        &&& first.qps.key() >= then.qps.key()
        &&& first.qps.key() == then.qps.key() ==> first.label == then.label || text::less(
            first.label,
            then.label,
        )
    } by {
        assert(!before(list[j], list[i]));
        text::lemma_less_total(list[i].label, list[j].label);
    }
}

/// The ranking is the same for every reordering of the results, where no two of
/// one label have rates that are equal but differ in their bits, as the two
/// zeros do.
pub proof fn law_ranking_ignores_order(results: Seq<TargetResult>, reordered: Seq<TargetResult>)
    requires
        standings(results).to_multiset() == standings(reordered).to_multiset(),
        forall|i: int, j: int|
            0 <= i < results.len() && 0 <= j < results.len() && (
            #[trigger] results[i]).target.label@ == (#[trigger] results[j]).target.label@
                && results[i].qps.key() == results[j].qps.key() ==> results[i].qps
                == results[j].qps,
    ensures
        ranked(results) == ranked(reordered),
{
    let list = standings(results);
    let before = outranks();
    lemma_outranks_is_weak_order();
    assert forall|a: Standing, b: Standing|
        list.contains(a) && list.contains(b) && !#[trigger] before(a, b) && !before(
            b,
            a,
        ) implies a == b by {
        text::lemma_less_total(a.label, b.label);
        let i = list.index_of(a);
        let j = list.index_of(b);
        assert(list[i] == standing(results[i]) && list[j] == standing(results[j]));
    }
    order::law_sorted_ignores_order(list, standings(reordered), before);
}

/// Entries of a ranking are numbered from one, one for each result and with its
/// label and its rate. Of two entries the first has the higher rate, by the value
/// that the rate stands for, or of equal rates the label that comes first.
pub proof fn law_entries_rank_the_results(
    results: Seq<TargetResult>,
    entries: Seq<RankingEntry>,
)
    requires
        are_entries(entries, ranked(results)),
    ensures
        entries.len() == results.len(),
        forall|i: int| 0 <= i < entries.len() ==> (#[trigger] entries[i]).rank == i + 1,
        forall|i: int|
            0 <= i < results.len() ==> exists|j: int|
                0 <= j < entries.len() && (#[trigger] entries[j]).target@ == (
                #[trigger] results[i]).target.label@ && entries[j].qps == results[i].qps,
        forall|j: int|
            0 <= j < entries.len() ==> exists|i: int|
                0 <= i < results.len() && (#[trigger] entries[j]).target@ == (
                #[trigger] results[i]).target.label@ && entries[j].qps == results[i].qps,
        forall|i: int, j: int|
            0 <= i < j < entries.len() ==> {
                let first = #[trigger] entries[i];
                let then = #[trigger] entries[j];
                let (rate, next) = (
                    double::value(first.qps.bits as int),
                    double::value(then.qps.bits as int),
                );
                &&& rate >= next
                &&& rate == next ==> first.target@ == then.target@ || text::less(
                    first.target@,
                    then.target@,
                )
            },
{
    law_ranking_is_complete_and_in_order(results);
    let list = ranked(results);
    let all = standings(results);
    assert forall|i: int| 0 <= i < results.len() implies exists|j: int|
        0 <= j < entries.len() && (#[trigger] entries[j]).target@ == (
        #[trigger] results[i]).target.label@ && entries[j].qps == results[i].qps by {
        assert(all[i] == standing(results[i]));
        assert(all.contains(all[i]));
        all.to_multiset_ensures();
        list.to_multiset_ensures();
        assert(all.to_multiset().contains(all[i]));
        assert(list.to_multiset().contains(all[i]));
        assert(list.contains(all[i]));
        let j = list.index_of(all[i]);
        assert(entries[j].target@ == list[j].label);
    }
    assert forall|j: int| 0 <= j < entries.len() implies exists|i: int|
        0 <= i < results.len() && (#[trigger] entries[j]).target@ == (
        #[trigger] results[i]).target.label@ && entries[j].qps == results[i].qps by {
        assert(list.contains(list[j]));
        all.to_multiset_ensures();
        list.to_multiset_ensures();
        assert(list.to_multiset().contains(list[j]));
        assert(all.to_multiset().contains(list[j]));
        assert(all.contains(list[j]));
        let i = all.index_of(list[j]);
        assert(all[i] == standing(results[i]));
    }
    assert forall|i: int, j: int| 0 <= i < j < entries.len() implies {
        let first = #[trigger] entries[i];
        let then = #[trigger] entries[j];
        let (rate, next) = (
            double::value(first.qps.bits as int),
            double::value(then.qps.bits as int),
        );
        &&& rate >= next
        &&& rate == next ==> first.target@ == then.target@ || text::less(first.target@, then.target@)
    } by {
        assert(list[i].qps == entries[i].qps && list[j].qps == entries[j].qps);
        double::law_numbers_are_ordered_by_value(list[i].qps, list[j].qps);
        double::law_numbers_are_ordered_by_value(list[j].qps, list[i].qps);
    }
}

/// A latency as the table shows it.
pub open spec fn latency_text(value: Option<u64>) -> Seq<char> {
    match value {
        Some(latency) => text::decimal(latency as nat),
        None => "-"@,
    }
}

/// A latency as the table shows it.
pub fn display_latency(value: Option<u64>) -> (shown: String)
    ensures
        shown@ == latency_text(value),
{
    match value {
        Some(latency) => text::decimal_text(latency),
        None => "-".to_owned(),
    }
}

/// What the table shows of a target that comes in text form: the length of the
/// measurement in seconds, and the rates of its responses and of those of each
/// record type.
#[derive(Debug)]
pub struct TargetTexts {
    pub elapsed: String,
    pub qps: String,
    pub type_qps: Vec<String>,
}

/// A text with a space and a column of a text at its right after it.
pub open spec fn cell(out: Seq<char>, s: Seq<char>, width: nat) -> Seq<char> {
    out + " "@ + text::right_column(s, width)
}

/// A text with a space and a column of a number at its right after it.
pub open spec fn number_cell(out: Seq<char>, n: u64, width: nat) -> Seq<char> {
    cell(out, text::decimal(n as nat), width)
}

fn push_cell(out: &mut String, s: &str, width: usize)
    ensures
        final(out)@ == cell(old(out)@, s@, width as nat),
{
    out.push_str(" ");
    text::push_right(out, s, width);
}

fn push_number_cell(out: &mut String, n: u64, width: usize)
    ensures
        final(out)@ == number_cell(old(out)@, n, width as nat),
{
    let digits = text::decimal_text(n);
    push_cell(out, &digits, width);
}

/// A text with the first line of the table after it.
pub open spec fn with_title(out: Seq<char>, run: RunResult) -> Seq<char> {
    out + "DNSBlast comparison — "@ + text::decimal(run.results.len() as nat) + " target(s), "@
        + text::uppered(run.config.transport@) + ", "@ + engine::rfc3339_text(
        run.started_at.secs,
        run.started_at.nanos,
    ) + "\n"@
}

/// A text with the heads of the columns after it.
pub open spec fn with_heads(out: Seq<char>) -> Seq<char> {
    let out = out + text::left_column("RANK"@, 4) + " "@ + text::left_column("TARGET"@, 18);
    let out = cell(out, "QPS"@, 11);
    let out = cell(out, "ATTEMPTS"@, 10);
    let out = cell(out, "RESP"@, 9);
    let out = cell(out, "OK"@, 9);
    let out = cell(out, "TIMEOUT"@, 9);
    let out = cell(out, "ERROR"@, 10);
    let out = cell(out, "P50(us)"@, 10);
    let out = cell(out, "P99(us)"@, 10);
    out + "\n"@
}

/// A text with the row of a ranked target after it.
pub open spec fn with_row(
    out: Seq<char>,
    rank: usize,
    item: TargetResult,
    qps: Seq<char>,
) -> Seq<char> {
    let out = out + text::left_column(text::decimal(rank as nat), 4) + " "@ + text::left_column(
        item.target.label@,
        18,
    );
    let out = cell(out, qps, 11);
    let out = number_cell(out, item.attempts, 10);
    let out = number_cell(out, item.responses, 9);
    let out = number_cell(out, item.successes, 9);
    let out = number_cell(out, item.timeouts, 9);
    let out = number_cell(out, item.errors, 10);
    let out = cell(out, latency_text(item.latency.p50_us), 10);
    let out = cell(out, latency_text(item.latency.p99_us), 10);
    out + "\n"@
}

/// Where the first result of a label stands, or the number of results.
pub open spec fn first_labelled(results: Seq<TargetResult>, label: Seq<char>) -> int
    decreases results.len(),
{
    if results.len() == 0 || results.first().target.label@ == label {
        0
    } else {
        1 + first_labelled(results.drop_first(), label)
    }
}

/// A text with the rows of the ranked targets after it.
pub open spec fn with_rows(
    out: Seq<char>,
    ranking: Seq<RankingEntry>,
    results: Seq<TargetResult>,
    texts: Seq<TargetTexts>,
) -> Seq<char>
    decreases ranking.len(),
{
    if ranking.len() == 0 {
        out
    } else {
        let before = with_rows(out, ranking.drop_last(), results, texts);
        let entry = ranking.last();
        let i = first_labelled(results, entry.target@);
        if i < results.len() {
            with_row(before, entry.rank, results[i], texts[i].qps@)
        } else {
            before
        }
    }
}

/// The response codes with their counts.
pub open spec fn codes_text(labels: Seq<Seq<char>>, counts: Seq<u64>) -> Seq<char>
    decreases labels.len(),
{
    if labels.len() == 0 {
        Seq::empty()
    } else {
        let before = codes_text(labels.drop_last(), counts.drop_last());
        let before = if labels.len() > 1 {
            before + ", "@
        } else {
            before
        };
        before + labels.last() + "="@ + text::decimal(counts.last() as nat)
    }
}

/// A text with the row of a record type after it.
pub open spec fn with_type_row(
    out: Seq<char>,
    label: Seq<char>,
    item: TypeResult,
    qps: Seq<char>,
) -> Seq<char> {
    let out = out + "  "@ + text::left_column(label, 12);
    let out = cell(out, qps, 10);
    let out = number_cell(out, item.attempts, 10);
    let out = number_cell(out, item.responses, 10);
    let out = cell(out, latency_text(item.latency.p50_us), 10);
    let out = cell(out, latency_text(item.latency.p99_us), 10);
    out + "\n"@
}

/// A text with the rows of the first record types after it.
pub open spec fn with_type_rows(
    out: Seq<char>,
    labels: Seq<Seq<char>>,
    items: Seq<TypeResult>,
    qps: Seq<Seq<char>>,
    n: nat,
) -> Seq<char>
    decreases n,
{
    if n == 0 {
        out
    } else {
        let last = n - 1;
        with_type_row(
            with_type_rows(out, labels, items, qps, last as nat),
            labels[last],
            items[last],
            qps[last],
        )
    }
}

/// A text with the heads of the columns of record types after it.
pub open spec fn with_type_heads(out: Seq<char>) -> Seq<char> {
    let out = out + "  "@ + text::left_column("TYPE"@, 12);
    let out = cell(out, "QPS"@, 10);
    let out = cell(out, "ATTEMPTS"@, 10);
    let out = cell(out, "RESP"@, 10);
    let out = cell(out, "P50(us)"@, 10);
    let out = cell(out, "P99(us)"@, 10);
    out + "\n"@
}

/// A text with the details of a target after it.
pub open spec fn with_details(out: Seq<char>, item: TargetResult, texts: TargetTexts) -> Seq<
    char,
> {
    let out = out + "\n"@ + item.target.label@ + " ("@ + address_text::endpoint_text(
        item.target.address,
    ) + ") — elapsed "@
        + texts.elapsed@ + "s, bytes sent/received "@ + text::decimal(item.bytes_sent as nat) + "/"@
        + text::decimal(item.bytes_received as nat) + ", TC "@ + text::decimal(
        item.truncated as nat,
    ) + ", AD "@ + text::decimal(item.authenticated_data as nat) + ", RRSIG responses "@
        + text::decimal(item.rrsig_responses as nat) + ", DNSSEC records "@ + text::decimal(
        item.dnssec_records as nat,
    ) + "\n"@;
    let codes = if item.response_codes.labels.len() == 0 {
        "none"@
    } else {
        codes_text(item.response_codes.label_texts(), item.response_codes.values@)
    };
    let out = out + "  response codes: "@ + codes + "\n"@;
    if item.by_record_type.labels.len() > 1 {
        with_type_rows(
            with_type_heads(out),
            item.by_record_type.label_texts(),
            item.by_record_type.values@,
            text::texts(texts.type_qps@),
            item.by_record_type.labels.len() as nat,
        )
    } else {
        out
    }
}

/// A text with the details of the first targets after it.
pub open spec fn with_all_details(
    out: Seq<char>,
    results: Seq<TargetResult>,
    texts: Seq<TargetTexts>,
    n: nat,
) -> Seq<char>
    decreases n,
{
    if n == 0 {
        out
    } else {
        let last = n - 1;
        with_details(
            with_all_details(out, results, texts, last as nat),
            results[last],
            texts[last],
        )
    }
}

/// The table that people read.
pub open spec fn human_table(run: RunResult, texts: Seq<TargetTexts>) -> Seq<char> {
    let out = with_heads(with_title(Seq::empty(), run));
    let out = with_rows(out, run.ranking@, run.results@, texts);
    let out = with_all_details(out, run.results@, texts, run.results.len() as nat);
    if run.interrupted {
        out + "\nRun interrupted; partial completed results shown.\n"@
    } else {
        out
    }
}

/// Whether there are texts for each target and each of its record types.
pub open spec fn has_texts(results: Seq<TargetResult>, texts: Seq<TargetTexts>) -> bool {
    &&& texts.len() == results.len()
    &&& forall|i: int| 0 <= i < results.len() ==> (#[trigger] results[i]).wf()
    &&& forall|i: int|
        0 <= i < results.len() ==> (#[trigger] texts[i]).type_qps.len()
            == results[i].by_record_type.labels.len()
}

fn push_title(out: &mut String, run: &RunResult)
    requires
        run.started_at.wf(),
    ensures
        final(out)@ == with_title(old(out)@, *run),
{
    let transport = text::chars_of(&run.config.transport);
    let capital = text::string_of(&text::upper(&transport));
    let moment = run.started_at.rfc3339();
    out.push_str("DNSBlast comparison — ");
    text::push_decimal(out, run.results.len() as u64);
    out.push_str(" target(s), ");
    out.push_str(&capital);
    out.push_str(", ");
    out.push_str(&moment);
    out.push_str("\n");
}

fn push_heads(out: &mut String)
    ensures
        final(out)@ == with_heads(old(out)@),
{
    text::push_left(out, "RANK", 4);
    out.push_str(" ");
    text::push_left(out, "TARGET", 18);
    push_cell(out, "QPS", 11);
    push_cell(out, "ATTEMPTS", 10);
    push_cell(out, "RESP", 9);
    push_cell(out, "OK", 9);
    push_cell(out, "TIMEOUT", 9);
    push_cell(out, "ERROR", 10);
    push_cell(out, "P50(us)", 10);
    push_cell(out, "P99(us)", 10);
    out.push_str("\n");
}

fn push_row(out: &mut String, rank: usize, item: &TargetResult, qps: &str)
    ensures
        final(out)@ == with_row(old(out)@, rank, *item, qps@),
{
    let place = text::decimal_text(rank as u64);
    let p50 = display_latency(item.latency.p50_us);
    let p99 = display_latency(item.latency.p99_us);
    text::push_left(out, &place, 4);
    out.push_str(" ");
    text::push_left(out, &item.target.label, 18);
    push_cell(out, qps, 11);
    push_number_cell(out, item.attempts, 10);
    push_number_cell(out, item.responses, 9);
    push_number_cell(out, item.successes, 9);
    push_number_cell(out, item.timeouts, 9);
    push_number_cell(out, item.errors, 10);
    push_cell(out, &p50, 10);
    push_cell(out, &p99, 10);
    out.push_str("\n");
}

fn find_labelled(results: &Vec<TargetResult>, label: &str) -> (index: usize)
    ensures
        index == first_labelled(results@, label@),
        index <= results.len(),
{
    let mut i: usize = 0;
    assert(results@.skip(0) =~= results@);
    while i < results.len() && !text::str_same(&results[i].target.label, label)
        invariant
            i <= results.len(),
            first_labelled(results@, label@) == i + first_labelled(results@.skip(i as int), label@),
        ensures
            i <= results.len(),
            i == first_labelled(results@, label@),
        decreases results.len() - i,
    {
        assert(results@.skip(i as int).drop_first() =~= results@.skip(i + 1));
        i += 1;
    }
    i
}

fn push_rows(
    out: &mut String,
    ranking: &Vec<RankingEntry>,
    results: &Vec<TargetResult>,
    texts: &[TargetTexts],
)
    requires
        texts.len() == results.len(),
    ensures
        final(out)@ == with_rows(old(out)@, ranking@, results@, texts@),
{
    for i in 0..ranking.len()
        invariant
            texts.len() == results.len(),
            out@ == with_rows(old(out)@, ranking@.take(i as int), results@, texts@),
    {
        assert(ranking@.take(i + 1).drop_last() =~= ranking@.take(i as int));
        let index = find_labelled(results, &ranking[i].target);
        if index < results.len() {
            push_row(out, ranking[i].rank, &results[index], &texts[index].qps);
        }
    }
    assert(ranking@.take(ranking.len() as int) =~= ranking@);
}

fn push_codes(out: &mut String, item: &TargetResult)
    requires
        item.wf(),
    ensures
        final(out)@ == old(out)@ + (if item.response_codes.labels.len() == 0 {
            "none"@
        } else {
            codes_text(item.response_codes.label_texts(), item.response_codes.values@)
        }),
{
    let codes = &item.response_codes;
    if codes.labels.len() == 0 {
        out.push_str("none");
        return ;
    }
    let ghost labels = codes.label_texts();
    let mut shown = String::new();
    assert(shown@ =~= codes_text(labels.take(0), codes.values@.take(0)));
    for i in 0..codes.labels.len()
        invariant
            codes.wf(),
            labels == codes.label_texts(),
            shown@ == codes_text(labels.take(i as int), codes.values@.take(i as int)),
    {
        assert(labels.take(i + 1).drop_last() =~= labels.take(i as int));
        assert(codes.values@.take(i + 1).drop_last() =~= codes.values@.take(i as int));
        assert(labels[i as int] == codes.labels[i as int]@);
        if i > 0 {
            shown.push_str(", ");
        }
        shown.push_str(&codes.labels[i]);
        shown.push_str("=");
        text::push_decimal(&mut shown, codes.values[i]);
    }
    assert(labels.take(codes.labels.len() as int) =~= labels);
    assert(codes.values@.take(codes.labels.len() as int) =~= codes.values@);
    out.push_str(&shown);
}

fn push_type_heads(out: &mut String)
    ensures
        final(out)@ == with_type_heads(old(out)@),
{
    out.push_str("  ");
    text::push_left(out, "TYPE", 12);
    push_cell(out, "QPS", 10);
    push_cell(out, "ATTEMPTS", 10);
    push_cell(out, "RESP", 10);
    push_cell(out, "P50(us)", 10);
    push_cell(out, "P99(us)", 10);
    out.push_str("\n");
}

fn push_type_row(out: &mut String, label: &str, item: &TypeResult, qps: &str)
    ensures
        final(out)@ == with_type_row(old(out)@, label@, *item, qps@),
{
    let p50 = display_latency(item.latency.p50_us);
    let p99 = display_latency(item.latency.p99_us);
    out.push_str("  ");
    text::push_left(out, label, 12);
    push_cell(out, qps, 10);
    push_number_cell(out, item.attempts, 10);
    push_number_cell(out, item.responses, 10);
    push_cell(out, &p50, 10);
    push_cell(out, &p99, 10);
    out.push_str("\n");
}

fn push_details(out: &mut String, item: &TargetResult, texts: &TargetTexts)
    requires
        item.wf(),
        texts.type_qps.len() == item.by_record_type.labels.len(),
    ensures
        final(out)@ == with_details(old(out)@, *item, *texts),
{
    let address = item.target.address.text();
    out.push_str("\n");
    out.push_str(&item.target.label);
    out.push_str(" (");
    out.push_str(&address);
    out.push_str(") — elapsed ");
    out.push_str(&texts.elapsed);
    out.push_str("s, bytes sent/received ");
    text::push_decimal(out, item.bytes_sent);
    out.push_str("/");
    text::push_decimal(out, item.bytes_received);
    out.push_str(", TC ");
    text::push_decimal(out, item.truncated);
    out.push_str(", AD ");
    text::push_decimal(out, item.authenticated_data);
    out.push_str(", RRSIG responses ");
    text::push_decimal(out, item.rrsig_responses);
    out.push_str(", DNSSEC records ");
    text::push_decimal(out, item.dnssec_records);
    out.push_str("\n");
    out.push_str("  response codes: ");
    push_codes(out, item);
    out.push_str("\n");
    let types = &item.by_record_type;
    if types.labels.len() > 1 {
        push_type_heads(out);
        let ghost start = out@;
        for i in 0..types.labels.len()
            invariant
                types.wf(),
                texts.type_qps.len() == types.labels.len(),
                out@ == with_type_rows(
                    start,
                    types.label_texts(),
                    types.values@,
                    text::texts(texts.type_qps@),
                    i as nat,
                ),
        {
            assert(types.label_texts()[i as int] == types.labels[i as int]@);
            assert(text::texts(texts.type_qps@)[i as int] == texts.type_qps[i as int]@);
            push_type_row(out, &types.labels[i], &types.values[i], &texts.type_qps[i]);
        }
    }
}

/// Writes the table that people read: the ranking, the details of each target,
/// and a note where the run was interrupted. `texts` holds, for each result,
/// what comes in text form.
pub fn render_human(run: &RunResult, texts: &[TargetTexts]) -> (table: String)
    requires
        run.started_at.wf(),
        has_texts(run.results@, texts@),
    ensures
        table@ == human_table(*run, texts@),
{
    let mut out = String::new();
    assert(out@ =~= Seq::empty());
    push_title(&mut out, run);
    push_heads(&mut out);
    push_rows(&mut out, &run.ranking, &run.results, texts);
    let ghost start = out@;
    for i in 0..run.results.len()
        invariant
            has_texts(run.results@, texts@),
            out@ == with_all_details(start, run.results@, texts@, i as nat),
    {
        push_details(&mut out, &run.results[i], &texts[i]);
    }
    if run.interrupted {
        out.push_str("\nRun interrupted; partial completed results shown.\n");
    }
    out
}

/// Where results go.
#[derive(Debug, Clone, Copy, PartialEq, Eq, Structural)]
pub enum OutputPlan {
    /// The table, to standard output.
    PrintTable,
    /// JSON, to standard output.
    PrintJson,
    /// JSON, to the file.
    WriteJson,
    /// The table, to the file.
    WriteTable,
}

/// Why an output is refused.
#[derive(Debug, Clone, Copy, PartialEq, Eq, Structural)]
pub enum OutputError {
    /// A file is named that the format does not write to.
    UnexpectedFile,
    /// No file is named that the format could write to.
    MissingFile,
}

/// Where results of a format go, with or without a file.
pub open spec fn output_plan(format: OutputFormat, file: bool) -> Result<OutputPlan, OutputError> {
    match format {
        OutputFormat::Stdout => if file {
            Err(OutputError::UnexpectedFile)
        } else {
            Ok(OutputPlan::PrintTable)
        },
        OutputFormat::Json => if file {
            Ok(OutputPlan::WriteJson)
        } else {
            Ok(OutputPlan::PrintJson)
        },
        OutputFormat::Log => if file {
            Ok(OutputPlan::WriteTable)
        } else {
            Err(OutputError::MissingFile)
        },
    }
}

/// Decides where results of a format go. `output_file` is the file that is
/// named, where one is.
pub fn validate_output(format: OutputFormat, output_file: &Option<std::path::PathBuf>) -> (plan:
    Result<OutputPlan, OutputError>)
    ensures
        plan == output_plan(format, *output_file is Some),
{
    match format {
        OutputFormat::Stdout => {
            if output_file.is_some() {
                Err(OutputError::UnexpectedFile)
            } else {
                Ok(OutputPlan::PrintTable)
            }
        },
        OutputFormat::Json => {
            if output_file.is_some() {
                Ok(OutputPlan::WriteJson)
            } else {
                Ok(OutputPlan::PrintJson)
            }
        },
        OutputFormat::Log => {
            if output_file.is_some() {
                Ok(OutputPlan::WriteTable)
            } else {
                Err(OutputError::MissingFile)
            }
        },
    }
}

impl OutputError {
    /// The message for why an output is refused.
    pub open spec fn text(self) -> Seq<char> {
        match self {
            OutputError::UnexpectedFile =>
                "--output-file is supported with --output json or --output log"@,
            OutputError::MissingFile => "--output log requires --output-file PATH"@,
        }
    }

    /// The message for why an output is refused.
    pub fn message(&self) -> (message: String)
        ensures
            message@ == self.text(),
    {
        match self {
            OutputError::UnexpectedFile =>
                "--output-file is supported with --output json or --output log".to_owned(),
            OutputError::MissingFile => "--output log requires --output-file PATH".to_owned(),
        }
    }
}

/// The name of the file that a directory is tried with.
pub open spec fn probe_text(process: u32) -> Seq<char> {
    ".dnsblast-write-test-"@ + text::decimal(process as nat)
}

/// The name of the file that a directory is tried with, by a process.
pub fn probe_name(process: u32) -> (name: String)
    ensures
        name@ == probe_text(process),
{
    let mut name = String::new();
    name.push_str(".dnsblast-write-test-");
    text::push_decimal(&mut name, process as u64);
    assert(name@ =~= probe_text(process));
    name
}

/// The name of the file that results are written to before they replace another.
pub open spec fn temporary_text(file_name: Seq<char>, process: u32) -> Seq<char> {
    "."@ + file_name + "."@ + text::decimal(process as nat) + ".tmp"@
}

/// The name of the file that a process writes results to before they replace
/// the file of the given name.
pub fn temporary_name(file_name: &str, process: u32) -> (name: String)
    ensures
        name@ == temporary_text(file_name@, process),
{
    let mut name = String::new();
    name.push_str(".");
    name.push_str(file_name);
    name.push_str(".");
    text::push_decimal(&mut name, process as u64);
    name.push_str(".tmp");
    assert(name@ =~= temporary_text(file_name@, process));
    name
}

/// Results are never written into the file that they replace.
pub proof fn law_temporary_file_is_another(file_name: Seq<char>, process: u32)
    ensures
        temporary_text(file_name, process) != file_name,
{
    reveal_strlit(".");
    assert(temporary_text(file_name, process).len() > file_name.len());
}

/// Results are written to a file exactly when one is named and the format is one
/// for files, and else printed. They are JSON exactly when that is the format. The
/// format for standard output takes no file, and the format for logs needs one;
/// every other request is accepted.
pub proof fn law_results_go_where_asked(format: OutputFormat, file: bool)
    ensures
        ({
            let plan = output_plan(format, file);
            &&& plan == Err::<OutputPlan, OutputError>(OutputError::UnexpectedFile) <==> format
                is Stdout && file
            &&& plan == Err::<OutputPlan, OutputError>(OutputError::MissingFile) <==> format is Log
                && !file
            &&& plan is Ok ==> {
                &&& plan->Ok_0 is WriteJson || plan->Ok_0 is WriteTable <==> file
                &&& plan->Ok_0 is WriteJson || plan->Ok_0 is PrintJson <==> format is Json
            }
        }),
{
}

/// Whether a text holds another, all of it in one place.
pub open spec fn mentions(s: Seq<char>, part: Seq<char>) -> bool {
    exists|i: int| 0 <= i <= s.len() - part.len() && #[trigger] s.subrange(i, i + part.len()) == part
}

/// A refused output names the option for the file that is too much or missing,
/// and the formats that such a file goes with.
pub proof fn law_refused_output_names_its_option()
    ensures
        mentions(OutputError::UnexpectedFile.text(), "--output-file"@),
        mentions(OutputError::UnexpectedFile.text(), "--output json"@),
        mentions(OutputError::UnexpectedFile.text(), "--output log"@),
        mentions(OutputError::MissingFile.text(), "--output log"@),
        mentions(OutputError::MissingFile.text(), "--output-file"@),
        mentions(OutputError::MissingFile.text(), "requires"@),
        mentions(OutputError::UnexpectedFile.text(), "supported"@),
{
    reveal_strlit("--output-file is supported with --output json or --output log");
    reveal_strlit("--output log requires --output-file PATH");
    reveal_strlit("--output-file");
    reveal_strlit("--output json");
    reveal_strlit("--output log");
    reveal_strlit("requires");
    reveal_strlit("supported");
    let a = OutputError::UnexpectedFile.text();
    let b = OutputError::MissingFile.text();
    lemma_mentions(a, "--output-file"@, 0);
    lemma_mentions(a, "supported"@, 17);
    lemma_mentions(a, "--output json"@, 32);
    lemma_mentions(a, "--output log"@, 49);
    lemma_mentions(b, "--output log"@, 0);
    lemma_mentions(b, "requires"@, 13);
    lemma_mentions(b, "--output-file"@, 22);
}

/// A text holds what stands in it from a place on.
pub proof fn lemma_mentions(s: Seq<char>, part: Seq<char>, i: int)
    requires
        0 <= i <= s.len() - part.len(),
        forall|k: int| 0 <= k < part.len() ==> #[trigger] s[i + k] == part[k],
    ensures
        mentions(s, part),
{
    let held = s.subrange(i, i + part.len());
    assert forall|k: int| 0 <= k < part.len() implies held[k] == part[k] by {
        assert(s[i + k] == part[k]);
    }
    assert(held =~= part);
}

/// Two processes never try a directory, or write before a file is replaced, with
/// files of the same name. Neither name is that of a file that is shown by
/// default, and neither is taken for the other.
pub proof fn law_processes_have_their_own_files(
    file_name: Seq<char>,
    process: u32,
    other: u32,
)
    requires
        process != other,
    ensures
        probe_text(process) != probe_text(other),
        temporary_text(file_name, process) != temporary_text(file_name, other),
        probe_text(process).first() == '.',
        temporary_text(file_name, process).first() == '.',
        probe_text(process) != temporary_text(file_name, other),
        probe_text(process) != temporary_text(file_name, process),
        mentions(temporary_text(file_name, process), file_name),
        mentions(temporary_text(file_name, process), text::decimal(process as nat)),
        mentions(probe_text(process), text::decimal(process as nat)),
{
    let (a, b) = (text::decimal(process as nat), text::decimal(other as nat));
    reveal_strlit(".dnsblast-write-test-");
    reveal_strlit(".");
    reveal_strlit(".tmp");
    text::lemma_decimal_reads_back(process as nat);
    text::lemma_decimal_reads_back(other as nat);
    let (p, q) = (probe_text(process), probe_text(other));
    assert(p.skip(21) =~= a);
    assert(q.skip(21) =~= b);
    let (s, t) = (temporary_text(file_name, process), temporary_text(file_name, other));
    let from = file_name.len() as int + 2;
    assert(s.subrange(from, s.len() - 4) =~= a);
    assert(t.subrange(from, t.len() - 4) =~= b);
    assert(s.last() == 'p' && t.last() == 'p');
    assert(p.last() == a.last());
    assert('0' <= a[a.len() - 1] <= '9');
    assert(s.subrange(1, 1 + file_name.len() as int) =~= file_name);
    assert(s.subrange(from, from + a.len()) =~= a);
    assert(p.subrange(21, 21 + a.len() as int) =~= a);
}

} // verus!
