//! What the table that people read shows: which figure stands under which head,
//! and which behind which name.

use vstd::prelude::*;

use crate::address_text;
use crate::engine;
use crate::engine::RunResult;
use crate::report;
use crate::report::{RankingEntry, TargetTexts};
use crate::stats::{TargetResult, TypeResult};
use crate::text;

verus! {

/// The words of a line: what stands between its blanks.
pub open spec fn words(line: Seq<char>) -> Seq<Seq<char>> {
    text::split(line, ' ').filter(|part: Seq<char>| part.len() > 0)
}

/// Whether a text is one word.
pub open spec fn is_word(s: Seq<char>) -> bool {
    s.len() > 0 && forall|i: int| 0 <= i < s.len() ==> (#[trigger] s[i]) != ' '
}

proof fn lemma_words_of_two(a: Seq<char>, b: Seq<char>)
    ensures
        words(a + seq![' '] + b) == words(a) + words(b),
{
    text::lemma_split_of_two(a, b, ' ');
    Seq::filter_distributes_over_add(
        text::split(a, ' '),
        text::split(b, ' '),
        |part: Seq<char>| part.len() > 0,
    );
}

proof fn lemma_words_of_word(s: Seq<char>)
    requires
        is_word(s),
    ensures
        words(s) == seq![s],
{
    assert(!s.contains(' ')) by {
        if s.contains(' ') {
            let i = s.index_of(' ');
            assert(s[i] != ' ');
        }
    }
    text::lemma_split_of_one(s, ' ');
    lemma_filter_one(s);
}

proof fn lemma_filter_one(s: Seq<char>)
    ensures
        seq![s].filter(|part: Seq<char>| part.len() > 0) == (if s.len() > 0 {
            seq![s]
        } else {
            Seq::empty()
        }),
{
    reveal(Seq::filter);
    let one = seq![s];
    assert(one.drop_last() =~= Seq::empty());
    assert(one.drop_last().filter(|part: Seq<char>| part.len() > 0) =~= Seq::empty());
    assert(Seq::<Seq<char>>::empty().push(s) =~= one);
}

proof fn lemma_words_of_nothing()
    ensures
        words(Seq::empty()) == Seq::<Seq<char>>::empty(),
{
    text::lemma_split_of_one(Seq::empty(), ' ');
    lemma_filter_one(Seq::empty());
}

proof fn lemma_words_of_indented(n: int, s: Seq<char>)
    ensures
        words(text::spaces(n) + s) == words(s),
        words(s + text::spaces(n)) == words(s),
    decreases n,
{
    if n <= 0 {
        assert(text::spaces(n) + s =~= s);
        assert(s + text::spaces(n) =~= s);
    } else {
        let less = text::spaces(n - 1);
        lemma_words_of_indented(n - 1, s);
        lemma_words_of_nothing();
        lemma_words_of_two(Seq::empty(), less + s);
        assert(text::spaces(n) + s =~= Seq::empty() + seq![' '] + (less + s));
        lemma_words_of_two(s + less, Seq::empty());
        assert(s + text::spaces(n) =~= s + less + seq![' '] + Seq::empty());
        assert(words(less + s) =~= Seq::empty() + words(less + s));
        assert(words(s + less) =~= words(s + less) + Seq::empty());
    }
}

proof fn lemma_words_of_cell(out: Seq<char>, s: Seq<char>, width: nat)
    ensures
        words(report::cell(out, s, width)) == words(out) + words(s),
{
    reveal_strlit(" ");
    let column = text::right_column(s, width);
    assert(report::cell(out, s, width) =~= out + seq![' '] + column);
    lemma_words_of_two(out, column);
    lemma_words_of_indented(width - s.len(), s);
}

proof fn lemma_number_is_a_word(n: nat)
    ensures
        is_word(text::decimal(n)),
        words(text::decimal(n)) == seq![text::decimal(n)],
{
    let digits = text::decimal(n);
    text::lemma_decimal_reads_back(n);
    assert forall|i: int| 0 <= i < digits.len() implies (#[trigger] digits[i]) != ' ' by {
        assert('0' <= digits[i] <= '9');
    }
    lemma_words_of_word(digits);
}

proof fn lemma_latency_is_a_word(value: Option<u64>)
    ensures
        is_word(report::latency_text(value)),
        words(report::latency_text(value)) == seq![report::latency_text(value)],
{
    reveal_strlit("-");
    match value {
        Some(latency) => lemma_number_is_a_word(latency as nat),
        None => lemma_words_of_word("-"@),
    }
}

/// A latency is shown by its decimal digits, and by a dash where there is none.
pub proof fn law_latency_is_shown(value: Option<u64>)
    ensures
        match value {
            Some(latency) => {
                let shown = report::latency_text(value);
                &&& shown.len() > 0
                &&& text::all_digits(shown, 10)
                &&& text::number_value(shown, 10) == latency
            },
            None => report::latency_text(value) == "-"@,
        },
{
    if let Some(latency) = value {
        let digits = text::decimal(latency as nat);
        text::lemma_decimal_reads_back(latency as nat);
        assert forall|i: int| 0 <= i < digits.len() implies 0 <= #[trigger] text::digit_value(
            digits[i],
        ) < 10 by {
            assert('0' <= digits[i] <= '9');
        }
    }
}

/// The words of the heads of the table.
pub open spec fn head_words() -> Seq<Seq<char>> {
    words(report::with_heads(Seq::empty()).drop_last())
}

/// The words of the row of a target.
pub open spec fn row_words(rank: usize, item: TargetResult, qps: Seq<char>) -> Seq<Seq<char>> {
    words(report::with_row(Seq::empty(), rank, item, qps).drop_last())
}

/// The heads of the table are these ten words, on a line of their own.
pub proof fn law_heads_of_the_table()
    ensures
        report::with_heads(Seq::empty()).len() > 0,
        report::with_heads(Seq::empty()).last() == '\n',
        head_words() == seq![
            "RANK"@,
            "TARGET"@,
            "QPS"@,
            "ATTEMPTS"@,
            "RESP"@,
            "OK"@,
            "TIMEOUT"@,
            "ERROR"@,
            "P50(us)"@,
            "P99(us)"@,
        ],
{
    reveal_strlit("RANK");
    reveal_strlit("TARGET");
    reveal_strlit("QPS");
    reveal_strlit("ATTEMPTS");
    reveal_strlit("RESP");
    reveal_strlit("OK");
    reveal_strlit("TIMEOUT");
    reveal_strlit("ERROR");
    reveal_strlit("P50(us)");
    reveal_strlit("P99(us)");
    reveal_strlit(" ");
    reveal_strlit("\n");
    let none = Seq::<char>::empty();
    let rank = text::left_column("RANK"@, 4);
    let target = text::left_column("TARGET"@, 18);
    let a = none + rank + " "@ + target;
    let b = report::cell(a, "QPS"@, 11);
    let c = report::cell(b, "ATTEMPTS"@, 10);
    let d = report::cell(c, "RESP"@, 9);
    let e = report::cell(d, "OK"@, 9);
    let f = report::cell(e, "TIMEOUT"@, 9);
    let g = report::cell(f, "ERROR"@, 10);
    let h = report::cell(g, "P50(us)"@, 10);
    let i = report::cell(h, "P99(us)"@, 10);
    assert(a =~= rank + seq![' '] + target);
    lemma_words_of_two(rank, target);
    lemma_words_of_indented(0, "RANK"@);
    lemma_words_of_indented(12, "TARGET"@);
    lemma_words_of_word("RANK"@);
    lemma_words_of_word("TARGET"@);
    lemma_words_of_word("QPS"@);
    lemma_words_of_word("ATTEMPTS"@);
    lemma_words_of_word("RESP"@);
    lemma_words_of_word("OK"@);
    lemma_words_of_word("TIMEOUT"@);
    lemma_words_of_word("ERROR"@);
    lemma_words_of_word("P50(us)"@);
    lemma_words_of_word("P99(us)"@);
    lemma_words_of_cell(a, "QPS"@, 11);
    lemma_words_of_cell(b, "ATTEMPTS"@, 10);
    lemma_words_of_cell(c, "RESP"@, 9);
    lemma_words_of_cell(d, "OK"@, 9);
    lemma_words_of_cell(e, "TIMEOUT"@, 9);
    lemma_words_of_cell(f, "ERROR"@, 10);
    lemma_words_of_cell(g, "P50(us)"@, 10);
    lemma_words_of_cell(h, "P99(us)"@, 10);
    assert(report::with_heads(none) == i + "\n"@);
    assert(report::with_heads(none).drop_last() =~= i);
}

/// The row of a target is a line of its own, whose words are its rank, its label,
/// its rate, and then the figures in the order of the heads: under `ATTEMPTS` the
/// attempts, under `RESP` the responses, under `OK` the successes, under `TIMEOUT`
/// the timeouts, under `ERROR` the errors, and under `P50(us)` and `P99(us)` those
/// percentiles of the latencies. That is so for figures of any length.
pub proof fn law_row_shows_its_figures(rank: usize, item: TargetResult, qps: Seq<char>)
    ensures
        report::with_row(Seq::empty(), rank, item, qps).len() > 0,
        report::with_row(Seq::empty(), rank, item, qps).last() == '\n',
        row_words(rank, item, qps) == seq![text::decimal(rank as nat)] + words(item.target.label@)
            + words(qps) + seq![
            text::decimal(item.attempts as nat),
            text::decimal(item.responses as nat),
            text::decimal(item.successes as nat),
            text::decimal(item.timeouts as nat),
            text::decimal(item.errors as nat),
            report::latency_text(item.latency.p50_us),
            report::latency_text(item.latency.p99_us),
        ],
        ({
            let row = row_words(rank, item, qps);
            let n = row.len();
            let heads = head_words();
            &&& n >= 8
            &&& heads.len() == 10
            &&& heads[3] == "ATTEMPTS"@ && row[n - 7] == text::decimal(item.attempts as nat)
            &&& heads[4] == "RESP"@ && row[n - 6] == text::decimal(item.responses as nat)
            &&& heads[5] == "OK"@ && row[n - 5] == text::decimal(item.successes as nat)
            &&& heads[6] == "TIMEOUT"@ && row[n - 4] == text::decimal(item.timeouts as nat)
            &&& heads[7] == "ERROR"@ && row[n - 3] == text::decimal(item.errors as nat)
            &&& heads[8] == "P50(us)"@ && row[n - 2] == report::latency_text(item.latency.p50_us)
            &&& heads[9] == "P99(us)"@ && row[n - 1] == report::latency_text(item.latency.p99_us)
        }),
{
    reveal_strlit(" ");
    reveal_strlit("\n");
    law_heads_of_the_table();
    let none = Seq::<char>::empty();
    let place = text::decimal(rank as nat);
    let label = item.target.label@;
    let left = text::left_column(place, 4);
    let right = text::left_column(label, 18);
    let a = none + left + " "@ + right;
    let b = report::cell(a, qps, 11);
    let c = report::number_cell(b, item.attempts, 10);
    let d = report::number_cell(c, item.responses, 9);
    let e = report::number_cell(d, item.successes, 9);
    let f = report::number_cell(e, item.timeouts, 9);
    let g = report::number_cell(f, item.errors, 10);
    let h = report::cell(g, report::latency_text(item.latency.p50_us), 10);
    let i = report::cell(h, report::latency_text(item.latency.p99_us), 10);
    assert(a =~= left + seq![' '] + right);
    lemma_words_of_two(left, right);
    lemma_words_of_indented(4 - place.len(), place);
    lemma_words_of_indented(18 - label.len(), label);
    lemma_number_is_a_word(rank as nat);
    lemma_number_is_a_word(item.attempts as nat);
    lemma_number_is_a_word(item.responses as nat);
    lemma_number_is_a_word(item.successes as nat);
    lemma_number_is_a_word(item.timeouts as nat);
    lemma_number_is_a_word(item.errors as nat);
    lemma_latency_is_a_word(item.latency.p50_us);
    lemma_latency_is_a_word(item.latency.p99_us);
    lemma_words_of_cell(a, qps, 11);
    lemma_words_of_cell(b, text::decimal(item.attempts as nat), 10);
    lemma_words_of_cell(c, text::decimal(item.responses as nat), 9);
    lemma_words_of_cell(d, text::decimal(item.successes as nat), 9);
    lemma_words_of_cell(e, text::decimal(item.timeouts as nat), 9);
    lemma_words_of_cell(f, text::decimal(item.errors as nat), 10);
    lemma_words_of_cell(g, report::latency_text(item.latency.p50_us), 10);
    lemma_words_of_cell(h, report::latency_text(item.latency.p99_us), 10);
    let row = report::with_row(none, rank, item, qps);
    assert(row == i + "\n"@);
    assert(row.drop_last() =~= i);
    assert(words(i) =~= seq![place] + words(label) + words(qps) + seq![
        text::decimal(item.attempts as nat),
        text::decimal(item.responses as nat),
        text::decimal(item.successes as nat),
        text::decimal(item.timeouts as nat),
        text::decimal(item.errors as nat),
        report::latency_text(item.latency.p50_us),
        report::latency_text(item.latency.p99_us),
    ]);
}

/// The heads and the rows of record types: under `TYPE` the record type, then its
/// rate, and under `ATTEMPTS`, `RESP`, `P50(us)` and `P99(us)` its attempts, its
/// responses and those percentiles.
pub proof fn law_type_row_shows_its_figures(label: Seq<char>, item: TypeResult, qps: Seq<char>)
    ensures
        report::with_type_heads(Seq::empty()).len() > 0,
        report::with_type_heads(Seq::empty()).last() == '\n',
        words(report::with_type_heads(Seq::empty()).drop_last()) == seq![
            "TYPE"@,
            "QPS"@,
            "ATTEMPTS"@,
            "RESP"@,
            "P50(us)"@,
            "P99(us)"@,
        ],
        report::with_type_row(Seq::empty(), label, item, qps).len() > 0,
        report::with_type_row(Seq::empty(), label, item, qps).last() == '\n',
        words(report::with_type_row(Seq::empty(), label, item, qps).drop_last()) == words(label)
            + words(qps) + seq![
            text::decimal(item.attempts as nat),
            text::decimal(item.responses as nat),
            report::latency_text(item.latency.p50_us),
            report::latency_text(item.latency.p99_us),
        ],
{
    reveal_strlit("TYPE");
    reveal_strlit("QPS");
    reveal_strlit("ATTEMPTS");
    reveal_strlit("RESP");
    reveal_strlit("P50(us)");
    reveal_strlit("P99(us)");
    reveal_strlit("  ");
    reveal_strlit("\n");
    let none = Seq::<char>::empty();
    let a = none + "  "@ + text::left_column("TYPE"@, 12);
    let b = report::cell(a, "QPS"@, 10);
    let c = report::cell(b, "ATTEMPTS"@, 10);
    let d = report::cell(c, "RESP"@, 10);
    let e = report::cell(d, "P50(us)"@, 10);
    let f = report::cell(e, "P99(us)"@, 10);
    assert(a =~= text::spaces(2) + text::left_column("TYPE"@, 12));
    lemma_words_of_indented(2, text::left_column("TYPE"@, 12));
    lemma_words_of_indented(8, "TYPE"@);
    lemma_words_of_word("TYPE"@);
    lemma_words_of_word("QPS"@);
    lemma_words_of_word("ATTEMPTS"@);
    lemma_words_of_word("RESP"@);
    lemma_words_of_word("P50(us)"@);
    lemma_words_of_word("P99(us)"@);
    lemma_words_of_cell(a, "QPS"@, 10);
    lemma_words_of_cell(b, "ATTEMPTS"@, 10);
    lemma_words_of_cell(c, "RESP"@, 10);
    lemma_words_of_cell(d, "P50(us)"@, 10);
    lemma_words_of_cell(e, "P99(us)"@, 10);
    assert(report::with_type_heads(none) == f + "\n"@);
    assert(report::with_type_heads(none).drop_last() =~= f);
    let p = none + "  "@ + text::left_column(label, 12);
    let q = report::cell(p, qps, 10);
    let r = report::number_cell(q, item.attempts, 10);
    let s = report::number_cell(r, item.responses, 10);
    let t = report::cell(s, report::latency_text(item.latency.p50_us), 10);
    let u = report::cell(t, report::latency_text(item.latency.p99_us), 10);
    assert(p =~= text::spaces(2) + text::left_column(label, 12));
    lemma_words_of_indented(2, text::left_column(label, 12));
    lemma_words_of_indented(12 - label.len(), label);
    lemma_number_is_a_word(item.attempts as nat);
    lemma_number_is_a_word(item.responses as nat);
    lemma_latency_is_a_word(item.latency.p50_us);
    lemma_latency_is_a_word(item.latency.p99_us);
    lemma_words_of_cell(p, qps, 10);
    lemma_words_of_cell(q, text::decimal(item.attempts as nat), 10);
    lemma_words_of_cell(r, text::decimal(item.responses as nat), 10);
    lemma_words_of_cell(s, report::latency_text(item.latency.p50_us), 10);
    lemma_words_of_cell(t, report::latency_text(item.latency.p99_us), 10);
    let row = report::with_type_row(none, label, item, qps);
    assert(row == u + "\n"@);
    assert(row.drop_last() =~= u);
    assert(words(u) =~= words(label) + words(qps) + seq![
        text::decimal(item.attempts as nat),
        text::decimal(item.responses as nat),
        report::latency_text(item.latency.p50_us),
        report::latency_text(item.latency.p99_us),
    ]);
}

/// Whether a text stands in a line so that it ends at a place, with a blank
/// before it.
pub open spec fn ends_at(line: Seq<char>, s: Seq<char>, end: int) -> bool {
    &&& s.len() < end <= line.len()
    &&& line[end - s.len() - 1] == ' '
    &&& line.subrange(end - s.len(), end) == s
}

/// Whether a cell of a row ends where a head of the heads ends.
pub open spec fn stands_under(
    heads: Seq<char>,
    head: Seq<char>,
    row: Seq<char>,
    cell: Seq<char>,
) -> bool {
    exists|end: int| #[trigger] ends_at(heads, head, end) && ends_at(row, cell, end)
}

proof fn lemma_cell_ends(out: Seq<char>, s: Seq<char>, width: nat)
    requires
        s.len() <= width,
    ensures
        report::cell(out, s, width).len() == out.len() + 1 + width,
        ends_at(report::cell(out, s, width), s, out.len() as int + 1 + width),
        forall|t: Seq<char>, end: int| #[trigger]
            ends_at(out, t, end) ==> ends_at(report::cell(out, s, width), t, end),
{
    reveal_strlit(" ");
    let whole = report::cell(out, s, width);
    let end = out.len() as int + 1 + width;
    assert(whole.subrange(end - s.len(), end) =~= s);
    assert forall|t: Seq<char>, e: int| #[trigger] ends_at(out, t, e) implies ends_at(whole, t, e) by {
        assert(whole.subrange(e - t.len(), e) =~= out.subrange(e - t.len(), e));
    }
}

proof fn lemma_line_end_keeps(out: Seq<char>, t: Seq<char>, end: int)
    requires
        ends_at(out, t, end),
    ensures
        ends_at(out + "\n"@, t, end),
{
    assert((out + "\n"@).subrange(end - t.len(), end) =~= out.subrange(end - t.len(), end));
}

/// Where the figures fit in their columns, each of them ends where its head does.
pub proof fn law_figures_stand_under_their_heads(
    rank: usize,
    item: TargetResult,
    qps: Seq<char>,
)
    requires
        text::decimal(rank as nat).len() <= 4,
        item.target.label@.len() <= 18,
        qps.len() <= 11,
        text::decimal(item.attempts as nat).len() <= 10,
        text::decimal(item.responses as nat).len() <= 9,
        text::decimal(item.successes as nat).len() <= 9,
        text::decimal(item.timeouts as nat).len() <= 9,
        text::decimal(item.errors as nat).len() <= 10,
        report::latency_text(item.latency.p50_us).len() <= 10,
        report::latency_text(item.latency.p99_us).len() <= 10,
    ensures
        ({
            let heads = report::with_heads(Seq::empty());
            let row = report::with_row(Seq::empty(), rank, item, qps);
            &&& heads.len() == row.len()
            &&& stands_under(heads, "QPS"@, row, qps)
            &&& stands_under(heads, "ATTEMPTS"@, row, text::decimal(item.attempts as nat))
            &&& stands_under(heads, "RESP"@, row, text::decimal(item.responses as nat))
            &&& stands_under(heads, "OK"@, row, text::decimal(item.successes as nat))
            &&& stands_under(heads, "TIMEOUT"@, row, text::decimal(item.timeouts as nat))
            &&& stands_under(heads, "ERROR"@, row, text::decimal(item.errors as nat))
            &&& stands_under(heads, "P50(us)"@, row, report::latency_text(item.latency.p50_us))
            &&& stands_under(heads, "P99(us)"@, row, report::latency_text(item.latency.p99_us))
        }),
{
    reveal_strlit("RANK");
    reveal_strlit("TARGET");
    reveal_strlit("QPS");
    reveal_strlit("ATTEMPTS");
    reveal_strlit("RESP");
    reveal_strlit("OK");
    reveal_strlit("TIMEOUT");
    reveal_strlit("ERROR");
    reveal_strlit("P50(us)");
    reveal_strlit("P99(us)");
    reveal_strlit(" ");
    reveal_strlit("\n");
    let none = Seq::<char>::empty();
    let attempts = text::decimal(item.attempts as nat);
    let responses = text::decimal(item.responses as nat);
    let successes = text::decimal(item.successes as nat);
    let timeouts = text::decimal(item.timeouts as nat);
    let errors = text::decimal(item.errors as nat);
    let p50 = report::latency_text(item.latency.p50_us);
    let p99 = report::latency_text(item.latency.p99_us);
    let a = none + text::left_column("RANK"@, 4) + " "@ + text::left_column("TARGET"@, 18);
    let b = report::cell(a, "QPS"@, 11);
    let c = report::cell(b, "ATTEMPTS"@, 10);
    let d = report::cell(c, "RESP"@, 9);
    let e = report::cell(d, "OK"@, 9);
    let f = report::cell(e, "TIMEOUT"@, 9);
    let g = report::cell(f, "ERROR"@, 10);
    let h = report::cell(g, "P50(us)"@, 10);
    let i = report::cell(h, "P99(us)"@, 10);
    lemma_cell_ends(a, "QPS"@, 11);
    lemma_cell_ends(b, "ATTEMPTS"@, 10);
    lemma_cell_ends(c, "RESP"@, 9);
    lemma_cell_ends(d, "OK"@, 9);
    lemma_cell_ends(e, "TIMEOUT"@, 9);
    lemma_cell_ends(f, "ERROR"@, 10);
    lemma_cell_ends(g, "P50(us)"@, 10);
    lemma_cell_ends(h, "P99(us)"@, 10);
    let q = none + text::left_column(text::decimal(rank as nat), 4) + " "@ + text::left_column(
        item.target.label@,
        18,
    );
    let r = report::cell(q, qps, 11);
    let s = report::number_cell(r, item.attempts, 10);
    let t = report::number_cell(s, item.responses, 9);
    let u = report::number_cell(t, item.successes, 9);
    let v = report::number_cell(u, item.timeouts, 9);
    let w = report::number_cell(v, item.errors, 10);
    let x = report::cell(w, p50, 10);
    let y = report::cell(x, p99, 10);
    lemma_cell_ends(q, qps, 11);
    lemma_cell_ends(r, attempts, 10);
    lemma_cell_ends(s, responses, 9);
    lemma_cell_ends(t, successes, 9);
    lemma_cell_ends(u, timeouts, 9);
    lemma_cell_ends(v, errors, 10);
    lemma_cell_ends(w, p50, 10);
    lemma_cell_ends(x, p99, 10);
    assert(a.len() == 23 && q.len() == 23);
    let heads = report::with_heads(none);
    let row = report::with_row(none, rank, item, qps);
    assert(heads == i + "\n"@);
    assert(row == y + "\n"@);
    lemma_line_end_keeps(i, "QPS"@, 35);
    lemma_line_end_keeps(y, qps, 35);
    lemma_line_end_keeps(i, "ATTEMPTS"@, 46);
    lemma_line_end_keeps(y, attempts, 46);
    lemma_line_end_keeps(i, "RESP"@, 56);
    lemma_line_end_keeps(y, responses, 56);
    lemma_line_end_keeps(i, "OK"@, 66);
    lemma_line_end_keeps(y, successes, 66);
    lemma_line_end_keeps(i, "TIMEOUT"@, 76);
    lemma_line_end_keeps(y, timeouts, 76);
    lemma_line_end_keeps(i, "ERROR"@, 87);
    lemma_line_end_keeps(y, errors, 87);
    lemma_line_end_keeps(i, "P50(us)"@, 98);
    lemma_line_end_keeps(y, p50, 98);
    lemma_line_end_keeps(i, "P99(us)"@, 109);
    lemma_line_end_keeps(y, p99, 109);
}

/// A text, then a name, a value behind it, and what follows the value.
pub open spec fn saying(
    before: Seq<char>,
    name: Seq<char>,
    value: Seq<char>,
    then: Seq<char>,
) -> Seq<char> {
    before + name + value + then
}

/// Whether a value stands in a text behind a name, before what follows it.
pub open spec fn says(
    shown: Seq<char>,
    name: Seq<char>,
    value: Seq<char>,
    then: Seq<char>,
) -> bool {
    exists|before: Seq<char>| #[trigger] saying(before, name, value, then).is_prefix_of(shown)
}

proof fn lemma_prefix_of_prefix(a: Seq<char>, b: Seq<char>, c: Seq<char>)
    requires
        a.is_prefix_of(b),
        b.is_prefix_of(c),
    ensures
        a.is_prefix_of(c),
{
    assert(c.take(a.len() as int) =~= b.take(a.len() as int));
}

proof fn lemma_prefix_of_sum(a: Seq<char>, b: Seq<char>)
    ensures
        a.is_prefix_of(a + b),
{
    assert((a + b).take(a.len() as int) =~= a);
}

proof fn lemma_says(
    shown: Seq<char>,
    before: Seq<char>,
    name: Seq<char>,
    value: Seq<char>,
    then: Seq<char>,
)
    requires
        (before + name + value + then).is_prefix_of(shown),
    ensures
        says(shown, name, value, then),
{
    assert(saying(before, name, value, then).is_prefix_of(shown));
}

proof fn lemma_type_row_begins(out: Seq<char>, label: Seq<char>, item: TypeResult, qps: Seq<char>)
    ensures
        out.is_prefix_of(report::with_type_row(out, label, item, qps)),
{
    let whole = report::with_type_row(out, label, item, qps);
    assert(whole.take(out.len() as int) =~= out);
}

proof fn lemma_type_rows_begin(
    out: Seq<char>,
    labels: Seq<Seq<char>>,
    items: Seq<TypeResult>,
    qps: Seq<Seq<char>>,
    n: nat,
)
    ensures
        out.is_prefix_of(report::with_type_rows(out, labels, items, qps, n)),
    decreases n,
{
    if n > 0 {
        let last = n - 1;
        let before = report::with_type_rows(out, labels, items, qps, last as nat);
        lemma_type_rows_begin(out, labels, items, qps, last as nat);
        lemma_type_row_begins(before, labels[last], items[last], qps[last]);
        lemma_prefix_of_prefix(
            out,
            before,
            report::with_type_rows(out, labels, items, qps, n),
        );
    } else {
        assert(out.take(out.len() as int) =~= out);
    }
}

/// The details of a target begin a new line with its label, its address and the
/// length of its measurement, and show each figure behind its name: the bytes that
/// were sent and received, the truncated and the authenticated responses, those
/// with signatures, the records of DNSSEC, and the response codes.
pub proof fn law_details_show_their_figures(
    out: Seq<char>,
    item: TargetResult,
    texts: TargetTexts,
)
    ensures
        ({
            let shown = report::with_details(out, item, texts);
            let codes = if item.response_codes.labels.len() == 0 {
                "none"@
            } else {
                report::codes_text(item.response_codes.label_texts(), item.response_codes.values@)
            };
            &&& (out + "\n"@ + item.target.label@ + " ("@).is_prefix_of(shown)
            &&& says(
                shown,
                " ("@,
                address_text::endpoint_text(item.target.address),
                ") — elapsed "@,
            )
            &&& says(shown, ") — elapsed "@, texts.elapsed@, "s, bytes sent/received "@)
            &&& says(
                shown,
                "s, bytes sent/received "@,
                text::decimal(item.bytes_sent as nat),
                "/"@,
            )
            &&& says(shown, "/"@, text::decimal(item.bytes_received as nat), ", TC "@)
            &&& says(shown, ", TC "@, text::decimal(item.truncated as nat), ", AD "@)
            &&& says(
                shown,
                ", AD "@,
                text::decimal(item.authenticated_data as nat),
                ", RRSIG responses "@,
            )
            &&& says(
                shown,
                ", RRSIG responses "@,
                text::decimal(item.rrsig_responses as nat),
                ", DNSSEC records "@,
            )
            &&& says(
                shown,
                ", DNSSEC records "@,
                text::decimal(item.dnssec_records as nat),
                "\n"@,
            )
            &&& says(shown, "  response codes: "@, codes, "\n"@)
        }),
{
    let shown = report::with_details(out, item, texts);
    let codes = if item.response_codes.labels.len() == 0 {
        "none"@
    } else {
        report::codes_text(item.response_codes.label_texts(), item.response_codes.values@)
    };
    let p0 = out;
    let p1 = p0 + "\n"@;
    let p2 = p1 + item.target.label@;
    let p3 = p2 + " ("@;
    let p4 = p3 + address_text::endpoint_text(item.target.address);
    let p5 = p4 + ") — elapsed "@;
    let p6 = p5 + texts.elapsed@;
    let p7 = p6 + "s, bytes sent/received "@;
    let p8 = p7 + text::decimal(item.bytes_sent as nat);
    let p9 = p8 + "/"@;
    let p10 = p9 + text::decimal(item.bytes_received as nat);
    let p11 = p10 + ", TC "@;
    let p12 = p11 + text::decimal(item.truncated as nat);
    let p13 = p12 + ", AD "@;
    let p14 = p13 + text::decimal(item.authenticated_data as nat);
    let p15 = p14 + ", RRSIG responses "@;
    let p16 = p15 + text::decimal(item.rrsig_responses as nat);
    let p17 = p16 + ", DNSSEC records "@;
    let p18 = p17 + text::decimal(item.dnssec_records as nat);
    let p19 = p18 + "\n"@;
    let p20 = p19 + "  response codes: "@;
    let p21 = p20 + codes;
    let p22 = p21 + "\n"@;
    lemma_details_begin(p22, out, item, texts);
    lemma_prefix_of_sum(p21, "\n"@);
    lemma_prefix_of_prefix(p21, p22, shown);
    lemma_prefix_of_sum(p20, codes);
    lemma_prefix_of_prefix(p20, p21, shown);
    lemma_prefix_of_sum(p19, "  response codes: "@);
    lemma_prefix_of_prefix(p19, p20, shown);
    lemma_prefix_of_sum(p18, "\n"@);
    lemma_prefix_of_prefix(p18, p19, shown);
    lemma_prefix_of_sum(p17, text::decimal(item.dnssec_records as nat));
    lemma_prefix_of_prefix(p17, p18, shown);
    lemma_prefix_of_sum(p16, ", DNSSEC records "@);
    lemma_prefix_of_prefix(p16, p17, shown);
    lemma_prefix_of_sum(p15, text::decimal(item.rrsig_responses as nat));
    lemma_prefix_of_prefix(p15, p16, shown);
    lemma_prefix_of_sum(p14, ", RRSIG responses "@);
    lemma_prefix_of_prefix(p14, p15, shown);
    lemma_prefix_of_sum(p13, text::decimal(item.authenticated_data as nat));
    lemma_prefix_of_prefix(p13, p14, shown);
    lemma_prefix_of_sum(p12, ", AD "@);
    lemma_prefix_of_prefix(p12, p13, shown);
    lemma_prefix_of_sum(p11, text::decimal(item.truncated as nat));
    lemma_prefix_of_prefix(p11, p12, shown);
    lemma_prefix_of_sum(p10, ", TC "@);
    lemma_prefix_of_prefix(p10, p11, shown);
    lemma_prefix_of_sum(p9, text::decimal(item.bytes_received as nat));
    lemma_prefix_of_prefix(p9, p10, shown);
    lemma_prefix_of_sum(p8, "/"@);
    lemma_prefix_of_prefix(p8, p9, shown);
    lemma_prefix_of_sum(p7, text::decimal(item.bytes_sent as nat));
    lemma_prefix_of_prefix(p7, p8, shown);
    lemma_prefix_of_sum(p6, "s, bytes sent/received "@);
    lemma_prefix_of_prefix(p6, p7, shown);
    lemma_prefix_of_sum(p5, texts.elapsed@);
    lemma_prefix_of_prefix(p5, p6, shown);
    lemma_prefix_of_sum(p4, ") — elapsed "@);
    lemma_prefix_of_prefix(p4, p5, shown);
    lemma_prefix_of_sum(p3, address_text::endpoint_text(item.target.address));
    lemma_prefix_of_prefix(p3, p4, shown);
    lemma_prefix_of_sum(p2, " ("@);
    lemma_prefix_of_prefix(p2, p3, shown);
    lemma_prefix_of_sum(p1, item.target.label@);
    lemma_prefix_of_prefix(p1, p2, shown);
    lemma_says(shown, p0, "\n"@, item.target.label@, " ("@);
    lemma_says(shown, p2, " ("@, address_text::endpoint_text(item.target.address), ") — elapsed "@);
    lemma_says(shown, p4, ") — elapsed "@, texts.elapsed@, "s, bytes sent/received "@);
    lemma_says(shown, p6, "s, bytes sent/received "@, text::decimal(item.bytes_sent as nat), "/"@);
    lemma_says(shown, p8, "/"@, text::decimal(item.bytes_received as nat), ", TC "@);
    lemma_says(shown, p10, ", TC "@, text::decimal(item.truncated as nat), ", AD "@);
    lemma_says(shown, p12, ", AD "@, text::decimal(item.authenticated_data as nat), ", RRSIG responses "@);
    lemma_says(shown, p14, ", RRSIG responses "@, text::decimal(item.rrsig_responses as nat), ", DNSSEC records "@);
    lemma_says(shown, p16, ", DNSSEC records "@, text::decimal(item.dnssec_records as nat), "\n"@);
    lemma_says(shown, p19, "  response codes: "@, codes, "\n"@);
}

/// The first two lines of the details of a target.
spec fn details_lines(out: Seq<char>, item: TargetResult, texts: TargetTexts) -> Seq<char> {
    let codes = if item.response_codes.labels.len() == 0 {
        "none"@
    } else {
        report::codes_text(item.response_codes.label_texts(), item.response_codes.values@)
    };
    out + "\n"@ + item.target.label@ + " ("@ + address_text::endpoint_text(item.target.address) + ") — elapsed "@ + texts.elapsed@ + "s, bytes sent/received "@ + text::decimal(item.bytes_sent as nat) + "/"@ + text::decimal(item.bytes_received as nat) + ", TC "@ + text::decimal(item.truncated as nat) + ", AD "@ + text::decimal(item.authenticated_data as nat) + ", RRSIG responses "@ + text::decimal(item.rrsig_responses as nat) + ", DNSSEC records "@ + text::decimal(item.dnssec_records as nat) + "\n"@ + "  response codes: "@ + codes + "\n"@
}

proof fn lemma_details_begin(
    lines: Seq<char>,
    out: Seq<char>,
    item: TargetResult,
    texts: TargetTexts,
)
    requires
        lines == details_lines(out, item, texts),
    ensures
        lines.is_prefix_of(report::with_details(out, item, texts)),
{
    let shown = report::with_details(out, item, texts);
    if item.by_record_type.labels.len() > 1 {
        let heads = report::with_type_heads(lines);
        assert(heads.take(lines.len() as int) =~= lines);
        lemma_type_rows_begin(
            heads,
            item.by_record_type.label_texts(),
            item.by_record_type.values@,
            text::texts(texts.type_qps@),
            item.by_record_type.labels.len() as nat,
        );
        lemma_prefix_of_prefix(lines, heads, shown);
    } else {
        assert(shown.take(lines.len() as int) =~= lines);
    }
}

/// The response codes of two lists are shown one after the other, with a comma
/// between them; a single one is shown with an equals sign and its count.
pub proof fn law_codes_are_shown_with_their_counts(
    labels: Seq<Seq<char>>,
    counts: Seq<u64>,
    more: Seq<Seq<char>>,
    more_counts: Seq<u64>,
    label: Seq<char>,
    count: u64,
)
    requires
        labels.len() > 0,
        more.len() > 0,
        counts.len() == labels.len(),
        more_counts.len() == more.len(),
    ensures
        report::codes_text(labels + more, counts + more_counts) == report::codes_text(
            labels,
            counts,
        ) + ", "@ + report::codes_text(more, more_counts),
        report::codes_text(seq![label], seq![count]) == label + "="@ + text::decimal(count as nat),
    decreases more.len(),
{
    assert(seq![label].drop_last() =~= Seq::empty());
    assert(report::codes_text(seq![label].drop_last(), seq![count].drop_last()) =~= Seq::empty());
    assert(report::codes_text(seq![label], seq![count]) =~= label + "="@ + text::decimal(
        count as nat,
    ));
    let all = labels + more;
    let every = counts + more_counts;
    assert(all.drop_last() =~= labels + more.drop_last());
    assert(every.drop_last() =~= counts + more_counts.drop_last());
    let last = more.last() + "="@ + text::decimal(more_counts.last() as nat);
    if more.len() == 1 {
        assert(labels + more.drop_last() =~= labels);
        assert(counts + more_counts.drop_last() =~= counts);
        assert(more.drop_last() =~= Seq::empty());
        assert(report::codes_text(more.drop_last(), more_counts.drop_last()) =~= Seq::empty());
        assert(report::codes_text(more, more_counts) =~= last);
        assert(report::codes_text(all, every) =~= report::codes_text(labels, counts) + ", "@
            + last);
    } else {
        law_codes_are_shown_with_their_counts(
            labels,
            counts,
            more.drop_last(),
            more_counts.drop_last(),
            label,
            count,
        );
        assert(report::codes_text(more, more_counts) =~= report::codes_text(
            more.drop_last(),
            more_counts.drop_last(),
        ) + ", "@ + last);
        assert(report::codes_text(all, every) =~= report::codes_text(
            labels + more.drop_last(),
            counts + more_counts.drop_last(),
        ) + ", "@ + last);
        assert(report::codes_text(all, every) =~= report::codes_text(labels, counts) + ", "@
            + report::codes_text(more, more_counts));
    }
}

/// The table begins with a line that says how many targets there are, the
/// transport in capital letters, and when the run began; then come the heads.
#[verifier::rlimit(40)]
pub proof fn law_table_begins_with_a_title(run: RunResult, texts: Seq<TargetTexts>)
    ensures
        ({
            let table = report::human_table(run, texts);
            let moment = engine::rfc3339_text(run.started_at.secs, run.started_at.nanos);
            let title = "DNSBlast comparison — "@ + text::decimal(run.results@.len()) + " target(s), "@
                + text::uppered(run.config.transport@) + ", "@ + moment + "\n"@;
            (title + report::with_heads(Seq::empty())).is_prefix_of(table)
        }),
{
    let moment = engine::rfc3339_text(run.started_at.secs, run.started_at.nanos);
    let title = "DNSBlast comparison — "@ + text::decimal(run.results@.len()) + " target(s), "@
        + text::uppered(run.config.transport@) + ", "@ + moment + "\n"@;
    let shown = report::with_title(Seq::empty(), run);
    assert(shown =~= title);
    let heads = report::with_heads(title);
    lemma_heads_of_sum(title);
    lemma_rows_begin(heads, run.ranking@, run.results@, texts);
    let rows = report::with_rows(heads, run.ranking@, run.results@, texts);
    lemma_all_details_begin(rows, run.results@, texts, run.results.len() as nat);
    let all = report::with_all_details(rows, run.results@, texts, run.results.len() as nat);
    lemma_prefix_of_prefix(heads, rows, all);
    lemma_table_goes_on(run, texts);
    lemma_prefix_of_prefix(heads, all, report::human_table(run, texts));
}

proof fn lemma_table_goes_on(run: RunResult, texts: Seq<TargetTexts>)
    ensures
        ({
            let heads = report::with_heads(report::with_title(Seq::empty(), run));
            let rows = report::with_rows(heads, run.ranking@, run.results@, texts);
            let all = report::with_all_details(rows, run.results@, texts, run.results.len() as nat);
            all.is_prefix_of(report::human_table(run, texts))
        }),
{
    let heads = report::with_heads(report::with_title(Seq::empty(), run));
    let rows = report::with_rows(heads, run.ranking@, run.results@, texts);
    let all = report::with_all_details(rows, run.results@, texts, run.results.len() as nat);
    assert(report::human_table(run, texts).take(all.len() as int) =~= all);
}

proof fn lemma_row_begins(out: Seq<char>, rank: usize, item: TargetResult, qps: Seq<char>)
    ensures
        out.is_prefix_of(report::with_row(out, rank, item, qps)),
        report::with_row(out, rank, item, qps) == out + report::with_row(
            Seq::empty(),
            rank,
            item,
            qps,
        ),
{
    let none = Seq::<char>::empty();
    let start = text::left_column(text::decimal(rank as nat), 4) + " "@ + text::left_column(
        item.target.label@,
        18,
    );
    let a = none + text::left_column(text::decimal(rank as nat), 4) + " "@ + text::left_column(
        item.target.label@,
        18,
    );
    assert(a =~= start);
    assert(out + text::left_column(text::decimal(rank as nat), 4) + " "@ + text::left_column(
        item.target.label@,
        18,
    ) =~= out + a);
    let attempts = text::decimal(item.attempts as nat);
    let responses = text::decimal(item.responses as nat);
    let successes = text::decimal(item.successes as nat);
    let timeouts = text::decimal(item.timeouts as nat);
    let errors = text::decimal(item.errors as nat);
    let p50 = report::latency_text(item.latency.p50_us);
    let p99 = report::latency_text(item.latency.p99_us);
    let b = report::cell(a, qps, 11);
    let c = report::cell(b, attempts, 10);
    let d = report::cell(c, responses, 9);
    let e = report::cell(d, successes, 9);
    let f = report::cell(e, timeouts, 9);
    let g = report::cell(f, errors, 10);
    let h = report::cell(g, p50, 10);
    let i = report::cell(h, p99, 10);
    lemma_cell_of_sum(out, a, qps, 11);
    lemma_cell_of_sum(out, b, attempts, 10);
    lemma_cell_of_sum(out, c, responses, 9);
    lemma_cell_of_sum(out, d, successes, 9);
    lemma_cell_of_sum(out, e, timeouts, 9);
    lemma_cell_of_sum(out, f, errors, 10);
    lemma_cell_of_sum(out, g, p50, 10);
    lemma_cell_of_sum(out, h, p99, 10);
    assert(report::with_row(none, rank, item, qps) == i + "\n"@);
    assert(report::with_row(out, rank, item, qps) == (out + i) + "\n"@);
    assert((out + i) + "\n"@ =~= out + (i + "\n"@));
    lemma_prefix_of_sum(out, report::with_row(none, rank, item, qps));
}

proof fn lemma_cell_of_sum(a: Seq<char>, b: Seq<char>, s: Seq<char>, width: nat)
    ensures
        report::cell(a + b, s, width) == a + report::cell(b, s, width),
{
    assert(report::cell(a + b, s, width) =~= a + report::cell(b, s, width));
}

proof fn lemma_heads_of_sum(out: Seq<char>)
    ensures
        report::with_heads(out) == out + report::with_heads(Seq::empty()),
{
    let none = Seq::<char>::empty();
    let a = none + text::left_column("RANK"@, 4) + " "@ + text::left_column("TARGET"@, 18);
    assert(out + text::left_column("RANK"@, 4) + " "@ + text::left_column("TARGET"@, 18) =~= out
        + a);
    let b = report::cell(a, "QPS"@, 11);
    let c = report::cell(b, "ATTEMPTS"@, 10);
    let d = report::cell(c, "RESP"@, 9);
    let e = report::cell(d, "OK"@, 9);
    let f = report::cell(e, "TIMEOUT"@, 9);
    let g = report::cell(f, "ERROR"@, 10);
    let h = report::cell(g, "P50(us)"@, 10);
    let i = report::cell(h, "P99(us)"@, 10);
    lemma_cell_of_sum(out, a, "QPS"@, 11);
    lemma_cell_of_sum(out, b, "ATTEMPTS"@, 10);
    lemma_cell_of_sum(out, c, "RESP"@, 9);
    lemma_cell_of_sum(out, d, "OK"@, 9);
    lemma_cell_of_sum(out, e, "TIMEOUT"@, 9);
    lemma_cell_of_sum(out, f, "ERROR"@, 10);
    lemma_cell_of_sum(out, g, "P50(us)"@, 10);
    lemma_cell_of_sum(out, h, "P99(us)"@, 10);
    assert(report::with_heads(none) == i + "\n"@);
    assert(report::with_heads(out) == (out + i) + "\n"@);
    assert((out + i) + "\n"@ =~= out + (i + "\n"@));
}

proof fn lemma_rows_begin(
    out: Seq<char>,
    ranking: Seq<RankingEntry>,
    results: Seq<TargetResult>,
    texts: Seq<TargetTexts>,
)
    ensures
        out.is_prefix_of(report::with_rows(out, ranking, results, texts)),
    decreases ranking.len(),
{
    if ranking.len() == 0 {
        assert(out.take(out.len() as int) =~= out);
    } else {
        let before = report::with_rows(out, ranking.drop_last(), results, texts);
        let entry = ranking.last();
        let i = report::first_labelled(results, entry.target@);
        lemma_rows_begin(out, ranking.drop_last(), results, texts);
        lemma_row_begins(before, entry.rank, results[i], texts[i].qps@);
        lemma_prefix_of_prefix(
            before,
            report::with_row(before, entry.rank, results[i], texts[i].qps@),
            report::with_row(before, entry.rank, results[i], texts[i].qps@),
        );
        assert(before.take(before.len() as int) =~= before);
        lemma_prefix_of_prefix(out, before, report::with_rows(out, ranking, results, texts));
    }
}

proof fn lemma_detail_begins(out: Seq<char>, item: TargetResult, texts: TargetTexts)
    ensures
        out.is_prefix_of(report::with_details(out, item, texts)),
{
    law_details_show_their_figures(out, item, texts);
    let shown = report::with_details(out, item, texts);
    let start = out + "\n"@ + item.target.label@ + " ("@;
    assert(start.take(out.len() as int) =~= out);
    lemma_prefix_of_prefix(out, start, shown);
}

proof fn lemma_all_details_begin(
    out: Seq<char>,
    results: Seq<TargetResult>,
    texts: Seq<TargetTexts>,
    n: nat,
)
    ensures
        out.is_prefix_of(report::with_all_details(out, results, texts, n)),
    decreases n,
{
    if n == 0 {
        assert(out.take(out.len() as int) =~= out);
    } else {
        let last = n - 1;
        let before = report::with_all_details(out, results, texts, last as nat);
        lemma_all_details_begin(out, results, texts, last as nat);
        lemma_detail_begins(before, results[last], texts[last]);
        lemma_prefix_of_prefix(out, before, report::with_all_details(out, results, texts, n));
    }
}

/// A label finds the first result that has it.
pub proof fn law_label_finds_its_result(results: Seq<TargetResult>, label: Seq<char>)
    ensures
        ({
            let i = report::first_labelled(results, label);
            &&& 0 <= i <= results.len()
            &&& i < results.len() ==> results[i].target.label@ == label
            &&& forall|j: int| 0 <= j < i ==> (#[trigger] results[j]).target.label@ != label
        }),
    decreases results.len(),
{
    if results.len() > 0 && results.first().target.label@ != label {
        let rest = results.drop_first();
        law_label_finds_its_result(rest, label);
        let i = report::first_labelled(results, label);
        assert(i < results.len() ==> results[i] == rest[i - 1]);
        assert forall|j: int| 0 <= j < i implies (#[trigger] results[j]).target.label@ != label by {
            if j > 0 {
                assert(results[j] == rest[j - 1]);
            }
        }
    }
}

/// The table holds, in the order of the ranking, the row of each ranked target,
/// with its rank and with the figures of the result of its label; and after the
/// rows the details of each target, in the order of the results.
#[verifier::rlimit(40)]
pub proof fn law_table_shows_every_target(
    run: RunResult,
    texts: Seq<TargetTexts>,
    place: int,
    result: int,
)
    requires
        0 <= place < run.ranking.len(),
        0 <= result < run.results.len(),
    ensures
        ({
            let table = report::human_table(run, texts);
            let entry = run.ranking[place];
            let i = report::first_labelled(run.results@, entry.target@);
            let heads = report::with_heads(report::with_title(Seq::empty(), run));
            let above = report::with_rows(heads, run.ranking@.take(place), run.results@, texts);
            &&& i < run.results.len() ==> (above + report::with_row(
                Seq::empty(),
                entry.rank,
                run.results[i],
                texts[i].qps@,
            )).is_prefix_of(table)
            &&& exists|before: Seq<char>| #[trigger]
                report::with_details(before, run.results[result], texts[result]).is_prefix_of(table)
        }),
{
    let table = report::human_table(run, texts);
    let heads = report::with_heads(report::with_title(Seq::empty(), run));
    let rows = report::with_rows(heads, run.ranking@, run.results@, texts);
    let all = report::with_all_details(rows, run.results@, texts, run.results.len() as nat);
    lemma_table_goes_on(run, texts);
    lemma_all_details_begin(rows, run.results@, texts, run.results.len() as nat);
    lemma_prefix_of_prefix(rows, all, table);
    lemma_rows_of_first(heads, run.ranking@, run.results@, texts, place + 1);
    let entry = run.ranking[place];
    let i = report::first_labelled(run.results@, entry.target@);
    let above = report::with_rows(heads, run.ranking@.take(place), run.results@, texts);
    let here = report::with_rows(heads, run.ranking@.take(place + 1), run.results@, texts);
    assert(run.ranking@.take(place + 1).drop_last() =~= run.ranking@.take(place));
    lemma_prefix_of_prefix(here, rows, table);
    if i < run.results.len() {
        lemma_row_begins(above, entry.rank, run.results[i], texts[i].qps@);
    }
    let before = report::with_all_details(rows, run.results@, texts, result as nat);
    lemma_details_of_first(rows, run.results@, texts, (result + 1) as nat, run.results.len() as nat);
    let shown = report::with_all_details(rows, run.results@, texts, (result + 1) as nat);
    assert(shown == report::with_details(before, run.results[result], texts[result]));
    lemma_prefix_of_prefix(shown, all, table);
}

proof fn lemma_rows_of_first(
    out: Seq<char>,
    ranking: Seq<RankingEntry>,
    results: Seq<TargetResult>,
    texts: Seq<TargetTexts>,
    n: int,
)
    requires
        0 <= n <= ranking.len(),
    ensures
        report::with_rows(out, ranking.take(n), results, texts).is_prefix_of(
            report::with_rows(out, ranking, results, texts),
        ),
    decreases ranking.len(),
{
    let first = report::with_rows(out, ranking.take(n), results, texts);
    let whole = report::with_rows(out, ranking, results, texts);
    if n == ranking.len() {
        assert(ranking.take(n) =~= ranking);
        assert(first.take(first.len() as int) =~= first);
    } else {
        let rest = ranking.drop_last();
        let before = report::with_rows(out, rest, results, texts);
        let entry = ranking.last();
        let i = report::first_labelled(results, entry.target@);
        lemma_rows_of_first(out, rest, results, texts, n);
        assert(rest.take(n) =~= ranking.take(n));
        lemma_row_begins(before, entry.rank, results[i], texts[i].qps@);
        assert(before.take(before.len() as int) =~= before);
        lemma_prefix_of_prefix(first, before, whole);
    }
}

proof fn lemma_details_of_first(
    out: Seq<char>,
    results: Seq<TargetResult>,
    texts: Seq<TargetTexts>,
    first: nat,
    n: nat,
)
    requires
        first <= n,
    ensures
        report::with_all_details(out, results, texts, first).is_prefix_of(
            report::with_all_details(out, results, texts, n),
        ),
    decreases n,
{
    let shown = report::with_all_details(out, results, texts, first);
    if first == n {
        assert(shown.take(shown.len() as int) =~= shown);
    } else {
        let last = n - 1;
        let before = report::with_all_details(out, results, texts, last as nat);
        lemma_details_of_first(out, results, texts, first, last as nat);
        lemma_detail_begins(before, results[last], texts[last]);
        lemma_prefix_of_prefix(shown, before, report::with_all_details(out, results, texts, n));
    }
}

/// The table of a run that was interrupted is that of the same run if it had not
/// been, with a note at its end.
pub proof fn law_interruption_is_noted(
    run: RunResult,
    quiet: RunResult,
    texts: Seq<TargetTexts>,
)
    requires
        run.interrupted,
        !quiet.interrupted,
        quiet.started_at == run.started_at,
        quiet.config == run.config,
        quiet.results == run.results,
        quiet.ranking == run.ranking,
    ensures
        report::human_table(run, texts) == report::human_table(quiet, texts)
            + "\nRun interrupted; partial completed results shown.\n"@,
{
}

/// The details of a target with more than one record type show a row for each of
/// them, in their order, after the heads of those rows.
#[verifier::rlimit(40)]
pub proof fn law_details_show_each_record_type(
    out: Seq<char>,
    item: TargetResult,
    texts: TargetTexts,
    place: int,
)
    requires
        item.wf(),
        item.by_record_type.labels.len() > 1,
        texts.type_qps.len() == item.by_record_type.labels.len(),
        0 <= place < item.by_record_type.labels.len(),
    ensures
        exists|before: Seq<char>| #[trigger]
            report::with_type_row(
                before,
                item.by_record_type.labels[place]@,
                item.by_record_type.values[place],
                texts.type_qps[place]@,
            ).is_prefix_of(report::with_details(out, item, texts)),
{
    let shown = report::with_details(out, item, texts);
    let lines = details_lines(out, item, texts);
    let heads = report::with_type_heads(lines);
    let labels = item.by_record_type.label_texts();
    let qps = text::texts(texts.type_qps@);
    let before = report::with_type_rows(
        heads,
        labels,
        item.by_record_type.values@,
        qps,
        place as nat,
    );
    assert(labels[place] == item.by_record_type.labels[place]@);
    assert(qps[place] == texts.type_qps[place]@);
    lemma_type_rows_of_first(
        heads,
        labels,
        item.by_record_type.values@,
        qps,
        (place + 1) as nat,
        item.by_record_type.labels.len() as nat,
    );
    assert(report::with_type_rows(
        heads,
        labels,
        item.by_record_type.values@,
        qps,
        (place + 1) as nat,
    ) == report::with_type_row(
        before,
        item.by_record_type.labels[place]@,
        item.by_record_type.values[place],
        texts.type_qps[place]@,
    ));
}

proof fn lemma_type_rows_of_first(
    out: Seq<char>,
    labels: Seq<Seq<char>>,
    items: Seq<TypeResult>,
    qps: Seq<Seq<char>>,
    first: nat,
    n: nat,
)
    requires
        first <= n,
    ensures
        report::with_type_rows(out, labels, items, qps, first).is_prefix_of(
            report::with_type_rows(out, labels, items, qps, n),
        ),
    decreases n,
{
    let shown = report::with_type_rows(out, labels, items, qps, first);
    if first == n {
        assert(shown.take(shown.len() as int) =~= shown);
    } else {
        let last = n - 1;
        let before = report::with_type_rows(out, labels, items, qps, last as nat);
        lemma_type_rows_of_first(out, labels, items, qps, first, last as nat);
        lemma_type_row_begins(before, labels[last], items[last], qps[last]);
        lemma_prefix_of_prefix(
            shown,
            before,
            report::with_type_rows(out, labels, items, qps, n),
        );
    }
}

} // verus!
