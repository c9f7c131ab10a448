//! What holds of lists of record types in text form: how they go together, and
//! which ways of writing them make no difference.

use vstd::prelude::*;

use crate::distinct;
use crate::error::ConfigFault;
use crate::record_type;
use crate::text;

verus! {

proof fn lemma_filled_of_two(a: Seq<Seq<char>>, b: Seq<Seq<char>>)
    ensures
        record_type::filled(a + b) == record_type::filled(a) + record_type::filled(b),
    decreases b.len(),
{
    if b.len() == 0 {
        assert(a + b =~= a);
        assert(record_type::filled(a) + record_type::filled(b) =~= record_type::filled(a));
    } else {
        lemma_filled_of_two(a, b.drop_last());
        assert((a + b).drop_last() =~= a + b.drop_last());
        assert(record_type::filled(a + b) =~= record_type::filled(a) + record_type::filled(b));
    }
}

proof fn lemma_tokens_of_two(a: Seq<Seq<char>>, b: Seq<Seq<char>>)
    ensures
        record_type::all_tokens(a + b) == record_type::all_tokens(a) + record_type::all_tokens(b),
    decreases b.len(),
{
    if b.len() == 0 {
        assert(a + b =~= a);
        assert(record_type::all_tokens(a) + record_type::all_tokens(b)
            =~= record_type::all_tokens(a));
    } else {
        lemma_tokens_of_two(a, b.drop_last());
        assert((a + b).drop_last() =~= a + b.drop_last());
        assert(record_type::all_tokens(a + b) =~= record_type::all_tokens(a)
            + record_type::all_tokens(b));
    }
}

proof fn lemma_tokens_of_one(group: Seq<char>)
    ensures
        record_type::all_tokens(seq![group]) == record_type::tokens(group),
{
    assert(seq![group].drop_last() =~= Seq::empty());
    assert(record_type::all_tokens(seq![group].drop_last()) =~= Seq::empty());
    assert(record_type::all_tokens(seq![group]) =~= record_type::tokens(group));
}

/// The record types that one list and then another stand for, or the fault of
/// the first that has one.
spec fn both(
    a: Result<Seq<u16>, ConfigFault>,
    b: Result<Seq<u16>, ConfigFault>,
) -> Result<Seq<u16>, ConfigFault> {
    match a {
        Err(fault) => Err(fault),
        Ok(first) => match b {
            Err(fault) => Err(fault),
            Ok(second) => Ok(first + second),
        },
    }
}

proof fn lemma_codes_of_two(a: Seq<Seq<char>>, b: Seq<Seq<char>>)
    ensures
        record_type::listed_codes(a + b) == both(
            record_type::listed_codes(a),
            record_type::listed_codes(b),
        ),
    decreases b.len(),
{
    if b.len() == 0 {
        assert(a + b =~= a);
        if let Ok(first) = record_type::listed_codes(a) {
            assert(first + Seq::<u16>::empty() =~= first);
        }
    } else {
        lemma_codes_of_two(a, b.drop_last());
        assert((a + b).drop_last() =~= a + b.drop_last());
        assert((a + b).last() == b.last());
        if let Ok(first) = record_type::listed_codes(a) {
            if let Ok(second) = record_type::listed_codes(b.drop_last()) {
                if let Ok(third) = record_type::token_codes(b.last()) {
                    assert(first + second + third =~= first + (second + third));
                }
            }
        }
    }
}

proof fn lemma_listed_faults(tokens: Seq<Seq<char>>)
    ensures
        record_type::listed_codes(tokens) != Err::<Seq<u16>, ConfigFault>(ConfigFault::NoRecordType),
    decreases tokens.len(),
{
    if tokens.len() > 0 {
        lemma_listed_faults(tokens.drop_last());
    }
}

proof fn lemma_no_types_kept(codes: Seq<u16>)
    ensures
        record_type::distinct_codes(codes).len() == 0 <==> codes.len() == 0,
{
    if codes.len() > 0 {
        distinct::law_kept_first_keeps_the_head(codes, |code: u16| code);
    }
}

/// No record type is read twice.
pub proof fn law_types_are_distinct(groups: Seq<Seq<char>>)
    ensures
        match record_type::read_types(groups) {
            Ok(types) => types.len() > 0 && types.no_duplicates(),
            Err(_) => true,
        },
{
    if let Ok(codes) = record_type::listed_codes(record_type::all_tokens(groups)) {
        let key = |code: u16| code;
        lemma_no_types_kept(codes);
        distinct::law_kept_first_is_distinct(codes, key);
        let types = record_type::distinct_codes(codes);
        assert forall|i: int, j: int|
            0 <= i < types.len() && 0 <= j < types.len() && i != j implies types[i] != types[j] by {
            if i < j {
                assert(key(types[i]) != key(types[j]));
            } else {
                assert(key(types[j]) != key(types[i]));
            }
        }
    }
}

/// The record types of a list that are not among known ones, in their order.
pub open spec fn new_to(known: Seq<u16>, types: Seq<u16>) -> Seq<u16> {
    types.filter(|code: u16| !known.contains(code))
}

proof fn lemma_known_and_new(known: Seq<u16>, types: Seq<u16>)
    requires
        known.no_duplicates(),
        types.no_duplicates(),
    ensures
        record_type::distinct_codes(known + types) == known + new_to(known, types),
    decreases types.len(),
{
    reveal(Seq::filter);
    let key = |code: u16| code;
    if types.len() == 0 {
        assert(known + types =~= known);
        assert(known + new_to(known, types) =~= known);
        assert forall|i: int, j: int| 0 <= i < j < known.len() implies key(#[trigger] known[i])
            != key(#[trigger] known[j]) by {}
        distinct::law_kept_first_of_distinct(known, key);
    } else {
        let rest = types.drop_last();
        let code = types.last();
        lemma_known_and_new(known, rest);
        assert((known + types).drop_last() =~= known + rest);
        assert(distinct::occurs(known + rest, key, code) == known.contains(code)) by {
            if distinct::occurs(known + rest, key, code) {
                let i = choose|i: int|
                    0 <= i < (known + rest).len() && key(#[trigger] (known + rest)[i]) == code;
                if i < known.len() {
                    assert(known[i] == code);
                } else {
                    assert(types[i - known.len()] == code);
                    assert(types[types.len() - 1] == code);
                }
            }
            if known.contains(code) {
                let i = known.index_of(code);
                assert((known + rest)[i] == code);
            }
        }
        assert(record_type::distinct_codes(known + types) =~= known + new_to(known, types));
    }
}

/// Two lists one after the other stand for the record types of the first and
/// then those of the second that are not among them, in their order. A list
/// without a record type adds nothing, and the first fault counts.
pub proof fn law_lists_go_together(a: Seq<Seq<char>>, b: Seq<Seq<char>>)
    ensures
        record_type::read_types(a + b) == match (
            record_type::read_types(a),
            record_type::read_types(b),
        ) {
            (Err(ConfigFault::NoRecordType), second) => second,
            (Err(fault), _) => Err(fault),
            (first, Err(ConfigFault::NoRecordType)) => first,
            (Ok(_), Err(fault)) => Err(fault),
            (Ok(first), Ok(second)) => Ok(first + new_to(first, second)),
        },
{
    let x = record_type::all_tokens(a);
    let y = record_type::all_tokens(b);
    lemma_tokens_of_two(a, b);
    lemma_codes_of_two(x, y);
    lemma_listed_faults(x);
    lemma_listed_faults(y);
    if let Ok(first) = record_type::listed_codes(x) {
        if let Ok(second) = record_type::listed_codes(y) {
            if first.len() == 0 {
                assert(first + second =~= second);
            }
            if second.len() == 0 {
                assert(first + second =~= first);
            }
            distinct::law_kept_first_of_two(first, second, |code: u16| code);
            law_types_are_distinct(a);
            law_types_are_distinct(b);
            if first.len() > 0 && second.len() > 0 {
                lemma_known_and_new(
                    record_type::distinct_codes(first),
                    record_type::distinct_codes(second),
                );
            }
        }
    }
}

/// Two lists that stand for the same record types, whatever way they are written
/// in, stand for them together as well.
pub proof fn law_repeated_types_count_once(a: Seq<Seq<char>>, b: Seq<Seq<char>>)
    requires
        record_type::read_types(a) is Ok,
        record_type::read_types(b) == record_type::read_types(a),
    ensures
        record_type::read_types(a + b) == record_type::read_types(a),
{
    let types = record_type::read_types(a)->Ok_0;
    law_lists_go_together(a, b);
    lemma_nothing_new(types, types);
    assert(types + new_to(types, types) =~= types);
}

proof fn lemma_nothing_new(known: Seq<u16>, types: Seq<u16>)
    requires
        forall|i: int| 0 <= i < types.len() ==> known.contains(#[trigger] types[i]),
    ensures
        new_to(known, types).len() == 0,
    decreases types.len(),
{
    reveal(Seq::filter);
    if types.len() > 0 {
        let rest = types.drop_last();
        assert forall|i: int| 0 <= i < rest.len() implies known.contains(#[trigger] rest[i]) by {
            assert(types[i] == rest[i]);
        }
        lemma_nothing_new(known, rest);
        assert(known.contains(types[types.len() - 1]));
    }
}

/// Lists joined by commas.
pub open spec fn joined(groups: Seq<Seq<char>>) -> Seq<char>
    decreases groups.len(),
{
    if groups.len() <= 1 {
        groups[0]
    } else {
        joined(groups.drop_last()) + seq![','] + groups.last()
    }
}

proof fn lemma_tokens_of_joined(groups: Seq<Seq<char>>)
    requires
        groups.len() > 0,
    ensures
        record_type::tokens(joined(groups)) == record_type::all_tokens(groups),
    decreases groups.len(),
{
    if groups.len() == 1 {
        assert(groups =~= seq![groups[0]]);
        lemma_tokens_of_one(groups[0]);
    } else {
        let before = joined(groups.drop_last());
        lemma_tokens_of_joined(groups.drop_last());
        text::lemma_split_of_two(before, groups.last(), ',');
        lemma_filled_of_two(text::split(before, ','), text::split(groups.last(), ','));
    }
}

/// It makes no difference whether lists are given one after the other or as one,
/// joined by commas.
pub proof fn law_lists_join_by_commas(groups: Seq<Seq<char>>)
    requires
        groups.len() > 0,
    ensures
        record_type::read_types(seq![joined(groups)]) == record_type::read_types(groups),
{
    lemma_tokens_of_joined(groups);
    lemma_tokens_of_one(joined(groups));
}

proof fn lemma_filled_of_one(part: Seq<char>)
    ensures
        record_type::filled(seq![part]) == (if text::trimmed(part).len() == 0 {
            Seq::empty()
        } else {
            seq![text::trimmed(part)]
        }),
{
    assert(seq![part].drop_last() =~= Seq::empty());
    assert(record_type::filled(seq![part].drop_last()) =~= Seq::empty());
    assert(Seq::<Seq<char>>::empty().push(text::trimmed(part)) =~= seq![text::trimmed(part)]);
}

proof fn lemma_no_comma_in_blank(blank: Seq<char>)
    requires
        text::is_blank(blank),
    ensures
        !blank.contains(','),
{
    if blank.contains(',') {
        let i = blank.index_of(',');
        assert(text::is_space(blank[i]));
    }
}

proof fn lemma_tokens_after_blank(blank: Seq<char>, group: Seq<char>)
    requires
        text::is_blank(blank),
    ensures
        record_type::tokens(blank + group) == record_type::tokens(group),
{
    let whole = blank + group;
    let none = Seq::<char>::empty();
    lemma_no_comma_in_blank(blank);
    text::lemma_first_index(blank, ',');
    text::lemma_first_index(group, ',');
    text::lemma_first_index_of_two(blank, group, ',');
    let i = text::first_index(group, ',');
    let part = group.take(i);
    assert(blank + part + none =~= blank + part);
    text::lemma_trimmed_of_padded(blank, part, none);
    lemma_filled_of_one(part);
    lemma_filled_of_one(blank + part);
    if i < group.len() {
        let rest = text::split(group.skip(i + 1), ',');
        assert(whole.take(blank.len() + i) =~= blank + part);
        assert(whole.skip(blank.len() + i + 1) =~= group.skip(i + 1));
        lemma_filled_of_two(seq![part], rest);
        lemma_filled_of_two(seq![blank + part], rest);
    } else {
        assert(part =~= group);
    }
}

proof fn lemma_tokens_before_blank(group: Seq<char>, blank: Seq<char>)
    requires
        text::is_blank(blank),
    ensures
        record_type::tokens(group + blank) == record_type::tokens(group),
    decreases group.len(),
{
    let whole = group + blank;
    let none = Seq::<char>::empty();
    lemma_no_comma_in_blank(blank);
    text::lemma_first_index(blank, ',');
    text::lemma_first_index(group, ',');
    text::lemma_first_index_of_two(group, blank, ',');
    let i = text::first_index(group, ',');
    if i < group.len() {
        let part = group.take(i);
        let rest = group.skip(i + 1);
        lemma_tokens_before_blank(rest, blank);
        assert(whole.take(i) =~= part);
        assert(whole.skip(i + 1) =~= rest + blank);
        lemma_filled_of_two(seq![part], text::split(rest, ','));
        lemma_filled_of_two(seq![part], text::split(rest + blank, ','));
    } else {
        assert(none + group + blank =~= whole);
        text::lemma_trimmed_of_padded(none, group, blank);
        lemma_filled_of_one(group);
        lemma_filled_of_one(whole);
    }
}

/// Lists with white space around them.
pub open spec fn padded(
    left: Seq<Seq<char>>,
    groups: Seq<Seq<char>>,
    right: Seq<Seq<char>>,
) -> Seq<Seq<char>> {
    Seq::new(groups.len(), |i: int| left[i] + groups[i] + right[i])
}

proof fn lemma_tokens_of_padded(
    left: Seq<Seq<char>>,
    groups: Seq<Seq<char>>,
    right: Seq<Seq<char>>,
)
    requires
        forall|i: int| 0 <= i < groups.len() ==> text::is_blank(#[trigger] left[i]),
        forall|i: int| 0 <= i < groups.len() ==> text::is_blank(#[trigger] right[i]),
    ensures
        record_type::all_tokens(padded(left, groups, right)) == record_type::all_tokens(groups),
    decreases groups.len(),
{
    let whole = padded(left, groups, right);
    if groups.len() > 0 {
        let last = groups.len() - 1;
        lemma_tokens_of_padded(left, groups.drop_last(), right);
        assert(whole.drop_last() =~= padded(left, groups.drop_last(), right));
        lemma_tokens_before_blank(left[last] + groups[last], right[last]);
        lemma_tokens_after_blank(left[last], groups[last]);
    } else {
        assert(whole =~= groups);
    }
}

/// White space around lists makes no difference, and so none around the parts of
/// a list, which are lists joined by commas.
pub proof fn law_blanks_do_not_count(
    left: Seq<Seq<char>>,
    groups: Seq<Seq<char>>,
    right: Seq<Seq<char>>,
)
    requires
        forall|i: int| 0 <= i < groups.len() ==> text::is_blank(#[trigger] left[i]),
        forall|i: int| 0 <= i < groups.len() ==> text::is_blank(#[trigger] right[i]),
    ensures
        record_type::read_types(padded(left, groups, right)) == record_type::read_types(groups),
        groups.len() > 0 ==> record_type::read_types(seq![joined(padded(left, groups, right))])
            == record_type::read_types(seq![joined(groups)]),
{
    lemma_tokens_of_padded(left, groups, right);
    if groups.len() > 0 {
        law_lists_join_by_commas(groups);
        law_lists_join_by_commas(padded(left, groups, right));
    }
}

/// Texts in capital letters.
pub open spec fn all_uppered(texts: Seq<Seq<char>>) -> Seq<Seq<char>> {
    texts.map_values(|part: Seq<char>| text::uppered(part))
}

proof fn lemma_filled_of_uppered(parts: Seq<Seq<char>>)
    ensures
        record_type::filled(all_uppered(parts)) == all_uppered(record_type::filled(parts)),
    decreases parts.len(),
{
    if parts.len() > 0 {
        lemma_filled_of_uppered(parts.drop_last());
        text::lemma_trimmed_of_uppered(parts.last());
        assert(all_uppered(parts).drop_last() =~= all_uppered(parts.drop_last()));
        assert(all_uppered(parts).last() == text::uppered(parts.last()));
    }
    assert(record_type::filled(all_uppered(parts)) =~= all_uppered(record_type::filled(parts)));
}

proof fn lemma_tokens_of_uppered(groups: Seq<Seq<char>>)
    ensures
        record_type::all_tokens(all_uppered(groups)) == all_uppered(
            record_type::all_tokens(groups),
        ),
    decreases groups.len(),
{
    if groups.len() > 0 {
        let group = groups.last();
        lemma_tokens_of_uppered(groups.drop_last());
        text::lemma_split_of_uppered(group);
        assert(text::split(text::uppered(group), ',') == all_uppered(text::split(group, ',')));
        lemma_filled_of_uppered(text::split(group, ','));
        assert(all_uppered(groups).drop_last() =~= all_uppered(groups.drop_last()));
        assert(all_uppered(groups).last() == text::uppered(group));
    }
    assert(record_type::all_tokens(all_uppered(groups)) =~= all_uppered(
        record_type::all_tokens(groups),
    ));
}

proof fn lemma_codes_of_cases(a: Seq<Seq<char>>, b: Seq<Seq<char>>)
    requires
        all_uppered(a) == all_uppered(b),
    ensures
        record_type::listed_codes(a) is Err <==> record_type::listed_codes(b) is Err,
        record_type::listed_codes(a) is Ok ==> record_type::listed_codes(b)
            == record_type::listed_codes(a),
    decreases a.len(),
{
    assert(all_uppered(a).len() == a.len());
    assert(all_uppered(b).len() == b.len());
    if a.len() > 0 {
        assert(all_uppered(a.drop_last()) =~= all_uppered(a).drop_last());
        assert(all_uppered(b.drop_last()) =~= all_uppered(b).drop_last());
        lemma_codes_of_cases(a.drop_last(), b.drop_last());
        assert(all_uppered(a).last() == text::uppered(a.last()));
        assert(all_uppered(b).last() == text::uppered(b.last()));
    }
}

/// It makes no difference whether lists are written in capital or small letters:
/// they stand for the same record types, or both have a fault.
pub proof fn law_letter_case_does_not_count(a: Seq<Seq<char>>, b: Seq<Seq<char>>)
    requires
        all_uppered(a) == all_uppered(b),
    ensures
        record_type::read_types(a) is Err <==> record_type::read_types(b) is Err,
        record_type::read_types(a) is Ok ==> record_type::read_types(b)
            == record_type::read_types(a),
{
    lemma_tokens_of_uppered(a);
    lemma_tokens_of_uppered(b);
    lemma_codes_of_cases(record_type::all_tokens(a), record_type::all_tokens(b));
}

proof fn lemma_one_token(token: Seq<char>)
    requires
        token.len() > 0,
        forall|i: int|
            0 <= i < token.len() ==> (#[trigger] token[i]) != ',' && !text::is_space(token[i]),
    ensures
        record_type::read_types(seq![token]) == match record_type::token_codes(token) {
            Err(fault) => Err(fault),
            Ok(codes) => if codes.len() == 0 {
                Err(ConfigFault::NoRecordType)
            } else {
                Ok(record_type::distinct_codes(codes))
            },
        },
{
    lemma_tokens_of_one(token);
    text::lemma_first_index(token, ',');
    if token.contains(',') {
        let i = token.index_of(',');
        assert(token[i] == ',');
    }
    assert forall|i: int| 0 <= i < token.len() implies !text::is_space(#[trigger] token[i]) by {}
    text::lemma_trimmed_of_solid(token);
    lemma_filled_of_one(token);
    assert(record_type::tokens(token) == seq![token]);
    assert(seq![token].drop_last() =~= Seq::empty());
    assert(record_type::listed_codes(seq![token].drop_last()) == Ok::<Seq<u16>, ConfigFault>(
        Seq::empty(),
    ));
    if let Ok(codes) = record_type::token_codes(token) {
        assert(Seq::<u16>::empty() + codes =~= codes);
    }
}

proof fn lemma_one_code(code: u16)
    ensures
        record_type::distinct_codes(seq![code]) == seq![code],
{
    distinct::law_kept_first_of_distinct(seq![code], |code: u16| code);
}

/// The number of a record type, alone and behind `TYPE`, stands for that record
/// type, for every record type that a question may ask for; and for no other is
/// either accepted.
pub proof fn law_numbers_stand_for_types(code: u16)
    ensures
        ({
            let number = seq![text::decimal(code as nat)];
            let prefixed = seq!["TYPE"@ + text::decimal(code as nat)];
            if code != 0 && code != record_type::OPT {
                &&& record_type::read_types(number) == Ok::<Seq<u16>, ConfigFault>(seq![code])
                &&& record_type::read_types(prefixed) == Ok::<Seq<u16>, ConfigFault>(seq![code])
            } else {
                &&& record_type::read_types(number) is Err
                &&& record_type::read_types(prefixed) is Err
            }
        }),
{
    let digits = text::decimal(code as nat);
    let prefixed = "TYPE"@ + digits;
    reveal_strlit("TYPE");
    reveal_strlit("ALL");
    text::lemma_decimal_reads_back(code as nat);
    assert forall|i: int| 0 <= i < digits.len() implies 0 <= #[trigger] text::digit_value(digits[i])
        < 10 by {
        assert('0' <= digits[i] <= '9');
    }
    assert(text::uppered(digits) =~= digits) by {
        assert forall|i: int| 0 <= i < digits.len() implies text::uppered(digits)[i]
            == digits[i] by {
            assert('0' <= digits[i] <= '9');
        }
    }
    assert(text::uppered(prefixed) =~= prefixed) by {
        assert forall|i: int| 0 <= i < prefixed.len() implies text::uppered(prefixed)[i]
            == prefixed[i] by {
            if i >= 4 {
                assert('0' <= digits[i - 4] <= '9');
            }
        }
    }
    assert('0' <= digits[0] <= '9');
    assert(record_type::type_number(digits) == Some(code as u64));
    assert(prefixed.skip(4) =~= digits);
    assert("TYPE"@.is_prefix_of(prefixed));
    assert(!("TYPE"@.is_prefix_of(digits))) by {
        if "TYPE"@.is_prefix_of(digits) {
            assert("TYPE"@[0] == digits[0]);
        }
    }
    assert(digits != "ALL"@) by {
        assert("ALL"@[0] == 'A');
    }
    assert(prefixed != "ALL"@) by {
        assert("ALL"@[0] == 'A');
        assert(prefixed[0] == 'T');
    }
    assert forall|i: int| 0 <= i < prefixed.len() implies (#[trigger] prefixed[i]) != ','
        && !text::is_space(prefixed[i]) by {
        if i >= 4 {
            assert('0' <= digits[i - 4] <= '9');
        }
    }
    lemma_one_token(digits);
    lemma_one_token(prefixed);
    lemma_one_code(code);
}

/// `ALL` stands for thirty-six record types, each once: those of addresses, names
/// and services, those that DNSSEC brought, and those of queries and transfers.
pub proof fn law_all_stands_for_the_preset(code: u16)
    ensures
        ({
            let all = record_type::preset_codes();
            &&& record_type::read_types(seq!["ALL"@]) == Ok::<Seq<u16>, ConfigFault>(all)
            &&& all.len() == 36
            &&& all.no_duplicates()
            &&& all.contains(code) <==> {
                ||| code == 1 || code == 28 || code == 65305  // A, AAAA, ANAME
                ||| code == 2 || code == 5 || code == 6 || code == 12  // NS, CNAME, SOA, PTR
                ||| code == 15 || code == 16 || code == 33 || code == 35  // MX, TXT, SRV, NAPTR
                ||| code == 10 || code == 13 || code == 37 || code == 44  // NULL, HINFO, CERT, SSHFP
                ||| code == 64 || code == 65 || code == 257  // SVCB, HTTPS, CAA
                ||| 52 <= code <= 53 || 61 <= code <= 62  // TLSA, SMIMEA, OPENPGPKEY, CSYNC
                ||| code == 24 || code == 25 || code == 43  // SIG, KEY, DS
                ||| 46 <= code <= 48 || code == 50 || code == 51  // RRSIG to DNSKEY, NSEC3, NSEC3PARAM
                ||| 59 <= code <= 60 || code == 250  // CDS, CDNSKEY, TSIG
                ||| 251 <= code <= 252 || code == 255  // IXFR, AXFR, ANY
            }
        }),
{
    let all = record_type::preset_codes();
    law_preset_is_in_order();
    let word = "ALL"@;
    reveal_strlit("ALL");
    reveal_strlit("TYPE");
    assert(text::uppered(word) =~= word);
    lemma_one_token(word);
    distinct::law_kept_first_of_distinct(all, |code: u16| code);
    if all.contains(code) {
        let i = all.index_of(code);
        assert(all[i] == code);
    }
}

/// The record types of the preset stand in the alphabetical order of their names,
/// but for CDS, which comes before CDNSKEY.
pub proof fn law_preset_is_in_order()
    ensures
        ({
            let all = record_type::preset_codes();
            &&& all.len() == 36
            &&& all.no_duplicates()
            &&& all[0] == 1  // A
            &&& all[1] == 28  // AAAA
            &&& all[2] == 65305  // ANAME
            &&& all[3] == 255  // ANY
            &&& all[4] == 252  // AXFR
            &&& all[5] == 257  // CAA
            &&& all[6] == 59  // CDS
            &&& all[7] == 60  // CDNSKEY
            &&& all[8] == 37  // CERT
            &&& all[9] == 5  // CNAME
            &&& all[10] == 62  // CSYNC
            &&& all[11] == 48  // DNSKEY
            &&& all[12] == 43  // DS
            &&& all[13] == 13  // HINFO
            &&& all[14] == 65  // HTTPS
            &&& all[15] == 251  // IXFR
            &&& all[16] == 25  // KEY
            &&& all[17] == 15  // MX
            &&& all[18] == 35  // NAPTR
            &&& all[19] == 2  // NS
            &&& all[20] == 47  // NSEC
            &&& all[21] == 50  // NSEC3
            &&& all[22] == 51  // NSEC3PARAM
            &&& all[23] == 10  // NULL
            &&& all[24] == 61  // OPENPGPKEY
            &&& all[25] == 12  // PTR
            &&& all[26] == 46  // RRSIG
            &&& all[27] == 24  // SIG
            &&& all[28] == 53  // SMIMEA
            &&& all[29] == 6  // SOA
            &&& all[30] == 33  // SRV
            &&& all[31] == 44  // SSHFP
            &&& all[32] == 64  // SVCB
            &&& all[33] == 52  // TLSA
            &&& all[34] == 250  // TSIG
            &&& all[35] == 16  // TXT
        }),
{
}

/// A plus sign before the number of a record type does not count.
pub proof fn law_sign_does_not_count(code: u16)
    requires
        code != 0,
        code != 41,
    ensures
        record_type::read_types(seq!["+"@ + text::decimal(code as nat)]) == Ok::<
            Seq<u16>,
            ConfigFault,
        >(seq![code]),
{
    let digits = text::decimal(code as nat);
    let signed = "+"@ + digits;
    reveal_strlit("+");
    reveal_strlit("TYPE");
    reveal_strlit("ALL");
    text::lemma_decimal_reads_back(code as nat);
    text::law_decimal_digits_are_read(code as nat, 65535);
    assert forall|i: int| 0 <= i < signed.len() implies text::uppered(signed)[i] == signed[i]
        && signed[i] != ',' && !text::is_space(signed[i]) by {
        if i >= 1 {
            assert('0' <= digits[i - 1] <= '9');
        }
    }
    assert(text::uppered(signed) =~= signed);
    assert(signed[0] == '+');
    assert(signed.drop_first() =~= digits);
    assert(!("TYPE"@.is_prefix_of(signed))) by {
        if "TYPE"@.is_prefix_of(signed) {
            assert("TYPE"@[0] == signed[0]);
        }
    }
    assert(signed != "ALL"@) by {
        assert("ALL"@[0] == 'A');
    }
    lemma_one_token(signed);
    lemma_one_code(code);
}

/// A record type without a name has a label that stands for it; one that has a
/// name has that name for its label.
pub proof fn law_labels_stand_for_types(code: u16)
    ensures
        record_type::name_of_type(code) is Some ==> record_type::label(code)
            == record_type::name_of_type(code)->0,
        record_type::name_of_type(code) is None && code != 0 && code != 41
            ==> record_type::read_types(seq![record_type::label(code)]) == Ok::<
            Seq<u16>,
            ConfigFault,
        >(seq![code]),
        record_type::name_of_type(code) is None ==> record_type::label(code).take(4) == seq![
            'T',
            'Y',
            'P',
            'E',
        ],
{
    law_numbers_stand_for_types(code);
    reveal_strlit("TYPE");
    if record_type::name_of_type(code) is None {
        assert(record_type::label(code).take(4) =~= seq!['T', 'Y', 'P', 'E']);
    }
}

/// A word that is no number, does not begin with `TYPE` and is not `ALL` stands
/// for the record type of that name in capital letters, where there is one that a
/// question may ask for. It is refused with the word itself where there is none.
pub proof fn law_names_stand_for_types(word: Seq<char>)
    requires
        word.len() > 0,
        forall|i: int|
            0 <= i < word.len() ==> 'A' <= (#[trigger] word[i]) <= 'Z' || ('a' <= word[i]
                <= 'z') || ('0' <= word[i] <= '9'),
        'A' <= word[0] <= 'Z' || 'a' <= word[0] <= 'z',
        text::uppered(word) != seq!['A', 'L', 'L'],
        !(word.len() >= 4 && text::uppered(word).take(4) == seq!['T', 'Y', 'P', 'E']),
    ensures
        ({
            let read = record_type::read_types(seq![word]);
            match record_type::type_from_name(text::uppered(word)) {
                Ok(code) => read == (if code == 0 || code == 41 {
                    Err(ConfigFault::NotAQuestion { raw: word })
                } else {
                    Ok::<Seq<u16>, ConfigFault>(seq![code])
                }),
                Err(cause) => read == Err::<Seq<u16>, ConfigFault>(
                    ConfigFault::UnknownType { raw: word, cause },
                ),
            }
        }),
{
    reveal_strlit("TYPE");
    reveal_strlit("ALL");
    let capital = text::uppered(word);
    assert("ALL"@ =~= seq!['A', 'L', 'L']);
    assert("TYPE"@ =~= seq!['T', 'Y', 'P', 'E']);
    assert(!("TYPE"@.is_prefix_of(capital))) by {
        if "TYPE"@.is_prefix_of(capital) {
            assert(capital.take(4) =~= "TYPE"@);
        }
    }
    assert(capital[0] == text::upper_char(word[0]));
    assert('A' <= capital[0] <= 'Z');
    assert(text::digit_value(capital[0]) < 0 || text::digit_value(capital[0]) >= 10);
    assert(record_type::type_number(capital) is None);
    assert forall|i: int| 0 <= i < word.len() implies (#[trigger] word[i]) != ','
        && !text::is_space(word[i]) by {}
    lemma_one_token(word);
    if let Ok(code) = record_type::type_from_name(capital) {
        lemma_one_code(code);
    }
}

/// `TYPE` in any letters, with something after it that is no number below 65536,
/// is refused with the whole word.
pub proof fn law_type_numbers_are_numbers(word: Seq<char>)
    requires
        word.len() >= 4,
        text::uppered(word).take(4) == seq!['T', 'Y', 'P', 'E'],
        forall|i: int| 0 <= i < word.len() ==> (#[trigger] word[i]) != ',' && !text::is_space(word[i]),
        exists|i: int| 4 <= i < word.len() && !('0' <= #[trigger] word[i] <= '9') && word[i] != '+',
    ensures
        record_type::read_types(seq![word]) == Err::<Seq<u16>, ConfigFault>(
            ConfigFault::InvalidTypeNumber { raw: word },
        ),
{
    reveal_strlit("TYPE");
    reveal_strlit("ALL");
    let capital = text::uppered(word);
    let rest = capital.skip(4);
    assert("TYPE"@ =~= seq!['T', 'Y', 'P', 'E']);
    assert("TYPE"@.is_prefix_of(capital)) by {
        assert(capital.take(4) =~= "TYPE"@);
    }
    assert(capital != "ALL"@);
    let i = choose|i: int|
        4 <= i < word.len() && !('0' <= #[trigger] word[i] <= '9') && word[i] != '+';
    assert(rest[i - 4] == text::upper_char(word[i]));
    let digit = text::digit_value(rest[i - 4]);
    assert(!(0 <= digit < 10));
    if rest.first() == '+' {
        assert(i != 4);
        assert(rest.drop_first()[i - 5] == rest[i - 4]);
    }
    assert(record_type::type_number(rest) is None);
    lemma_one_token(word);
}

} // verus!
