//! What is read of a length in text form: numbers, fractions and units.

use vstd::arithmetic::power::pow;
use vstd::prelude::*;

use crate::span;
use crate::span::Reading;
use crate::text;

verus! {

/// Units are made of one another: a thousand nanoseconds are a microsecond, a
/// thousand of these a millisecond, a thousand of these a second; sixty seconds
/// are a minute, sixty minutes an hour, twenty-four hours a day, seven days a
/// week; a year is 365 days and a quarter, and a month a twelfth of it, rounded
/// up to a hundredth of a day.
pub proof fn law_units_are_made_of_one_another()
    ensures
        span::unit_nanos("ns"@) == 1,
        span::unit_nanos("us"@) == 1000 * span::unit_nanos("ns"@),
        span::unit_nanos("ms"@) == 1000 * span::unit_nanos("us"@),
        span::unit_nanos("s"@) == 1000 * span::unit_nanos("ms"@),
        span::unit_nanos("m"@) == 60 * span::unit_nanos("s"@),
        span::unit_nanos("h"@) == 60 * span::unit_nanos("m"@),
        span::unit_nanos("d"@) == 24 * span::unit_nanos("h"@),
        span::unit_nanos("w"@) == 7 * span::unit_nanos("d"@),
        4 * span::unit_nanos("y"@) == 1461 * span::unit_nanos("d"@),
        100 * span::unit_nanos("M"@) == 3044 * span::unit_nanos("d"@),
{
    lemma_short_units();
}

proof fn lemma_short_units()
    ensures
        span::unit_nanos("ns"@) == 1,
        span::unit_nanos("us"@) == 1_000,
        span::unit_nanos("ms"@) == 1_000_000,
        span::unit_nanos("s"@) == 1_000_000_000,
        span::unit_nanos("m"@) == 60_000_000_000,
        span::unit_nanos("h"@) == 3_600_000_000_000,
        span::unit_nanos("d"@) == 86_400_000_000_000,
        span::unit_nanos("w"@) == 604_800_000_000_000,
        span::unit_nanos("y"@) == 31_557_600_000_000_000,
        span::unit_nanos("M"@) == 2_630_016_000_000_000,
{
    lemma_words();
}

/// The first letters and the lengths of the words for units.
proof fn lemma_words()
    ensures
        "nanos"@.len() == 5 && "nanos"@[0] == 'n',
        "nsec"@.len() == 4 && "nsec"@[0] == 'n',
        "ns"@.len() == 2 && "ns"@[0] == 'n',
        "usec"@.len() == 4 && "usec"@[0] == 'u',
        "us"@.len() == 2 && "us"@[0] == 'u',
        "\u{b5}s"@.len() == 2 && "\u{b5}s"@[0] == '\u{b5}',
        "millis"@.len() == 6 && "millis"@[0] == 'm',
        "msec"@.len() == 4 && "msec"@[0] == 'm',
        "ms"@.len() == 2 && "ms"@[0] == 'm',
        "seconds"@.len() == 7 && "seconds"@[0] == 's',
        "second"@.len() == 6 && "second"@[0] == 's',
        "secs"@.len() == 4 && "secs"@[0] == 's',
        "sec"@.len() == 3 && "sec"@[0] == 's',
        "s"@.len() == 1 && "s"@[0] == 's',
        "minutes"@.len() == 7 && "minutes"@[0] == 'm',
        "minute"@.len() == 6 && "minute"@[0] == 'm',
        "min"@.len() == 3 && "min"@[0] == 'm',
        "mins"@.len() == 4 && "mins"@[0] == 'm',
        "m"@.len() == 1 && "m"@[0] == 'm',
        "hours"@.len() == 5 && "hours"@[0] == 'h',
        "hour"@.len() == 4 && "hour"@[0] == 'h',
        "hr"@.len() == 2 && "hr"@[0] == 'h',
        "hrs"@.len() == 3 && "hrs"@[0] == 'h',
        "h"@.len() == 1 && "h"@[0] == 'h',
        "days"@.len() == 4 && "days"@[0] == 'd',
        "day"@.len() == 3 && "day"@[0] == 'd',
        "d"@.len() == 1 && "d"@[0] == 'd',
        "weeks"@.len() == 5 && "weeks"@[0] == 'w',
        "week"@.len() == 4 && "week"@[0] == 'w',
        "wk"@.len() == 2 && "wk"@[0] == 'w',
        "wks"@.len() == 3 && "wks"@[0] == 'w',
        "w"@.len() == 1 && "w"@[0] == 'w',
        "months"@.len() == 6 && "months"@[0] == 'm',
        "month"@.len() == 5 && "month"@[0] == 'm',
        "M"@.len() == 1 && "M"@[0] == 'M',
        "years"@.len() == 5 && "years"@[0] == 'y',
        "year"@.len() == 4 && "year"@[0] == 'y',
        "yr"@.len() == 2 && "yr"@[0] == 'y',
        "yrs"@.len() == 3 && "yrs"@[0] == 'y',
        "y"@.len() == 1 && "y"@[0] == 'y',
        "millis"@[1] == 'i' && "minute"@[1] == 'i' && "months"@[1] == 'o',
        "msec"@[1] == 's' && "mins"@[1] == 'i' && "minutes"@[1] == 'i',
        "millis"@[2] == 'l' && "minute"@[2] == 'n',
{
    reveal_strlit("nanos");
    reveal_strlit("nsec");
    reveal_strlit("ns");
    reveal_strlit("usec");
    reveal_strlit("us");
    reveal_strlit("\u{b5}s");
    reveal_strlit("millis");
    reveal_strlit("msec");
    reveal_strlit("ms");
    reveal_strlit("seconds");
    reveal_strlit("second");
    reveal_strlit("secs");
    reveal_strlit("sec");
    reveal_strlit("s");
    reveal_strlit("minutes");
    reveal_strlit("minute");
    reveal_strlit("min");
    reveal_strlit("mins");
    reveal_strlit("m");
    reveal_strlit("hours");
    reveal_strlit("hour");
    reveal_strlit("hr");
    reveal_strlit("hrs");
    reveal_strlit("h");
    reveal_strlit("days");
    reveal_strlit("day");
    reveal_strlit("d");
    reveal_strlit("weeks");
    reveal_strlit("week");
    reveal_strlit("wk");
    reveal_strlit("wks");
    reveal_strlit("w");
    reveal_strlit("months");
    reveal_strlit("month");
    reveal_strlit("M");
    reveal_strlit("years");
    reveal_strlit("year");
    reveal_strlit("yr");
    reveal_strlit("yrs");
    reveal_strlit("y");
}

/// The names of one unit stand for the same length.
pub proof fn law_names_of_units()
    ensures
        span::unit_nanos("nanos"@) == span::unit_nanos("ns"@),
        span::unit_nanos("nsec"@) == span::unit_nanos("ns"@),
        span::unit_nanos("usec"@) == span::unit_nanos("us"@),
        span::unit_nanos("\u{b5}s"@) == span::unit_nanos("us"@),
        span::unit_nanos("millis"@) == span::unit_nanos("ms"@),
        span::unit_nanos("msec"@) == span::unit_nanos("ms"@),
        span::unit_nanos("seconds"@) == span::unit_nanos("s"@),
        span::unit_nanos("second"@) == span::unit_nanos("s"@),
        span::unit_nanos("secs"@) == span::unit_nanos("s"@),
        span::unit_nanos("sec"@) == span::unit_nanos("s"@),
        span::unit_nanos("minutes"@) == span::unit_nanos("m"@),
        span::unit_nanos("minute"@) == span::unit_nanos("m"@),
        span::unit_nanos("mins"@) == span::unit_nanos("m"@),
        span::unit_nanos("min"@) == span::unit_nanos("m"@),
        span::unit_nanos("hours"@) == span::unit_nanos("h"@),
        span::unit_nanos("hour"@) == span::unit_nanos("h"@),
        span::unit_nanos("hrs"@) == span::unit_nanos("h"@),
        span::unit_nanos("hr"@) == span::unit_nanos("h"@),
        span::unit_nanos("days"@) == span::unit_nanos("d"@),
        span::unit_nanos("day"@) == span::unit_nanos("d"@),
        span::unit_nanos("weeks"@) == span::unit_nanos("w"@),
        span::unit_nanos("week"@) == span::unit_nanos("w"@),
        span::unit_nanos("wks"@) == span::unit_nanos("w"@),
        span::unit_nanos("wk"@) == span::unit_nanos("w"@),
        span::unit_nanos("months"@) == span::unit_nanos("M"@),
        span::unit_nanos("month"@) == span::unit_nanos("M"@),
        span::unit_nanos("years"@) == span::unit_nanos("y"@),
        span::unit_nanos("year"@) == span::unit_nanos("y"@),
        span::unit_nanos("yrs"@) == span::unit_nanos("y"@),
        span::unit_nanos("yr"@) == span::unit_nanos("y"@),
{
    lemma_words();
}

/// The fraction of a number of units is what its digits stand for, divided by ten
/// for each of them, in whole nanoseconds. More than nineteen digits count for
/// none.
pub proof fn law_fractions_are_rounded_down(numerator: nat, places: nat, unit: Seq<char>)
    ensures
        ({
            let f = span::fraction_nanos(numerator, places, unit) as int;
            let nanos = span::unit_nanos(unit) as int;
            &&& places <= 19 ==> f * pow(10, places) <= numerator * nanos < (f + 1) * pow(10, places)
            &&& places > 19 ==> f == 0
        }),
{
    lemma_power(places);
    if places <= 19 {
        let all = (numerator * span::unit_nanos(unit) as nat) as int;
        let tens = span::power_of_ten(places) as int;
        vstd::arithmetic::power::lemma_pow_positive(10, places);
        vstd::arithmetic::div_mod::lemma_fundamental_div_mod(all, tens);
        vstd::arithmetic::div_mod::lemma_mod_bound(all, tens);
        let f = all / tens;
        assert(tens * f == f * tens) by (nonlinear_arith);
        assert((f + 1) * tens == f * tens + tens) by (nonlinear_arith);
    }
}

proof fn lemma_power(zeros: nat)
    ensures
        span::power_of_ten(zeros) == pow(10, zeros),
    decreases zeros,
{
    reveal(pow);
    if zeros > 0 {
        lemma_power((zeros - 1) as nat);
    }
}

/// Whether a text consists of letters that a unit may hold.
pub open spec fn is_word(s: Seq<char>) -> bool {
    &&& s.len() > 0
    &&& forall|i: int|
        0 <= i < s.len() ==> ('a' <= #[trigger] s[i] && s[i] <= 'z') || ('A' <= s[i] && s[i] <= 'Z')
            || s[i] == '\u{b5}'
}

proof fn lemma_reads_word(s: Seq<char>, word: Seq<char>)
    requires
        forall|i: int|
            0 <= i < word.len() ==> ('a' <= #[trigger] word[i] && word[i] <= 'z') || ('A' <= word[i]
                && word[i] <= 'Z') || word[i] == '\u{b5}',
    ensures
        span::reading(s + word) == (Reading {
            unit: span::reading(s).unit + word,
            ..span::reading(s)
        }),
    decreases word.len(),
{
    if word.len() == 0 {
        assert(s + word =~= s);
        assert(span::reading(s).unit + word =~= span::reading(s).unit);
    } else {
        let before = word.drop_last();
        lemma_reads_word(s, before);
        assert((s + word).drop_last() =~= s + before);
        assert((s + word).last() == word[word.len() - 1]);
        assert(span::is_unit_letter(word.last()));
        assert((span::reading(s).unit + before).push(word.last()) =~= span::reading(s).unit + word);
    }
}

proof fn lemma_reads_number(s: Seq<char>, n: nat)
    requires
        span::after_unit(span::reading(s)).whole == 0,
        !span::after_unit(span::reading(s)).fraction,
    ensures
        span::reading(s + text::decimal(n)) == (Reading {
            whole: n,
            ..span::after_unit(span::reading(s))
        }),
    decreases n,
{
    let digits = text::decimal(n);
    if n < 10 {
        assert((s + digits).drop_last() =~= s);
        assert((s + digits).last() == text::digit_char(n));
    } else {
        lemma_reads_number(s, n / 10);
        assert((s + digits).drop_last() =~= s + text::decimal(n / 10));
        assert((s + digits).last() == text::digit_char(n % 10));
        let before = span::reading(s + text::decimal(n / 10));
        assert(span::after_unit(span::reading(s)).unit.len() == 0);
        assert(span::after_unit(before) == before);
    }
}

proof fn lemma_reads_fraction(s: Seq<char>, digits: Seq<char>)
    requires
        span::reading(s).unit.len() == 0,
        span::reading(s).fraction,
        span::reading(s).numerator == 0,
        span::reading(s).places == 0,
        forall|i: int| 0 <= i < digits.len() ==> '0' <= (#[trigger] digits[i]) <= '9',
    ensures
        span::reading(s + digits) == (Reading {
            numerator: text::number_value(digits, 10),
            places: digits.len(),
            ..span::reading(s)
        }),
    decreases digits.len(),
{
    if digits.len() == 0 {
        assert(s + digits =~= s);
    } else {
        let before = digits.drop_last();
        lemma_reads_fraction(s, before);
        assert((s + digits).drop_last() =~= s + before);
        assert((s + digits).last() == digits[digits.len() - 1]);
        assert(span::after_unit(span::reading(s + before)) == span::reading(s + before));
    }
}

/// The nanoseconds that are one second more than the largest `u64` of seconds.
pub open spec fn too_many() -> int {
    18446744073709551616int * 1_000_000_000
}

/// A number with its unit can be read without an overflow, however large it is.
pub proof fn law_one_unit_is_plain(n: nat, unit: Seq<char>)
    requires
        is_word(unit),
    ensures
        span::is_plain_duration(text::decimal(n) + unit),
{
    let none = Seq::<char>::empty();
    let digits = text::decimal(n);
    lemma_reads_number(none, n);
    assert(none + digits =~= digits);
    lemma_reads_word(digits, unit);
    assert(span::reading(digits).unit + unit =~= unit);
    assert(span::fraction_nanos(0, 0, unit) == 0) by {
        assert(0 * span::unit_nanos(unit) as nat == 0);
    }
}

/// Two numbers with their units can be read without an overflow, but for one
/// thing: the first comes to less than a second below what does not fit, and the
/// second, in a unit below a second, makes up exactly what is missing.
pub proof fn law_two_units_are_plain(n: u64, unit: Seq<char>, m: u64, last: Seq<char>)
    requires
        is_word(unit),
        is_word(last),
    ensures
        ({
            let a = n * span::unit_nanos(unit);
            let b = m * span::unit_nanos(last);
            span::is_plain_duration(
                text::decimal(n as nat) + unit + text::decimal(m as nat) + last,
            ) <==> !(span::unit_nanos(last) < 1_000_000_000 && too_many() - 1_000_000_000 <= a
                < too_many() && a + b == too_many())
        }),
{
    let none = Seq::<char>::empty();
    let digits = text::decimal(n as nat);
    let more = text::decimal(m as nat);
    lemma_reads_number(none, n as nat);
    assert(none + digits =~= digits);
    lemma_reads_word(digits, unit);
    assert(span::reading(digits).unit + unit =~= unit);
    assert(span::fraction_nanos(0, 0, unit) == 0) by {
        assert(0 * span::unit_nanos(unit) as nat == 0);
    }
    let first = span::after_unit(span::reading(digits + unit));
    assert(first.nanos == n as nat * span::unit_nanos(unit) as nat);
    assert(!first.filled);
    lemma_reads_number(digits + unit, m as nat);
    lemma_reads_word(digits + unit + more, last);
    assert(span::reading(digits + unit + more).unit + last =~= last);
    assert(span::fraction_nanos(0, 0, last) == 0) by {
        assert(0 * span::unit_nanos(last) as nat == 0);
    }
}

/// Two numbers with their units, the second with a fraction, can be read without
/// an overflow but for two things: its whole part, in a unit below a second, or
/// its fraction, in a unit below an hour, is added to less than a second below
/// what does not fit and makes up exactly what is missing.
pub proof fn law_fraction_is_plain(
    n: u64,
    unit: Seq<char>,
    m: u64,
    digits: Seq<char>,
    last: Seq<char>,
)
    requires
        is_word(unit),
        is_word(last),
        forall|i: int| 0 <= i < digits.len() ==> '0' <= (#[trigger] digits[i]) <= '9',
    ensures
        ({
            let a = n * span::unit_nanos(unit);
            let b = a + m * span::unit_nanos(last);
            let c = b + span::fraction_nanos(
                text::number_value(digits, 10),
                digits.len(),
                last,
            );
            let low = too_many() - 1_000_000_000;
            span::is_plain_duration(
                text::decimal(n as nat) + unit + text::decimal(m as nat) + seq!['.'] + digits
                    + last,
            ) <==> {
                &&& !(span::unit_nanos(last) < 1_000_000_000 && low <= a < too_many() && b
                    == too_many())
                &&& !(span::unit_nanos(last) < 3600 * 1_000_000_000 && low <= b < too_many() && c
                    == too_many())
            }
        }),
{
    let none = Seq::<char>::empty();
    let start = text::decimal(n as nat);
    let more = text::decimal(m as nat);
    lemma_reads_number(none, n as nat);
    assert(none + start =~= start);
    lemma_reads_word(start, unit);
    assert(span::reading(start).unit + unit =~= unit);
    assert(span::fraction_nanos(0, 0, unit) == 0) by {
        assert(0 * span::unit_nanos(unit) as nat == 0);
    }
    let first = span::after_unit(span::reading(start + unit));
    assert(first.nanos == n as nat * span::unit_nanos(unit) as nat);
    assert(!first.filled);
    lemma_reads_number(start + unit, m as nat);
    let before = start + unit + more;
    assert((before + seq!['.']).drop_last() =~= before);
    assert(span::reading(before + seq!['.']) == (Reading {
        fraction: true,
        ..span::reading(before)
    }));
    lemma_reads_fraction(before + seq!['.'], digits);
    lemma_reads_word(before + seq!['.'] + digits, last);
    assert(span::reading(before + seq!['.'] + digits).unit + last =~= last);
}

} // verus!
