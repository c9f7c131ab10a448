//! Lengths of time.

use vstd::prelude::*;

use crate::text;

verus! {

/// A length of time in seconds and nanoseconds.
#[derive(Debug, Clone, Copy, PartialEq, Eq, Structural)]
pub struct Span {
    pub secs: u64,
    pub nanos: u32,
}

/// `humantime::DurationError`, carried through without a look inside.
#[verifier::external_type_specification]
#[verifier::external_body]
pub struct ExDurationError(humantime::DurationError);

/// The seconds and nanoseconds that a duration in free text form stands for, or
/// what is wrong with it.
pub uninterp spec fn duration_value(text: Seq<char>) -> Result<
    (u64, u32),
    humantime::DurationError,
>;

/// A decimal digit.
pub open spec fn is_digit(c: char) -> bool {
    '0' <= c && c <= '9'
}

/// A letter that a time unit may hold.
pub open spec fn is_unit_letter(c: char) -> bool {
    ('a' <= c && c <= 'z') || ('A' <= c && c <= 'Z') || c == '\u{b5}'
}

/// The nanoseconds that a unit stands for; none for a word that is no unit.
pub open spec fn unit_nanos(unit: Seq<char>) -> u64 {
    if unit == "nanos"@ || unit == "nsec"@ || unit == "ns"@ {
        1
    } else if unit == "usec"@ || unit == "us"@ || unit == "\u{b5}s"@ {
        1_000
    } else if unit == "millis"@ || unit == "msec"@ || unit == "ms"@ {
        1_000_000
    } else if unit == "seconds"@ || unit == "second"@ || unit == "secs"@ || unit == "sec"@ || unit == "s"@ {
        1_000_000_000
    } else if unit == "minutes"@ || unit == "minute"@ || unit == "min"@ || unit == "mins"@ || unit == "m"@ {
        60_000_000_000
    } else if unit == "hours"@ || unit == "hour"@ || unit == "hr"@ || unit == "hrs"@ || unit == "h"@ {
        3_600_000_000_000
    } else if unit == "days"@ || unit == "day"@ || unit == "d"@ {
        86_400_000_000_000
    } else if unit == "weeks"@ || unit == "week"@ || unit == "wk"@ || unit == "wks"@ || unit == "w"@ {
        604_800_000_000_000
    } else if unit == "months"@ || unit == "month"@ || unit == "M"@ {
        2_630_016_000_000_000
    } else if unit == "years"@ || unit == "year"@ || unit == "yr"@ || unit == "yrs"@ || unit == "y"@ {
        31_557_600_000_000_000
    } else {
        0
    }
}

/// The nanoseconds of as many seconds as there are values of a `u64`.
pub open spec fn full_nanos() -> nat {
    0x1_0000_0000_0000_0000 * 1_000_000_000
}

/// How far a duration text was read: the nanoseconds of the units so far,
/// whether nanoseconds ever filled them up to `full_nanos` from less than a
/// second below, the whole part of the number that is being read, whether it has
/// a fraction, the digits of the fraction as a number and how many they are, and
/// the unit that is being read.
pub ghost struct Reading {
    pub nanos: nat,
    pub filled: bool,
    pub whole: nat,
    pub fraction: bool,
    pub numerator: nat,
    pub places: nat,
    pub unit: Seq<char>,
}

/// The nanoseconds of the whole part of a number of units. A number that does not
/// fit in a `u64` is refused and counts for none.
pub open spec fn whole_nanos(whole: nat, unit: Seq<char>) -> nat {
    if whole <= u64::MAX {
        whole * unit_nanos(unit) as nat
    } else {
        0
    }
}

/// The number that a one with zeros after it stands for.
pub open spec fn power_of_ten(zeros: nat) -> nat
    decreases zeros,
{
    if zeros == 0 {
        1
    } else {
        10 * power_of_ten((zeros - 1) as nat)
    }
}

/// The nanoseconds of the fraction of a number of units. A fraction of more than
/// nineteen digits is refused and counts for none.
pub open spec fn fraction_nanos(numerator: nat, places: nat, unit: Seq<char>) -> nat {
    if places <= 19 {
        numerator * unit_nanos(unit) as nat / power_of_ten(places)
    } else {
        0
    }
}

/// A reading after more nanoseconds, which are added as such or as seconds.
pub open spec fn after_nanos(reading: Reading, more: nat, as_nanos: bool) -> Reading {
    let last_second = full_nanos() <= reading.nanos + 1_000_000_000 && reading.nanos
        < full_nanos();
    Reading {
        nanos: reading.nanos + more,
        filled: reading.filled || (as_nanos && last_second && reading.nanos + more
            == full_nanos()),
        ..reading
    }
}

/// A reading after the end of the unit that is being read, where one is. The
/// whole part of less than a second is added in nanoseconds, and so is the
/// fraction of less than an hour.
pub open spec fn after_unit(reading: Reading) -> Reading {
    if reading.unit.len() > 0 {
        let unit = reading.unit;
        let whole = after_nanos(
            reading,
            whole_nanos(reading.whole, unit),
            unit_nanos(unit) < 1_000_000_000,
        );
        let all = after_nanos(
            whole,
            fraction_nanos(reading.numerator, reading.places, unit),
            unit_nanos(unit) < 3_600_000_000_000,
        );
        Reading {
            nanos: all.nanos,
            filled: all.filled,
            whole: 0,
            fraction: false,
            numerator: 0,
            places: 0,
            unit: Seq::empty(),
        }
    } else {
        reading
    }
}

/// A reading after one more character.
pub open spec fn after_char(reading: Reading, c: char) -> Reading {
    if is_unit_letter(c) {
        Reading { unit: reading.unit.push(c), ..reading }
    } else {
        let reading = after_unit(reading);
        let digit = (c as int - '0' as int) as nat;
        if c == '.' {
            Reading { fraction: true, ..reading }
        } else if is_digit(c) && reading.fraction {
            Reading {
                numerator: reading.numerator * 10 + digit,
                places: reading.places + 1,
                ..reading
            }
        } else if is_digit(c) {
            Reading { whole: reading.whole * 10 + digit, ..reading }
        } else {
            reading
        }
    }
}

/// How far a duration text was read at its end.
pub open spec fn reading(s: Seq<char>) -> Reading
    decreases s.len(),
{
    if s.len() == 0 {
        Reading {
            nanos: 0,
            filled: false,
            whole: 0,
            fraction: false,
            numerator: 0,
            places: 0,
            unit: Seq::empty(),
        }
    } else {
        after_char(reading(s.drop_last()), s.last())
    }
}

/// Whether a duration text is one that can be read without an overflow:
/// nanoseconds never fill up the last second before more seconds than fit in a
/// `u64`. Where more is added than that second, the text is refused.
pub open spec fn is_plain_duration(s: Seq<char>) -> bool {
    !after_unit(reading(s)).filled
}

fn is_word(unit: &[char], word: &str) -> (yes: bool)
    ensures
        yes == (unit@ == word@),
{
    let chars = text::chars_of(word);
    text::same(unit, &chars)
}

/// The nanoseconds that a unit stands for; none for a word that is no unit.
fn nanos_of(unit: &[char]) -> (nanos: u64)
    ensures
        nanos == unit_nanos(unit@),
{
    if is_word(unit, "nanos") || is_word(unit, "nsec") || is_word(unit, "ns") {
        1
    } else if is_word(unit, "usec") || is_word(unit, "us") || is_word(unit, "\u{b5}s") {
        1_000
    } else if is_word(unit, "millis") || is_word(unit, "msec") || is_word(unit, "ms") {
        1_000_000
    } else if is_word(unit, "seconds") || is_word(unit, "second") || is_word(unit, "secs") || is_word(unit, "sec") || is_word(unit, "s") {
        1_000_000_000
    } else if is_word(unit, "minutes") || is_word(unit, "minute") || is_word(unit, "min") || is_word(unit, "mins") || is_word(unit, "m") {
        60_000_000_000
    } else if is_word(unit, "hours") || is_word(unit, "hour") || is_word(unit, "hr") || is_word(unit, "hrs") || is_word(unit, "h") {
        3_600_000_000_000
    } else if is_word(unit, "days") || is_word(unit, "day") || is_word(unit, "d") {
        86_400_000_000_000
    } else if is_word(unit, "weeks") || is_word(unit, "week") || is_word(unit, "wk") || is_word(unit, "wks") || is_word(unit, "w") {
        604_800_000_000_000
    } else if is_word(unit, "months") || is_word(unit, "month") || is_word(unit, "M") {
        2_630_016_000_000_000
    } else if is_word(unit, "years") || is_word(unit, "year") || is_word(unit, "yr") || is_word(unit, "yrs") || is_word(unit, "y") {
        31_557_600_000_000_000
    } else {
        0
    }
}

proof fn lemma_unit_nanos(unit: Seq<char>)
    ensures
        unit_nanos(unit) <= 31_557_600_000_000_000,
{
}

/// A number held at the first above a limit.
spec fn capped(n: nat, limit: nat) -> nat {
    if n > limit {
        limit + 1
    } else {
        n
    }
}

/// The part of a `Reading` that is kept while a duration text is read: numbers
/// that are too large to count are held at the first such number.
struct Progress {
    nanos: u128,
    filled: bool,
    whole: u128,
    fraction: bool,
    numerator: u128,
    places: u32,
    scale: u128,
    unit: Vec<char>,
}

impl Progress {
    /// Whether this is how far a text was read.
    spec fn is(self, reading: Reading) -> bool {
        &&& self.nanos == capped(reading.nanos, full_nanos())
        &&& self.filled == reading.filled
        &&& self.whole == capped(reading.whole, u64::MAX as nat)
        &&& self.fraction == reading.fraction
        &&& self.places == capped(reading.places, 19)
        &&& self.places <= 19 ==> {
            &&& self.numerator == reading.numerator
            &&& self.scale == power_of_ten(reading.places)
            &&& self.numerator < self.scale
            &&& self.scale <= 10_000_000_000_000_000_000
        }
        &&& self.unit@ == reading.unit
    }

    fn start() -> (progress: Progress)
        ensures
            progress.is(reading(Seq::empty())),
    {
        let unit: Vec<char> = Vec::new();
        assert(unit@ =~= Seq::empty());
        Progress {
            nanos: 0,
            filled: false,
            whole: 0,
            fraction: false,
            numerator: 0,
            places: 0,
            scale: 1,
            unit,
        }
    }

    fn add_nanos(&mut self, more: u128, as_nanos: bool, Ghost(now): Ghost<Reading>)
        requires
            old(self).is(now),
            more <= 0xffff_ffff_ffff_ffff * 31_557_600_000_000_000,
        ensures
            final(self).is(after_nanos(now, more as nat, as_nanos)),
            final(self).whole == old(self).whole,
            final(self).numerator == old(self).numerator,
            final(self).places == old(self).places,
            final(self).scale == old(self).scale,
            final(self).unit@ == old(self).unit@,
    {
        let full: u128 = 0x1_0000_0000_0000_0000 * 1_000_000_000;
        let total: u128 = self.nanos + more;
        if as_nanos && self.nanos < full && self.nanos + 1_000_000_000 >= full && total == full {
            self.filled = true;
        }
        self.nanos = if total > full {
            full + 1
        } else {
            total
        };
    }

    fn end_unit(&mut self, Ghost(now): Ghost<Reading>)
        requires
            old(self).is(now),
        ensures
            final(self).is(after_unit(now)),
            final(self).unit.len() == 0,
    {
        if self.unit.len() == 0 {
            return ;
        }
        let ghost unit = self.unit@;
        let nanos: u128 = nanos_of(&self.unit) as u128;
        proof {
            lemma_unit_nanos(unit);
        }
        let whole: u128 = if self.whole <= 0xffff_ffff_ffff_ffff {
            assert(self.whole * nanos <= 0xffff_ffff_ffff_ffff * 31_557_600_000_000_000)
                by (nonlinear_arith)
                requires
                    self.whole <= 0xffff_ffff_ffff_ffff,
                    nanos <= 31_557_600_000_000_000,
            ;
            self.whole * nanos
        } else {
            0
        };
        assert(whole == whole_nanos(now.whole, unit));
        let fraction: u128 = if self.places <= 19 {
            assert(self.numerator * nanos <= 10_000_000_000_000_000_000 * 31_557_600_000_000_000)
                by (nonlinear_arith)
                requires
                    self.numerator <= 10_000_000_000_000_000_000,
                    nanos <= 31_557_600_000_000_000,
            ;
            self.numerator * nanos / self.scale
        } else {
            0
        };
        proof {
            assert(fraction == fraction_nanos(now.numerator, now.places, unit));
            if self.places <= 19 {
                let product = self.numerator * nanos;
                assert(product / self.scale as int <= product) by (nonlinear_arith)
                    requires
                        self.scale >= 1,
                        product >= 0,
                ;
            }
        }
        self.add_nanos(whole, nanos < 1_000_000_000, Ghost(now));
        let ghost then = after_nanos(now, whole as nat, nanos < 1_000_000_000);
        self.add_nanos(fraction, nanos < 3_600_000_000_000, Ghost(then));
        self.whole = 0;
        self.fraction = false;
        self.numerator = 0;
        self.places = 0;
        self.scale = 1;
        self.unit = Vec::new();
        assert(self.unit@ =~= Seq::empty());
    }

    fn read(&mut self, c: char, Ghost(now): Ghost<Reading>)
        requires
            old(self).is(now),
        ensures
            final(self).is(after_char(now, c)),
    {
        if ('a' <= c && c <= 'z') || ('A' <= c && c <= 'Z') || c == '\u{b5}' {
            self.unit.push(c);
            return ;
        }
        self.end_unit(Ghost(now));
        if c == '.' {
            self.fraction = true;
        } else if '0' <= c && c <= '9' {
            let digit: u128 = (c as u8 - 48) as u128;
            if !self.fraction {
                let whole: u128 = self.whole * 10 + digit;
                self.whole = if whole > 0xffff_ffff_ffff_ffff {
                    0x1_0000_0000_0000_0000
                } else {
                    whole
                };
            } else if self.places < 19 {
                let ghost places = after_unit(now).places;
                assert(power_of_ten(places + 1) == 10 * power_of_ten(places));
                proof {
                    lemma_power_of_ten(places + 1);
                }
                self.numerator = self.numerator * 10 + digit;
                self.scale = self.scale * 10;
                self.places = self.places + 1;
            } else {
                self.places = 20;
            }
        }
    }
}

proof fn lemma_power_of_ten(zeros: nat)
    requires
        zeros <= 19,
    ensures
        power_of_ten(zeros) <= 10_000_000_000_000_000_000,
{
    reveal_with_fuel(power_of_ten, 20);
}

/// Whether a duration text is one that can be read without an overflow.
pub fn plain_duration(text: &str) -> (yes: bool)
    ensures
        yes == is_plain_duration(text@),
{
    let s = text::chars_of(text);
    let mut progress = Progress::start();
    assert(s@.take(0) =~= Seq::empty());
    for i in 0..s.len()
        invariant
            progress.is(reading(s@.take(i as int))),
    {
        assert(s@.take(i + 1).drop_last() =~= s@.take(i as int));
        progress.read(s[i], Ghost(reading(s@.take(i as int))));
    }
    assert(s@.take(s.len() as int) =~= s@);
    progress.end_unit(Ghost(reading(s@)));
    !progress.filled
}

impl Span {
    /// Whether the nanoseconds are less than a second.
    pub open spec fn wf(self) -> bool {
        self.nanos < 1_000_000_000
    }

    /// The length in nanoseconds.
    pub open spec fn in_nanos(self) -> nat {
        (self.secs * 1_000_000_000 + self.nanos) as nat
    }

    /// The length in whole milliseconds, at most the largest `u64`.
    pub open spec fn in_millis(self) -> u64 {
        let millis = self.in_nanos() / 1_000_000;
        if millis <= u64::MAX {
            millis as u64
        } else {
            u64::MAX
        }
    }

    /// The length in whole microseconds, at most the largest `u64`.
    pub open spec fn in_micros(self) -> u64 {
        let micros = self.in_nanos() / 1_000;
        if micros <= u64::MAX {
            micros as u64
        } else {
            u64::MAX
        }
    }

    /// The length in nanoseconds.
    pub fn nanos_total(&self) -> (total: u128)
        ensures
            total == self.in_nanos(),
    {
        (self.secs as u128) * 1_000_000_000 + (self.nanos as u128)
    }

    /// Whether the length is zero.
    pub fn is_zero(&self) -> (zero: bool)
        ensures
            zero == (self.in_nanos() == 0),
    {
        self.secs == 0 && self.nanos == 0
    }

    /// Whether the length is at least that of another.
    pub fn at_least(&self, other: &Span) -> (yes: bool)
        ensures
            yes == (self.in_nanos() >= other.in_nanos()),
    {
        self.nanos_total() >= other.nanos_total()
    }

    /// The length in whole milliseconds, at most the largest `u64`.
    pub fn millis(&self) -> (millis: u64)
        ensures
            millis == self.in_millis(),
    {
        let total = self.nanos_total() / 1_000_000;
        if total <= u64::MAX as u128 {
            total as u64
        } else {
            u64::MAX
        }
    }

    /// The length in whole microseconds, at most the largest `u64`.
    pub fn micros(&self) -> (micros: u64)
        ensures
            micros == self.in_micros(),
    {
        let total = self.nanos_total() / 1_000;
        if total <= u64::MAX as u128 {
            total as u64
        } else {
            u64::MAX
        }
    }

    /// `humantime::parse_duration` is a function of the text. What it answers
    /// has less than a second of nanoseconds. It adds the units up, and panics
    /// where the seconds are the largest `u64` and the nanoseconds come to
    /// exactly one second. Any other sum that does not fit is refused.
    #[verifier::external_body]
    pub(crate) fn parse(text: &str) -> (parsed: Result<Span, humantime::DurationError>)
        requires
            is_plain_duration(text@),
        ensures
            match parsed {
                Ok(span) => duration_value(text@) is Ok && duration_value(text@)->Ok_0 == (
                    span.secs,
                    span.nanos,
                ) && span.wf(),
                Err(error) => duration_value(text@) is Err && duration_value(text@)->Err_0 == error,
            },
    {
        let duration = humantime::parse_duration(text)?;
        Ok(Span { secs: duration.as_secs(), nanos: duration.subsec_nanos() })
    }
}

/// The length in nanoseconds is made of the seconds and the nanoseconds, and
/// neither can be lost: it gives both back. Milliseconds and microseconds are
/// whole ones, as many as fit in the length and in a `u64`.
pub proof fn law_lengths_hold_seconds_and_nanoseconds(span: Span)
    requires
        span.nanos < 1_000_000_000,
    ensures
        span.in_nanos() / 1_000_000_000 == span.secs,
        span.in_nanos() % 1_000_000_000 == span.nanos,
        span.in_millis() * 1_000_000 <= span.secs * 1_000_000_000 + span.nanos,
        span.in_millis() < 0xffff_ffff_ffff_ffff ==> span.secs * 1_000_000_000 + span.nanos < (
        span.in_millis() + 1) * 1_000_000,
        span.in_micros() * 1_000 <= span.secs * 1_000_000_000 + span.nanos,
        span.in_micros() < 0xffff_ffff_ffff_ffff ==> span.secs * 1_000_000_000 + span.nanos < (
        span.in_micros() + 1) * 1_000,
{
}

/// Lengths are ordered by their seconds, and those of equal seconds by their
/// nanoseconds.
pub proof fn law_lengths_are_ordered(a: Span, b: Span)
    requires
        a.nanos < 1_000_000_000,
        b.nanos < 1_000_000_000,
    ensures
        a.in_nanos() < b.in_nanos() <==> a.secs < b.secs || (a.secs == b.secs && a.nanos < b.nanos),
{
}

} // verus!
