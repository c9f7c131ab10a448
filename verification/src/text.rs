//! Text handled as sequences of characters: trimming, splitting, ASCII case,
//! numbers in text form, ordering and fixed-width columns.

use vstd::prelude::*;

verus! {

/// `String::push` appends one character to the end of the string.
pub assume_specification[ String::push ](string: &mut String, c: char)
    ensures
        final(string)@ == old(string)@.push(c),
;

/// `String::push_str` appends a text to the end of the string.
pub assume_specification[ String::push_str ](string: &mut String, more: &str)
    ensures
        final(string)@ == old(string)@ + more@,
;

/// The characters of a text, in order.
pub fn chars_of(text: &str) -> (chars: Vec<char>)
    ensures
        chars@ == text@,
{
    let mut chars: Vec<char> = Vec::new();
    for c in iter: text.chars()
        invariant
            iter.seq() == text@,
            chars@ == text@.take(iter.index() as int),
    {
        chars.push(c);
    }
    chars
}

/// The text made of the given characters.
pub fn string_of(chars: &[char]) -> (text: String)
    ensures
        text@ == chars@,
{
    let mut text = String::new();
    for i in 0..chars.len()
        invariant
            text@ == chars@.take(i as int),
    {
        text.push(chars[i]);
    }
    text
}

/// The texts that a list of strings holds.
pub open spec fn texts(strings: Seq<String>) -> Seq<Seq<char>> {
    strings.map_values(|string: String| string@)
}

/// Whether a character has the Unicode property White_Space.
pub open spec fn is_space(c: char) -> bool {
    let n = c as u32;
    ||| 0x9 <= n <= 0xd
    ||| n == 0x20
    ||| n == 0x85
    ||| n == 0xa0
    ||| n == 0x1680
    ||| 0x2000 <= n <= 0x200a
    ||| n == 0x2028
    ||| n == 0x2029
    ||| n == 0x202f
    ||| n == 0x205f
    ||| n == 0x3000
}

/// Whether a character has the Unicode property White_Space.
pub fn space(c: char) -> (yes: bool)
    ensures
        yes == is_space(c),
{
    let n: u32 = c as u32;
    (0x9 <= n && n <= 0xd) || n == 0x20 || n == 0x85 || n == 0xa0 || n == 0x1680 || (0x2000 <= n
        && n <= 0x200a) || n == 0x2028 || n == 0x2029 || n == 0x202f || n == 0x205f || n == 0x3000
}

/// A text without its leading white space.
pub open spec fn trimmed_start(s: Seq<char>) -> Seq<char>
    decreases s.len(),
{
    if s.len() > 0 && is_space(s.first()) {
        trimmed_start(s.drop_first())
    } else {
        s
    }
}

/// A text without its trailing white space.
pub open spec fn trimmed_end(s: Seq<char>) -> Seq<char>
    decreases s.len(),
{
    if s.len() > 0 && is_space(s.last()) {
        trimmed_end(s.drop_last())
    } else {
        s
    }
}

/// A text without white space around it.
pub open spec fn trimmed(s: Seq<char>) -> Seq<char> {
    trimmed_end(trimmed_start(s))
}

/// The part of a text between the white space around it.
pub fn trim(s: &[char]) -> (inner: &[char])
    ensures
        inner@ == trimmed(s@),
{
    let mut start: usize = 0;
    assert(s@.skip(0) =~= s@);
    while start < s.len() && space(s[start])
        invariant
            start <= s.len(),
            trimmed_start(s@.skip(start as int)) == trimmed_start(s@),
        ensures
            start <= s.len(),
            s@.skip(start as int) == trimmed_start(s@),
        decreases s.len() - start,
    {
        assert(s@.skip(start as int).drop_first() =~= s@.skip(start + 1));
        start += 1;
    }
    let ghost rest = s@.skip(start as int);
    let mut end: usize = s.len();
    assert(rest.take(end - start) =~= rest);
    while start < end && space(s[end - 1])
        invariant
            start <= end <= s.len(),
            rest == s@.skip(start as int),
            trimmed_end(rest.take(end - start)) == trimmed_end(rest),
        ensures
            start <= end <= s.len(),
            rest.take(end - start) == trimmed_end(rest),
        decreases end,
    {
        assert(rest.take(end - start).drop_last() =~= rest.take(end - start - 1));
        end -= 1;
    }
    assert(s@.subrange(start as int, end as int) =~= rest.take(end - start));
    &s[start..end]
}

/// Where a character first stands in a text, or the length of the text.
pub open spec fn first_index(s: Seq<char>, c: char) -> int
    decreases s.len(),
{
    if s.len() == 0 || s.first() == c {
        0
    } else {
        1 + first_index(s.drop_first(), c)
    }
}

/// The first place of a character is within the text, holds the character, and
/// no earlier place does.
pub proof fn lemma_first_index(s: Seq<char>, c: char)
    ensures
        0 <= first_index(s, c) <= s.len(),
        first_index(s, c) < s.len() ==> s[first_index(s, c)] == c,
        forall|i: int| 0 <= i < first_index(s, c) ==> s[i] != c,
        first_index(s, c) < s.len() <==> s.contains(c),
    decreases s.len(),
{
    if s.len() == 0 || s.first() == c {
        if s.len() > 0 {
            assert(s[0] == c);
        }
    } else {
        let rest = s.drop_first();
        lemma_first_index(rest, c);
        assert forall|i: int| 0 <= i < first_index(s, c) implies s[i] != c by {
            if i > 0 {
                assert(rest[i - 1] != c);
            }
        }
        if s.contains(c) {
            let i = choose|i: int| 0 <= i < s.len() && s[i] == c;
            assert(rest[i - 1] == c);
        }
    }
}

/// Where a character first stands in a text, or the length of the text.
pub fn find(s: &[char], c: char) -> (index: usize)
    ensures
        index == first_index(s@, c),
        index <= s.len(),
{
    let mut i: usize = 0;
    assert(s@.skip(0) =~= s@);
    while i < s.len() && s[i] != c
        invariant
            i <= s.len(),
            first_index(s@, c) == i + first_index(s@.skip(i as int), c),
        ensures
            i <= s.len(),
            i == first_index(s@, c),
        decreases s.len() - i,
    {
        assert(s@.skip(i as int).drop_first() =~= s@.skip(i + 1));
        i += 1;
    }
    i
}

/// The texts that a list of slices holds.
pub open spec fn slices(parts: Seq<&[char]>) -> Seq<Seq<char>> {
    parts.map_values(|part: &[char]| part@)
}

/// The parts of a text between the places where a character stands.
pub open spec fn split(s: Seq<char>, c: char) -> Seq<Seq<char>>
    decreases s.len(),
    via split_decreases
{
    let i = first_index(s, c);
    if 0 <= i < s.len() {
        seq![s.take(i)] + split(s.skip(i + 1), c)
    } else {
        seq![s]
    }
}

#[via_fn]
proof fn split_decreases(s: Seq<char>, c: char) {
}

/// The parts of a text between the places where a character stands.
pub fn split_at_char<'a>(s: &'a [char], c: char) -> (parts: Vec<&'a [char]>)
    ensures
        slices(parts@) == split(s@, c),
        parts.len() > 0,
{
    let mut parts: Vec<&'a [char]> = Vec::new();
    let mut rest: &'a [char] = s;
    assert(slices(parts@) + split(rest@, c) =~= split(s@, c));
    loop
        invariant_except_break
            slices(parts@) + split(rest@, c) == split(s@, c),
        ensures
            slices(parts@) == split(s@, c),
            parts.len() > 0,
        decreases rest.len(),
    {
        let i = find(rest, c);
        let ghost before = slices(parts@);
        if i < rest.len() {
            let part = &rest[0..i];
            parts.push(part);
            assert(part@ =~= rest@.take(i as int));
            assert(slices(parts@) =~= before.push(part@));
            assert(before + split(rest@, c) =~= before.push(part@) + split(
                rest@.skip(i + 1),
                c,
            ));
            let ghost whole = rest@;
            rest = &rest[i + 1..rest.len()];
            assert(rest@ =~= whole.skip(i + 1));
        } else {
            parts.push(rest);
            assert(slices(parts@) =~= before + seq![rest@]);
            break;
        }
    }
    parts
}

/// The first place of a character in a text that goes on.
pub proof fn lemma_first_index_of_two(a: Seq<char>, b: Seq<char>, c: char)
    ensures
        first_index(a + b, c) == (if first_index(a, c) < a.len() {
            first_index(a, c)
        } else {
            a.len() + first_index(b, c)
        }),
    decreases a.len(),
{
    lemma_first_index(a, c);
    if a.len() == 0 {
        assert(a + b =~= b);
    } else if a.first() != c {
        lemma_first_index_of_two(a.drop_first(), b, c);
        lemma_first_index(a.drop_first(), c);
        assert((a + b).drop_first() =~= a.drop_first() + b);
    }
}

/// Two texts with a character between them have the parts of both.
pub proof fn lemma_split_of_two(a: Seq<char>, b: Seq<char>, c: char)
    ensures
        split(a + seq![c] + b, c) == split(a, c) + split(b, c),
    decreases a.len(),
{
    let rest = seq![c] + b;
    let whole = a + seq![c] + b;
    assert(whole =~= a + rest);
    lemma_first_index_of_two(a, rest, c);
    lemma_first_index(a, c);
    let i = first_index(a, c);
    assert(first_index(rest, c) == 0);
    if i < a.len() {
        lemma_split_of_two(a.skip(i + 1), b, c);
        assert(whole.skip(i + 1) =~= a.skip(i + 1) + seq![c] + b);
        assert(whole.take(i) =~= a.take(i));
        assert(split(whole, c) =~= split(a, c) + split(b, c));
    } else {
        assert(whole.take(i) =~= a);
        assert(whole.skip(i + 1) =~= b);
        assert(split(whole, c) =~= split(a, c) + split(b, c));
    }
}

/// Whether a text consists of white space.
pub open spec fn is_blank(s: Seq<char>) -> bool {
    forall|i: int| 0 <= i < s.len() ==> is_space(#[trigger] s[i])
}

proof fn lemma_blank_start(blank: Seq<char>, s: Seq<char>)
    requires
        is_blank(blank),
    ensures
        trimmed_start(blank + s) == trimmed_start(s),
    decreases blank.len(),
{
    if blank.len() == 0 {
        assert(blank + s =~= s);
    } else {
        assert(is_space(blank[0]));
        assert((blank + s).drop_first() =~= blank.drop_first() + s);
        assert forall|i: int| 0 <= i < blank.drop_first().len() implies is_space(
            #[trigger] blank.drop_first()[i],
        ) by {
            assert(is_space(blank[i + 1]));
        }
        lemma_blank_start(blank.drop_first(), s);
    }
}

proof fn lemma_blank_end(s: Seq<char>, blank: Seq<char>)
    requires
        is_blank(blank),
    ensures
        trimmed_end(s + blank) == trimmed_end(s),
    decreases blank.len(),
{
    if blank.len() == 0 {
        assert(s + blank =~= s);
    } else {
        assert(is_space(blank[blank.len() - 1]));
        assert((s + blank).drop_last() =~= s + blank.drop_last());
        assert forall|i: int| 0 <= i < blank.drop_last().len() implies is_space(
            #[trigger] blank.drop_last()[i],
        ) by {
            assert(is_space(blank[i]));
        }
        lemma_blank_end(s, blank.drop_last());
    }
}

proof fn lemma_start_before_blank(s: Seq<char>, blank: Seq<char>)
    requires
        is_blank(blank),
    ensures
        trimmed_start(s + blank) == trimmed_start(s) + blank || (trimmed_start(s + blank)
            =~= Seq::empty() && trimmed_start(s) =~= Seq::empty()),
    decreases s.len(),
{
    if s.len() == 0 {
        assert(s + blank =~= blank);
        assert(blank + s =~= blank);
        lemma_blank_start(blank, s);
    } else if is_space(s.first()) {
        assert((s + blank).drop_first() =~= s.drop_first() + blank);
        lemma_start_before_blank(s.drop_first(), blank);
    }
}

/// White space around a text does not count once the text is trimmed.
pub proof fn lemma_trimmed_of_padded(before: Seq<char>, s: Seq<char>, after: Seq<char>)
    requires
        is_blank(before),
        is_blank(after),
    ensures
        trimmed(before + s + after) == trimmed(s),
{
    assert(before + s + after =~= before + (s + after));
    lemma_blank_start(before, s + after);
    lemma_start_before_blank(s, after);
    lemma_blank_end(trimmed_start(s), after);
}

proof fn lemma_start_is_part(s: Seq<char>)
    ensures
        trimmed_start(s).len() <= s.len(),
        trimmed_start(s) == s.skip(s.len() - trimmed_start(s).len()),
        trimmed_start(s).len() > 0 ==> !is_space(trimmed_start(s).first()),
    decreases s.len(),
{
    if s.len() > 0 && is_space(s.first()) {
        let rest = s.drop_first();
        lemma_start_is_part(rest);
        let from = rest.len() - trimmed_start(rest).len();
        assert(rest.skip(from) =~= s.skip(from + 1));
    } else {
        assert(s.skip(0) =~= s);
    }
}

proof fn lemma_end_is_part(s: Seq<char>)
    ensures
        trimmed_end(s).len() <= s.len(),
        trimmed_end(s) == s.take(trimmed_end(s).len() as int),
        trimmed_end(s).len() > 0 ==> !is_space(trimmed_end(s).last()),
    decreases s.len(),
{
    if s.len() > 0 && is_space(s.last()) {
        let rest = s.drop_last();
        lemma_end_is_part(rest);
        let to = trimmed_end(rest).len() as int;
        assert(rest.take(to) =~= s.take(to));
    } else {
        assert(s.take(s.len() as int) =~= s);
    }
}

/// A trimmed text holds no character that the text does not hold.
pub proof fn lemma_trimmed_is_part(s: Seq<char>)
    ensures
        forall|c: char| #[trigger] trimmed(s).contains(c) ==> s.contains(c),
{
    let start = trimmed_start(s);
    lemma_start_is_part(s);
    lemma_end_is_part(start);
    assert forall|c: char| #[trigger] trimmed(s).contains(c) implies s.contains(c) by {
        let i = trimmed(s).index_of(c);
        assert(trimmed(s)[i] == start[i]);
        assert(start[i] == s[s.len() - start.len() + i]);
    }
}

/// A trimmed text has no white space around it that could be trimmed.
pub proof fn lemma_trimmed_twice(s: Seq<char>)
    ensures
        trimmed(trimmed(s)) == trimmed(s),
{
    let start = trimmed_start(s);
    lemma_start_is_part(s);
    lemma_end_is_part(start);
    if trimmed(s).len() > 0 {
        assert(trimmed(s).first() == start.first());
    }
}

/// Nothing is left of a text exactly where it consists of white space.
pub proof fn lemma_trimmed_of_blank(s: Seq<char>)
    ensures
        trimmed(s).len() == 0 <==> is_blank(s),
{
    let start = trimmed_start(s);
    lemma_start_is_part(s);
    lemma_end_is_part(start);
    if is_blank(s) {
        assert(s + Seq::empty() =~= s);
        lemma_blank_start(s, Seq::empty());
    } else if start.len() == 0 {
        lemma_start_of_nothing(s);
    } else {
        assert(!is_space(start.first()));
        lemma_end_keeps(start);
    }
}

proof fn lemma_start_of_nothing(s: Seq<char>)
    requires
        trimmed_start(s).len() == 0,
    ensures
        is_blank(s),
    decreases s.len(),
{
    if s.len() > 0 {
        let rest = s.drop_first();
        lemma_start_of_nothing(rest);
        assert forall|i: int| 0 <= i < s.len() implies is_space(#[trigger] s[i]) by {
            if i > 0 {
                assert(is_space(rest[i - 1]));
            }
        }
    }
}

proof fn lemma_end_keeps(s: Seq<char>)
    requires
        s.len() > 0,
        !is_space(s.first()),
    ensures
        trimmed_end(s).len() > 0,
    decreases s.len(),
{
    if is_space(s.last()) {
        lemma_end_keeps(s.drop_last());
    }
}

/// A text without white space is trimmed.
pub proof fn lemma_trimmed_of_solid(s: Seq<char>)
    requires
        forall|i: int| 0 <= i < s.len() ==> !is_space(#[trigger] s[i]),
    ensures
        trimmed(s) == s,
{
    if s.len() > 0 {
        assert(!is_space(s[0]));
        assert(!is_space(s[s.len() - 1]));
    }
}

/// Whether two texts hold the same characters.
pub fn same(a: &[char], b: &[char]) -> (yes: bool)
    ensures
        yes == (a@ == b@),
{
    if a.len() != b.len() {
        return false;
    }
    for i in 0..a.len()
        invariant
            a.len() == b.len(),
            forall|j: int| 0 <= j < i ==> a@[j] == b@[j],
    {
        if a[i] != b[i] {
            return false;
        }
    }
    assert(a@ =~= b@);
    true
}

/// A character with an ASCII capital made small.
pub open spec fn lower_char(c: char) -> char {
    if 'A' <= c && c <= 'Z' {
        ((c as u8 + 32) as u8) as char
    } else {
        c
    }
}

/// A character with a small ASCII letter made capital.
pub open spec fn upper_char(c: char) -> char {
    if 'a' <= c && c <= 'z' {
        ((c as u8 - 32) as u8) as char
    } else {
        c
    }
}

/// A text with its ASCII capitals made small.
pub open spec fn lowered(s: Seq<char>) -> Seq<char> {
    s.map_values(|c: char| lower_char(c))
}

/// A text with its small ASCII letters made capital.
pub open spec fn uppered(s: Seq<char>) -> Seq<char> {
    s.map_values(|c: char| upper_char(c))
}

proof fn lemma_upper_char(c: char)
    ensures
        upper_char(c) == ',' <==> c == ',',
        is_space(upper_char(c)) == is_space(c),
{
}

proof fn lemma_first_comma_of_uppered(s: Seq<char>)
    ensures
        first_index(uppered(s), ',') == first_index(s, ','),
    decreases s.len(),
{
    if s.len() > 0 {
        lemma_upper_char(s.first());
        assert(uppered(s).drop_first() =~= uppered(s.drop_first()));
        lemma_first_comma_of_uppered(s.drop_first());
    }
}

/// The parts between commas of a text in capital letters are its parts in capital
/// letters.
pub proof fn lemma_split_of_uppered(s: Seq<char>)
    ensures
        split(uppered(s), ',') == split(s, ',').map_values(|part: Seq<char>| uppered(part)),
    decreases s.len(),
{
    let i = first_index(s, ',');
    lemma_first_index(s, ',');
    lemma_first_comma_of_uppered(s);
    if i < s.len() {
        lemma_split_of_uppered(s.skip(i + 1));
        assert(uppered(s).skip(i + 1) =~= uppered(s.skip(i + 1)));
        assert(uppered(s).take(i) =~= uppered(s.take(i)));
    }
    assert(split(uppered(s), ',') =~= split(s, ',').map_values(
        |part: Seq<char>| uppered(part),
    ));
}

proof fn lemma_start_of_uppered(s: Seq<char>)
    ensures
        trimmed_start(uppered(s)) == uppered(trimmed_start(s)),
    decreases s.len(),
{
    if s.len() > 0 {
        lemma_upper_char(s.first());
        assert(uppered(s).drop_first() =~= uppered(s.drop_first()));
        lemma_start_of_uppered(s.drop_first());
    }
}

proof fn lemma_end_of_uppered(s: Seq<char>)
    ensures
        trimmed_end(uppered(s)) == uppered(trimmed_end(s)),
    decreases s.len(),
{
    if s.len() > 0 {
        lemma_upper_char(s.last());
        assert(uppered(s).drop_last() =~= uppered(s.drop_last()));
        lemma_end_of_uppered(s.drop_last());
    }
}

/// A text in capital letters is trimmed as the text is.
pub proof fn lemma_trimmed_of_uppered(s: Seq<char>)
    ensures
        trimmed(uppered(s)) == uppered(trimmed(s)),
{
    lemma_start_of_uppered(s);
    lemma_end_of_uppered(trimmed_start(s));
}

/// A text with its ASCII capitals made small.
pub fn lower(s: &[char]) -> (small: Vec<char>)
    ensures
        small@ == lowered(s@),
{
    let mut small: Vec<char> = Vec::new();
    for i in 0..s.len()
        invariant
            small@ == lowered(s@).take(i as int),
    {
        let c = s[i];
        if 'A' <= c && c <= 'Z' {
            small.push((c as u8 + 32) as char);
        } else {
            small.push(c);
        }
        assert(small@ =~= lowered(s@).take(i + 1));
    }
    assert(small@ =~= lowered(s@));
    small
}

/// A text with its small ASCII letters made capital.
pub fn upper(s: &[char]) -> (capital: Vec<char>)
    ensures
        capital@ == uppered(s@),
{
    let mut capital: Vec<char> = Vec::new();
    for i in 0..s.len()
        invariant
            capital@ == uppered(s@).take(i as int),
    {
        let c = s[i];
        if 'a' <= c && c <= 'z' {
            capital.push((c as u8 - 32) as char);
        } else {
            capital.push(c);
        }
        assert(capital@ =~= uppered(s@).take(i + 1));
    }
    assert(capital@ =~= uppered(s@));
    capital
}

/// The value of a digit of at most sixteen, or a negative number.
pub open spec fn digit_value(c: char) -> int {
    if '0' <= c && c <= '9' {
        c as int - '0' as int
    } else if 'a' <= c && c <= 'f' {
        c as int - 'a' as int + 10
    } else if 'A' <= c && c <= 'F' {
        c as int - 'A' as int + 10
    } else {
        -1
    }
}

/// Whether a text consists of digits of a base.
pub open spec fn all_digits(s: Seq<char>, base: nat) -> bool {
    forall|i: int| 0 <= i < s.len() ==> 0 <= #[trigger] digit_value(s[i]) < base
}

/// The value of a text of digits of a base.
pub open spec fn number_value(s: Seq<char>, base: nat) -> nat
    decreases s.len(),
{
    if s.len() == 0 {
        0
    } else {
        number_value(s.drop_last(), base) * base + digit_value(s.last()) as nat
    }
}

/// The number that a text of one or more digits of a base stands for, where it
/// is at most `max`.
pub open spec fn number(s: Seq<char>, base: u64, max: u64) -> Option<u64> {
    if s.len() > 0 && all_digits(s, base as nat) && number_value(s, base as nat) <= max {
        Some(number_value(s, base as nat) as u64)
    } else {
        None
    }
}

proof fn lemma_number_grows(s: Seq<char>, base: nat, i: int)
    requires
        0 <= i <= s.len(),
        base >= 1,
    ensures
        number_value(s.take(i), base) <= number_value(s, base),
    decreases s.len(),
{
    if i == s.len() {
        assert(s.take(i) =~= s);
    } else {
        lemma_number_grows(s.drop_last(), base, i);
        assert(s.drop_last().take(i) =~= s.take(i));
        let before = number_value(s.drop_last(), base);
        assert(before <= before * base) by (nonlinear_arith)
            requires
                base >= 1,
        ;
    }
}

/// The number that a text of one or more digits of a base stands for, where it
/// is at most `max`.
pub fn parse_number(s: &[char], base: u64, max: u64) -> (parsed: Option<u64>)
    requires
        2 <= base <= 16,
        max <= 0xffff_ffff,
    ensures
        parsed == number(s@, base, max),
{
    if s.len() == 0 {
        return None;
    }
    let mut n: u64 = 0;
    for i in 0..s.len()
        invariant
            2 <= base <= 16,
            max <= 0xffff_ffff,
            n <= max,
            n == number_value(s@.take(i as int), base as nat),
            forall|j: int| 0 <= j < i ==> 0 <= #[trigger] digit_value(s@[j]) < base,
    {
        let c = s[i];
        let d: u64 = if '0' <= c && c <= '9' {
            (c as u8 - 48) as u64
        } else if 'a' <= c && c <= 'f' {
            (c as u8 - 87) as u64
        } else if 'A' <= c && c <= 'F' {
            (c as u8 - 55) as u64
        } else {
            16
        };
        if d >= base {
            assert(!(0 <= digit_value(s@[i as int]) < base));
            return None;
        }
        assert(s@.take(i + 1).drop_last() =~= s@.take(i as int));
        assert(n * base <= 0xffff_ffff * 16) by (nonlinear_arith)
            requires
                n <= 0xffff_ffff,
                base <= 16,
        ;
        n = n * base + d;
        if n > max {
            proof {
                lemma_number_grows(s@, base as nat, i + 1);
            }
            return None;
        }
    }
    assert(s@.take(s.len() as int) =~= s@);
    Some(n)
}

/// Whether one text comes before another in the order of their characters.
pub open spec fn less(a: Seq<char>, b: Seq<char>) -> bool
    decreases a.len(),
{
    if b.len() == 0 {
        false
    } else if a.len() == 0 {
        true
    } else {
        a.first() < b.first() || (a.first() == b.first() && less(a.drop_first(), b.drop_first()))
    }
}

/// No text comes before itself.
pub proof fn lemma_less_irreflexive(a: Seq<char>)
    ensures
        !less(a, a),
    decreases a.len(),
{
    if a.len() > 0 {
        lemma_less_irreflexive(a.drop_first());
    }
}

/// Of two different texts one comes before the other.
pub proof fn lemma_less_total(a: Seq<char>, b: Seq<char>)
    ensures
        a == b || less(a, b) || less(b, a),
    decreases a.len(),
{
    if a.len() > 0 && b.len() > 0 {
        lemma_less_total(a.drop_first(), b.drop_first());
        if a.first() == b.first() && a.drop_first() == b.drop_first() {
            assert(a =~= seq![a.first()] + a.drop_first());
            assert(b =~= seq![b.first()] + b.drop_first());
        }
    } else if a.len() == 0 && b.len() == 0 {
        assert(a =~= b);
    }
}

/// The order of texts is transitive.
pub proof fn lemma_less_transitive(a: Seq<char>, b: Seq<char>, c: Seq<char>)
    requires
        less(a, b),
        less(b, c),
    ensures
        less(a, c),
    decreases a.len(),
{
    if a.len() > 0 && a.first() == b.first() && b.first() == c.first() {
        lemma_less_transitive(a.drop_first(), b.drop_first(), c.drop_first());
    }
}

/// Whether one text comes before another in the order of their characters.
pub fn is_less(a: &[char], b: &[char]) -> (yes: bool)
    ensures
        yes == less(a@, b@),
{
    let mut i: usize = 0;
    assert(a@.skip(0) =~= a@);
    assert(b@.skip(0) =~= b@);
    while i < a.len() && i < b.len()
        invariant
            i <= a.len(),
            i <= b.len(),
            less(a@, b@) == less(a@.skip(i as int), b@.skip(i as int)),
        decreases a.len() - i,
    {
        if a[i] != b[i] {
            return a[i] < b[i];
        }
        assert(a@.skip(i as int).drop_first() =~= a@.skip(i + 1));
        assert(b@.skip(i as int).drop_first() =~= b@.skip(i + 1));
        i += 1;
    }
    i < b.len()
}

/// Whether one text comes before another. The order is that of the characters,
/// which is also that of the bytes of their UTF-8 encodings.
pub fn str_less(a: &str, b: &str) -> (yes: bool)
    ensures
        yes == less(a@, b@),
{
    let left = chars_of(a);
    let right = chars_of(b);
    is_less(&left, &right)
}

/// Whether two texts hold the same characters.
pub fn str_same(a: &str, b: &str) -> (yes: bool)
    ensures
        yes == (a@ == b@),
{
    let left = chars_of(a);
    let right = chars_of(b);
    same(&left, &right)
}

/// The decimal digits of a number.
pub open spec fn decimal(n: nat) -> Seq<char>
    decreases n,
{
    if n < 10 {
        seq![digit_char(n)]
    } else {
        decimal(n / 10).push(digit_char(n % 10))
    }
}

/// The decimal digit of a number below ten.
pub open spec fn digit_char(n: nat) -> char {
    ((n + 48) as u8) as char
}

/// The decimal digits of a number are digits, and stand for the number.
pub proof fn lemma_decimal_reads_back(n: nat)
    ensures
        decimal(n).len() > 0,
        forall|i: int| 0 <= i < decimal(n).len() ==> '0' <= (#[trigger] decimal(n)[i]) <= '9',
        number_value(decimal(n), 10) == n,
    decreases n,
{
    if n < 10 {
        assert(decimal(n).drop_last() =~= Seq::empty());
        assert(number_value(decimal(n).drop_last(), 10) == 0);
    } else {
        lemma_decimal_reads_back(n / 10);
        assert(decimal(n).drop_last() =~= decimal(n / 10));
        assert forall|i: int| 0 <= i < decimal(n).len() implies '0' <= (#[trigger] decimal(n)[i])
            <= '9' by {
            if i < decimal(n / 10).len() {
                assert(decimal(n)[i] == decimal(n / 10)[i]);
            }
        }
    }
}

/// The decimal digits of a number below a thousand are at most three, and more
/// than one of them do not begin with a zero.
pub proof fn lemma_decimal_of_three_digits(n: nat)
    requires
        n < 1000,
    ensures
        1 <= decimal(n).len() <= 3,
        decimal(n).len() > 1 ==> decimal(n).first() != '0',
{
    reveal_with_fuel(decimal, 4);
    if n >= 100 {
        assert(decimal(n).first() == digit_char(n / 10 / 10));
    } else if n >= 10 {
        assert(decimal(n).first() == digit_char(n / 10));
    }
}

/// The hexadecimal digits of a number, in small letters.
pub open spec fn hexadecimal(n: nat) -> Seq<char>
    decreases n,
{
    if n < 16 {
        seq![hex_char(n)]
    } else {
        hexadecimal(n / 16).push(hex_char(n % 16))
    }
}

/// The hexadecimal digit of a number below sixteen.
pub open spec fn hex_char(n: nat) -> char {
    if n < 10 {
        digit_char(n)
    } else {
        ((n + 87) as u8) as char
    }
}

/// A hexadecimal digit in a small letter.
pub open spec fn is_hex_char(c: char) -> bool {
    ('0' <= c && c <= '9') || ('a' <= c && c <= 'f')
}

/// The hexadecimal digits of a number are digits, and stand for the number.
pub proof fn lemma_hexadecimal_reads_back(n: nat)
    ensures
        hexadecimal(n).len() > 0,
        forall|i: int| 0 <= i < hexadecimal(n).len() ==> is_hex_char(#[trigger] hexadecimal(n)[i]),
        number_value(hexadecimal(n), 16) == n,
    decreases n,
{
    if n < 16 {
        assert(hexadecimal(n).drop_last() =~= Seq::empty());
        assert(number_value(hexadecimal(n).drop_last(), 16) == 0);
    } else {
        lemma_hexadecimal_reads_back(n / 16);
        assert(hexadecimal(n).drop_last() =~= hexadecimal(n / 16));
        assert forall|i: int| 0 <= i < hexadecimal(n).len() implies is_hex_char(
            #[trigger] hexadecimal(n)[i],
        ) by {
            if i < hexadecimal(n / 16).len() {
                assert(hexadecimal(n)[i] == hexadecimal(n / 16)[i]);
            }
        }
    }
}

/// The hexadecimal digits of a number below 65536 are at most four.
pub proof fn lemma_hexadecimal_of_four_digits(n: nat)
    requires
        n < 0x1_0000,
    ensures
        hexadecimal(n).len() <= 4,
{
    reveal_with_fuel(hexadecimal, 5);
}

/// Appends the hexadecimal digits of a number, in small letters.
pub fn push_hexadecimal(out: &mut String, n: u64)
    ensures
        final(out)@ == old(out)@ + hexadecimal(n as nat),
    decreases n,
{
    if n >= 16 {
        push_hexadecimal(out, n / 16);
    }
    let digit: u8 = (n % 16) as u8;
    if digit < 10 {
        out.push((digit + 48) as char);
    } else {
        out.push((digit + 87) as char);
    }
    assert(out@ =~= old(out)@ + hexadecimal(n as nat));
}

/// A text without a character is its only part.
pub proof fn lemma_split_of_one(s: Seq<char>, c: char)
    requires
        !s.contains(c),
    ensures
        split(s, c) == seq![s],
{
    lemma_first_index(s, c);
}

/// Appends the decimal digits of a number.
pub fn push_decimal(out: &mut String, n: u64)
    ensures
        final(out)@ == old(out)@ + decimal(n as nat),
    decreases n,
{
    if n >= 10 {
        push_decimal(out, n / 10);
    }
    let ghost before = out@;
    out.push(((n % 10) as u8 + 48) as char);
    assert(out@ =~= old(out)@ + decimal(n as nat));
}

/// The decimal digits of a number.
pub fn decimal_text(n: u64) -> (digits: String)
    ensures
        digits@ == decimal(n as nat),
{
    let mut digits = String::new();
    push_decimal(&mut digits, n);
    assert(digits@ =~= decimal(n as nat));
    digits
}

/// A run of spaces.
pub open spec fn spaces(n: int) -> Seq<char> {
    Seq::new(if n > 0 { n as nat } else { 0 }, |i: int| ' ')
}

/// A text in a column of at least the given width, at its left.
pub open spec fn left_column(s: Seq<char>, width: nat) -> Seq<char> {
    s + spaces(width - s.len())
}

/// A text in a column of at least the given width, at its right.
pub open spec fn right_column(s: Seq<char>, width: nat) -> Seq<char> {
    spaces(width - s.len()) + s
}

fn push_spaces(out: &mut String, count: usize)
    ensures
        final(out)@ == old(out)@ + spaces(count as int),
{
    for i in 0..count
        invariant
            out@ == old(out)@ + spaces(i as int),
    {
        out.push(' ');
        assert(out@ =~= old(out)@ + spaces(i + 1));
    }
    assert(count == 0 ==> out@ =~= old(out)@ + spaces(count as int));
}

/// Appends a text in a column of at least the given width, at its left.
pub fn push_left(out: &mut String, s: &str, width: usize)
    ensures
        final(out)@ == old(out)@ + left_column(s@, width as nat),
{
    let chars = chars_of(s);
    out.push_str(s);
    if chars.len() < width {
        push_spaces(out, width - chars.len());
    }
    assert(out@ =~= old(out)@ + left_column(s@, width as nat));
}

/// Appends a text in a column of at least the given width, at its right.
pub fn push_right(out: &mut String, s: &str, width: usize)
    ensures
        final(out)@ == old(out)@ + right_column(s@, width as nat),
{
    let chars = chars_of(s);
    if chars.len() < width {
        push_spaces(out, width - chars.len());
    }
    out.push_str(s);
    assert(out@ =~= old(out)@ + right_column(s@, width as nat));
}

/// White space is: the characters from the tab to the carriage return, the space,
/// the next line, the spaces that do not break, the spaces of the Ogham script and
/// of typography, the separators of lines and paragraphs, and the ideographic
/// space.
pub proof fn law_white_space(c: char)
    ensures
        is_space(c) <==> seq![
            '\t',
            '\n',
            '\u{b}',
            '\u{c}',
            '\r',
            ' ',
            '\u{85}',
            '\u{a0}',
            '\u{1680}',
            '\u{2000}',
            '\u{2001}',
            '\u{2002}',
            '\u{2003}',
            '\u{2004}',
            '\u{2005}',
            '\u{2006}',
            '\u{2007}',
            '\u{2008}',
            '\u{2009}',
            '\u{200a}',
            '\u{2028}',
            '\u{2029}',
            '\u{202f}',
            '\u{205f}',
            '\u{3000}',
        ].contains(c),
{
    let all = seq![
        '\t',
        '\n',
        '\u{b}',
        '\u{c}',
        '\r',
        ' ',
        '\u{85}',
        '\u{a0}',
        '\u{1680}',
        '\u{2000}',
        '\u{2001}',
        '\u{2002}',
        '\u{2003}',
        '\u{2004}',
        '\u{2005}',
        '\u{2006}',
        '\u{2007}',
        '\u{2008}',
        '\u{2009}',
        '\u{200a}',
        '\u{2028}',
        '\u{2029}',
        '\u{202f}',
        '\u{205f}',
        '\u{3000}',
    ];
    assert(all[0] == '\t' && all[1] == '\n' && all[2] == '\u{b}' && all[3] == '\u{c}' && all[4]
        == '\r' && all[5] == ' ' && all[6] == '\u{85}' && all[7] == '\u{a0}' && all[8]
        == '\u{1680}' && all[9] == '\u{2000}' && all[10] == '\u{2001}' && all[11] == '\u{2002}'
        && all[12] == '\u{2003}' && all[13] == '\u{2004}' && all[14] == '\u{2005}' && all[15]
        == '\u{2006}' && all[16] == '\u{2007}' && all[17] == '\u{2008}' && all[18] == '\u{2009}'
        && all[19] == '\u{200a}' && all[20] == '\u{2028}' && all[21] == '\u{2029}' && all[22]
        == '\u{202f}' && all[23] == '\u{205f}' && all[24] == '\u{3000}');
    if all.contains(c) {
        let i = choose|i: int| 0 <= i < all.len() && all[i] == c;
        assert(is_space(all[i]));
    }
}

/// A trimmed text is what stands between white space in the text, and neither
/// begins nor ends with white space.
pub proof fn law_trimmed_stands_between_white_space(s: Seq<char>)
    ensures
        exists|before: Seq<char>, after: Seq<char>|
            is_blank(before) && is_blank(after) && s == #[trigger] (before + trimmed(s) + after),
        trimmed(s).len() > 0 ==> !is_space(trimmed(s).first()) && !is_space(trimmed(s).last()),
{
    let start = trimmed_start(s);
    lemma_start_is_part(s);
    lemma_end_is_part(start);
    lemma_what_was_trimmed(s);
    let before = s.take(s.len() - start.len());
    let after = start.skip(trimmed(s).len() as int);
    assert(s =~= before + trimmed(s) + after);
    if trimmed(s).len() > 0 {
        assert(trimmed(s).first() == start.first());
    }
}

proof fn lemma_what_was_trimmed(s: Seq<char>)
    ensures
        is_blank(s.take(s.len() - trimmed_start(s).len())),
        is_blank(trimmed_start(s).skip(trimmed(s).len() as int)),
{
    lemma_cut_at_start(s);
    lemma_cut_at_end(trimmed_start(s));
}

proof fn lemma_cut_at_start(s: Seq<char>)
    ensures
        is_blank(s.take(s.len() - trimmed_start(s).len())),
    decreases s.len(),
{
    lemma_start_is_part(s);
    let cut = s.take(s.len() - trimmed_start(s).len());
    if s.len() > 0 && is_space(s.first()) {
        let rest = s.drop_first();
        lemma_start_is_part(rest);
        lemma_cut_at_start(rest);
        let less = rest.take(rest.len() - trimmed_start(rest).len());
        assert forall|i: int| 0 <= i < cut.len() implies is_space(#[trigger] cut[i]) by {
            if i > 0 {
                assert(cut[i] == less[i - 1]);
            }
        }
    }
}

proof fn lemma_cut_at_end(s: Seq<char>)
    ensures
        is_blank(s.skip(trimmed_end(s).len() as int)),
    decreases s.len(),
{
    lemma_end_is_part(s);
    let cut = s.skip(trimmed_end(s).len() as int);
    if s.len() > 0 && is_space(s.last()) {
        let rest = s.drop_last();
        lemma_end_is_part(rest);
        lemma_cut_at_end(rest);
        let less = rest.skip(trimmed_end(rest).len() as int);
        assert forall|i: int| 0 <= i < cut.len() implies is_space(#[trigger] cut[i]) by {
            if i < less.len() {
                assert(cut[i] == less[i]);
            }
        }
    }
}

/// Parts put together, with a character between them.
pub open spec fn joined(parts: Seq<Seq<char>>, c: char) -> Seq<char>
    decreases parts.len(),
{
    if parts.len() == 0 {
        Seq::empty()
    } else if parts.len() == 1 {
        parts[0]
    } else {
        parts.first() + seq![c] + joined(parts.drop_first(), c)
    }
}

/// The parts of a text between the places where a character stands hold the
/// character nowhere, and are the text again once they are put together with the
/// character between them. There is always a part.
pub proof fn law_parts_join_to_the_text(s: Seq<char>, c: char)
    ensures
        joined(split(s, c), c) == s,
        split(s, c).len() > 0,
        forall|i: int| 0 <= i < split(s, c).len() ==> !(#[trigger] split(s, c)[i]).contains(c),
    decreases s.len(),
{
    let i = first_index(s, c);
    lemma_first_index(s, c);
    if i < s.len() {
        let rest = s.skip(i + 1);
        law_parts_join_to_the_text(rest, c);
        let parts = split(s, c);
        assert(parts.drop_first() =~= split(rest, c));
        assert(s =~= s.take(i) + seq![c] + rest);
        assert forall|k: int| 0 <= k < parts.len() implies !(#[trigger] parts[k]).contains(c) by {
            if k > 0 {
                assert(parts[k] == split(rest, c)[k - 1]);
            }
        }
    } else {
        assert(split(s, c) =~= seq![s]);
    }
}

/// A text comes before another exactly when they are the same up to some place at
/// which the first has ended or has the lower character.
pub proof fn law_order_of_texts(a: Seq<char>, b: Seq<char>)
    ensures
        less(a, b) <==> exists|k: int|
            {
                &&& 0 <= k <= a.len()
                &&& k < b.len()
                &&& #[trigger] a.take(k) == b.take(k)
                &&& k == a.len() || a[k] < b[k]
            },
    decreases a.len(),
{
    let (x, y) = (a.drop_first(), b.drop_first());
    if less(a, b) {
        if a.len() == 0 || a.first() < b.first() {
            assert(a.take(0) =~= b.take(0));
        } else {
            law_order_of_texts(x, y);
            let k = choose|k: int|
                {
                    &&& 0 <= k <= x.len()
                    &&& k < y.len()
                    &&& #[trigger] x.take(k) == y.take(k)
                    &&& k == x.len() || x[k] < y[k]
                };
            assert(a.take(k + 1) =~= seq![a.first()] + x.take(k));
            assert(b.take(k + 1) =~= seq![b.first()] + y.take(k));
            assert(a.take(k + 1) == b.take(k + 1));
            assert(k < x.len() ==> a[k + 1] == x[k]);
            assert(b[k + 1] == y[k]);
        }
    }
    if exists|k: int|
        {
            &&& 0 <= k <= a.len()
            &&& k < b.len()
            &&& #[trigger] a.take(k) == b.take(k)
            &&& k == a.len() || a[k] < b[k]
        } {
        let k = choose|k: int|
            {
                &&& 0 <= k <= a.len()
                &&& k < b.len()
                &&& #[trigger] a.take(k) == b.take(k)
                &&& k == a.len() || a[k] < b[k]
            };
        if k > 0 {
            assert(a.take(k)[0] == b.take(k)[0]);
            assert(x.take(k - 1) =~= a.take(k).drop_first());
            assert(y.take(k - 1) =~= b.take(k).drop_first());
            assert(x.take(k - 1) == y.take(k - 1));
            assert(k < a.len() ==> a[k] == x[k - 1]);
            assert(b[k] == y[k - 1]);
            law_order_of_texts(x, y);
            assert(less(x, y));
            assert(a.first() == b.first());
        } else if a.len() > 0 {
            assert(a.first() == a[0] && b.first() == b[0]);
            assert(a.first() < b.first());
        }
    }
}

/// Only the twenty-six letters of ASCII change their case, each by thirty-two
/// places; every other character stays.
pub proof fn law_letters_change_case(s: Seq<char>)
    ensures
        lowered(s).len() == s.len(),
        uppered(s).len() == s.len(),
        forall|i: int|
            0 <= i < s.len() ==> {
                let n = #[trigger] s[i] as u32;
                &&& lowered(s)[i] as u32 == (if 65 <= n <= 90 {
                    n + 32
                } else {
                    n as int
                })
                &&& uppered(s)[i] as u32 == (if 97 <= n <= 122 {
                    n - 32
                } else {
                    n as int
                })
            },
{
    assert forall|i: int| 0 <= i < s.len() implies {
        let n = #[trigger] s[i] as u32;
        &&& lowered(s)[i] as u32 == (if 65 <= n <= 90 {
            n + 32
        } else {
            n as int
        })
        &&& uppered(s)[i] as u32 == (if 97 <= n <= 122 {
            n - 32
        } else {
            n as int
        })
    } by {
        let c = s[i];
        assert(lowered(s)[i] == lower_char(c));
        assert(uppered(s)[i] == upper_char(c));
    }
}

/// A column is as wide as asked, or as wide as its text where that is wider. The
/// text stands at its left or at its right, and the rest are spaces.
pub proof fn law_columns_hold_their_text(s: Seq<char>, width: nat)
    ensures
        ({
            let wide: int = if s.len() < width {
                width as int
            } else {
                s.len() as int
            };
            let left = left_column(s, width);
            let right = right_column(s, width);
            &&& left.len() == wide
            &&& right.len() == wide
            &&& left.take(s.len() as int) == s
            &&& right.skip(wide - s.len()) == s
            &&& forall|i: int| s.len() <= i < wide ==> #[trigger] left[i] == ' '
            &&& forall|i: int| 0 <= i < wide - s.len() ==> #[trigger] right[i] == ' '
        }),
{
    let left = left_column(s, width);
    let right = right_column(s, width);
    assert(left.take(s.len() as int) =~= s);
    assert(right.skip(right.len() - s.len()) =~= s);
}

/// The decimal digits of a number are read as the number where it is not too
/// large, and as none where it is. More than one digit do not begin with a zero.
pub proof fn law_decimal_digits_are_read(n: nat, max: u64)
    ensures
        number(decimal(n), 10, max) == (if n <= max {
            Some(n as u64)
        } else {
            None
        }),
        n > 0 ==> decimal(n).first() != '0',
        n < 10 <==> decimal(n).len() == 1,
    decreases n,
{
    lemma_decimal_reads_back(n);
    assert forall|i: int| 0 <= i < decimal(n).len() implies 0 <= #[trigger] digit_value(
        decimal(n)[i],
    ) < 10 by {
        assert('0' <= decimal(n)[i] <= '9');
    }
    if n >= 10 {
        law_decimal_digits_are_read(n / 10, max);
        lemma_decimal_reads_back(n / 10);
        assert(decimal(n).first() == decimal(n / 10).first());
    }
}

/// The hexadecimal digits of a number are read as the number, in small letters
/// and in capital ones.
pub proof fn law_hexadecimal_digits_are_read(n: nat, max: u64)
    requires
        n <= max,
    ensures
        number(hexadecimal(n), 16, max) == Some(n as u64),
        number(uppered(hexadecimal(n)), 16, max) == Some(n as u64),
        n < 16 <==> hexadecimal(n).len() == 1,
        n > 0 ==> hexadecimal(n).first() != '0',
    decreases n,
{
    lemma_hexadecimal_reads_back(n);
    let digits = hexadecimal(n);
    assert forall|i: int| 0 <= i < digits.len() implies 0 <= #[trigger] digit_value(digits[i])
        < 16 by {
        assert(is_hex_char(digits[i]));
    }
    lemma_case_of_digits(digits);
    assert forall|i: int| 0 <= i < digits.len() implies 0 <= #[trigger] digit_value(
        uppered(digits)[i],
    ) < 16 by {
        assert(is_hex_char(digits[i]));
        assert(uppered(digits)[i] == upper_char(digits[i]));
    }
    if n >= 16 {
        law_hexadecimal_digits_are_read(n / 16, max);
        lemma_hexadecimal_reads_back(n / 16);
        assert(digits.first() == hexadecimal(n / 16).first());
    }
}

proof fn lemma_case_of_digits(s: Seq<char>)
    requires
        forall|i: int| 0 <= i < s.len() ==> is_hex_char(#[trigger] s[i]),
    ensures
        number_value(uppered(s), 16) == number_value(s, 16),
    decreases s.len(),
{
    if s.len() > 0 {
        assert(is_hex_char(s[s.len() - 1]));
        assert forall|i: int| 0 <= i < s.drop_last().len() implies is_hex_char(
            #[trigger] s.drop_last()[i],
        ) by {
            assert(is_hex_char(s[i]));
        }
        lemma_case_of_digits(s.drop_last());
        assert(uppered(s).drop_last() =~= uppered(s.drop_last()));
        assert(uppered(s).last() == upper_char(s.last()));
    }
}

/// A text is read as a number only where it holds nothing but digits of the base,
/// of which there are ten and as many of the first letters as the base needs, and
/// one digit at the end of a number multiplies it by the base.
pub proof fn law_numbers_hold_digits_only(s: Seq<char>, c: char, base: u64, max: u64)
    requires
        2 <= base <= 16,
        number(s.push(c), base, max) is Some,
    ensures
        ({
            let n = c as u32;
            let digit: int = if 48 <= n <= 57 {
                n - 48
            } else if 97 <= n <= 102 {
                n - 87
            } else {
                n - 55
            };
            &&& 48 <= n <= 57 || 97 <= n <= 102 || 65 <= n <= 70
            &&& digit < base
            &&& s.len() == 0 ==> number(s.push(c), base, max)->0 == digit
            &&& s.len() > 0 ==> number(s, base, max) is Some && number(s.push(c), base, max)->0
                == number(s, base, max)->0 * base + digit
        }),
{
    let whole = s.push(c);
    assert(0 <= digit_value(whole[s.len() as int]) < base);
    assert(whole.drop_last() =~= s);
    assert forall|i: int| 0 <= i < s.len() implies 0 <= #[trigger] digit_value(s[i]) < base by {
        assert(0 <= digit_value(whole[i]) < base);
    }
    assert(whole.take(s.len() as int) =~= s);
    lemma_number_grows(whole, base as nat, s.len() as int);
    let before = number_value(s, base as nat);
    let digit = digit_value(c);
    assert(number_value(whole, base as nat) == before * (base as nat) + digit as nat);
    if s.len() == 0 {
        assert(before == 0);
        assert(0 * (base as nat) == 0);
    } else {
        assert(number(s, base, max) == Some(before as u64));
        assert((before as u64) * base == before * (base as nat));
    }
}

} // verus!
