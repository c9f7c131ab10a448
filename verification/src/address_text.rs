//! The text form of server addresses, and that it reads back.

use vstd::prelude::*;

use crate::address;
use crate::address::{Endpoint, Host};
use crate::config;
use crate::error::ConfigFault;
use crate::text;

verus! {

/// An IPv4 address in text form: four octets with dots between them.
pub open spec fn ipv4_text(number: u32) -> Seq<char> {
    let n = number as nat;
    text::decimal(n / 0x100_0000) + "."@ + text::decimal(n / 0x1_0000 % 0x100) + "."@
        + text::decimal(n / 0x100 % 0x100) + "."@ + text::decimal(n % 0x100)
}

/// The eight groups of an IPv6 address.
pub open spec fn groups_of(number: u128) -> Seq<u64> {
    let n7 = number as nat;
    let n6 = n7 / 0x1_0000;
    let n5 = n6 / 0x1_0000;
    let n4 = n5 / 0x1_0000;
    let n3 = n4 / 0x1_0000;
    let n2 = n3 / 0x1_0000;
    let n1 = n2 / 0x1_0000;
    let n0 = n1 / 0x1_0000;
    seq![
        n0 as u64,
        (n1 % 0x1_0000) as u64,
        (n2 % 0x1_0000) as u64,
        (n3 % 0x1_0000) as u64,
        (n4 % 0x1_0000) as u64,
        (n5 % 0x1_0000) as u64,
        (n6 % 0x1_0000) as u64,
        (n7 % 0x1_0000) as u64,
    ]
}

/// How many groups of zero stand one after the other from a place on.
pub open spec fn zeros_from(groups: Seq<u64>, i: int) -> nat
    decreases groups.len() - i,
{
    if 0 <= i < groups.len() && groups[i] == 0 {
        1 + zeros_from(groups, i + 1)
    } else {
        0
    }
}

/// Where the longest run of zeros begins, of those that begin before a place, and
/// how long it is. Of runs of the same length it is the first.
pub open spec fn longest_zeros(groups: Seq<u64>, before: nat) -> (int, nat)
    decreases before,
{
    if before == 0 {
        (0, 0)
    } else {
        let (start, len) = longest_zeros(groups, (before - 1) as nat);
        if zeros_from(groups, before - 1) > len {
            (before - 1, zeros_from(groups, before - 1))
        } else {
            (start, len)
        }
    }
}

/// Groups in hexadecimal digits, with colons between them.
pub open spec fn groups_text(groups: Seq<u64>) -> Seq<char>
    decreases groups.len(),
{
    if groups.len() == 0 {
        Seq::empty()
    } else if groups.len() == 1 {
        text::hexadecimal(groups[0] as nat)
    } else {
        groups_text(groups.drop_last()) + seq![':'] + text::hexadecimal(groups.last() as nat)
    }
}

/// An IPv6 address in text form: the groups, with two colons in place of the
/// longest run of two or more zeros, or an IPv4 address in place of the last two
/// groups where the address stands for one.
pub open spec fn ipv6_text(number: u128) -> Seq<char> {
    let groups = groups_of(number);
    let (start, len) = longest_zeros(groups, 8);
    if number / 0x1_0000_0000 == 0xffff {
        "::ffff:"@ + ipv4_text((number % 0x1_0000_0000) as u32)
    } else if len > 1 {
        groups_text(groups.take(start)) + "::"@ + groups_text(groups.skip(start + len))
    } else {
        groups_text(groups)
    }
}

/// An IPv6 address, and after a percent sign the number of its scope, if any.
pub open spec fn scoped_text(number: u128, scope: u32) -> Seq<char> {
    if scope == 0 {
        ipv6_text(number)
    } else {
        ipv6_text(number) + "%"@ + text::decimal(scope as nat)
    }
}

/// An endpoint in text form: the address, in brackets if it is an IPv6 address, a
/// colon and the port.
pub open spec fn endpoint_text(endpoint: Endpoint) -> Seq<char> {
    match endpoint.host {
        Host::V4(number) => ipv4_text(number) + ":"@ + text::decimal(endpoint.port as nat),
        Host::V6(number) => "["@ + scoped_text(number, endpoint.scope) + "]:"@ + text::decimal(
            endpoint.port as nat,
        ),
    }
}

fn push_ipv4(out: &mut String, number: u32)
    ensures
        final(out)@ == old(out)@ + ipv4_text(number),
{
    text::push_decimal(out, (number / 0x100_0000) as u64);
    out.push_str(".");
    text::push_decimal(out, (number / 0x1_0000 % 0x100) as u64);
    out.push_str(".");
    text::push_decimal(out, (number / 0x100 % 0x100) as u64);
    out.push_str(".");
    text::push_decimal(out, (number % 0x100) as u64);
    assert(out@ =~= old(out)@ + ipv4_text(number));
}

fn split_groups(number: u128) -> (groups: Vec<u64>)
    ensures
        groups@ == groups_of(number),
{
    let n6: u128 = number / 0x1_0000;
    let n5: u128 = n6 / 0x1_0000;
    let n4: u128 = n5 / 0x1_0000;
    let n3: u128 = n4 / 0x1_0000;
    let n2: u128 = n3 / 0x1_0000;
    let n1: u128 = n2 / 0x1_0000;
    let n0: u128 = n1 / 0x1_0000;
    let groups: Vec<u64> = vec![
        n0 as u64,
        (n1 % 0x1_0000) as u64,
        (n2 % 0x1_0000) as u64,
        (n3 % 0x1_0000) as u64,
        (n4 % 0x1_0000) as u64,
        (n5 % 0x1_0000) as u64,
        (n6 % 0x1_0000) as u64,
        (number % 0x1_0000) as u64,
    ];
    assert(groups@ =~= groups_of(number));
    groups
}

fn count_zeros(groups: &Vec<u64>, from: usize) -> (count: usize)
    requires
        from <= groups.len(),
    ensures
        count == zeros_from(groups@, from as int),
        count <= groups.len() - from,
    decreases groups.len() - from,
{
    if from < groups.len() && groups[from] == 0 {
        1 + count_zeros(groups, from + 1)
    } else {
        0
    }
}

proof fn lemma_longest_zeros(groups: Seq<u64>, before: nat)
    requires
        before <= groups.len(),
    ensures
        ({
            let (start, len) = longest_zeros(groups, before);
            &&& 0 <= start <= groups.len()
            &&& start + len <= groups.len()
            &&& forall|i: int| start <= i < start + len ==> (#[trigger] groups[i]) == 0
        }),
    decreases before,
{
    if before > 0 {
        lemma_longest_zeros(groups, (before - 1) as nat);
        lemma_zeros_from(groups, before - 1);
    }
}

proof fn lemma_zeros_from(groups: Seq<u64>, i: int)
    requires
        0 <= i <= groups.len(),
    ensures
        i + zeros_from(groups, i) <= groups.len(),
        forall|j: int| i <= j < i + zeros_from(groups, i) ==> (#[trigger] groups[j]) == 0,
    decreases groups.len() - i,
{
    if i < groups.len() && groups[i] == 0 {
        lemma_zeros_from(groups, i + 1);
    }
}

fn find_zeros(groups: &Vec<u64>) -> (found: (usize, usize))
    requires
        groups.len() == 8,
    ensures
        (found.0 as int, found.1 as nat) == longest_zeros(groups@, 8),
        found.0 + found.1 <= 8,
{
    let mut start: usize = 0;
    let mut len: usize = 0;
    for i in 0..8usize
        invariant
            groups.len() == 8,
            (start as int, len as nat) == longest_zeros(groups@, i as nat),
    {
        let zeros = count_zeros(groups, i);
        if zeros > len {
            start = i;
            len = zeros;
        }
    }
    proof {
        lemma_longest_zeros(groups@, 8);
    }
    (start, len)
}

fn push_groups(out: &mut String, groups: &Vec<u64>, from: usize, to: usize)
    requires
        from <= to <= groups.len(),
    ensures
        final(out)@ == old(out)@ + groups_text(groups@.subrange(from as int, to as int)),
{
    assert(groups@.subrange(from as int, from as int) =~= Seq::empty());
    assert(out@ =~= old(out)@ + groups_text(groups@.subrange(from as int, from as int)));
    for i in from..to
        invariant
            from <= to <= groups.len(),
            out@ == old(out)@ + groups_text(groups@.subrange(from as int, i as int)),
    {
        let ghost before = groups@.subrange(from as int, i as int);
        let ghost now = groups@.subrange(from as int, i + 1);
        assert(now.drop_last() =~= before);
        if i > from {
            out.push(':');
        }
        text::push_hexadecimal(out, groups[i]);
        assert(out@ =~= old(out)@ + groups_text(now));
    }
}

fn push_ipv6(out: &mut String, number: u128)
    ensures
        final(out)@ == old(out)@ + ipv6_text(number),
{
    if number / 0x1_0000_0000 == 0xffff {
        out.push_str("::ffff:");
        push_ipv4(out, (number % 0x1_0000_0000) as u32);
        assert(out@ =~= old(out)@ + ipv6_text(number));
        return ;
    }
    let groups = split_groups(number);
    let (start, len) = find_zeros(&groups);
    if len > 1 {
        push_groups(out, &groups, 0, start);
        out.push_str("::");
        push_groups(out, &groups, start + len, 8);
        assert(groups@.subrange(0, start as int) =~= groups@.take(start as int));
        assert(groups@.subrange(start + len, 8) =~= groups@.skip(start + len));
    } else {
        push_groups(out, &groups, 0, 8);
        assert(groups@.subrange(0, 8) =~= groups@);
    }
    assert(out@ =~= old(out)@ + ipv6_text(number));
}

impl Endpoint {
    /// The endpoint in text form.
    pub fn text(&self) -> (shown: String)
        ensures
            shown@ == endpoint_text(*self),
    {
        let mut shown = String::new();
        match self.host {
            Host::V4(number) => {
                push_ipv4(&mut shown, number);
                shown.push_str(":");
            },
            Host::V6(number) => {
                shown.push_str("[");
                push_ipv6(&mut shown, number);
                if self.scope != 0 {
                    shown.push_str("%");
                    text::push_decimal(&mut shown, self.scope as u64);
                }
                shown.push_str("]:");
            },
        }
        text::push_decimal(&mut shown, self.port as u64);
        assert(shown@ =~= endpoint_text(*self));
        shown
    }
}

proof fn lemma_octet_reads_back(n: nat)
    requires
        n < 0x100,
    ensures
        address::octet(text::decimal(n)) == Some(n as u64),
        !text::decimal(n).contains('.'),
        !text::decimal(n).contains(':'),
{
    text::lemma_decimal_of_three_digits(n);
    lemma_decimal_is_a_number(n);
}

proof fn lemma_decimal_is_a_number(n: nat)
    ensures
        text::decimal(n).len() > 0,
        text::all_digits(text::decimal(n), 10),
        text::number_value(text::decimal(n), 10) == n,
        forall|c: char| !('0' <= c && c <= '9') ==> !#[trigger] text::decimal(n).contains(c),
{
    let digits = text::decimal(n);
    text::lemma_decimal_reads_back(n);
    assert forall|i: int| 0 <= i < digits.len() implies 0 <= #[trigger] text::digit_value(digits[i])
        < 10 by {
        assert('0' <= digits[i] <= '9');
    }
    assert forall|c: char| !('0' <= c && c <= '9') implies !#[trigger] digits.contains(c) by {
        if digits.contains(c) {
            let i = digits.index_of(c);
            assert('0' <= digits[i] <= '9');
        }
    }
}

/// An IPv4 address in text form stands for that address.
pub proof fn law_ipv4_reads_back(number: u32)
    ensures
        address::ipv4(ipv4_text(number)) == Some(number),
{
    let n = number as nat;
    let a = text::decimal(n / 0x100_0000);
    let b = text::decimal(n / 0x1_0000 % 0x100);
    let c = text::decimal(n / 0x100 % 0x100);
    let d = text::decimal(n % 0x100);
    reveal_strlit(".");
    assert("."@ =~= seq!['.']);
    lemma_octet_reads_back(n / 0x100_0000);
    lemma_octet_reads_back(n / 0x1_0000 % 0x100);
    lemma_octet_reads_back(n / 0x100 % 0x100);
    lemma_octet_reads_back(n % 0x100);
    text::lemma_split_of_one(a, '.');
    text::lemma_split_of_one(b, '.');
    text::lemma_split_of_one(c, '.');
    text::lemma_split_of_one(d, '.');
    text::lemma_split_of_two(a, b, '.');
    text::lemma_split_of_two(a + seq!['.'] + b, c, '.');
    text::lemma_split_of_two(a + seq!['.'] + b + seq!['.'] + c, d, '.');
    let parts = text::split(ipv4_text(number), '.');
    assert(parts =~= seq![a, b, c, d]);
    assert(n / 0x100_0000 * 0x100_0000 + n / 0x1_0000 % 0x100 * 0x1_0000 + n / 0x100 % 0x100 * 0x100
        + n % 0x100 == n);
}

/// The characters of an IP address.
spec fn is_address_char(c: char) -> bool {
    text::is_hex_char(c) || c == '.' || c == ':'
}

/// Whether a text holds only characters of an IP address.
spec fn is_address_like(s: Seq<char>) -> bool {
    forall|i: int| 0 <= i < s.len() ==> is_address_char(#[trigger] s[i])
}

proof fn lemma_like_of_two(a: Seq<char>, b: Seq<char>)
    requires
        is_address_like(a),
        is_address_like(b),
    ensures
        is_address_like(a + b),
{
    assert forall|i: int| 0 <= i < (a + b).len() implies is_address_char(#[trigger] (a + b)[i]) by {
        if i < a.len() {
            assert(is_address_char(a[i]));
        } else {
            assert(is_address_char(b[i - a.len()]));
        }
    }
}

proof fn lemma_decimal_is_like(n: nat)
    ensures
        is_address_like(text::decimal(n)),
{
    let digits = text::decimal(n);
    text::lemma_decimal_reads_back(n);
    assert forall|i: int| 0 <= i < digits.len() implies is_address_char(#[trigger] digits[i]) by {
        assert('0' <= digits[i] <= '9');
    }
}

proof fn lemma_ipv4_is_like(number: u32)
    ensures
        is_address_like(ipv4_text(number)),
        !ipv4_text(number).contains(':'),
{
    let n = number as nat;
    let a = text::decimal(n / 0x100_0000);
    let b = text::decimal(n / 0x1_0000 % 0x100);
    let c = text::decimal(n / 0x100 % 0x100);
    let d = text::decimal(n % 0x100);
    reveal_strlit(".");
    lemma_decimal_is_like(n / 0x100_0000);
    lemma_decimal_is_like(n / 0x1_0000 % 0x100);
    lemma_decimal_is_like(n / 0x100 % 0x100);
    lemma_decimal_is_like(n % 0x100);
    lemma_like_of_two(a, "."@);
    lemma_like_of_two(a + "."@, b);
    lemma_like_of_two(a + "."@ + b, "."@);
    lemma_like_of_two(a + "."@ + b + "."@, c);
    lemma_like_of_two(a + "."@ + b + "."@ + c, "."@);
    lemma_like_of_two(a + "."@ + b + "."@ + c + "."@, d);
    lemma_decimal_is_a_number(n / 0x100_0000);
    lemma_decimal_is_a_number(n / 0x1_0000 % 0x100);
    lemma_decimal_is_a_number(n / 0x100 % 0x100);
    lemma_decimal_is_a_number(n % 0x100);
    lemma_holds_in_either(a, "."@, ':');
    lemma_holds_in_either(a + "."@, b, ':');
    lemma_holds_in_either(a + "."@ + b, "."@, ':');
    lemma_holds_in_either(a + "."@ + b + "."@, c, ':');
    lemma_holds_in_either(a + "."@ + b + "."@ + c, "."@, ':');
    lemma_holds_in_either(a + "."@ + b + "."@ + c + "."@, d, ':');
}

proof fn lemma_holds_in_either(a: Seq<char>, b: Seq<char>, c: char)
    ensures
        (a + b).contains(c) == (a.contains(c) || b.contains(c)),
{
    if (a + b).contains(c) {
        let i = (a + b).index_of(c);
        if i < a.len() {
            assert(a[i] == c);
        } else {
            assert(b[i - a.len()] == c);
        }
    }
    if a.contains(c) {
        let i = a.index_of(c);
        assert((a + b)[i] == c);
    }
    if b.contains(c) {
        let i = b.index_of(c);
        assert((a + b)[a.len() + i] == c);
    }
}

proof fn lemma_group_reads_back(g: u64)
    requires
        g < 0x1_0000,
    ensures
        address::group(text::hexadecimal(g as nat)) == Some(g),
        text::hexadecimal(g as nat).len() > 0,
        is_address_like(text::hexadecimal(g as nat)),
        forall|c: char|
            !text::is_hex_char(c) ==> !#[trigger] text::hexadecimal(g as nat).contains(c),
        address::ipv4(text::hexadecimal(g as nat)) is None,
{
    let digits = text::hexadecimal(g as nat);
    text::lemma_hexadecimal_reads_back(g as nat);
    text::lemma_hexadecimal_of_four_digits(g as nat);
    assert forall|i: int| 0 <= i < digits.len() implies 0 <= #[trigger] text::digit_value(digits[i])
        < 16 by {
        assert(text::is_hex_char(digits[i]));
    }
    assert forall|i: int| 0 <= i < digits.len() implies is_address_char(#[trigger] digits[i]) by {
        assert(text::is_hex_char(digits[i]));
    }
    assert forall|c: char| !text::is_hex_char(c) implies !#[trigger] digits.contains(c) by {
        if digits.contains(c) {
            let i = digits.index_of(c);
            assert(text::is_hex_char(digits[i]));
        }
    }
    text::lemma_split_of_one(digits, '.');
}

/// Whether groups hold sixteen bits each.
spec fn are_groups(groups: Seq<u64>) -> bool {
    forall|i: int| 0 <= i < groups.len() ==> (#[trigger] groups[i]) < 0x1_0000
}

/// The texts of groups.
spec fn group_texts(groups: Seq<u64>) -> Seq<Seq<char>> {
    groups.map_values(|g: u64| text::hexadecimal(g as nat))
}

/// Whether no two colons in a row begin before a place of a text.
spec fn is_gapless(s: Seq<char>, end: int) -> bool {
    forall|i: int| 0 <= i < end ==> !((#[trigger] s[i]) == ':' && s[i + 1] == ':')
}

proof fn lemma_groups_text(groups: Seq<u64>)
    requires
        groups.len() > 0,
        are_groups(groups),
    ensures
        text::split(groups_text(groups), ':') == group_texts(groups),
        address::groups(group_texts(groups)) == Some(groups),
        address::closing_groups(group_texts(groups)) == Some(groups),
        groups_text(groups).len() > 0,
        groups_text(groups).first() != ':',
        groups_text(groups).last() != ':',
        is_gapless(groups_text(groups), groups_text(groups).len() - 1),
        is_address_like(groups_text(groups)),
        !groups_text(groups).contains('.'),
    decreases groups.len(),
{
    let last = text::hexadecimal(groups.last() as nat);
    let whole = groups_text(groups);
    assert(are_groups(groups.drop_last())) by {
        assert forall|i: int| 0 <= i < groups.drop_last().len() implies (
        #[trigger] groups.drop_last()[i]) < 0x1_0000 by {
            assert(groups[i] < 0x1_0000);
        }
    }
    assert(groups[groups.len() - 1] < 0x1_0000);
    lemma_group_reads_back(groups.last());
    text::lemma_split_of_one(last, ':');
    assert(!last.contains(':'));
    assert forall|i: int| 0 <= i < last.len() implies (#[trigger] last[i]) != ':' by {
        assert(last.contains(last[i]));
    }
    if groups.len() == 1 {
        assert(group_texts(groups) =~= seq![last]);
        assert(group_texts(groups).drop_last() =~= Seq::empty());
        assert(address::groups(group_texts(groups).drop_last()) == Some(Seq::<u64>::empty()));
        assert(Seq::<u64>::empty().push(groups[0]) =~= groups);
    } else {
        let before = groups_text(groups.drop_last());
        lemma_groups_text(groups.drop_last());
        text::lemma_split_of_two(before, last, ':');
        assert(group_texts(groups) =~= group_texts(groups.drop_last()) + seq![last]);
        assert(group_texts(groups).drop_last() =~= group_texts(groups.drop_last()));
        assert(groups.drop_last().push(groups.last()) =~= groups);
        lemma_like_of_two(before, seq![':']);
        lemma_like_of_two(before + seq![':'], last);
        lemma_holds_in_either(before, seq![':'], '.');
        lemma_holds_in_either(before + seq![':'], last, '.');
        assert forall|i: int| 0 <= i < whole.len() - 1 implies !((#[trigger] whole[i]) == ':'
            && whole[i + 1] == ':') by {
            if i < before.len() - 1 {
                assert(before[i] == whole[i] && before[i + 1] == whole[i + 1]);
            } else if i == before.len() - 1 {
                assert(whole[i] == before.last());
            } else {
                assert(whole[i + 1] == last[i - before.len()]);
            }
        }
        assert(whole.first() == before.first());
        assert(whole.last() == last[last.len() - 1]);
    }
    assert(group_texts(groups).last() == last);
}

proof fn lemma_gap(s: Seq<char>, at: int)
    requires
        0 <= at < s.len() - 1,
        is_gapless(s, at),
        s[at] == ':',
        s[at + 1] == ':',
    ensures
        address::gap(s) == at,
    decreases at,
{
    if at > 0 {
        assert(!(s[0] == ':' && s[1] == ':'));
        let rest = s.drop_first();
        assert forall|i: int| 0 <= i < at - 1 implies !((#[trigger] rest[i]) == ':' && rest[i + 1]
            == ':') by {
            assert(s[i + 1] == rest[i]);
        }
        lemma_gap(rest, at - 1);
    }
}

proof fn lemma_no_gap(s: Seq<char>)
    requires
        is_gapless(s, s.len() - 1),
    ensures
        address::gap(s) == s.len(),
    decreases s.len(),
{
    if s.len() >= 2 {
        assert(!(s[0] == ':' && s[1] == ':'));
        let rest = s.drop_first();
        assert forall|i: int| 0 <= i < rest.len() - 1 implies !((#[trigger] rest[i]) == ':'
            && rest[i + 1] == ':') by {
            assert(s[i + 1] == rest[i]);
        }
        lemma_no_gap(rest);
    }
}

proof fn lemma_groups_of(number: u128)
    ensures
        groups_of(number).len() == 8,
        are_groups(groups_of(number)),
        address::eight_groups(groups_of(number)) == number,
{
    let n7 = number as nat;
    let n6 = n7 / 0x1_0000;
    let n5 = n6 / 0x1_0000;
    let n4 = n5 / 0x1_0000;
    let n3 = n4 / 0x1_0000;
    let n2 = n3 / 0x1_0000;
    let n1 = n2 / 0x1_0000;
    let n0 = n1 / 0x1_0000;
    assert(n7 < 0x1_0000_0000_0000_0000_0000_0000_0000_0000);
    assert(n0 < 0x1_0000);
    assert(n7 == n6 * 0x1_0000 + n7 % 0x1_0000);
    assert(n6 == n5 * 0x1_0000 + n6 % 0x1_0000);
    assert(n5 == n4 * 0x1_0000 + n5 % 0x1_0000);
    assert(n4 == n3 * 0x1_0000 + n4 % 0x1_0000);
    assert(n3 == n2 * 0x1_0000 + n3 % 0x1_0000);
    assert(n2 == n1 * 0x1_0000 + n2 % 0x1_0000);
    assert(n1 == n0 * 0x1_0000 + n1 % 0x1_0000);
}

proof fn lemma_mapped_reads_back(number: u128)
    requires
        number / 0x1_0000_0000 == 0xffff,
    ensures
        address::ipv6(ipv6_text(number)) == Some(number),
        is_address_like(ipv6_text(number)),
{
    let low = (number % 0x1_0000_0000) as u32;
    let shown = ipv4_text(low);
    let whole = ipv6_text(number);
    reveal_strlit("::ffff:");
    let word = seq!['f', 'f', 'f', 'f'];
    assert(whole =~= seq![':', ':'] + (word + seq![':'] + shown));
    lemma_ipv4_is_like(low);
    lemma_like_of_two("::ffff:"@, shown);
    lemma_gap(whole, 0);
    assert(whole.skip(2) =~= word + seq![':'] + shown);
    assert(whole.take(0) =~= Seq::empty());
    law_ipv4_reads_back(low);
    reveal_with_fuel(text::hexadecimal, 5);
    assert(text::hexadecimal(0xffff) =~= word);
    lemma_group_reads_back(0xffff);
    text::lemma_split_of_one(word, ':');
    text::lemma_split_of_one(shown, ':');
    text::lemma_split_of_two(word, shown, ':');
    let parts = text::split(whole.skip(2), ':');
    assert(parts =~= seq![word, shown]);
    assert(parts.drop_last() =~= seq![word]);
    assert(parts.drop_last().drop_last() =~= Seq::empty());
    assert(address::groups(parts.drop_last().drop_last()) == Some(Seq::<u64>::empty()));
    assert(address::groups(parts.drop_last()) == Some(Seq::<u64>::empty().push(0xffff)));
    let tail = address::tail_groups(whole.skip(2))->0;
    assert(tail =~= seq![0xffffu64, (low / 0x1_0000) as u64, (low % 0x1_0000) as u64]);
    assert(address::head_groups(whole.take(0)) == Some(Seq::<u64>::empty()));
    let all = Seq::<u64>::empty() + Seq::new(5, |j: int| 0u64) + tail;
    assert(all.len() == 8);
    assert(all[0] == 0 && all[1] == 0 && all[2] == 0 && all[3] == 0 && all[4] == 0);
    assert(all[5] == 0xffff && all[6] == low / 0x1_0000 && all[7] == low % 0x1_0000);
    assert(address::eight_groups(all) == number);
}

/// An IPv6 address in text form stands for that address.
pub proof fn law_ipv6_reads_back(number: u128)
    ensures
        address::ipv6(ipv6_text(number)) == Some(number),
{
    lemma_ipv6_reads_back(number);
}

proof fn lemma_side_reads_back(groups: Seq<u64>)
    requires
        are_groups(groups),
    ensures
        address::head_groups(groups_text(groups)) == Some(groups),
        address::tail_groups(groups_text(groups)) == Some(groups),
        is_gapless(groups_text(groups), groups_text(groups).len() - 1),
        groups_text(groups).len() > 0 ==> groups_text(groups).last() != ':',
        is_address_like(groups_text(groups)),
{
    if groups.len() > 0 {
        lemma_groups_text(groups);
    } else {
        assert(groups =~= Seq::empty());
    }
}

proof fn lemma_ipv6_reads_back(number: u128)
    ensures
        address::ipv6(ipv6_text(number)) == Some(number),
        is_address_like(ipv6_text(number)),
{
    let groups = groups_of(number);
    let whole = ipv6_text(number);
    let (start, len) = longest_zeros(groups, 8);
    lemma_groups_of(number);
    lemma_longest_zeros(groups, 8);
    if number / 0x1_0000_0000 == 0xffff {
        lemma_mapped_reads_back(number);
    } else if len > 1 {
        let head = groups.take(start);
        let tail = groups.skip(start + len);
        let left = groups_text(head);
        let right = groups_text(tail);
        assert(are_groups(head) && are_groups(tail));
        reveal_strlit("::");
        lemma_side_reads_back(head);
        lemma_side_reads_back(tail);
        lemma_like_of_two(left, "::"@);
        lemma_like_of_two(left + "::"@, right);
        assert forall|i: int| 0 <= i < left.len() implies !((#[trigger] whole[i]) == ':' && whole[i
            + 1] == ':') by {
            assert(whole[i] == left[i]);
            if i < left.len() - 1 {
                assert(whole[i + 1] == left[i + 1]);
            }
        }
        assert(whole[left.len() as int] == ':' && whole[left.len() as int + 1] == ':');
        lemma_gap(whole, left.len() as int);
        assert(whole.take(left.len() as int) =~= left);
        assert(whole.skip(left.len() as int + 2) =~= right);
        let zeros = Seq::new((8 - head.len() - tail.len()) as nat, |j: int| 0u64);
        assert(head + zeros + tail =~= groups) by {
            assert forall|i: int| 0 <= i < 8 implies (head + zeros + tail)[i] == groups[i] by {}
        }
    } else {
        lemma_groups_text(groups);
        lemma_no_gap(whole);
    }
}

proof fn lemma_port_reads_back(port: u16)
    ensures
        address::port(text::decimal(port as nat)) == Some(port as u64),
        !text::decimal(port as nat).contains(':'),
{
    lemma_decimal_is_a_number(port as nat);
}

proof fn lemma_scoped_reads_back(number: u128, scope: u32)
    ensures
        address::scoped_v6(scoped_text(number, scope)) == Some((number, scope)),
        !scoped_text(number, scope).contains(']'),
{
    let shown = ipv6_text(number);
    let digits = text::decimal(scope as nat);
    lemma_ipv6_reads_back(number);
    reveal_strlit("%");
    if shown.contains(']') {
        assert(is_address_char(shown[shown.index_of(']')]));
    }
    if shown.contains('%') {
        assert(is_address_char(shown[shown.index_of('%')]));
    }
    text::lemma_first_index(shown, '%');
    if scope != 0 {
        let rest = "%"@ + digits;
        let whole = scoped_text(number, scope);
        assert(whole =~= shown + rest);
        text::lemma_first_index_of_two(shown, rest, '%');
        assert(rest.first() == '%');
        assert(text::first_index(rest, '%') == 0);
        assert(whole.take(shown.len() as int) =~= shown);
        assert(whole.skip(shown.len() as int + 1) =~= digits);
        lemma_decimal_is_a_number(scope as nat);
        lemma_holds_in_either("%"@, digits, ']');
        lemma_holds_in_either(shown, rest, ']');
    }
}

proof fn lemma_bracket_begins_no_ipv4(s: Seq<char>)
    requires
        s.len() > 0,
        s[0] == '[',
    ensures
        address::socket_v4(s) is None,
{
    let parts = text::split(s, ':');
    text::lemma_first_index(s, ':');
    let first = parts[0];
    assert(first.len() > 0 && first[0] == '[');
    text::lemma_first_index(first, '.');
    let octet = text::split(first, '.')[0];
    assert(octet.len() > 0 && octet[0] == '[');
    assert(text::digit_value(octet[0]) < 0);
    assert(address::octet(octet) is None);
}

proof fn lemma_v4_with_port(number: u32, shown: Seq<char>, port: u16, digits: Seq<char>)
    requires
        address::ipv4(shown) == Some(number),
        !shown.contains(':'),
        address::port(digits) == Some(port as u64),
        !digits.contains(':'),
    ensures
        address::socket_v4(shown + ":"@ + digits) == Some(
            Endpoint { host: Host::V4(number), scope: 0, port },
        ),
{
    reveal_strlit(":");
    assert(":"@ =~= seq![':']);
    text::lemma_split_of_one(shown, ':');
    text::lemma_split_of_one(digits, ':');
    text::lemma_split_of_two(shown, digits, ':');
    assert(text::split(shown + ":"@ + digits, ':') =~= seq![shown, digits]);
}

proof fn lemma_v6_with_port(
    number: u128,
    scope: u32,
    shown: Seq<char>,
    port: u16,
    digits: Seq<char>,
)
    requires
        address::scoped_v6(shown) == Some((number, scope)),
        !shown.contains(']'),
        address::port(digits) == Some(port as u64),
    ensures
        address::socket_v6("["@ + shown + "]:"@ + digits) == Some(
            Endpoint { host: Host::V6(number), scope, port },
        ),
        address::socket_v4("["@ + shown + "]:"@ + digits) is None,
{
    let start = "["@ + shown;
    let rest = "]:"@ + digits;
    let whole = "["@ + shown + "]:"@ + digits;
    let close = start.len() as int;
    reveal_strlit("[");
    reveal_strlit("]:");
    lemma_bracket_begins_no_ipv4(whole);
    assert(whole =~= start + rest);
    lemma_holds_in_either("["@, shown, ']');
    text::lemma_first_index(start, ']');
    text::lemma_first_index_of_two(start, rest, ']');
    assert(rest.first() == ']');
    assert(text::first_index(rest, ']') == 0);
    assert(whole[close + 1] == rest[1]);
    assert(whole.subrange(1, close) =~= shown);
    assert(whole.skip(close + 2) =~= digits);
}

/// An endpoint in text form stands for that endpoint.
pub proof fn law_endpoint_reads_back(endpoint: Endpoint)
    requires
        endpoint.wf(),
    ensures
        address::endpoint(endpoint_text(endpoint)) == Some(endpoint),
{
    let port = endpoint.port;
    let digits = text::decimal(port as nat);
    lemma_port_reads_back(port);
    match endpoint.host {
        Host::V4(number) => {
            lemma_ipv4_is_like(number);
            law_ipv4_reads_back(number);
            lemma_v4_with_port(number, ipv4_text(number), port, digits);
        },
        Host::V6(number) => {
            let scope = endpoint.scope;
            lemma_scoped_reads_back(number, scope);
            lemma_v6_with_port(number, scope, scoped_text(number, scope), port, digits);
        },
    }
}

/// The text of a server that was read stands for that server: its label, an
/// equals sign, and its address in text form.
pub proof fn law_target_reads_back(raw: Seq<char>)
    ensures
        match config::target_of(raw) {
            Ok(target) => config::target_of(target.label + "="@ + endpoint_text(target.address))
                == Ok::<config::TargetModel, ConfigFault>(target),
            Err(_) => true,
        },
{
    if let Ok(target) = config::target_of(raw) {
        let given = raw.take(text::first_index(raw, '='));
        let label = target.label;
        let shown = endpoint_text(target.address);
        let rest = "="@ + shown;
        let whole = label + "="@ + shown;
        text::lemma_first_index(raw, '=');
        text::lemma_trimmed_is_part(given);
        text::lemma_trimmed_twice(given);
        if label.contains('=') {
            let i = given.index_of('=');
            assert(given.contains('='));
            assert(raw[i] == '=');
        }
        reveal_strlit("=");
        assert(whole =~= label + rest);
        text::lemma_first_index(label, '=');
        text::lemma_first_index_of_two(label, rest, '=');
        assert(rest.first() == '=');
        assert(text::first_index(rest, '=') == 0);
        assert(whole.take(label.len() as int) =~= label);
        assert(whole.skip(label.len() as int + 1) =~= shown);
        address::law_endpoints_are_wf(raw.skip(text::first_index(raw, '=') + 1));
        law_endpoint_reads_back(target.address);
    }
}

/// An IPv4 address shows its four octets from the highest to the lowest, in
/// decimal digits.
pub proof fn law_ipv4_shows_its_octets(a: u8, b: u8, c: u8, d: u8)
    ensures
        ipv4_text((a * 16777216 + b * 65536 + c * 256 + d) as u32) == text::decimal(a as nat) + "."@
            + text::decimal(b as nat) + "."@ + text::decimal(c as nat) + "."@ + text::decimal(
            d as nat,
        ),
{
    let n = a as nat * 16777216 + b as nat * 65536 + c as nat * 256 + d as nat;
    assert(n / 0x100_0000 == a);
    assert(n / 0x1_0000 % 0x100 == b);
    assert(n / 0x100 % 0x100 == c);
    assert(n % 0x100 == d);
}

proof fn lemma_digits_are_decimal(s: Seq<char>)
    requires
        s.len() > 0,
        text::all_digits(s, 10),
        s.len() > 1 ==> s.first() != '0',
    ensures
        s == text::decimal(text::number_value(s, 10)),
        s.len() > 1 ==> text::number_value(s, 10) >= 10,
    decreases s.len(),
{
    let before = s.drop_last();
    let n = text::number_value(before, 10);
    let digit = text::digit_value(s.last());
    assert(0 <= text::digit_value(s[s.len() - 1]) < 10);
    assert(s.last() == text::digit_char(digit as nat));
    if s.len() == 1 {
        assert(n == 0);
        assert(s =~= text::decimal(digit as nat));
    } else {
        assert forall|i: int| 0 <= i < before.len() implies 0 <= #[trigger] text::digit_value(
            before[i],
        ) < 10 by {
            assert(0 <= text::digit_value(s[i]) < 10);
        }
        lemma_digits_are_decimal(before);
        if before.len() == 1 {
            assert(before.first() == s.first());
            assert(before.drop_last() =~= Seq::empty());
            assert(text::number_value(before.drop_last(), 10) == 0);
            assert(text::digit_value(before.last()) > 0);
        }
        assert(n >= 1);
        let whole = n * 10 + digit;
        assert(text::number_value(s, 10) == whole);
        assert(whole as nat / 10 == n && whole as nat % 10 == digit);
        assert(s =~= before.push(s.last()));
    }
}

/// A text stands for an IPv4 address only where it is the text form of that
/// address.
pub proof fn law_ipv4_has_one_text(s: Seq<char>)
    ensures
        address::ipv4(s) is Some ==> s == ipv4_text(address::ipv4(s)->0),
{
    if address::ipv4(s) is Some {
        let parts = text::split(s, '.');
        text::law_parts_join_to_the_text(s, '.');
        assert forall|i: int| 0 <= i < 4 implies #[trigger] parts[i] == text::decimal(
            address::octet(parts[i])->0 as nat,
        ) && address::octet(parts[i])->0 < 256 by {
            assert(i == 0 || i == 1 || i == 2 || i == 3);
            assert(address::octet(parts[i]) is Some);
            lemma_digits_are_decimal(parts[i]);
        }
        let a = address::octet(parts[0])->0 as u8;
        let b = address::octet(parts[1])->0 as u8;
        let c = address::octet(parts[2])->0 as u8;
        let d = address::octet(parts[3])->0 as u8;
        law_ipv4_shows_its_octets(a, b, c, d);
        reveal_with_fuel(text::joined, 4);
        reveal_strlit(".");
        assert("."@ =~= seq!['.']);
        assert(parts =~= seq![parts[0], parts[1], parts[2], parts[3]]);
        assert(text::joined(parts, '.') =~= parts[0] + seq!['.'] + (parts[1] + seq!['.'] + (
        parts[2] + seq!['.'] + parts[3])));
        assert(s =~= ipv4_text(address::ipv4(s)->0));
    }
}

/// The groups of an IPv6 address are its sixteen bits each, the highest first.
pub proof fn law_groups_are_of_the_number(number: u128)
    ensures
        ({
            let g = groups_of(number);
            &&& g.len() == 8
            &&& forall|i: int| 0 <= i < 8 ==> (#[trigger] g[i]) < 65536
            &&& number == ((((((g[0] * 65536 + g[1]) * 65536 + g[2]) * 65536 + g[3]) * 65536 + g[4])
                * 65536 + g[5]) * 65536 + g[6]) * 65536 + g[7]
        }),
{
    let n7 = number as nat;
    let n6 = n7 / 0x1_0000;
    let n5 = n6 / 0x1_0000;
    let n4 = n5 / 0x1_0000;
    let n3 = n4 / 0x1_0000;
    let n2 = n3 / 0x1_0000;
    let n1 = n2 / 0x1_0000;
    let n0 = n1 / 0x1_0000;
    lemma_groups_of(number);
    assert(n7 == n6 * 0x1_0000 + n7 % 0x1_0000);
    assert(n6 == n5 * 0x1_0000 + n6 % 0x1_0000);
    assert(n5 == n4 * 0x1_0000 + n5 % 0x1_0000);
    assert(n4 == n3 * 0x1_0000 + n4 % 0x1_0000);
    assert(n3 == n2 * 0x1_0000 + n3 % 0x1_0000);
    assert(n2 == n1 * 0x1_0000 + n2 % 0x1_0000);
    assert(n1 == n0 * 0x1_0000 + n1 % 0x1_0000);
}

/// Groups of sixteen bits are shown in hexadecimal digits with colons between
/// them.
pub proof fn law_groups_are_shown(groups: Seq<u64>)
    requires
        groups.len() > 0,
        forall|i: int| 0 <= i < groups.len() ==> (#[trigger] groups[i]) < 65536,
    ensures
        groups_text(groups) == text::joined(
            groups.map_values(|g: u64| text::hexadecimal(g as nat)),
            ':',
        ),
{
    lemma_groups_text(groups);
    text::law_parts_join_to_the_text(groups_text(groups), ':');
}

proof fn lemma_longest_is_longest(groups: Seq<u64>, before: nat, i: int, n: int)
    requires
        before <= groups.len(),
        0 <= i < before,
        n > 0,
        i + n <= groups.len(),
        forall|k: int| i <= k < i + n ==> (#[trigger] groups[k]) == 0,
    ensures
        longest_zeros(groups, before).1 >= n,
        longest_zeros(groups, before).1 == n ==> longest_zeros(groups, before).0 <= i,
    decreases before,
{
    let last = before - 1;
    if i < last {
        lemma_longest_is_longest(groups, last as nat, i, n);
    } else {
        lemma_zeros_reach(groups, i, n);
        lemma_longest_begins_before(groups, last as nat);
    }
}

proof fn lemma_zeros_reach(groups: Seq<u64>, i: int, n: int)
    requires
        0 <= i,
        0 <= n,
        i + n <= groups.len(),
        forall|k: int| i <= k < i + n ==> (#[trigger] groups[k]) == 0,
    ensures
        zeros_from(groups, i) >= n,
    decreases n,
{
    if n > 0 {
        assert(groups[i] == 0);
        lemma_zeros_reach(groups, i + 1, n - 1);
    }
}

proof fn lemma_longest_begins_before(groups: Seq<u64>, before: nat)
    ensures
        longest_zeros(groups, before).1 > 0 ==> longest_zeros(groups, before).0 < before,
        longest_zeros(groups, before).0 <= before,
    decreases before,
{
    if before > 0 {
        lemma_longest_begins_before(groups, (before - 1) as nat);
    }
}

/// An IPv6 address that does not stand for an IPv4 address shows all its groups
/// where no two neighbours are zero. Else it has two colons in place of a run of
/// zeros that no other run is longer than, the first of its length.
pub proof fn law_longest_zeros_are_left_out(number: u128)
    requires
        number / 0x1_0000_0000 != 0xffff,
    ensures
        ({
            let g = groups_of(number);
            ||| {
                &&& ipv6_text(number) == groups_text(g)
                &&& forall|i: int| 0 <= i < 7 ==> !((#[trigger] g[i]) == 0 && g[i + 1] == 0)
            }
            ||| exists|start: int, len: int| #[trigger]
                is_left_out(g, start, len) && ipv6_text(number) == groups_text(g.take(start))
                    + "::"@ + groups_text(g.skip(start + len))
        }),
{
    let g = groups_of(number);
    let (start, len) = longest_zeros(g, 8);
    lemma_groups_of(number);
    lemma_longest_zeros(g, 8);
    if len > 1 {
        assert forall|i: int, n: int|
            0 <= i && 0 < n && #[trigger] is_run(g, i, n) implies n < len || (n == len && start
            <= i) by {
            lemma_longest_is_longest(g, 8, i, n);
        }
        assert(is_run(g, start, len as int));
        assert(is_left_out(g, start, len as int));
    } else {
        assert forall|i: int| 0 <= i < 7 implies !((#[trigger] g[i]) == 0 && g[i + 1] == 0) by {
            if g[i] == 0 && g[i + 1] == 0 {
                lemma_longest_is_longest(g, 8, i, 2);
            }
        }
    }
}

/// Whether groups from a place on are zeros.
pub open spec fn is_run(groups: Seq<u64>, i: int, n: int) -> bool {
    &&& 0 <= i
    &&& i + n <= groups.len()
    &&& forall|k: int| i <= k < i + n ==> (#[trigger] groups[k]) == 0
}

/// Whether the groups from a place on are two or more zeros, and no other zeros
/// come before them that are as many, nor are others more.
pub open spec fn is_left_out(groups: Seq<u64>, start: int, len: int) -> bool {
    &&& len >= 2
    &&& is_run(groups, start, len)
    &&& forall|i: int, n: int|
        0 <= i && 0 < n && #[trigger] is_run(groups, i, n) ==> n < len || (n == len && start <= i)
}

proof fn lemma_two_parts_are_no_ipv6(s: Seq<char>)
    requires
        text::split(s, ':').len() == 2,
    ensures
        address::ipv6(s) is None,
{
    let i = address::gap(s);
    lemma_gap_is_two_colons(s);
    let parts = text::split(s, ':');
    if i < s.len() {
        let a = s.take(i);
        let b = s.skip(i + 2);
        let none = Seq::<char>::empty();
        assert(s =~= a + seq![':'] + (none + seq![':'] + b));
        text::lemma_split_of_two(none, b, ':');
        text::lemma_split_of_two(a, none + seq![':'] + b, ':');
        text::law_parts_join_to_the_text(a, ':');
        text::law_parts_join_to_the_text(b, ':');
        text::law_parts_join_to_the_text(none, ':');
    } else {
        lemma_groups_len(parts);
        lemma_groups_len(parts.drop_last());
    }
}

proof fn lemma_gap_is_two_colons(s: Seq<char>)
    ensures
        0 <= address::gap(s) <= s.len(),
        address::gap(s) < s.len() ==> address::gap(s) + 1 < s.len() && s[address::gap(s)] == ':'
            && s[address::gap(s) + 1] == ':',
    decreases s.len(),
{
    if s.len() >= 2 && !(s[0] == ':' && s[1] == ':') {
        lemma_gap_is_two_colons(s.drop_first());
    }
}

proof fn lemma_groups_len(parts: Seq<Seq<char>>)
    ensures
        address::groups(parts) is Some ==> address::groups(parts)->0.len() == parts.len(),
    decreases parts.len(),
{
    if parts.len() > 0 {
        lemma_groups_len(parts.drop_last());
    }
}

proof fn lemma_no_bracket(s: Seq<char>)
    requires
        is_address_like(s),
    ensures
        address::socket_v6(s) is None,
{
    if s.len() > 0 {
        assert(is_address_char(s[0]));
    }
}

/// An address without a port has the port of the domain name service, which is
/// fifty-three. An address with a port has that port.
pub proof fn law_port_is_the_one_given(number: u32, wide: u128, port: u16)
    ensures
        address::endpoint(ipv4_text(number)) == Some(
            Endpoint { host: Host::V4(number), scope: 0, port: 53 },
        ),
        address::endpoint(ipv6_text(wide)) == Some(
            Endpoint { host: Host::V6(wide), scope: 0, port: 53 },
        ),
        address::endpoint(ipv4_text(number) + ":"@ + text::decimal(port as nat)) == Some(
            Endpoint { host: Host::V4(number), scope: 0, port },
        ),
        address::endpoint("["@ + ipv6_text(wide) + "]:"@ + text::decimal(port as nat)) == Some(
            Endpoint { host: Host::V6(wide), scope: 0, port },
        ),
{
    let a = ipv4_text(number);
    let b = ipv6_text(wide);
    law_ipv4_reads_back(number);
    lemma_ipv4_is_like(number);
    lemma_ipv6_reads_back(wide);
    text::lemma_split_of_one(a, ':');
    lemma_no_bracket(a);
    lemma_no_bracket(b);
    if text::split(b, ':').len() == 2 {
        lemma_two_parts_are_no_ipv6(b);
    }
    assert(address::ipv4(b) is None) by {
        if address::ipv4(b) is Some {
            law_ipv4_has_one_text(b);
            lemma_ipv4_is_like(address::ipv4(b)->0);
            text::lemma_split_of_one(b, ':');
            assert(address::gap(b) == b.len()) by {
                lemma_gap_is_two_colons(b);
            }
            lemma_groups_len(text::split(b, ':'));
            lemma_groups_len(text::split(b, ':').drop_last());
        }
    }
    law_endpoint_reads_back(Endpoint { host: Host::V4(number), scope: 0, port });
    law_endpoint_reads_back(Endpoint { host: Host::V6(wide), scope: 0, port });
}

/// A port of 65536 or more is refused.
pub proof fn law_port_is_in_range(number: u32, port: nat)
    requires
        port > 65535,
    ensures
        address::endpoint(ipv4_text(number) + ":"@ + text::decimal(port)) is None,
{
    let a = ipv4_text(number);
    let digits = text::decimal(port);
    let whole = a + ":"@ + digits;
    lemma_ipv4_is_like(number);
    lemma_decimal_is_a_number(port);
    lemma_decimal_is_like(port);
    reveal_strlit(":");
    assert(":"@ =~= seq![':']);
    lemma_like_of_two(a, ":"@);
    lemma_like_of_two(a + ":"@, digits);
    lemma_no_bracket(whole);
    text::lemma_split_of_one(a, ':');
    text::lemma_split_of_one(digits, ':');
    text::lemma_split_of_two(a, digits, ':');
    assert(text::split(whole, ':') =~= seq![a, digits]);
    lemma_two_parts_are_no_ipv6(whole);
    if address::ipv4(whole) is Some {
        law_ipv4_has_one_text(whole);
        lemma_ipv4_is_like(address::ipv4(whole)->0);
        assert(whole[a.len() as int] == ':');
    }
}

/// An endpoint shows its address, its port and, where it has one, its scope.
pub proof fn law_endpoint_is_shown(number: u32, wide: u128, scope: u32, port: u16)
    requires
        scope != 0,
    ensures
        endpoint_text(Endpoint { host: Host::V4(number), scope: 0, port }) == ipv4_text(number)
            + ":"@ + text::decimal(port as nat),
        endpoint_text(Endpoint { host: Host::V6(wide), scope: 0, port }) == "["@ + ipv6_text(wide)
            + "]:"@ + text::decimal(port as nat),
        endpoint_text(Endpoint { host: Host::V6(wide), scope, port }) == "["@ + ipv6_text(wide)
            + "%"@ + text::decimal(scope as nat) + "]:"@ + text::decimal(port as nat),
{
    assert(endpoint_text(Endpoint { host: Host::V6(wide), scope, port }) =~= "["@ + ipv6_text(wide)
        + "%"@ + text::decimal(scope as nat) + "]:"@ + text::decimal(port as nat));
}

/// The addresses that sockets are bound to stand for the unspecified address of
/// each family, with no port chosen.
pub(crate) proof fn lemma_bind_addresses()
    ensures
        address::endpoint("0.0.0.0:0"@) == Some(Endpoint { host: Host::V4(0), scope: 0, port: 0 }),
        address::endpoint("[::]:0"@) == Some(Endpoint { host: Host::V6(0), scope: 0, port: 0 }),
{
    lemma_zero_texts();
    law_port_is_the_one_given(0, 0, 0);
}

proof fn lemma_zero_texts()
    ensures
        "0.0.0.0:0"@ == ipv4_text(0) + ":"@ + text::decimal(0),
        "[::]:0"@ == "["@ + ipv6_text(0) + "]:"@ + text::decimal(0),
{
    lemma_zero_ipv4();
    lemma_zero_is_left_out();
    reveal_strlit("[::]:0");
    reveal_strlit("::");
    reveal_strlit("[");
    reveal_strlit("]:");
    let zero = text::decimal(0);
    assert(zero =~= seq!['0']);
    assert("[::]:0"@ =~= "["@ + "::"@ + "]:"@ + zero);
}

proof fn lemma_zero_ipv4()
    ensures
        "0.0.0.0:0"@ == ipv4_text(0) + ":"@ + text::decimal(0),
{
    law_ipv4_shows_its_octets(0, 0, 0, 0);
    let zero = text::decimal(0);
    assert(zero =~= seq!['0']);
    let dot = "."@;
    let colon = ":"@;
    reveal_strlit(".");
    reveal_strlit(":");
    assert(dot =~= seq!['.']);
    assert(colon =~= seq![':']);
    let all = zero + dot + zero + dot + zero + dot + zero + colon + zero;
    assert(ipv4_text(0) + colon + zero == all);
    reveal_strlit("0.0.0.0:0");
    assert("0.0.0.0:0"@ =~= all);
}

proof fn lemma_zero_is_left_out()
    ensures
        ipv6_text(0) == "::"@,
{
    let g = groups_of(0);
    assert(g =~= Seq::new(8, |i: int| 0u64));
    law_longest_zeros_are_left_out(0);
    assert(is_run(g, 0, 8));
    assert(g[0] == 0 && g[1] == 0);
    let (start, len) = choose|start: int, len: int| #[trigger]
        is_left_out(g, start, len) && ipv6_text(0) == groups_text(g.take(start)) + "::"@
            + groups_text(g.skip(start + len));
    assert(start == 0 && len == 8);
    assert(g.take(0) =~= Seq::empty());
    assert(g.skip(8) =~= Seq::empty());
    assert(ipv6_text(0) =~= "::"@);
}

} // verus!
