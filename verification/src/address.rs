//! Server addresses in text form: IPv4 and IPv6 addresses, with or without a
//! port.

use vstd::prelude::*;

use crate::address_text;
use crate::text;

verus! {

/// The port of a server whose address names none.
pub const DEFAULT_PORT: u16 = 53;

/// An IP address as a number, its first octet the most significant.
#[derive(Debug, Clone, Copy, PartialEq, Eq, Structural)]
pub enum Host {
    V4(u32),
    V6(u128),
}

/// An IP address and a port. The scope is that of an IPv6 address, and zero
/// where none is given.
#[derive(Debug, Clone, Copy, PartialEq, Eq, Structural)]
pub struct Endpoint {
    pub host: Host,
    pub scope: u32,
    pub port: u16,
}

impl Endpoint {
    /// Whether only an IPv6 address has a scope.
    pub open spec fn wf(self) -> bool {
        self.host is V4 ==> self.scope == 0
    }
}

/// A decimal octet: one to three digits without a superfluous zero in front.
pub open spec fn octet(s: Seq<char>) -> Option<u64> {
    if s.len() <= 3 && (s.len() <= 1 || s.first() != '0') {
        text::number(s, 10, 255)
    } else {
        None
    }
}

/// An IPv4 address: four octets with dots between them.
pub open spec fn ipv4(s: Seq<char>) -> Option<u32> {
    let parts = text::split(s, '.');
    if parts.len() == 4 && octet(parts[0]) is Some && octet(parts[1]) is Some && octet(
        parts[2],
    ) is Some && octet(parts[3]) is Some {
        Some(
            (octet(parts[0])->0 * 0x100_0000 + octet(parts[1])->0 * 0x1_0000 + octet(parts[2])->0
                * 0x100 + octet(parts[3])->0) as u32,
        )
    } else {
        None
    }
}

/// A group of an IPv6 address: one to four hexadecimal digits.
pub open spec fn group(s: Seq<char>) -> Option<u64> {
    if s.len() <= 4 {
        text::number(s, 16, 0xffff)
    } else {
        None
    }
}

/// The groups that a list of texts stands for.
pub open spec fn groups(parts: Seq<Seq<char>>) -> Option<Seq<u64>>
    decreases parts.len(),
{
    if parts.len() == 0 {
        Some(seq![])
    } else if groups(parts.drop_last()) is Some && group(parts.last()) is Some {
        Some(groups(parts.drop_last())->0.push(group(parts.last())->0))
    } else {
        None
    }
}

/// The groups that a list of texts stands for, the last of which may be an IPv4
/// address in place of two groups.
pub open spec fn closing_groups(parts: Seq<Seq<char>>) -> Option<Seq<u64>> {
    if parts.len() > 0 && ipv4(parts.last()) is Some {
        if groups(parts.drop_last()) is Some {
            let low = ipv4(parts.last())->0;
            Some(
                groups(parts.drop_last())->0.push((low / 0x1_0000) as u64).push(
                    (low % 0x1_0000) as u64,
                ),
            )
        } else {
            None
        }
    } else {
        groups(parts)
    }
}

/// Where two colons in a row first stand in a text, or the length of the text.
pub open spec fn gap(s: Seq<char>) -> int
    decreases s.len(),
{
    if s.len() < 2 {
        s.len() as int
    } else if s[0] == ':' && s[1] == ':' {
        0
    } else {
        1 + gap(s.drop_first())
    }
}

/// The number that eight groups stand for.
pub open spec fn eight_groups(g: Seq<u64>) -> u128 {
    (g[0] * 0x1_0000_0000_0000_0000_0000_0000_0000 + g[1] * 0x1_0000_0000_0000_0000_0000_0000 + g[2]
        * 0x1_0000_0000_0000_0000_0000 + g[3] * 0x1_0000_0000_0000_0000 + g[4] * 0x1_0000_0000_0000
        + g[5] * 0x1_0000_0000 + g[6] * 0x1_0000 + g[7]) as u128
}

/// The groups before two colons in a row.
pub open spec fn head_groups(s: Seq<char>) -> Option<Seq<u64>> {
    if s.len() == 0 {
        Some(seq![])
    } else {
        groups(text::split(s, ':'))
    }
}

/// The groups after two colons in a row.
pub open spec fn tail_groups(s: Seq<char>) -> Option<Seq<u64>> {
    if s.len() == 0 {
        Some(seq![])
    } else {
        closing_groups(text::split(s, ':'))
    }
}

/// An IPv6 address: eight groups with colons between them, where two colons in
/// a row, once, stand for one or more groups of zero, and where an IPv4 address
/// may take the place of the last two groups.
pub open spec fn ipv6(s: Seq<char>) -> Option<u128> {
    let i = gap(s);
    if i < s.len() {
        let head = head_groups(s.take(i));
        let tail = tail_groups(s.skip(i + 2));
        if head is Some && tail is Some && head->0.len() + tail->0.len() <= 7 {
            Some(
                eight_groups(
                    head->0 + Seq::new(
                        (8 - head->0.len() - tail->0.len()) as nat,
                        |j: int| 0u64,
                    ) + tail->0,
                ),
            )
        } else {
            None
        }
    } else {
        let all = closing_groups(text::split(s, ':'));
        if all is Some && all->0.len() == 8 {
            Some(eight_groups(all->0))
        } else {
            None
        }
    }
}

/// A port: one or more decimal digits.
pub open spec fn port(s: Seq<char>) -> Option<u64> {
    text::number(s, 10, 65535)
}

/// An IPv4 address, a colon and a port.
pub open spec fn socket_v4(s: Seq<char>) -> Option<Endpoint> {
    let parts = text::split(s, ':');
    if parts.len() == 2 && ipv4(parts[0]) is Some && port(parts[1]) is Some {
        Some(
            Endpoint { host: Host::V4(ipv4(parts[0])->0), scope: 0, port: port(parts[1])->0 as u16 },
        )
    } else {
        None
    }
}

/// An IPv6 address, and after a percent sign the number of its scope, if any.
pub open spec fn scoped_v6(s: Seq<char>) -> Option<(u128, u32)> {
    let i = text::first_index(s, '%');
    if i < s.len() {
        let scope = text::number(s.skip(i + 1), 10, 0xffff_ffff);
        if ipv6(s.take(i)) is Some && scope is Some {
            Some((ipv6(s.take(i))->0, scope->0 as u32))
        } else {
            None
        }
    } else if ipv6(s) is Some {
        Some((ipv6(s)->0, 0u32))
    } else {
        None
    }
}

/// An IPv6 address in brackets, a colon and a port.
pub open spec fn socket_v6(s: Seq<char>) -> Option<Endpoint> {
    let close = text::first_index(s, ']');
    if s.len() > 0 && s.first() == '[' && close + 1 < s.len() && s[close + 1] == ':' {
        match (scoped_v6(s.subrange(1, close)), port(s.skip(close + 2))) {
            (Some((number, scope)), Some(port)) => Some(
                Endpoint { host: Host::V6(number), scope, port: port as u16 },
            ),
            _ => None,
        }
    } else {
        None
    }
}

/// The endpoint that an address in text form stands for: an address with a
/// port, or an address alone, with the default port.
pub open spec fn endpoint(s: Seq<char>) -> Option<Endpoint> {
    if socket_v4(s) is Some {
        socket_v4(s)
    } else if socket_v6(s) is Some {
        socket_v6(s)
    } else if ipv4(s) is Some {
        Some(Endpoint { host: Host::V4(ipv4(s)->0), scope: 0, port: DEFAULT_PORT })
    } else if ipv6(s) is Some {
        Some(Endpoint { host: Host::V6(ipv6(s)->0), scope: 0, port: DEFAULT_PORT })
    } else {
        None
    }
}

/// An endpoint that was read has a scope only with an IPv6 address.
pub proof fn law_endpoints_are_wf(s: Seq<char>)
    ensures
        endpoint(s) is Some ==> endpoint(s)->0.wf(),
{
}

fn parse_octet(s: &[char]) -> (parsed: Option<u64>)
    ensures
        parsed == octet(s@),
        parsed is Some ==> parsed->0 <= 255,
{
    if s.len() <= 3 && (s.len() <= 1 || s[0] != '0') {
        text::parse_number(s, 10, 255)
    } else {
        None
    }
}

/// Reads an IPv4 address.
pub fn parse_ipv4(s: &[char]) -> (parsed: Option<u32>)
    ensures
        parsed == ipv4(s@),
{
    let parts = text::split_at_char(s, '.');
    let ghost views = text::slices(parts@);
    if parts.len() != 4 {
        return None;
    }
    assert(views[0] == parts@[0]@ && views[1] == parts@[1]@ && views[2] == parts@[2]@ && views[3]
        == parts@[3]@);
    match (
        parse_octet(parts[0]),
        parse_octet(parts[1]),
        parse_octet(parts[2]),
        parse_octet(parts[3]),
    ) {
        (Some(a), Some(b), Some(c), Some(d)) => {
            Some((a * 0x100_0000 + b * 0x1_0000 + c * 0x100 + d) as u32)
        },
        _ => None,
    }
}

fn parse_group(s: &[char]) -> (parsed: Option<u64>)
    ensures
        parsed == group(s@),
        parsed is Some ==> parsed->0 <= 0xffff,
{
    if s.len() <= 4 {
        text::parse_number(s, 16, 0xffff)
    } else {
        None
    }
}

proof fn lemma_groups_prefix(parts: Seq<Seq<char>>, n: int)
    requires
        0 <= n <= parts.len(),
        groups(parts.take(n)) is None,
    ensures
        groups(parts) is None,
    decreases parts.len(),
{
    if n == parts.len() {
        assert(parts.take(n) =~= parts);
    } else {
        assert(parts.drop_last().take(n) =~= parts.take(n));
        lemma_groups_prefix(parts.drop_last(), n);
    }
}

/// Reads the first `count` of the given texts as groups.
fn parse_groups(parts: &Vec<&[char]>, count: usize) -> (parsed: Option<Vec<u64>>)
    requires
        count <= parts.len(),
    ensures
        match parsed {
            Some(list) => groups(text::slices(parts@).take(count as int)) == Some(list@) && (
            forall|i: int| 0 <= i < list.len() ==> list[i] <= 0xffff),
            None => groups(text::slices(parts@).take(count as int)) is None,
        },
{
    let ghost views = text::slices(parts@);
    let mut list: Vec<u64> = Vec::new();
    assert(list@ =~= seq![]);
    for i in 0..count
        invariant
            views == text::slices(parts@),
            count <= parts.len(),
            groups(views.take(i as int)) == Some(list@),
            forall|j: int| 0 <= j < list.len() ==> list[j] <= 0xffff,
    {
        assert(views.take(i + 1).drop_last() =~= views.take(i as int));
        assert(views.take(i + 1).last() == parts@[i as int]@);
        match parse_group(parts[i]) {
            Some(g) => {
                list.push(g);
            },
            None => {
                proof {
                    assert(views.take(count as int).take(i + 1) =~= views.take(i + 1));
                    lemma_groups_prefix(views.take(count as int), i + 1);
                }
                return None;
            },
        }
    }
    Some(list)
}

fn parse_closing_groups(parts: &Vec<&[char]>) -> (parsed: Option<Vec<u64>>)
    requires
        parts.len() > 0,
    ensures
        match parsed {
            Some(list) => closing_groups(text::slices(parts@)) == Some(list@) && (forall|i: int|
                0 <= i < list.len() ==> list[i] <= 0xffff),
            None => closing_groups(text::slices(parts@)) is None,
        },
{
    let ghost views = text::slices(parts@);
    let last = parts.len() - 1;
    assert(views.last() == parts@[last as int]@);
    match parse_ipv4(parts[last]) {
        Some(low) => {
            assert(views.take(last as int) =~= views.drop_last());
            match parse_groups(parts, last) {
                Some(mut list) => {
                    list.push((low / 0x1_0000) as u64);
                    list.push((low % 0x1_0000) as u64);
                    Some(list)
                },
                None => None,
            }
        },
        None => {
            assert(views.take(views.len() as int) =~= views);
            parse_groups(parts, parts.len())
        },
    }
}

fn find_gap(s: &[char]) -> (index: usize)
    ensures
        index == gap(s@),
        index <= s.len(),
        index < s.len() ==> index + 2 <= s.len(),
{
    let mut i: usize = 0;
    assert(s@.skip(0) =~= s@);
    while s.len() - i >= 2 && !(s[i] == ':' && s[i + 1] == ':')
        invariant
            i <= s.len(),
            gap(s@) == i + gap(s@.skip(i as int)),
        decreases s.len() - i,
    {
        assert(s@.skip(i as int).drop_first() =~= s@.skip(i + 1));
        i += 1;
    }
    if s.len() - i < 2 {
        s.len()
    } else {
        i
    }
}

fn sum_groups(g: &Vec<u64>) -> (number: u128)
    requires
        g.len() == 8,
        forall|i: int| 0 <= i < g.len() ==> g[i] <= 0xffff,
    ensures
        number == eight_groups(g@),
{
    (g[0] as u128) * 0x1_0000_0000_0000_0000_0000_0000_0000 + (g[1] as u128)
        * 0x1_0000_0000_0000_0000_0000_0000 + (g[2] as u128) * 0x1_0000_0000_0000_0000_0000 + (
    g[3] as u128) * 0x1_0000_0000_0000_0000 + (g[4] as u128) * 0x1_0000_0000_0000 + (g[5] as u128)
        * 0x1_0000_0000 + (g[6] as u128) * 0x1_0000 + (g[7] as u128)
}

fn parse_head_groups(s: &[char]) -> (parsed: Option<Vec<u64>>)
    ensures
        match parsed {
            Some(list) => head_groups(s@) == Some(list@) && (forall|i: int|
                0 <= i < list.len() ==> list[i] <= 0xffff),
            None => head_groups(s@) is None,
        },
{
    if s.len() == 0 {
        let list: Vec<u64> = Vec::new();
        assert(list@ =~= seq![]);
        return Some(list);
    }
    let parts = text::split_at_char(s, ':');
    let ghost views = text::slices(parts@);
    assert(views.take(views.len() as int) =~= views);
    parse_groups(&parts, parts.len())
}

fn parse_tail_groups(s: &[char]) -> (parsed: Option<Vec<u64>>)
    ensures
        match parsed {
            Some(list) => tail_groups(s@) == Some(list@) && (forall|i: int|
                0 <= i < list.len() ==> list[i] <= 0xffff),
            None => tail_groups(s@) is None,
        },
{
    if s.len() == 0 {
        let list: Vec<u64> = Vec::new();
        assert(list@ =~= seq![]);
        return Some(list);
    }
    let parts = text::split_at_char(s, ':');
    parse_closing_groups(&parts)
}

/// Reads an IPv6 address.
pub fn parse_ipv6(s: &[char]) -> (parsed: Option<u128>)
    ensures
        parsed == ipv6(s@),
{
    let i = find_gap(s);
    if i < s.len() {
        assert(s@.subrange(0, i as int) =~= s@.take(i as int));
        assert(s@.subrange(i + 2, s.len() as int) =~= s@.skip(i + 2));
        match (parse_head_groups(&s[0..i]), parse_tail_groups(&s[i + 2..s.len()])) {
            (Some(head), Some(tail)) => {
                if head.len() > 7 || tail.len() > 7 - head.len() {
                    return None;
                }
                let mut all = head;
                let missing = 8 - all.len() - tail.len();
                for j in 0..missing
                    invariant
                        all@ == head@ + Seq::new(j as nat, |k: int| 0u64),
                        forall|k: int| 0 <= k < all.len() ==> all[k] <= 0xffff,
                {
                    all.push(0);
                    assert(all@ =~= head@ + Seq::new((j + 1) as nat, |k: int| 0u64));
                }
                let ghost filled = all@;
                for j in 0..tail.len()
                    invariant
                        all@ == filled + tail@.take(j as int),
                        forall|k: int| 0 <= k < all.len() ==> all[k] <= 0xffff,
                        forall|k: int| 0 <= k < tail.len() ==> tail[k] <= 0xffff,
                {
                    all.push(tail[j]);
                    assert(all@ =~= filled + tail@.take(j + 1));
                }
                assert(all@ =~= head@ + Seq::new(missing as nat, |k: int| 0u64) + tail@);
                Some(sum_groups(&all))
            },
            _ => None,
        }
    } else {
        let parts = text::split_at_char(s, ':');
        match parse_closing_groups(&parts) {
            Some(all) => {
                if all.len() == 8 {
                    Some(sum_groups(&all))
                } else {
                    None
                }
            },
            None => None,
        }
    }
}

fn parse_socket_v4(s: &[char]) -> (parsed: Option<Endpoint>)
    ensures
        parsed == socket_v4(s@),
{
    let parts = text::split_at_char(s, ':');
    let ghost views = text::slices(parts@);
    if parts.len() != 2 {
        return None;
    }
    assert(views[0] == parts@[0]@ && views[1] == parts@[1]@);
    match (parse_ipv4(parts[0]), text::parse_number(parts[1], 10, 65535)) {
        (Some(number), Some(port)) => Some(
            Endpoint { host: Host::V4(number), scope: 0, port: port as u16 },
        ),
        _ => None,
    }
}

fn parse_scoped_v6(s: &[char]) -> (parsed: Option<(u128, u32)>)
    ensures
        parsed == scoped_v6(s@),
{
    let i = text::find(s, '%');
    if i < s.len() {
        assert(s@.subrange(0, i as int) =~= s@.take(i as int));
        assert(s@.subrange(i + 1, s.len() as int) =~= s@.skip(i + 1));
        match (
            parse_ipv6(&s[0..i]),
            text::parse_number(&s[i + 1..s.len()], 10, 0xffff_ffff),
        ) {
            (Some(number), Some(scope)) => Some((number, scope as u32)),
            _ => None,
        }
    } else {
        match parse_ipv6(s) {
            Some(number) => Some((number, 0u32)),
            None => None,
        }
    }
}

fn parse_socket_v6(s: &[char]) -> (parsed: Option<Endpoint>)
    ensures
        parsed == socket_v6(s@),
{
    let close = text::find(s, ']');
    proof {
        text::lemma_first_index(s@, ']');
    }
    if s.len() > 0 && s[0] == '[' && close < s.len() - 1 && s[close + 1] == ':' {
        assert(s@.subrange(close + 2, s.len() as int) =~= s@.skip(close + 2));
        match (
            parse_scoped_v6(&s[1..close]),
            text::parse_number(&s[close + 2..s.len()], 10, 65535),
        ) {
            (Some((number, scope)), Some(port)) => Some(
                Endpoint { host: Host::V6(number), scope, port: port as u16 },
            ),
            _ => None,
        }
    } else {
        None
    }
}

/// Reads an address with a port, or an address alone, which gets the default
/// port.
pub fn parse_endpoint(s: &[char]) -> (parsed: Option<Endpoint>)
    ensures
        parsed == endpoint(s@),
{
    match parse_socket_v4(s) {
        Some(found) => {
            return Some(found);
        },
        None => {},
    }
    match parse_socket_v6(s) {
        Some(found) => {
            return Some(found);
        },
        None => {},
    }
    match parse_ipv4(s) {
        Some(number) => {
            return Some(Endpoint { host: Host::V4(number), scope: 0, port: DEFAULT_PORT });
        },
        None => {},
    }
    match parse_ipv6(s) {
        Some(number) => Some(Endpoint { host: Host::V6(number), scope: 0, port: DEFAULT_PORT }),
        None => None,
    }
}

/// The address to bind a datagram socket to before it is connected to the
/// endpoint: the unspecified address of the same family, with any port.
pub fn bind_address(endpoint: &Endpoint) -> (address: &'static str)
    ensures
        address@ == (if endpoint.host is V4 {
            "0.0.0.0:0"@
        } else {
            "[::]:0"@
        }),
        self::endpoint(address@) == Some(
            Endpoint {
                host: if endpoint.host is V4 {
                    Host::V4(0)
                } else {
                    Host::V6(0)
                },
                scope: 0,
                port: 0,
            },
        ),
{
    proof {
        address_text::lemma_bind_addresses();
    }
    match endpoint.host {
        Host::V4(_) => "0.0.0.0:0",
        Host::V6(_) => "[::]:0",
    }
}

} // verus!
