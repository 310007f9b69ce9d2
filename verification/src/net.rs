//! Addresses as plain numbers, and the textual form `host:port` in which
//! configuration and lookup tables name an endpoint.

pub mod round_trip;

use vstd::prelude::*;

verus! {

/// An IP address, held as the number that its bytes spell in network order.
#[derive(Clone, Copy, Debug, PartialEq, Eq, Hash, Structural)]
pub enum IpAddress {
    V4(u32),
    V6(u128),
}

/// The address of a client or of an upstream endpoint.
#[derive(Clone, Copy, Debug, PartialEq, Eq, Hash, Structural)]
pub struct EndpointAddress {
    pub ip: IpAddress,
    pub port: u16,
}

/// The number spelled by four bytes in network order.
pub open spec fn v4_bits(a: u8, b: u8, c: u8, d: u8) -> u32 {
    (a * 0x100_0000 + b * 0x1_0000 + c * 0x100 + d) as u32
}

impl IpAddress {
    /// The IPv4 address `a.b.c.d`.
    pub fn v4(a: u8, b: u8, c: u8, d: u8) -> (ip: IpAddress)
        ensures
            ip == IpAddress::V4(v4_bits(a, b, c, d)),
    {
        IpAddress::V4(
            (a as u32) * 0x100_0000 + (b as u32) * 0x1_0000 + (c as u32) * 0x100 + (d as u32),
        )
    }

    /// The IPv4 address that an IPv6 address embeds: the low 32 bits, where
    /// the 96 bits above them are all zero (`::a.b.c.d`) or spell `ffff`
    /// (`::ffff:a.b.c.d`, an IPv4-mapped address).
    pub open spec fn embedded_v4_spec(self) -> Option<u32> {
        match self {
            IpAddress::V4(_) => None,
            IpAddress::V6(bits) => if bits / 0x1_0000_0000 == 0 || bits / 0x1_0000_0000 == 0xffff {
                Some((bits % 0x1_0000_0000) as u32)
            } else {
                None
            },
        }
    }

    #[verifier::when_used_as_spec(embedded_v4_spec)]
    pub fn embedded_v4(self) -> (v4: Option<u32>)
        ensures
            v4 == self.embedded_v4_spec(),
    {
        match self {
            IpAddress::V4(_) => None,
            IpAddress::V6(bits) => {
                let high: u128 = bits / 0x1_0000_0000;
                if high == 0 || high == 0xffff {
                    Some((bits % 0x1_0000_0000) as u32)
                } else {
                    None
                }
            },
        }
    }
}

// ---------------------------------------------------------------------------
// The grammar of `host:port`
// ---------------------------------------------------------------------------

/// `b` is one of the bytes `0` to `9`.
pub open spec fn is_digit(b: u8) -> bool {
    48 <= b <= 57
}

/// The index of the first byte at or after `from` that is no digit.
pub open spec fn digits_end(s: Seq<u8>, from: int) -> int
    decreases s.len() - from,
{
    if 0 <= from < s.len() && is_digit(s[from]) {
        digits_end(s, from + 1)
    } else {
        from
    }
}

/// The number that the digits `s[from..to]` spell in base ten.
pub open spec fn decimal(s: Seq<u8>, from: int, to: int) -> nat
    decreases to - from,
{
    if to <= from {
        0
    } else {
        decimal(s, from, to - 1) * 10 + (s[to - 1] - 48) as nat
    }
}

/// One part of a dotted quad that starts at `from`: one to three digits, no
/// `0` in front of another digit, at most 255. Gives the part's value and
/// the index behind it.
pub open spec fn octet_at(s: Seq<u8>, from: int) -> Option<(u8, int)> {
    let end = digits_end(s, from);
    if 0 <= from < end && end - from <= 3 && (end - from == 1 || s[from] != 48) && decimal(
        s,
        from,
        end,
    ) <= 255 {
        Some((decimal(s, from, end) as u8, end))
    } else {
        None
    }
}

/// The byte at `at` is `b`.
pub open spec fn byte_is(s: Seq<u8>, at: int, b: u8) -> bool {
    0 <= at < s.len() && s[at] == b
}

/// A part of a dotted quad that follows a `.` at `at`.
pub open spec fn dot_octet_at(s: Seq<u8>, at: int) -> Option<(u8, int)> {
    if byte_is(s, at, 46) {
        octet_at(s, at + 1)
    } else {
        None
    }
}

/// A dotted quad `a.b.c.d` that starts at `from`: its address and the index
/// behind it.
pub open spec fn ipv4_at(s: Seq<u8>, from: int) -> Option<(u32, int)> {
    match octet_at(s, from) {
        Some((a, end_a)) => match dot_octet_at(s, end_a) {
            Some((b, end_b)) => match dot_octet_at(s, end_b) {
                Some((c, end_c)) => match dot_octet_at(s, end_c) {
                    Some((d, end_d)) => Some((v4_bits(a, b, c, d), end_d)),
                    None => None,
                },
                None => None,
            },
            None => None,
        },
        None => None,
    }
}

/// A port that starts at `from` and ends the text: one or more digits that
/// spell at most 65535. Zeros in front are accepted.
pub open spec fn port_at(s: Seq<u8>, from: int) -> Option<u16> {
    let end = digits_end(s, from);
    if 0 <= from < end && end == s.len() && decimal(s, from, end) <= 65535 {
        Some(decimal(s, from, end) as u16)
    } else {
        None
    }
}

/// The address that the bytes `s` spell as a dotted quad, `:` and a port.
pub open spec fn ipv4_socket(s: Seq<u8>) -> Option<EndpointAddress> {
    match ipv4_at(s, 0) {
        Some((bits, end)) => if byte_is(s, end, 58) {
            match port_at(s, end + 1) {
                Some(port) => Some(EndpointAddress { ip: IpAddress::V4(bits), port }),
                None => None,
            }
        } else {
            None
        },
        None => None,
    }
}

/// `b` is a digit of base 16, in either case.
pub open spec fn is_hex_digit(b: u8) -> bool {
    is_digit(b) || 97 <= b <= 102 || 65 <= b <= 70
}

/// The value of a digit of base 16.
pub open spec fn hex_digit_value(b: u8) -> nat {
    if is_digit(b) {
        (b - 48) as nat
    } else if 97 <= b <= 102 {
        (b - 87) as nat
    } else {
        (b - 55) as nat
    }
}

/// The index of the first byte at or after `from` that is no digit of base
/// 16.
pub open spec fn hex_end(s: Seq<u8>, from: int) -> int
    decreases s.len() - from,
{
    if 0 <= from < s.len() && is_hex_digit(s[from]) {
        hex_end(s, from + 1)
    } else {
        from
    }
}

/// The number that the digits `s[from..to]` spell in base 16.
pub open spec fn hex_number(s: Seq<u8>, from: int, to: int) -> nat
    decreases to - from,
{
    if to <= from {
        0
    } else {
        hex_number(s, from, to - 1) * 16 + hex_digit_value(s[to - 1])
    }
}

/// One group of an IPv6 address that starts at `from`: one to four digits
/// of base 16. Gives the group's value and the index behind it.
pub open spec fn group_at(s: Seq<u8>, from: int) -> Option<(u16, int)> {
    let end = hex_end(s, from);
    if 0 <= from < end && end - from <= 4 {
        Some((hex_number(s, from, end) as u16, end))
    } else {
        None
    }
}

/// What reading a run of groups gives.
pub struct GroupsRead {
    /// The groups, in their order.
    pub groups: Seq<u16>,
    /// The index behind the last of them.
    pub end: int,
    /// Whether the last two were written as a dotted quad.
    pub dotted: bool,
}

/// Where the next group starts: at `at` for the first of a run, behind a
/// `:` at `at` for any other.
pub open spec fn group_start(s: Seq<u8>, at: int, first: bool) -> Option<int> {
    if first {
        Some(at)
    } else if byte_is(s, at, 58) {
        Some(at + 1)
    } else {
        None
    }
}

/// Reads groups with `:` between them from `at` on, after the groups
/// `read`, until there are `limit` of them or the next one is missing.
/// Where room for two groups is left, a dotted quad may stand for them, and
/// the run ends with it.
pub open spec fn groups_from(s: Seq<u8>, at: int, limit: nat, read: Seq<u16>) -> GroupsRead
    decreases limit - read.len(),
{
    let stop = GroupsRead { groups: read, end: at, dotted: false };
    if read.len() >= limit {
        stop
    } else {
        match group_start(s, at, read.len() == 0) {
            None => stop,
            Some(start) => if read.len() + 1 < limit && ipv4_at(s, start) is Some {
                let quad = ipv4_at(s, start)->0;
                GroupsRead {
                    groups: read.push((quad.0 / 0x1_0000) as u16).push((quad.0 % 0x1_0000) as u16),
                    end: quad.1,
                    dotted: true,
                }
            } else {
                match group_at(s, start) {
                    Some((group, end)) => groups_from(s, end, limit, read.push(group)),
                    None => stop,
                }
            },
        }
    }
}

/// The number that groups spell, 16 bits each, the first on top.
pub open spec fn groups_value(groups: Seq<u16>) -> nat
    decreases groups.len(),
{
    if groups.len() == 0 {
        0
    } else {
        groups_value(groups.drop_last()) * 0x1_0000 + groups.last() as nat
    }
}

/// `count` groups of zero.
pub open spec fn zero_groups(count: int) -> Seq<u16> {
    Seq::new(
        if count > 0 {
            count as nat
        } else {
            0
        },
        |i: int| 0u16,
    )
}

/// An IPv6 address that starts at `from`: eight groups, or fewer with one
/// `::` that stands for the groups of zero that are missing, at least one.
/// A dotted quad may stand for the last two groups, but not before the
/// `::`. Gives the address and the index behind it.
pub open spec fn ipv6_at(s: Seq<u8>, from: int) -> Option<(u128, int)> {
    let head = groups_from(s, from, 8, Seq::empty());
    if head.groups.len() == 8 {
        Some((groups_value(head.groups) as u128, head.end))
    } else if head.dotted || !byte_is(s, head.end, 58) || !byte_is(s, head.end + 1, 58) {
        None
    } else {
        let tail = groups_from(s, head.end + 2, (7 - head.groups.len()) as nat, Seq::empty());
        Some(
            (
                groups_value(
                    head.groups + zero_groups(8 - head.groups.len() - tail.groups.len())
                        + tail.groups,
                ) as u128,
                tail.end,
            ),
        )
    }
}

/// The index behind a scope at `at`: `%` and one or more digits that
/// spell at most 4294967295. Without a scope, `at` itself.
pub open spec fn scope_end(s: Seq<u8>, at: int) -> int {
    let end = digits_end(s, at + 1);
    if byte_is(s, at, 37) && at + 1 < end && decimal(s, at + 1, end) <= 0xffff_ffff {
        end
    } else {
        at
    }
}

/// The address that the bytes `s` spell as an IPv6 address in square
/// brackets, `:` and a port. A scope behind the address is read and
/// dropped.
pub open spec fn ipv6_socket(s: Seq<u8>) -> Option<EndpointAddress> {
    if !byte_is(s, 0, 91) {
        None
    } else {
        match ipv6_at(s, 1) {
            Some((bits, end)) => {
                let close = scope_end(s, end);
                if byte_is(s, close, 93) && byte_is(s, close + 1, 58) {
                    match port_at(s, close + 2) {
                        Some(port) => Some(EndpointAddress { ip: IpAddress::V6(bits), port }),
                        None => None,
                    }
                } else {
                    None
                }
            },
            None => None,
        }
    }
}

/// The address that the bytes `s` spell.
pub open spec fn socket_address(s: Seq<u8>) -> Option<EndpointAddress> {
    match ipv4_socket(s) {
        Some(address) => Some(address),
        None => ipv6_socket(s),
    }
}

/// The bytes of a text whose characters are all ASCII.
pub open spec fn ascii_bytes(text: Seq<char>) -> Seq<u8> {
    Seq::new(text.len(), |i: int| text[i] as u8)
}

/// The address that a text spells, if it spells one.
pub open spec fn parsed_address(text: Seq<char>) -> Option<EndpointAddress> {
    if vstd::utf8::is_ascii_chars(text) {
        socket_address(ascii_bytes(text))
    } else {
        None
    }
}

/// Reads the digits that start at `from`. Gives the index behind them and
/// the number they spell, unless that number is above `limit`.
fn scan_number(s: &[u8], from: usize, limit: u64) -> (r: (usize, Option<u64>))
    requires
        from <= s@.len(),
        limit <= 0xffff_ffff,
    ensures
        r.0 == digits_end(s@, from as int),
        from <= r.0 <= s@.len(),
        r.1 == if decimal(s@, from as int, r.0 as int) <= limit {
            Some(decimal(s@, from as int, r.0 as int) as u64)
        } else {
            None
        },
{
    let mut at: usize = from;
    let mut value: Option<u64> = Some(0);
    while at < s.len() && s[at] >= 48 && s[at] <= 57
        invariant
            from <= at <= s@.len(),
            limit <= 0xffff_ffff,
            digits_end(s@, from as int) == digits_end(s@, at as int),
            value == if decimal(s@, from as int, at as int) <= limit {
                Some(decimal(s@, from as int, at as int) as u64)
            } else {
                None
            },
        decreases s@.len() - at,
    {
        let digit: u64 = (s[at] - 48) as u64;
        value =
        match value {
            Some(v) => {
                let next: u64 = v * 10 + digit;
                if next <= limit {
                    Some(next)
                } else {
                    None
                }
            },
            None => None,
        };
        at = at + 1;
    }
    (at, value)
}

/// Reads one part of a dotted quad at `from`.
fn scan_octet(s: &[u8], from: usize) -> (r: Option<(u8, usize)>)
    requires
        from <= s@.len(),
    ensures
        match r {
            Some((v, end)) => octet_at(s@, from as int) == Some((v, end as int)) && end <= s@.len(),
            None => octet_at(s@, from as int) is None,
        },
{
    let (end, value) = scan_number(s, from, 255);
    if end == from || end - from > 3 {
        return None;
    }
    if end - from > 1 && s[from] == 48 {
        return None;
    }
    match value {
        Some(v) => Some((v as u8, end)),
        None => None,
    }
}

/// Reads a `.` at `at` and the part of a dotted quad behind it.
fn scan_dot_octet(s: &[u8], at: usize) -> (r: Option<(u8, usize)>)
    requires
        at <= s@.len(),
    ensures
        match r {
            Some((v, end)) => dot_octet_at(s@, at as int) == Some((v, end as int)) && end
                <= s@.len(),
            None => dot_octet_at(s@, at as int) is None,
        },
{
    if at < s.len() && s[at] == 46 {
        scan_octet(s, at + 1)
    } else {
        None
    }
}

/// Reads a dotted quad at `from`.
fn scan_ipv4(s: &[u8], from: usize) -> (r: Option<(u32, usize)>)
    requires
        from <= s@.len(),
    ensures
        match r {
            Some((bits, end)) => ipv4_at(s@, from as int) == Some((bits, end as int)) && end
                <= s@.len(),
            None => ipv4_at(s@, from as int) is None,
        },
{
    let (a, end_a) = match scan_octet(s, from) {
        Some(found) => found,
        None => { return None; },
    };
    let (b, end_b) = match scan_dot_octet(s, end_a) {
        Some(found) => found,
        None => { return None; },
    };
    let (c, end_c) = match scan_dot_octet(s, end_b) {
        Some(found) => found,
        None => { return None; },
    };
    let (d, end_d) = match scan_dot_octet(s, end_c) {
        Some(found) => found,
        None => { return None; },
    };
    let bits: u32 = (a as u32) * 0x100_0000 + (b as u32) * 0x1_0000 + (c as u32) * 0x100
        + (d as u32);
    Some((bits, end_d))
}

/// Reads a port at `from` that ends the text.
fn scan_port(s: &[u8], from: usize) -> (r: Option<u16>)
    requires
        from <= s@.len(),
    ensures
        r == port_at(s@, from as int),
{
    let (end, value) = scan_number(s, from, 65535);
    if end == from || end != s.len() {
        return None;
    }
    match value {
        Some(port) => Some(port as u16),
        None => None,
    }
}

/// Reads a dotted quad, `:` and a port.
fn scan_ipv4_socket(s: &[u8]) -> (r: Option<EndpointAddress>)
    ensures
        r == ipv4_socket(s@),
{
    let (bits, end) = match scan_ipv4(s, 0) {
        Some(found) => found,
        None => { return None; },
    };
    if !(end < s.len() && s[end] == 58) {
        return None;
    }
    match scan_port(s, end + 1) {
        Some(port) => Some(EndpointAddress { ip: IpAddress::V4(bits), port }),
        None => None,
    }
}

/// The value of a digit of base 16, if `b` is one.
fn hex_digit(b: u8) -> (r: Option<u32>)
    ensures
        match r {
            Some(v) => is_hex_digit(b) && v == hex_digit_value(b) && v < 16,
            None => !is_hex_digit(b),
        },
{
    if b >= 48 && b <= 57 {
        Some((b - 48) as u32)
    } else if b >= 97 && b <= 102 {
        Some((b - 87) as u32)
    } else if b >= 65 && b <= 70 {
        Some((b - 55) as u32)
    } else {
        None
    }
}

/// A run of digits ends at or behind its start.
proof fn lemma_hex_end_behind(s: Seq<u8>, from: int)
    ensures
        hex_end(s, from) >= from,
    decreases s.len() - from,
{
    if 0 <= from < s.len() && is_hex_digit(s[from]) {
        lemma_hex_end_behind(s, from + 1);
    }
}

/// Reads one group of an IPv6 address at `from`.
fn scan_group(s: &[u8], from: usize) -> (r: Option<(u16, usize)>)
    requires
        from <= s@.len(),
    ensures
        match r {
            Some((v, end)) => group_at(s@, from as int) == Some((v, end as int)) && end
                <= s@.len(),
            None => group_at(s@, from as int) is None,
        },
{
    let mut at: usize = from;
    let mut value: u32 = 0;
    while at < s.len() && at - from < 5
        invariant
            from <= at <= s@.len(),
            at - from <= 5,
            hex_end(s@, from as int) == hex_end(s@, at as int),
            value == hex_number(s@, from as int, at as int),
            at - from == 0 ==> value == 0,
            at - from == 1 ==> value < 0x10,
            at - from == 2 ==> value < 0x100,
            at - from == 3 ==> value < 0x1000,
            at - from == 4 ==> value < 0x1_0000,
            at - from == 5 ==> value < 0x10_0000,
        ensures
            from <= at <= s@.len(),
            at - from <= 5,
            hex_end(s@, from as int) == hex_end(s@, at as int),
            value == hex_number(s@, from as int, at as int),
            at - from <= 4 ==> value < 0x1_0000,
            at - from <= 4 ==> hex_end(s@, at as int) == at,
        decreases s@.len() - at,
    {
        match hex_digit(s[at]) {
            Some(digit) => {
                value = value * 16 + digit;
                at = at + 1;
            },
            None => {
                break ;
            },
        }
    }
    proof {
        lemma_hex_end_behind(s@, at as int);
    }
    if at == from || at - from > 4 {
        return None;
    }
    Some((value as u16, at))
}

/// Reads a run of at most `limit` groups at `from`.
fn scan_groups(s: &[u8], from: usize, limit: usize) -> (r: (Vec<u16>, usize, bool))
    requires
        from <= s@.len(),
        limit <= 8,
    ensures
        groups_from(s@, from as int, limit as nat, Seq::empty()) == (GroupsRead {
            groups: r.0@,
            end: r.1 as int,
            dotted: r.2,
        }),
        r.1 <= s@.len(),
        r.0@.len() <= limit,
{
    let mut groups: Vec<u16> = Vec::new();
    let mut at: usize = from;
    while groups.len() < limit
        invariant
            at <= s@.len(),
            groups@.len() <= limit <= 8,
            groups_from(s@, from as int, limit as nat, Seq::empty()) == groups_from(
                s@,
                at as int,
                limit as nat,
                groups@,
            ),
        decreases limit - groups@.len(),
    {
        let start: usize = if groups.len() == 0 {
            at
        } else if at < s.len() && s[at] == 58 {
            at + 1
        } else {
            return (groups, at, false);
        };
        if groups.len() + 1 < limit {
            match scan_ipv4(s, start) {
                Some((bits, end)) => {
                    groups.push((bits / 0x1_0000) as u16);
                    groups.push((bits % 0x1_0000) as u16);
                    return (groups, end, true);
                },
                None => {},
            }
        }
        match scan_group(s, start) {
            Some((group, end)) => {
                groups.push(group);
                at = end;
            },
            None => {
                return (groups, at, false);
            },
        }
    }
    (groups, at, false)
}

/// The values of the places of the groups of an IPv6 address.
pub proof fn lemma_group_places()
    ensures
        group_place(0) == 1,
        group_place(1) == 0x1_0000,
        group_place(2) == 0x1_0000_0000,
        group_place(3) == 0x1_0000_0000_0000,
        group_place(4) == 0x1_0000_0000_0000_0000,
        group_place(5) == 0x1_0000_0000_0000_0000_0000,
        group_place(6) == 0x1_0000_0000_0000_0000_0000_0000,
        group_place(7) == 0x1_0000_0000_0000_0000_0000_0000_0000,
        group_place(8) == 0x1_0000_0000_0000_0000_0000_0000_0000_0000,
{
    reveal_with_fuel(group_place, 9);
}

/// The number that at most eight groups spell.
fn fold_groups(groups: &Vec<u16>) -> (value: u128)
    requires
        groups@.len() <= 8,
    ensures
        value == groups_value(groups@),
{
    let mut value: u128 = 0;
    let mut i: usize = 0;
    while i < groups.len()
        invariant
            i <= groups@.len() <= 8,
            value == groups_value(groups@.take(i as int)),
            value < group_place(i as nat),
        decreases groups@.len() - i,
    {
        proof {
            lemma_group_places();
            assert(groups@.take(i + 1).drop_last() =~= groups@.take(i as int));
        }
        value = value * 0x1_0000 + groups[i] as u128;
        i = i + 1;
    }
    proof {
        assert(groups@.take(i as int) =~= groups@);
    }
    value
}

/// Reads an IPv6 address at `from`.
fn scan_ipv6(s: &[u8], from: usize) -> (r: Option<(u128, usize)>)
    requires
        from <= s@.len(),
    ensures
        match r {
            Some((bits, end)) => ipv6_at(s@, from as int) == Some((bits, end as int)) && end
                <= s@.len(),
            None => ipv6_at(s@, from as int) is None,
        },
{
    let (mut groups, head_end, dotted) = scan_groups(s, from, 8);
    if groups.len() == 8 {
        return Some((fold_groups(&groups), head_end));
    }
    if dotted {
        return None;
    }
    if !(head_end < s.len() && s[head_end] == 58) {
        return None;
    }
    if !(head_end + 1 < s.len() && s[head_end + 1] == 58) {
        return None;
    }
    let (mut tail, tail_end, _) = scan_groups(s, head_end + 2, 7 - groups.len());
    let ghost head = groups@;
    let ghost missing = 8 - head.len() - tail@.len();
    let mut left: usize = 8 - groups.len() - tail.len();
    while left > 0
        invariant
            left <= missing,
            groups@ == head + zero_groups(missing - left),
            missing == 8 - head.len() - tail@.len(),
            head.len() + tail@.len() <= 7,
        decreases left,
    {
        groups.push(0);
        left = left - 1;
        proof {
            assert(groups@ =~= head + zero_groups(missing - left));
        }
    }
    let ghost tail_groups = tail@;
    groups.append(&mut tail);
    proof {
        assert(groups@ =~= head + zero_groups(missing) + tail_groups);
    }
    Some((fold_groups(&groups), tail_end))
}

/// Reads a scope at `at`, if one is there, and gives the index behind it.
fn scan_scope(s: &[u8], at: usize) -> (end: usize)
    requires
        at <= s@.len(),
    ensures
        end == scope_end(s@, at as int),
        at <= end <= s@.len(),
{
    if !(at < s.len() && s[at] == 37) {
        return at;
    }
    let (end, value) = scan_number(s, at + 1, 0xffff_ffff);
    if end == at + 1 || value.is_none() {
        return at;
    }
    end
}

/// Reads an IPv6 address in square brackets, `:` and a port.
fn scan_ipv6_socket(s: &[u8]) -> (r: Option<EndpointAddress>)
    ensures
        r == ipv6_socket(s@),
{
    if !(0 < s.len() && s[0] == 91) {
        return None;
    }
    let (bits, end) = match scan_ipv6(s, 1) {
        Some(found) => found,
        None => { return None; },
    };
    let close = scan_scope(s, end);
    if !(close < s.len() && s[close] == 93) {
        return None;
    }
    if !(close + 1 < s.len() && s[close + 1] == 58) {
        return None;
    }
    match scan_port(s, close + 2) {
        Some(port) => Some(EndpointAddress { ip: IpAddress::V6(bits), port }),
        None => None,
    }
}

/// Reads an address from the bytes of a text.
fn scan_socket_address(s: &[u8]) -> (r: Option<EndpointAddress>)
    ensures
        r == socket_address(s@),
{
    match scan_ipv4_socket(s) {
        Some(address) => Some(address),
        None => scan_ipv6_socket(s),
    }
}

impl EndpointAddress {
    pub fn new(ip: IpAddress, port: u16) -> (address: EndpointAddress)
        ensures
            address == (EndpointAddress { ip, port }),
    {
        EndpointAddress { ip, port }
    }

    /// Reads an address from its text: `a.b.c.d:port`, or an IPv6 address
    /// in square brackets, `:` and the port. Any other text, a host name
    /// among them, gives `None`.
    pub fn parse(text: &str) -> (address: Option<EndpointAddress>)
        ensures
            address == parsed_address(text@),
    {
        if !text.is_ascii() {
            return None;
        }
        let bytes = text.as_bytes();
        proof {
            vstd::string::is_ascii_spec_bytes(text);
        }
        scan_socket_address(bytes)
    }
}

// ---------------------------------------------------------------------------
// Addresses as text
// ---------------------------------------------------------------------------

/// The character for a digit below 16.
pub open spec fn digit_text(digit: nat) -> Seq<char> {
    if digit == 0 {
        "0"@
    } else if digit == 1 {
        "1"@
    } else if digit == 2 {
        "2"@
    } else if digit == 3 {
        "3"@
    } else if digit == 4 {
        "4"@
    } else if digit == 5 {
        "5"@
    } else if digit == 6 {
        "6"@
    } else if digit == 7 {
        "7"@
    } else if digit == 8 {
        "8"@
    } else if digit == 9 {
        "9"@
    } else if digit == 10 {
        "a"@
    } else if digit == 11 {
        "b"@
    } else if digit == 12 {
        "c"@
    } else if digit == 13 {
        "d"@
    } else if digit == 14 {
        "e"@
    } else {
        "f"@
    }
}

/// A number in base ten, without zeros in front.
pub open spec fn decimal_text(n: nat) -> Seq<char>
    decreases n,
{
    if n < 10 {
        digit_text(n)
    } else {
        decimal_text(n / 10) + digit_text(n % 10)
    }
}

/// A number in base 16, without zeros in front.
pub open spec fn hex_text(n: nat) -> Seq<char>
    decreases n,
{
    if n < 16 {
        digit_text(n)
    } else {
        hex_text(n / 16) + digit_text(n % 16)
    }
}

/// An IPv4 address as a dotted quad.
pub open spec fn ipv4_text(bits: u32) -> Seq<char> {
    decimal_text((bits / 0x100_0000) as nat) + "."@ + decimal_text(
        (bits / 0x1_0000 % 0x100) as nat,
    ) + "."@ + decimal_text((bits / 0x100 % 0x100) as nat) + "."@ + decimal_text(
        (bits % 0x100) as nat,
    )
}

/// The value of the place of the group that has `below` groups below it.
pub open spec fn group_place(below: nat) -> nat
    decreases below,
{
    if below == 0 {
        1
    } else {
        0x1_0000 * group_place((below - 1) as nat)
    }
}

/// The lowest `groups` groups of an IPv6 address, in base 16, with `:`
/// between them. No run of zeros is left out.
pub open spec fn groups_text(bits: u128, groups: nat) -> Seq<char>
    decreases groups,
{
    if groups == 0 {
        Seq::empty()
    } else {
        let group = hex_text(((bits as nat) / group_place((groups - 1) as nat) % 0x1_0000) as nat);
        if groups == 1 {
            group
        } else {
            group + ":"@ + groups_text(bits, (groups - 1) as nat)
        }
    }
}

impl EndpointAddress {
    /// The address as text: `a.b.c.d:port`, or, for an IPv6 address, its
    /// eight groups in square brackets, `:` and the port.
    pub open spec fn text(self) -> Seq<char> {
        match self.ip {
            IpAddress::V4(bits) => ipv4_text(bits) + ":"@ + decimal_text(self.port as nat),
            IpAddress::V6(bits) => "["@ + groups_text(bits, 8) + "]:"@ + decimal_text(
                self.port as nat,
            ),
        }
    }

    /// Writes the address as text. [`EndpointAddress::parse`] reads the
    /// same address back from it.
    pub fn to_string(&self) -> (text: String)
        ensures
            text@ == self.text(),
            parsed_address(text@) == Some(*self),
    {
        proof {
            crate::net::round_trip::lemma_text_is_read_back(*self);
        }
        let mut text = String::new();
        match self.ip {
            IpAddress::V4(bits) => {
                push_decimal(&mut text, bits / 0x100_0000);
                text.append(".");
                push_decimal(&mut text, bits / 0x1_0000 % 0x100);
                text.append(".");
                push_decimal(&mut text, bits / 0x100 % 0x100);
                text.append(".");
                push_decimal(&mut text, bits % 0x100);
                text.append(":");
                push_decimal(&mut text, self.port as u32);
                proof {
                    assert(text@ =~= self.text());
                }
            },
            IpAddress::V6(bits) => {
                text.append("[");
                push_groups(&mut text, bits);
                text.append("]:");
                push_decimal(&mut text, self.port as u32);
                proof {
                    assert(text@ =~= self.text());
                }
            },
        }
        text
    }
}

/// The character for a digit below 16.
fn digit_str(digit: u32) -> (text: &'static str)
    requires
        digit < 16,
    ensures
        text@ == digit_text(digit as nat),
{
    if digit == 0 {
        "0"
    } else if digit == 1 {
        "1"
    } else if digit == 2 {
        "2"
    } else if digit == 3 {
        "3"
    } else if digit == 4 {
        "4"
    } else if digit == 5 {
        "5"
    } else if digit == 6 {
        "6"
    } else if digit == 7 {
        "7"
    } else if digit == 8 {
        "8"
    } else if digit == 9 {
        "9"
    } else if digit == 10 {
        "a"
    } else if digit == 11 {
        "b"
    } else if digit == 12 {
        "c"
    } else if digit == 13 {
        "d"
    } else if digit == 14 {
        "e"
    } else {
        "f"
    }
}

/// Appends a number in base ten.
fn push_decimal(out: &mut String, n: u32)
    ensures
        final(out)@ == old(out)@ + decimal_text(n as nat),
    decreases n,
{
    if n >= 10 {
        push_decimal(out, n / 10);
    }
    out.append(digit_str(n % 10));
    proof {
        assert(out@ =~= old(out)@ + decimal_text(n as nat));
    }
}

/// Appends a number in base 16.
fn push_hex(out: &mut String, n: u32)
    ensures
        final(out)@ == old(out)@ + hex_text(n as nat),
    decreases n,
{
    if n >= 16 {
        push_hex(out, n / 16);
    }
    out.append(digit_str(n % 16));
    proof {
        assert(out@ =~= old(out)@ + hex_text(n as nat));
    }
}

/// Every place has a value of at least 1.
pub proof fn lemma_group_place_positive(below: nat)
    ensures
        group_place(below) >= 1,
    decreases below,
{
    if below > 0 {
        lemma_group_place_positive((below - 1) as nat);
    }
}

/// Appends the eight groups of an IPv6 address.
fn push_groups(out: &mut String, bits: u128)
    ensures
        final(out)@ == old(out)@ + groups_text(bits, 8),
{
    let mut left: usize = 8;
    let mut place: u128 = 0x1_0000_0000_0000_0000_0000_0000_0000;
    proof {
        reveal_with_fuel(group_place, 8);
    }
    while left > 0
        invariant
            left <= 8,
            left > 0 ==> place == group_place((left - 1) as nat),
            old(out)@ + groups_text(bits, 8) == out@ + groups_text(bits, left as nat),
        decreases left,
    {
        let ghost before = out@;
        proof {
            lemma_group_place_positive((left - 1) as nat);
        }
        push_hex(out, (bits / place % 0x1_0000) as u32);
        if left > 1 {
            out.append(":");
            proof {
                lemma_group_place_positive((left - 2) as nat);
            }
            place = place / 0x1_0000;
        }
        proof {
            assert(before + groups_text(bits, left as nat) =~= out@ + groups_text(
                bits,
                (left - 1) as nat,
            ));
        }
        left = left - 1;
    }
    proof {
        assert(out@ + groups_text(bits, 0) =~= out@);
    }
}

} // verus!
