//! What [`EndpointAddress::to_string`] writes, [`EndpointAddress::parse`]
//! reads back as the same address.

use crate::net::{
    ascii_bytes, byte_is, decimal, decimal_text, digit_text, digits_end, dot_octet_at, group_at,
    group_place, group_start, groups_from, groups_text, groups_value, hex_end, hex_number,
    hex_text, ipv4_at, ipv4_socket, ipv6_at, is_digit, is_hex_digit, lemma_group_place_positive,
    lemma_group_places, octet_at, parsed_address, port_at, scope_end, socket_address, v4_bits,
    EndpointAddress, GroupsRead, IpAddress,
};
use vstd::arithmetic::div_mod::{lemma_basic_div, lemma_div_denominator};
use vstd::prelude::*;

verus! {

/// The byte of a digit below 16: `0` to `9`, then `a` to `f`.
pub open spec fn digit_byte(digit: nat) -> u8 {
    if digit < 10 {
        (48 + digit) as u8
    } else {
        (87 + digit) as u8
    }
}

/// The text of a digit is the one character of its byte.
pub proof fn lemma_digit_text(digit: nat)
    requires
        digit < 16,
    ensures
        vstd::utf8::is_ascii_chars(digit_text(digit)),
        ascii_bytes(digit_text(digit)) == seq![digit_byte(digit)],
{
    reveal_strlit("0");
    reveal_strlit("1");
    reveal_strlit("2");
    reveal_strlit("3");
    reveal_strlit("4");
    reveal_strlit("5");
    reveal_strlit("6");
    reveal_strlit("7");
    reveal_strlit("8");
    reveal_strlit("9");
    reveal_strlit("a");
    reveal_strlit("b");
    reveal_strlit("c");
    reveal_strlit("d");
    reveal_strlit("e");
    reveal_strlit("f");
    assert(ascii_bytes(digit_text(digit)) =~= seq![digit_byte(digit)]);
}

/// The bytes of two texts in a row are the bytes of the one and of the
/// other in a row.
pub proof fn lemma_bytes_of_concat(a: Seq<char>, b: Seq<char>)
    ensures
        ascii_bytes(a + b) == ascii_bytes(a) + ascii_bytes(b),
        vstd::utf8::is_ascii_chars(a + b) <==> vstd::utf8::is_ascii_chars(a)
            && vstd::utf8::is_ascii_chars(b),
{
    assert(ascii_bytes(a + b) =~= ascii_bytes(a) + ascii_bytes(b));
    vstd::utf8::is_ascii_chars_concat(a + b, a, b);
}

/// The number that digits spell depends on those digits alone.
pub proof fn lemma_decimal_of_same_digits(s: Seq<u8>, from: int, t: Seq<u8>, start: int, len: int)
    requires
        0 <= from,
        0 <= start,
        0 <= len,
        from + len <= s.len(),
        start + len <= t.len(),
        s.subrange(from, from + len) == t.subrange(start, start + len),
    ensures
        decimal(s, from, from + len) == decimal(t, start, start + len),
    decreases len,
{
    if len > 0 {
        assert(s.subrange(from, from + len - 1) =~= s.subrange(from, from + len).take(len - 1));
        assert(t.subrange(start, start + len - 1) =~= t.subrange(start, start + len).take(
            len - 1,
        ));
        lemma_decimal_of_same_digits(s, from, t, start, len - 1);
        assert(s[from + len - 1] == s.subrange(from, from + len)[len - 1]);
        assert(t[start + len - 1] == t.subrange(start, start + len)[len - 1]);
    }
}

/// A run of digits that something else follows ends there.
pub proof fn lemma_digits_end_of_run(s: Seq<u8>, from: int, to: int)
    requires
        0 <= from <= to <= s.len(),
        forall|j: int| from <= j < to ==> is_digit(#[trigger] s[j]),
        to == s.len() || !is_digit(s[to]),
    ensures
        digits_end(s, from) == to,
    decreases to - from,
{
    if from < to {
        assert(is_digit(s[from]));
        lemma_digits_end_of_run(s, from + 1, to);
    }
}

/// The text of a number in base ten: digits only, as many as the number
/// needs, that spell the number.
pub proof fn lemma_decimal_text(n: nat)
    ensures
        vstd::utf8::is_ascii_chars(decimal_text(n)),
        ({
            let b = ascii_bytes(decimal_text(n));
            &&& b.len() >= 1
            &&& forall|i: int| 0 <= i < b.len() ==> is_digit(#[trigger] b[i])
            &&& decimal(b, 0, b.len() as int) == n
            &&& n < 10 ==> b.len() == 1
            &&& n >= 10 ==> b[0] != 48
            &&& n < 100 ==> b.len() <= 2
            &&& n < 1000 ==> b.len() <= 3
        }),
    decreases n,
{
    if n < 10 {
        lemma_digit_text(n);
        let b = ascii_bytes(decimal_text(n));
        assert(decimal(b, 0, 1) == n) by {
            reveal_with_fuel(decimal, 2);
        }
    } else {
        lemma_decimal_text(n / 10);
        lemma_digit_text(n % 10);
        lemma_bytes_of_concat(decimal_text(n / 10), digit_text(n % 10));
        let front = ascii_bytes(decimal_text(n / 10));
        let b = ascii_bytes(decimal_text(n));
        assert(b =~= front + seq![digit_byte(n % 10)]);
        assert forall|i: int| 0 <= i < b.len() implies is_digit(#[trigger] b[i]) by {
            if i < front.len() {
                assert(b[i] == front[i]);
            }
        }
        assert(b.subrange(0, front.len() as int) =~= front.subrange(0, front.len() as int));
        lemma_decimal_of_same_digits(b, 0, front, 0, front.len() as int);
        assert(b[0] == front[0]);
        if n / 10 < 10 {
            assert(front[0] == digit_byte(n / 10)) by {
                lemma_digit_text(n / 10);
            }
        }
    }
}

/// The bytes of a number in base ten stand in `s` from `from` on, and no
/// digit follows them.
pub open spec fn number_stands_at(s: Seq<u8>, from: int, n: nat) -> bool {
    let b = ascii_bytes(decimal_text(n));
    &&& 0 <= from
    &&& from + b.len() <= s.len()
    &&& s.subrange(from, from + b.len()) == b
    &&& (from + b.len() == s.len() || !is_digit(s[from + b.len()]))
}

/// A number in base ten that stands in a text, with no digit behind it,
/// is read as a whole.
pub proof fn lemma_number_in_text(s: Seq<u8>, from: int, n: nat)
    requires
        number_stands_at(s, from, n),
    ensures
        digits_end(s, from) == from + ascii_bytes(decimal_text(n)).len(),
        decimal(s, from, digits_end(s, from)) == n,
        from < digits_end(s, from),
        n >= 10 ==> s[from] != 48,
        n < 10 ==> digits_end(s, from) == from + 1,
        n < 1000 ==> digits_end(s, from) <= from + 3,
{
    lemma_decimal_text(n);
    let b = ascii_bytes(decimal_text(n));
    let to = from + b.len();
    assert forall|j: int| from <= j < to implies is_digit(#[trigger] s[j]) by {
        assert(s[j] == s.subrange(from, to)[j - from]);
        assert(is_digit(b[j - from]));
    }
    lemma_digits_end_of_run(s, from, to);
    assert(b.subrange(0, b.len() as int) =~= b);
    lemma_decimal_of_same_digits(s, from, b, 0, b.len() as int);
    assert(s[from] == s.subrange(from, to)[0]);
}

/// The four parts of an IPv4 address.
pub open spec fn octet(bits: u32, index: nat) -> nat {
    if index == 0 {
        (bits / 0x100_0000) as nat
    } else if index == 1 {
        (bits / 0x1_0000 % 0x100) as nat
    } else if index == 2 {
        (bits / 0x100 % 0x100) as nat
    } else {
        (bits % 0x100) as nat
    }
}

/// One part of a dotted quad that stands in a text, with no digit behind
/// it, is read as that part.
proof fn lemma_octet_in_text(s: Seq<u8>, from: int, n: nat)
    requires
        n <= 255,
        number_stands_at(s, from, n),
    ensures
        octet_at(s, from) == Some((n as u8, from + ascii_bytes(decimal_text(n)).len())),
{
    lemma_number_in_text(s, from, n);
}

/// The bytes of a number in base ten.
pub open spec fn decimal_bytes(n: nat) -> Seq<u8> {
    ascii_bytes(decimal_text(n))
}

/// A number that stands between two stretches of bytes stands at the
/// length of the first, where the second does not start with a digit.
proof fn lemma_stands_between(s: Seq<u8>, before: Seq<u8>, n: nat, after: Seq<u8>)
    requires
        s == before + decimal_bytes(n) + after,
        after.len() == 0 || !is_digit(after[0]),
    ensures
        number_stands_at(s, before.len() as int, n),
        s.len() == before.len() + decimal_bytes(n).len() + after.len(),
        after.len() > 0 ==> s[(before.len() + decimal_bytes(n).len()) as int] == after[0],
{
    let b = decimal_bytes(n);
    let from = before.len() as int;
    assert(s.subrange(from, from + b.len()) =~= b);
}

/// The bytes of a dotted quad, `:` and a port.
pub open spec fn quad_socket_bytes(a: nat, b: nat, c: nat, d: nat, port: nat) -> Seq<u8> {
    decimal_bytes(a) + seq![46u8] + decimal_bytes(b) + seq![46u8] + decimal_bytes(c) + seq![46u8]
        + decimal_bytes(d) + seq![58u8] + decimal_bytes(port)
}

/// Nine stretches of bytes in a row, cut before and behind each of the
/// five at odd places.
proof fn lemma_cut_of_nine(
    a: Seq<u8>,
    b: Seq<u8>,
    c: Seq<u8>,
    d: Seq<u8>,
    e: Seq<u8>,
    f: Seq<u8>,
    g: Seq<u8>,
    h: Seq<u8>,
    i: Seq<u8>,
)
    ensures
        ({
            let whole = a + b + c + d + e + f + g + h + i;
            &&& whole == Seq::<u8>::empty() + a + (b + c + d + e + f + g + h + i)
            &&& whole == (a + b) + c + (d + e + f + g + h + i)
            &&& whole == (a + b + c + d) + e + (f + g + h + i)
            &&& whole == (a + b + c + d + e + f) + g + (h + i)
            &&& whole == (a + b + c + d + e + f + g + h) + i + Seq::<u8>::empty()
        }),
{
    let whole = a + b + c + d + e + f + g + h + i;
    assert(whole =~= Seq::<u8>::empty() + a + (b + c + d + e + f + g + h + i));
    assert(whole =~= (a + b) + c + (d + e + f + g + h + i));
    assert(whole =~= (a + b + c + d) + e + (f + g + h + i));
    assert(whole =~= (a + b + c + d + e + f) + g + (h + i));
    assert(whole =~= (a + b + c + d + e + f + g + h) + i + Seq::<u8>::empty());
}

/// A part of a dotted quad that stands between two stretches of bytes is
/// read where it stands, and what follows it is the start of the second.
proof fn lemma_octet_between(s: Seq<u8>, before: Seq<u8>, n: nat, after: Seq<u8>, next: u8)
    requires
        n <= 255,
        s == before + decimal_bytes(n) + after,
        after.len() > 0,
        after[0] == next,
        !is_digit(next),
    ensures
        octet_at(s, before.len() as int) == Some(
            (n as u8, (before.len() + decimal_bytes(n).len()) as int),
        ),
        byte_is(s, (before.len() + decimal_bytes(n).len()) as int, next),
{
    lemma_stands_between(s, before, n, after);
    lemma_octet_in_text(s, before.len() as int, n);
}

/// A port that stands at the end of a stretch of bytes is read there.
proof fn lemma_port_at_end(s: Seq<u8>, before: Seq<u8>, port: nat)
    requires
        port <= 65535,
        s == before + decimal_bytes(port) + Seq::<u8>::empty(),
    ensures
        port_at(s, before.len() as int) == Some(port as u16),
{
    lemma_stands_between(s, before, port, Seq::empty());
    lemma_number_in_text(s, before.len() as int, port);
}

/// The bytes of a dotted quad, `:` and a port are read as the address of
/// those parts and that port.
proof fn lemma_quad_socket_is_read(a: nat, b: nat, c: nat, d: nat, port: nat)
    requires
        a <= 255,
        b <= 255,
        c <= 255,
        d <= 255,
        port <= 65535,
    ensures
        ipv4_socket(quad_socket_bytes(a, b, c, d, port)) == Some(
            EndpointAddress {
                ip: IpAddress::V4(v4_bits(a as u8, b as u8, c as u8, d as u8)),
                port: port as u16,
            },
        ),
{
    let s = quad_socket_bytes(a, b, c, d, port);
    let dot = seq![46u8];
    let colon = seq![58u8];
    let (ba, bb, bc, bd, bp) = (
        decimal_bytes(a),
        decimal_bytes(b),
        decimal_bytes(c),
        decimal_bytes(d),
        decimal_bytes(port),
    );
    let (la, lb, lc, ld) = (ba.len() as int, bb.len() as int, bc.len() as int, bd.len() as int);
    let pb: int = la + 1;
    let pc: int = pb + lb + 1;
    let pd: int = pc + lc + 1;
    let pp: int = pd + ld + 1;
    lemma_cut_of_nine(ba, dot, bb, dot, bc, dot, bd, colon, bp);
    lemma_octet_between(s, Seq::empty(), a, dot + bb + dot + bc + dot + bd + colon + bp, 46);
    lemma_octet_between(s, ba + dot, b, dot + bc + dot + bd + colon + bp, 46);
    lemma_octet_between(s, ba + dot + bb + dot, c, dot + bd + colon + bp, 46);
    lemma_octet_between(s, ba + dot + bb + dot + bc + dot, d, colon + bp, 58);
    lemma_port_at_end(s, ba + dot + bb + dot + bc + dot + bd + colon, port);
    let first = octet_at(s, 0);
    let second = dot_octet_at(s, la);
    let third = dot_octet_at(s, pb + lb);
    let fourth = dot_octet_at(s, pc + lc);
    assert(first == Some((a as u8, la)));
    assert(second == Some((b as u8, pb + lb)));
    assert(third == Some((c as u8, pc + lc)));
    assert(fourth == Some((d as u8, pd + ld)));
    assert(byte_is(s, pd + ld, 58));
    assert(port_at(s, pp) == Some(port as u16));
}

/// The four parts of an IPv4 address spell it.
proof fn lemma_octets_spell_bits(bits: u32)
    ensures
        octet(bits, 0) <= 255,
        octet(bits, 1) <= 255,
        octet(bits, 2) <= 255,
        octet(bits, 3) <= 255,
        v4_bits(
            octet(bits, 0) as u8,
            octet(bits, 1) as u8,
            octet(bits, 2) as u8,
            octet(bits, 3) as u8,
        ) == bits,
{
    let a = bits / 0x100_0000;
    let b = bits / 0x1_0000 % 0x100;
    let c = bits / 0x100 % 0x100;
    let d = bits % 0x100;
    assert(a <= 255 && b <= 255 && c <= 255 && d <= 255 && a * 0x100_0000 + b * 0x1_0000 + c
        * 0x100 + d == bits) by (bit_vector)
        requires
            a == bits / 0x100_0000,
            b == bits / 0x1_0000 % 0x100,
            c == bits / 0x100 % 0x100,
            d == bits % 0x100,
    ;
}

/// The text of an IPv4 address and a port has the bytes of a dotted quad,
/// `:` and a port.
proof fn lemma_ipv4_text_bytes(bits: u32, port: u16)
    ensures
        vstd::utf8::is_ascii_chars((EndpointAddress { ip: IpAddress::V4(bits), port }).text()),
        ascii_bytes((EndpointAddress { ip: IpAddress::V4(bits), port }).text())
            == quad_socket_bytes(
            octet(bits, 0),
            octet(bits, 1),
            octet(bits, 2),
            octet(bits, 3),
            port as nat,
        ),
{
    let a = decimal_text(octet(bits, 0));
    let b = decimal_text(octet(bits, 1));
    let c = decimal_text(octet(bits, 2));
    let d = decimal_text(octet(bits, 3));
    let p = decimal_text(port as nat);
    reveal_strlit(".");
    reveal_strlit(":");
    let dot = "."@;
    let colon = ":"@;
    assert(ascii_bytes(dot) =~= seq![46u8]);
    assert(ascii_bytes(colon) =~= seq![58u8]);
    lemma_decimal_text(octet(bits, 0));
    lemma_decimal_text(octet(bits, 1));
    lemma_decimal_text(octet(bits, 2));
    lemma_decimal_text(octet(bits, 3));
    lemma_decimal_text(port as nat);
    lemma_bytes_of_concat(a, dot);
    lemma_bytes_of_concat(a + dot, b);
    lemma_bytes_of_concat(a + dot + b, dot);
    lemma_bytes_of_concat(a + dot + b + dot, c);
    lemma_bytes_of_concat(a + dot + b + dot + c, dot);
    lemma_bytes_of_concat(a + dot + b + dot + c + dot, d);
    lemma_bytes_of_concat(a + dot + b + dot + c + dot + d, colon);
    lemma_bytes_of_concat(a + dot + b + dot + c + dot + d + colon, p);
}

/// A dotted quad, `:` and a port are read back as the address that they
/// were written for.
pub proof fn lemma_ipv4_text_is_read_back(bits: u32, port: u16)
    ensures
        parsed_address((EndpointAddress { ip: IpAddress::V4(bits), port }).text()) == Some(
            EndpointAddress { ip: IpAddress::V4(bits), port },
        ),
{
    lemma_ipv4_text_bytes(bits, port);
    lemma_octets_spell_bits(bits);
    lemma_quad_socket_is_read(
        octet(bits, 0),
        octet(bits, 1),
        octet(bits, 2),
        octet(bits, 3),
        port as nat,
    );
}

// ---------------------------------------------------------------------------
// IPv6
// ---------------------------------------------------------------------------

/// The bytes of a number in base 16.
pub open spec fn hex_bytes(n: nat) -> Seq<u8> {
    ascii_bytes(hex_text(n))
}

/// The number that digits of base 16 spell depends on those digits alone.
proof fn lemma_hex_number_of_same_digits(s: Seq<u8>, from: int, t: Seq<u8>, start: int, len: int)
    requires
        0 <= from,
        0 <= start,
        0 <= len,
        from + len <= s.len(),
        start + len <= t.len(),
        s.subrange(from, from + len) == t.subrange(start, start + len),
    ensures
        hex_number(s, from, from + len) == hex_number(t, start, start + len),
    decreases len,
{
    if len > 0 {
        assert(s.subrange(from, from + len - 1) =~= s.subrange(from, from + len).take(len - 1));
        assert(t.subrange(start, start + len - 1) =~= t.subrange(start, start + len).take(
            len - 1,
        ));
        lemma_hex_number_of_same_digits(s, from, t, start, len - 1);
        assert(s[from + len - 1] == s.subrange(from, from + len)[len - 1]);
        assert(t[start + len - 1] == t.subrange(start, start + len)[len - 1]);
    }
}

/// A run of digits of base 16 that something else follows ends there.
proof fn lemma_hex_end_of_run(s: Seq<u8>, from: int, to: int)
    requires
        0 <= from <= to <= s.len(),
        forall|j: int| from <= j < to ==> is_hex_digit(#[trigger] s[j]),
        to == s.len() || !is_hex_digit(s[to]),
    ensures
        hex_end(s, from) == to,
    decreases to - from,
{
    if from < to {
        assert(is_hex_digit(s[from]));
        lemma_hex_end_of_run(s, from + 1, to);
    }
}

/// Where a run of digits ends: behind digits only, and before a byte
/// that is none.
proof fn lemma_digits_end_is_first_other(s: Seq<u8>, from: int)
    requires
        0 <= from <= s.len(),
    ensures
        from <= digits_end(s, from) <= s.len(),
        digits_end(s, from) == s.len() || !is_digit(s[digits_end(s, from)]),
        forall|j: int| from <= j < digits_end(s, from) ==> is_digit(#[trigger] s[j]),
    decreases s.len() - from,
{
    if from < s.len() && is_digit(s[from]) {
        lemma_digits_end_is_first_other(s, from + 1);
    }
}

/// The text of a number in base 16: digits only, as many as the number
/// needs, that spell the number.
proof fn lemma_hex_text(n: nat)
    ensures
        vstd::utf8::is_ascii_chars(hex_text(n)),
        ({
            let b = hex_bytes(n);
            &&& b.len() >= 1
            &&& forall|i: int| 0 <= i < b.len() ==> is_hex_digit(#[trigger] b[i])
            &&& hex_number(b, 0, b.len() as int) == n
            &&& n < 0x10 ==> b.len() == 1
            &&& n < 0x100 ==> b.len() <= 2
            &&& n < 0x1000 ==> b.len() <= 3
            &&& n < 0x1_0000 ==> b.len() <= 4
        }),
    decreases n,
{
    if n < 16 {
        lemma_digit_text(n);
        let b = hex_bytes(n);
        assert(hex_number(b, 0, 1) == n) by {
            reveal_with_fuel(hex_number, 2);
        }
    } else {
        lemma_hex_text(n / 16);
        lemma_digit_text(n % 16);
        lemma_bytes_of_concat(hex_text(n / 16), digit_text(n % 16));
        let front = hex_bytes(n / 16);
        let b = hex_bytes(n);
        assert(b =~= front + seq![digit_byte(n % 16)]);
        assert forall|i: int| 0 <= i < b.len() implies is_hex_digit(#[trigger] b[i]) by {
            if i < front.len() {
                assert(b[i] == front[i]);
            }
        }
        assert(b.subrange(0, front.len() as int) =~= front.subrange(0, front.len() as int));
        lemma_hex_number_of_same_digits(b, 0, front, 0, front.len() as int);
    }
}

/// A group that stands in a text before a `:` or a `]` is read where it
/// stands, and no dotted quad is read there.
proof fn lemma_group_stands(s: Seq<u8>, from: int, group: nat, next: u8)
    requires
        group < 0x1_0000,
        0 <= from,
        from + hex_bytes(group).len() < s.len(),
        s.subrange(from, from + hex_bytes(group).len()) == hex_bytes(group),
        s[from + hex_bytes(group).len()] == next,
        next == 58 || next == 93,
    ensures
        group_at(s, from) == Some((group as u16, from + hex_bytes(group).len())),
        ipv4_at(s, from) is None,
{
    lemma_hex_text(group);
    let b = hex_bytes(group);
    let to = from + b.len();
    assert forall|j: int| from <= j < to implies is_hex_digit(#[trigger] s[j]) by {
        assert(s[j] == s.subrange(from, to)[j - from]);
        assert(is_hex_digit(b[j - from]));
    }
    lemma_hex_end_of_run(s, from, to);
    assert(b.subrange(0, b.len() as int) =~= b);
    lemma_hex_number_of_same_digits(s, from, b, 0, b.len() as int);
    // No dotted quad starts here: behind the first digits comes another
    // digit of base 16, `:` or `]`, never `.`.
    lemma_digits_end_is_first_other(s, from);
    let stop = digits_end(s, from);
    if stop > to {
        assert(is_digit(s[to]));
    }
    if stop < to {
        assert(is_hex_digit(s[stop]));
    }
    assert(!byte_is(s, stop, 46));
}

/// The group of an address that has `below` groups below it.
pub open spec fn group_of(bits: u128, below: nat) -> nat {
    (bits as nat) / group_place(below) % 0x1_0000
}

/// The bytes of the lowest `groups` groups of an address.
pub open spec fn groups_bytes(bits: u128, groups: nat) -> Seq<u8> {
    ascii_bytes(groups_text(bits, groups))
}

/// The bytes of groups are those of the first, and behind a `:` those of
/// the others.
proof fn lemma_groups_bytes(bits: u128, groups: nat)
    requires
        groups >= 1,
    ensures
        vstd::utf8::is_ascii_chars(groups_text(bits, groups)),
        groups_bytes(bits, groups) == if groups == 1 {
            hex_bytes(group_of(bits, 0))
        } else {
            hex_bytes(group_of(bits, (groups - 1) as nat)) + seq![58u8] + groups_bytes(
                bits,
                (groups - 1) as nat,
            )
        },
    decreases groups,
{
    let group = hex_text(group_of(bits, (groups - 1) as nat));
    lemma_hex_text(group_of(bits, (groups - 1) as nat));
    if groups > 1 {
        reveal_strlit(":");
        let colon = ":"@;
        assert(ascii_bytes(colon) =~= seq![58u8]);
        lemma_groups_bytes(bits, (groups - 1) as nat);
        lemma_bytes_of_concat(group, colon);
        lemma_bytes_of_concat(group + colon, groups_text(bits, (groups - 1) as nat));
    }
}

/// The lowest `groups` groups of an address stand in `s` from `at` on,
/// and a `]` follows them.
pub open spec fn groups_stand_at(s: Seq<u8>, at: int, bits: u128, groups: nat) -> bool {
    let b = groups_bytes(bits, groups);
    &&& 0 <= at
    &&& at + b.len() < s.len()
    &&& s.subrange(at, at + b.len()) == b
    &&& s[at + b.len()] == 93
}

/// Where groups stand, the first of them stands, and behind it either the
/// `]` or a `:` and the others.
proof fn lemma_first_group_stands(s: Seq<u8>, at: int, bits: u128, groups: nat)
    requires
        groups >= 1,
        groups_stand_at(s, at, bits, groups),
    ensures
        ({
            let first = hex_bytes(group_of(bits, (groups - 1) as nat));
            &&& at + first.len() < s.len()
            &&& s.subrange(at, at + first.len()) == first
            &&& groups == 1 ==> s[at + first.len()] == 93 && first.len() == groups_bytes(
                bits,
                groups,
            ).len()
            &&& groups > 1 ==> s[at + first.len()] == 58 && groups_stand_at(
                s,
                at + first.len() + 1,
                bits,
                (groups - 1) as nat,
            ) && first.len() + 1 + groups_bytes(bits, (groups - 1) as nat).len()
                == groups_bytes(bits, groups).len()
        }),
{
    lemma_groups_bytes(bits, groups);
    let all = groups_bytes(bits, groups);
    let first = hex_bytes(group_of(bits, (groups - 1) as nat));
    let whole = s.subrange(at, at + all.len());
    if groups == 1 {
    } else {
        let rest = groups_bytes(bits, (groups - 1) as nat);
        assert(all.len() == first.len() + 1 + rest.len());
        assert(s.subrange(at, at + first.len()) =~= whole.subrange(0, first.len() as int));
        assert(whole.subrange(0, first.len() as int) =~= first);
        assert(s[at + first.len()] == whole[first.len() as int]);
        assert(s.subrange(at + first.len() + 1, at + all.len()) =~= whole.subrange(
            first.len() as int + 1,
            all.len() as int,
        ));
        assert(whole.subrange(first.len() as int + 1, all.len() as int) =~= rest);
    }
}

/// The first `count` groups of an address.
pub open spec fn top_groups(bits: u128, count: nat) -> Seq<u16> {
    Seq::new(count, |i: int| group_of(bits, (7 - i) as nat) as u16)
}

/// The first groups of an address and the next one are the first groups,
/// one more.
proof fn lemma_top_groups_push(bits: u128, count: nat)
    requires
        count < 8,
    ensures
        top_groups(bits, count).push(group_of(bits, (7 - count) as nat) as u16) == top_groups(
            bits,
            count + 1,
        ),
{
    assert(top_groups(bits, count).push(group_of(bits, (7 - count) as nat) as u16)
        =~= top_groups(bits, count + 1));
}

/// One step of reading groups: where the next group is read and no dotted
/// quad stands, reading goes on behind the group.
proof fn lemma_group_step(s: Seq<u8>, at: int, read: Seq<u16>, start: int, group: u16, end: int)
    requires
        read.len() < 8,
        group_start(s, at, read.len() == 0) == Some(start),
        ipv4_at(s, start) is None,
        group_at(s, start) == Some((group, end)),
    ensures
        groups_from(s, at, 8, read) == groups_from(s, end, 8, read.push(group)),
{
}

/// The lowest `groups` groups of an address, written behind the groups
/// above them and before a `]`, are read as the groups that they are.
proof fn lemma_groups_are_read(s: Seq<u8>, at: int, bits: u128, groups: nat)
    requires
        1 <= groups <= 8,
        0 <= at,
        groups < 8 ==> byte_is(s, at, 58),
        groups_stand_at(s, if groups == 8 { at } else { at + 1 }, bits, groups),
    ensures
        groups_from(s, at, 8, top_groups(bits, (8 - groups) as nat)) == (GroupsRead {
            groups: top_groups(bits, 8),
            end: (if groups == 8 {
                at
            } else {
                at + 1
            }) + groups_bytes(bits, groups).len(),
            dotted: false,
        }),
    decreases groups,
{
    let read = top_groups(bits, (8 - groups) as nat);
    let start = if groups == 8 {
        at
    } else {
        at + 1
    };
    let group = group_of(bits, (groups - 1) as nat);
    let end = start + hex_bytes(group).len();
    lemma_first_group_stands(s, start, bits, groups);
    lemma_group_stands(s, start, group, if groups == 1 { 93u8 } else { 58u8 });
    lemma_top_groups_push(bits, (8 - groups) as nat);
    lemma_group_step(s, at, read, start, group as u16, end);
    if groups > 1 {
        lemma_groups_are_read(s, end, bits, (groups - 1) as nat);
    }
}

/// The eight groups of an address spell it.
proof fn lemma_top_groups_value(bits: u128, count: nat)
    requires
        count <= 8,
    ensures
        groups_value(top_groups(bits, count)) == (bits as nat) / group_place((8 - count) as nat),
    decreases count,
{
    lemma_group_places();
    if count == 0 {
        assert(top_groups(bits, 0) =~= Seq::<u16>::empty());
        lemma_basic_div(bits as int, group_place(8) as int);
    } else {
        let fewer = (count - 1) as nat;
        lemma_top_groups_value(bits, fewer);
        assert(top_groups(bits, count).drop_last() =~= top_groups(bits, fewer));
        let place = group_place((8 - count) as nat) as int;
        let above = group_place((8 - fewer) as nat) as int;
        lemma_group_place_positive((8 - count) as nat);
        assert(above == 0x1_0000 * place);
        let x = bits as int;
        let shifted = x / place;
        lemma_div_denominator(x, place, 0x1_0000);
        assert(place * 0x1_0000 == above) by (nonlinear_arith)
            requires
                above == 0x1_0000 * place,
        ;
        assert(x / above == shifted / 0x1_0000);
        let last = top_groups(bits, count).last();
        assert(last == group_of(bits, (8 - count) as nat) as u16);
        assert(group_of(bits, (8 - count) as nat) == shifted % 0x1_0000);
        assert(last as nat == shifted % 0x1_0000);
        assert(groups_value(top_groups(bits, fewer)) == shifted / 0x1_0000);
        assert(groups_value(top_groups(bits, count)) == groups_value(top_groups(bits, fewer))
            * 0x1_0000 + last as nat);
    }
}

/// The bytes of an address in square brackets, `:` and a port.
pub open spec fn bracket_socket_bytes(bits: u128, port: nat) -> Seq<u8> {
    seq![91u8] + groups_bytes(bits, 8) + seq![93u8, 58u8] + decimal_bytes(port)
}

/// The bytes of an address in square brackets, `:` and a port are read as
/// that address and that port.
proof fn lemma_bracket_socket_is_read(bits: u128, port: nat)
    requires
        port <= 65535,
    ensures
        socket_address(bracket_socket_bytes(bits, port)) == Some(
            EndpointAddress { ip: IpAddress::V6(bits), port: port as u16 },
        ),
{
    let s = bracket_socket_bytes(bits, port);
    let open = seq![91u8];
    let close = seq![93u8, 58u8];
    let groups = groups_bytes(bits, 8);
    let end = 1 + groups.len() as int;
    assert(ipv4_socket(s) is None) by {
        assert(s[0] == 91);
        assert(digits_end(s, 0) == 0);
    }
    assert(groups_stand_at(s, 1, bits, 8)) by {
        assert(s.subrange(1, end) =~= groups);
        assert(s[end] == 93);
    }
    assert(ipv6_at(s, 1) == Some((bits, end))) by {
        assert(top_groups(bits, 0) =~= Seq::<u16>::empty());
        lemma_groups_are_read(s, 1, bits, 8);
        lemma_top_groups_value(bits, 8);
        lemma_group_places();
        let head = groups_from(s, 1, 8, Seq::empty());
        assert(head.groups == top_groups(bits, 8));
        assert(head.groups.len() == 8);
        assert(head.end == end);
        assert(groups_value(head.groups) == bits as nat);
    }
    assert(s[end] == 93);
    assert(s[end + 1] == 58);
    assert(scope_end(s, end) == end);
    assert(port_at(s, end + 2) == Some(port as u16)) by {
        let before = open + groups + close;
        assert(s =~= before + decimal_bytes(port) + Seq::<u8>::empty());
        lemma_port_at_end(s, before, port);
    }
}

/// The text of an IPv6 address and a port has the bytes of an address in
/// square brackets, `:` and a port.
proof fn lemma_ipv6_text_bytes(bits: u128, port: u16)
    ensures
        vstd::utf8::is_ascii_chars((EndpointAddress { ip: IpAddress::V6(bits), port }).text()),
        ascii_bytes((EndpointAddress { ip: IpAddress::V6(bits), port }).text())
            == bracket_socket_bytes(bits, port as nat),
{
    reveal_strlit("[");
    reveal_strlit("]:");
    let open = "["@;
    let close = "]:"@;
    assert(ascii_bytes(open) =~= seq![91u8]);
    assert(ascii_bytes(close) =~= seq![93u8, 58u8]);
    lemma_groups_bytes(bits, 8);
    lemma_decimal_text(port as nat);
    let groups = groups_text(bits, 8);
    lemma_bytes_of_concat(open, groups);
    lemma_bytes_of_concat(open + groups, close);
    lemma_bytes_of_concat(open + groups + close, decimal_text(port as nat));
}

/// An IPv6 address in square brackets, `:` and a port are read back as
/// the address that they were written for.
pub proof fn lemma_ipv6_text_is_read_back(bits: u128, port: u16)
    ensures
        parsed_address((EndpointAddress { ip: IpAddress::V6(bits), port }).text()) == Some(
            EndpointAddress { ip: IpAddress::V6(bits), port },
        ),
{
    lemma_ipv6_text_bytes(bits, port);
    lemma_bracket_socket_is_read(bits, port as nat);
}

/// What [`EndpointAddress::to_string`] writes, [`EndpointAddress::parse`]
/// reads back as the same address.
pub proof fn lemma_text_is_read_back(address: EndpointAddress)
    ensures
        parsed_address(address.text()) == Some(address),
{
    match address.ip {
        IpAddress::V4(bits) => lemma_ipv4_text_is_read_back(bits, address.port),
        IpAddress::V6(bits) => lemma_ipv6_text_is_read_back(bits, address.port),
    }
}

} // verus!
