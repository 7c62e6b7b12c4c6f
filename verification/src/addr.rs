//! Name-server addresses in their textual forms `a.b.c.d:port` and
//! `[groups]:port`.

use vstd::prelude::*;
use crate::ipv6::{
    all_groups, first_empty, group_values, hex_digit, hex_value, ipv6_of, is_group, is_hex,
    lemma_first_empty, parse_ipv6,
};
use crate::text::{
    chars_of, contains_char, lemma_concat_lacks, lemma_split_on_append, lemma_split_on_single,
    pieces_view, push_char, split, split_on,
};

verus! {

/// The address and UDP port of a name server: an IPv4 address of four
/// octets, or an IPv6 address of eight groups.
#[derive(Copy, Clone, Debug, PartialEq, Eq, Hash, Structural)]
pub enum ServerAddr {
    V4 { a: u8, b: u8, c: u8, d: u8, port: u16 },
    V6 { g0: u16, g1: u16, g2: u16, g3: u16, g4: u16, g5: u16, g6: u16, g7: u16, port: u16 },
}

/// The port used when an address is written without one.
pub const DEFAULT_PORT: u16 = 53;

/// True for the ten decimal digits.
pub open spec fn is_digit(c: char) -> bool {
    '0' <= c && c <= '9'
}

/// The number a digit stands for.
pub open spec fn digit_value(c: char) -> nat {
    (c as u32 - '0' as u32) as nat
}

/// True when every character of `s` is a decimal digit.
pub open spec fn all_digits(s: Seq<char>) -> bool {
    forall|i: int| 0 <= i < s.len() ==> is_digit(#[trigger] s[i])
}

/// The number written by the digits of `s`, most significant first.
pub open spec fn decimal_value(s: Seq<char>) -> nat
    decreases s.len(),
{
    if s.len() == 0 {
        0
    } else {
        decimal_value(s.drop_last()) * 10 + digit_value(s.last())
    }
}

/// A decimal number of at least one digit and at most `max_digits` digits
/// (any number of digits when `max_digits` is 0), no greater than `limit`,
/// and, unless `zero_prefix` is set, without a leading zero before other
/// digits.
pub open spec fn is_number(s: Seq<char>, max_digits: nat, zero_prefix: bool, limit: nat) -> bool {
    &&& s.len() >= 1
    &&& (max_digits == 0 || s.len() <= max_digits)
    &&& all_digits(s)
    &&& (zero_prefix || s.len() == 1 || s[0] != '0')
    &&& decimal_value(s) <= limit
}

/// One of the four numbers of a dotted address: up to three digits, at most
/// 255, no leading zero.
pub open spec fn is_octet(s: Seq<char>) -> bool {
    is_number(s, 3, false, 255)
}

/// A port: digits only, at most 65535.
pub open spec fn is_port(s: Seq<char>) -> bool {
    is_number(s, 0, true, 65535)
}

/// The address that `s` writes, if it writes one: an IPv4 address, a
/// colon, and a port; or an IPv6 address in square brackets, a colon, and a
/// port. Scope identifiers are not part of the grammar.
pub open spec fn addr_of_text(s: Seq<char>) -> Option<ServerAddr> {
    if s.len() > 0 && s[0] == '[' {
        v6_of_text(s)
    } else {
        v4_of_text(s)
    }
}

/// The IPv6 address with port that `s` writes: `[`, the address, `]:`, and
/// the port.
pub open spec fn v6_of_text(s: Seq<char>) -> Option<ServerAddr> {
    let halves = split_on(s, ']');
    if halves.len() == 2 && halves[0].len() >= 1 && halves[0][0] == '[' && halves[1].len() >= 1
        && halves[1][0] == ':' && is_port(halves[1].drop_first()) {
        match ipv6_of(halves[0].drop_first()) {
            Some(g) => Some(
                ServerAddr::V6 {
                    g0: g[0],
                    g1: g[1],
                    g2: g[2],
                    g3: g[3],
                    g4: g[4],
                    g5: g[5],
                    g6: g[6],
                    g7: g[7],
                    port: decimal_value(halves[1].drop_first()) as u16,
                },
            ),
            None => None,
        }
    } else {
        None
    }
}

/// The IPv4 address with port that `s` writes: four octets separated by
/// dots, a colon, and a port.
pub open spec fn v4_of_text(s: Seq<char>) -> Option<ServerAddr> {
    let halves = split_on(s, ':');
    if halves.len() != 2 {
        None
    } else {
        let octets = split_on(halves[0], '.');
        if octets.len() == 4 && is_octet(octets[0]) && is_octet(octets[1]) && is_octet(octets[2])
            && is_octet(octets[3]) && is_port(halves[1]) {
            Some(
                ServerAddr::V4 {
                    a: decimal_value(octets[0]) as u8,
                    b: decimal_value(octets[1]) as u8,
                    c: decimal_value(octets[2]) as u8,
                    d: decimal_value(octets[3]) as u8,
                    port: decimal_value(halves[1]) as u16,
                },
            )
        } else {
            None
        }
    }
}

/// The text of a configured server with the default port filled in: a text
/// without a colon gets `:53` appended, any other is left as it is.
pub open spec fn with_default_port(s: Seq<char>) -> Seq<char> {
    if s.contains(':') {
        s
    } else {
        s + seq![':', '5', '3']
    }
}

/// A value grows with every digit appended, so a prefix never exceeds the
/// whole.
proof fn lemma_decimal_prefix(s: Seq<char>, n: int)
    requires
        0 <= n <= s.len(),
    ensures
        decimal_value(s.subrange(0, n)) <= decimal_value(s),
    decreases s.len() - n,
{
    if n < s.len() {
        let p = s.subrange(0, n + 1);
        assert(p.drop_last() == s.subrange(0, n));
        lemma_decimal_prefix(s, n + 1);
    } else {
        assert(s.subrange(0, n) == s);
    }
}

/// Reads a decimal number under the rules of [`is_number`].
pub fn parse_number(s: &Vec<char>, max_digits: usize, zero_prefix: bool, limit: u32) -> (r: Option<
    u32,
>)
    requires
        limit <= 65535,
    ensures
        r is Some <==> is_number(s@, max_digits as nat, zero_prefix, limit as nat),
        r is Some ==> r->0 == decimal_value(s@),
{
    let n: usize = s.len();
    if n == 0 || (max_digits != 0 && n > max_digits) {
        return None;
    }
    if !zero_prefix && n > 1 && s[0] == '0' {
        return None;
    }
    let mut value: u32 = 0;
    let mut i: usize = 0;
    while i < n
        invariant
            n == s.len(),
            i <= n,
            limit <= 65535,
            value <= limit,
            value == decimal_value(s@.subrange(0, i as int)),
            forall|j: int| 0 <= j < i ==> is_digit(#[trigger] s@[j]),
        decreases n - i,
    {
        let c = s[i];
        proof {
            let next = s@.subrange(0, i as int + 1);
            assert(next.drop_last() == s@.subrange(0, i as int));
            assert(next.last() == c);
            lemma_decimal_prefix(s@, i as int + 1);
        }
        if c < '0' || c > '9' {
            assert(!is_digit(s@[i as int]));
            return None;
        }
        let digit: u32 = c as u32 - '0' as u32;
        let next_value: u32 = value * 10 + digit;
        if next_value > limit {
            return None;
        }
        value = next_value;
        i += 1;
    }
    proof {
        assert(s@.subrange(0, n as int) == s@);
    }
    Some(value)
}

/// Reads an address of the form `a.b.c.d:port` or `[groups]:port`.
pub fn parse_addr(s: &str) -> (r: Option<ServerAddr>)
    ensures
        r == addr_of_text(s@),
{
    let chars = chars_of(s);
    parse_addr_chars(&chars)
}

/// The characters of `v` after the first.
fn rest_of(v: &Vec<char>) -> (r: Vec<char>)
    requires
        v@.len() >= 1,
    ensures
        r@ == v@.drop_first(),
{
    let mut r: Vec<char> = Vec::new();
    let mut i: usize = 1;
    while i < v.len()
        invariant
            1 <= i <= v.len(),
            r@ == v@.subrange(1, i as int),
        decreases v.len() - i,
    {
        r.push(v[i]);
        i += 1;
        assert(r@ == v@.subrange(1, i as int));
    }
    assert(v@.subrange(1, v.len() as int) == v@.drop_first());
    r
}

/// Reads an address from its characters: `a.b.c.d:port`, or an IPv6
/// address in the form `[groups]:port`.
pub fn parse_addr_chars(chars: &Vec<char>) -> (r: Option<ServerAddr>)
    ensures
        r == addr_of_text(chars@),
{
    if chars.len() > 0 && chars[0] == '[' {
        parse_v6_chars(chars)
    } else {
        parse_v4_chars(chars)
    }
}

/// Reads an address of the form `[groups]:port`.
fn parse_v6_chars(chars: &Vec<char>) -> (r: Option<ServerAddr>)
    ensures
        r == v6_of_text(chars@),
{
    let halves = split(chars, ']');
    if halves.len() != 2 {
        return None;
    }
    proof {
        assert(pieces_view(halves@)[0] == halves@[0]@);
        assert(pieces_view(halves@)[1] == halves@[1]@);
    }
    if halves[0].len() < 1 || halves[0][0] != '[' || halves[1].len() < 1 || halves[1][0] != ':' {
        return None;
    }
    let port = parse_number(&rest_of(&halves[1]), 0, true, 65535);
    let groups = parse_ipv6(&rest_of(&halves[0]));
    match (groups, port) {
        (Some(g), Some(port)) => Some(
            ServerAddr::V6 {
                g0: g[0],
                g1: g[1],
                g2: g[2],
                g3: g[3],
                g4: g[4],
                g5: g[5],
                g6: g[6],
                g7: g[7],
                port: port as u16,
            },
        ),
        _ => None,
    }
}

/// Reads an address of the form `a.b.c.d:port`.
fn parse_v4_chars(chars: &Vec<char>) -> (r: Option<ServerAddr>)
    ensures
        r == v4_of_text(chars@),
{
    let halves = split(chars, ':');
    if halves.len() != 2 {
        return None;
    }
    let octets = split(&halves[0], '.');
    proof {
        assert(pieces_view(halves@)[0] == halves@[0]@);
        assert(pieces_view(halves@)[1] == halves@[1]@);
    }
    if octets.len() != 4 {
        return None;
    }
    proof {
        assert(pieces_view(octets@)[0] == octets@[0]@);
        assert(pieces_view(octets@)[1] == octets@[1]@);
        assert(pieces_view(octets@)[2] == octets@[2]@);
        assert(pieces_view(octets@)[3] == octets@[3]@);
    }
    let a = parse_number(&octets[0], 3, false, 255);
    let b = parse_number(&octets[1], 3, false, 255);
    let c = parse_number(&octets[2], 3, false, 255);
    let d = parse_number(&octets[3], 3, false, 255);
    let port = parse_number(&halves[1], 0, true, 65535);
    match (a, b, c, d, port) {
        (Some(a), Some(b), Some(c), Some(d), Some(port)) => Some(
            ServerAddr::V4 { a: a as u8, b: b as u8, c: c as u8, d: d as u8, port: port as u16 },
        ),
        _ => None,
    }
}

/// Reads a configured server, which may leave the port out. A text that
/// holds a colon is read as it stands, so an IPv6 server is always written
/// in brackets and with its port.
pub fn parse_server(s: &str) -> (r: Option<ServerAddr>)
    ensures
        r == addr_of_text(with_default_port(s@)),
{
    let mut chars = chars_of(s);
    if !contains_char(&chars, ':') {
        chars.push(':');
        chars.push('5');
        chars.push('3');
        assert(chars@ == s@ + seq![':', '5', '3']);
    }
    parse_addr_chars(&chars)
}

/// The digits of `n`, most significant first, without leading zeros.
pub open spec fn decimal_text(n: nat) -> Seq<char>
    decreases n,
{
    if n < 10 {
        seq![digit_char(n)]
    } else {
        decimal_text(n / 10).push(digit_char(n % 10))
    }
}

/// The digit for a number below ten.
pub open spec fn digit_char(n: nat) -> char {
    if n == 0 {
        '0'
    } else if n == 1 {
        '1'
    } else if n == 2 {
        '2'
    } else if n == 3 {
        '3'
    } else if n == 4 {
        '4'
    } else if n == 5 {
        '5'
    } else if n == 6 {
        '6'
    } else if n == 7 {
        '7'
    } else if n == 8 {
        '8'
    } else {
        '9'
    }
}

fn digit_of(n: u32) -> (c: char)
    requires
        n < 10,
    ensures
        c == digit_char(n as nat),
{
    if n == 0 {
        '0'
    } else if n == 1 {
        '1'
    } else if n == 2 {
        '2'
    } else if n == 3 {
        '3'
    } else if n == 4 {
        '4'
    } else if n == 5 {
        '5'
    } else if n == 6 {
        '6'
    } else if n == 7 {
        '7'
    } else if n == 8 {
        '8'
    } else {
        '9'
    }
}

/// Appends the decimal digits of `n` to `out`.
fn push_decimal(out: &mut String, n: u32)
    requires
        n <= 65535,
    ensures
        final(out)@ == old(out)@ + decimal_text(n as nat),
{
    let ghost start = out@;
    if n >= 10000 {
        push_char(out, digit_of(n / 10000));
    }
    if n >= 1000 {
        push_char(out, digit_of(n / 1000 % 10));
    }
    if n >= 100 {
        push_char(out, digit_of(n / 100 % 10));
    }
    if n >= 10 {
        push_char(out, digit_of(n / 10 % 10));
    }
    push_char(out, digit_of(n % 10));
    proof {
        let m = n as nat;
        reveal_with_fuel(decimal_text, 6);
        assert(out@ == start + decimal_text(m));
    }
}

/// The hexadecimal digits of `n`, most significant first, in lower case,
/// without leading zeros.
pub open spec fn hex_text(n: nat) -> Seq<char>
    decreases n,
{
    if n < 16 {
        seq![hex_char(n)]
    } else {
        hex_text(n / 16).push(hex_char(n % 16))
    }
}

/// The hexadecimal digit for a number below sixteen.
pub open spec fn hex_char(n: nat) -> char {
    if n < 10 {
        digit_char(n)
    } else if n == 10 {
        'a'
    } else if n == 11 {
        'b'
    } else if n == 12 {
        'c'
    } else if n == 13 {
        'd'
    } else if n == 14 {
        'e'
    } else {
        'f'
    }
}

fn hex_of(n: u32) -> (c: char)
    requires
        n < 16,
    ensures
        c == hex_char(n as nat),
{
    if n < 10 {
        digit_of(n)
    } else if n == 10 {
        'a'
    } else if n == 11 {
        'b'
    } else if n == 12 {
        'c'
    } else if n == 13 {
        'd'
    } else if n == 14 {
        'e'
    } else {
        'f'
    }
}

/// Appends the hexadecimal digits of `n` to `out`.
fn push_hex(out: &mut String, n: u16)
    ensures
        final(out)@ == old(out)@ + hex_text(n as nat),
{
    let ghost start = out@;
    let n: u32 = n as u32;
    if n >= 4096 {
        push_char(out, hex_of(n / 4096));
    }
    if n >= 256 {
        push_char(out, hex_of(n / 256 % 16));
    }
    if n >= 16 {
        push_char(out, hex_of(n / 16 % 16));
    }
    push_char(out, hex_of(n % 16));
    proof {
        reveal_with_fuel(hex_text, 5);
        assert(out@ == start + hex_text(n as nat));
    }
}

impl ServerAddr {
    /// The port.
    pub open spec fn spec_port(&self) -> u16 {
        match *self {
            ServerAddr::V4 { port, .. } => port,
            ServerAddr::V6 { port, .. } => port,
        }
    }

    /// The port.
    pub fn port(&self) -> (p: u16)
        ensures
            p == self.spec_port(),
    {
        match *self {
            ServerAddr::V4 { port, .. } => port,
            ServerAddr::V6 { port, .. } => port,
        }
    }

    /// The text of this address: `a.b.c.d:port`, or, for an IPv6 address,
    /// `[g:g:g:g:g:g:g:g]:port` with all eight groups written out in
    /// hexadecimal.
    pub open spec fn text(&self) -> Seq<char> {
        match *self {
            ServerAddr::V4 { a, b, c, d, port } => decimal_text(a as nat) + seq!['.']
                + decimal_text(b as nat) + seq!['.'] + decimal_text(c as nat) + seq!['.']
                + decimal_text(d as nat) + seq![':'] + decimal_text(port as nat),
            ServerAddr::V6 { g0, g1, g2, g3, g4, g5, g6, g7, port } => seq!['['] + groups_text(
                g0,
                g1,
                g2,
                g3,
                g4,
                g5,
                g6,
                g7,
            ) + seq![']'] + seq![':'] + decimal_text(port as nat),
        }
    }

    /// Writes the address as text.
    pub fn to_string(&self) -> (s: String)
        ensures
            s@ == self.text(),
    {
        let mut s = String::new();
        match *self {
            ServerAddr::V4 { a, b, c, d, port } => {
                push_decimal(&mut s, a as u32);
                push_char(&mut s, '.');
                push_decimal(&mut s, b as u32);
                push_char(&mut s, '.');
                push_decimal(&mut s, c as u32);
                push_char(&mut s, '.');
                push_decimal(&mut s, d as u32);
                push_char(&mut s, ':');
                push_decimal(&mut s, port as u32);
                assert(s@ == self.text());
            },
            ServerAddr::V6 { g0, g1, g2, g3, g4, g5, g6, g7, port } => {
                push_char(&mut s, '[');
                push_hex(&mut s, g0);
                push_char(&mut s, ':');
                push_hex(&mut s, g1);
                push_char(&mut s, ':');
                push_hex(&mut s, g2);
                push_char(&mut s, ':');
                push_hex(&mut s, g3);
                push_char(&mut s, ':');
                push_hex(&mut s, g4);
                push_char(&mut s, ':');
                push_hex(&mut s, g5);
                push_char(&mut s, ':');
                push_hex(&mut s, g6);
                push_char(&mut s, ':');
                push_hex(&mut s, g7);
                push_char(&mut s, ']');
                push_char(&mut s, ':');
                push_decimal(&mut s, port as u32);
                assert(s@ == self.text());
            },
        }
        s
    }
}

/// The digits of a number are digits, as many as the number needs and no
/// more, and they write that number.
pub proof fn lemma_decimal_text(n: nat)
    ensures
        all_digits(decimal_text(n)),
        decimal_text(n).len() >= 1,
        decimal_value(decimal_text(n)) == n,
        n >= 1 ==> decimal_text(n)[0] != '0',
        n < 1000 ==> decimal_text(n).len() <= 3,
        n < 100 ==> decimal_text(n).len() <= 2,
        n < 10 ==> decimal_text(n).len() == 1,
        !decimal_text(n).contains('.'),
        !decimal_text(n).contains(':'),
    decreases n,
{
    let t = decimal_text(n);
    if n < 10 {
        assert(t.drop_last() == Seq::<char>::empty());
        assert(decimal_value(t.drop_last()) == 0);
        assert(decimal_value(t) == digit_value(t.last()));
    } else {
        lemma_decimal_text(n / 10);
        let head = decimal_text(n / 10);
        assert(t.drop_last() == head);
        assert(t.last() == digit_char(n % 10));
        assert(t[0] == head[0]);
        assert forall|i: int| 0 <= i < t.len() implies is_digit(#[trigger] t[i]) by {
            if i < head.len() {
                assert(t[i] == head[i]);
            }
        }
    }
    assert forall|i: int| 0 <= i < t.len() implies t[i] != '.' && t[i] != ':' by {
        assert(is_digit(t[i]));
    }
}

/// Round-trip law: the text of an IPv4 address reads back as that address.
pub proof fn lemma_text_reads_back(a: u8, b: u8, c: u8, d: u8, port: u16)
    ensures
        addr_of_text((ServerAddr::V4 { a, b, c, d, port }).text()) == Some(
            ServerAddr::V4 { a, b, c, d, port },
        ),
{
    let addr = ServerAddr::V4 { a, b, c, d, port };
    let ta = decimal_text(a as nat);
    let tb = decimal_text(b as nat);
    let tc = decimal_text(c as nat);
    let td = decimal_text(d as nat);
    let tp = decimal_text(port as nat);
    lemma_decimal_text(a as nat);
    lemma_decimal_text(b as nat);
    lemma_decimal_text(c as nat);
    lemma_decimal_text(d as nat);
    lemma_decimal_text(port as nat);
    let dot = seq!['.'];
    let host = ta + dot + tb + dot + tc + dot + td;
    assert(addr.text() == host + seq![':'] + tp);
    assert(addr.text()[0] == ta[0]);
    assert(is_digit(ta[0]));
    assert forall|i: int| 0 <= i < host.len() implies host[i] != ':' by {
        if i < ta.len() {
            assert(host[i] == ta[i]);
            assert(ta.contains(ta[i]));
        } else if i == ta.len() {
        } else if i < ta.len() + 1 + tb.len() {
            assert(host[i] == tb[i - ta.len() - 1]);
            assert(tb.contains(tb[i - ta.len() - 1]));
        } else if i == ta.len() + 1 + tb.len() {
        } else if i < ta.len() + 1 + tb.len() + 1 + tc.len() {
            assert(host[i] == tc[i - ta.len() - tb.len() - 2]);
            assert(tc.contains(tc[i - ta.len() - tb.len() - 2]));
        } else if i == ta.len() + 1 + tb.len() + 1 + tc.len() {
        } else {
            assert(host[i] == td[i - ta.len() - tb.len() - tc.len() - 3]);
            assert(td.contains(td[i - ta.len() - tb.len() - tc.len() - 3]));
        }
    }
    lemma_split_on_single(host, ':');
    lemma_split_on_append(host, tp, ':');
    assert(split_on(addr.text(), ':') == seq![host, tp]);
    lemma_split_on_single(ta, '.');
    lemma_split_on_append(ta, tb, '.');
    lemma_split_on_append(ta + dot + tb, tc, '.');
    lemma_split_on_append(ta + dot + tb + dot + tc, td, '.');
    assert(split_on(host, '.') == seq![ta, tb, tc, td]);
}

/// The hexadecimal digits of a group are a group and write its value.
pub proof fn lemma_hex_text(n: nat)
    requires
        n < 65536,
    ensures
        is_group(hex_text(n)),
        hex_value(hex_text(n)) == n,
        n < 4096 ==> hex_text(n).len() <= 3,
        n < 256 ==> hex_text(n).len() <= 2,
        n < 16 ==> hex_text(n).len() == 1,
        !hex_text(n).contains(':'),
        !hex_text(n).contains(']'),
    decreases n,
{
    let t = hex_text(n);
    if n < 16 {
        assert(t.drop_last() == Seq::<char>::empty());
        assert(hex_value(t.drop_last()) == 0);
        assert(hex_value(t) == hex_digit(t.last()));
    } else {
        lemma_hex_text(n / 16);
        let head = hex_text(n / 16);
        assert(t.drop_last() == head);
        assert(t.last() == hex_char(n % 16));
        assert forall|i: int| 0 <= i < t.len() implies is_hex(#[trigger] t[i]) by {
            if i < head.len() {
                assert(t[i] == head[i]);
            }
        }
    }
    assert forall|i: int| 0 <= i < t.len() implies t[i] != ':' && t[i] != ']' by {
        assert(is_hex(t[i]));
    }
}

/// The text of eight groups: their hexadecimal digits, separated by colons.
pub open spec fn groups_text(
    g0: u16,
    g1: u16,
    g2: u16,
    g3: u16,
    g4: u16,
    g5: u16,
    g6: u16,
    g7: u16,
) -> Seq<char> {
    hex_text(g0 as nat) + seq![':'] + hex_text(g1 as nat) + seq![':'] + hex_text(g2 as nat)
        + seq![':'] + hex_text(g3 as nat) + seq![':'] + hex_text(g4 as nat) + seq![':'] + hex_text(
        g5 as nat,
    ) + seq![':'] + hex_text(g6 as nat) + seq![':'] + hex_text(g7 as nat)
}

/// A text without a closing bracket, then a colon and a group, is a text
/// without a closing bracket.
proof fn lemma_group_lacks_bracket(before: Seq<char>, g: u16)
    requires
        !before.contains(']'),
    ensures
        !(before + seq![':'] + hex_text(g as nat)).contains(']'),
{
    let c = seq![':'];
    lemma_hex_text(g as nat);
    assert(!c.contains(']')) by {
        assert forall|i: int| 0 <= i < c.len() implies c[i] != ']' by {}
    }
    lemma_concat_lacks(before, c, ']');
    lemma_concat_lacks(before + c, hex_text(g as nat), ']');
}

/// The text of eight groups reads back as those groups, and holds no
/// closing bracket.
#[verifier::rlimit(100)]
#[verifier::spinoff_prover]
pub proof fn lemma_groups_read_back(
    g0: u16,
    g1: u16,
    g2: u16,
    g3: u16,
    g4: u16,
    g5: u16,
    g6: u16,
    g7: u16,
)
    ensures
        ipv6_of(groups_text(g0, g1, g2, g3, g4, g5, g6, g7)) == Some(
            seq![g0, g1, g2, g3, g4, g5, g6, g7],
        ),
        !groups_text(g0, g1, g2, g3, g4, g5, g6, g7).contains(']'),
{
    let h0 = hex_text(g0 as nat);
    let h1 = hex_text(g1 as nat);
    let h2 = hex_text(g2 as nat);
    let h3 = hex_text(g3 as nat);
    let h4 = hex_text(g4 as nat);
    let h5 = hex_text(g5 as nat);
    let h6 = hex_text(g6 as nat);
    let h7 = hex_text(g7 as nat);
    lemma_hex_text(g0 as nat);
    lemma_hex_text(g1 as nat);
    lemma_hex_text(g2 as nat);
    lemma_hex_text(g3 as nat);
    lemma_hex_text(g4 as nat);
    lemma_hex_text(g5 as nat);
    lemma_hex_text(g6 as nat);
    lemma_hex_text(g7 as nat);
    let c = seq![':'];
    let s1 = h0 + c + h1;
    let s2 = s1 + c + h2;
    let s3 = s2 + c + h3;
    let s4 = s3 + c + h4;
    let s5 = s4 + c + h5;
    let s6 = s5 + c + h6;
    let groups = s6 + c + h7;
    assert(groups == groups_text(g0, g1, g2, g3, g4, g5, g6, g7));
    let p = seq![h0, h1, h2, h3, h4, h5, h6, h7];
    assert(split_on(groups, ':') == p) by {
        lemma_split_on_single(h0, ':');
        lemma_split_on_append(h0, h1, ':');
        lemma_split_on_append(s1, h2, ':');
        lemma_split_on_append(s2, h3, ':');
        lemma_split_on_append(s3, h4, ':');
        lemma_split_on_append(s4, h5, ':');
        lemma_split_on_append(s5, h6, ':');
        lemma_split_on_append(s6, h7, ':');
    }
    assert(first_empty(p) == 8) by {
        lemma_first_empty(p, 8);
    }
    assert(all_groups(p));
    assert(group_values(p) == seq![g0, g1, g2, g3, g4, g5, g6, g7]);
    assert(!groups.contains(']')) by {
        lemma_group_lacks_bracket(h0, g1);
        lemma_group_lacks_bracket(s1, g2);
        lemma_group_lacks_bracket(s2, g3);
        lemma_group_lacks_bracket(s3, g4);
        lemma_group_lacks_bracket(s4, g5);
        lemma_group_lacks_bracket(s5, g6);
        lemma_group_lacks_bracket(s6, g7);
    }
}

/// Round-trip law for IPv6: the text of an address reads back as that
/// address.
#[verifier::rlimit(100)]
#[verifier::spinoff_prover]
pub proof fn lemma_text_reads_back_v6(
    g0: u16,
    g1: u16,
    g2: u16,
    g3: u16,
    g4: u16,
    g5: u16,
    g6: u16,
    g7: u16,
    port: u16,
)
    ensures
        addr_of_text((ServerAddr::V6 { g0, g1, g2, g3, g4, g5, g6, g7, port }).text()) == Some(
            ServerAddr::V6 { g0, g1, g2, g3, g4, g5, g6, g7, port },
        ),
{
    let addr = ServerAddr::V6 { g0, g1, g2, g3, g4, g5, g6, g7, port };
    let groups = groups_text(g0, g1, g2, g3, g4, g5, g6, g7);
    let tp = decimal_text(port as nat);
    lemma_groups_read_back(g0, g1, g2, g3, g4, g5, g6, g7);
    lemma_decimal_text(port as nat);
    let open = seq!['['];
    let close = seq![']'];
    let c = seq![':'];
    let left = open + groups;
    let right = c + tp;
    assert(!left.contains(']')) by {
        assert(!open.contains(']')) by {
            assert forall|i: int| 0 <= i < open.len() implies open[i] != ']' by {}
        }
        lemma_concat_lacks(open, groups, ']');
    }
    assert(!right.contains(']')) by {
        assert(!c.contains(']')) by {
            assert forall|i: int| 0 <= i < c.len() implies c[i] != ']' by {}
        }
        assert(!tp.contains(']')) by {
            assert forall|i: int| 0 <= i < tp.len() implies tp[i] != ']' by {
                assert(is_digit(tp[i]));
            }
        }
        lemma_concat_lacks(c, tp, ']');
    }
    assert(split_on(left + close + right, ']') == seq![left, right]) by {
        lemma_split_on_single(left, ']');
        lemma_split_on_append(left, right, ']');
    }
    assert(addr.text() == left + close + right);
    assert(left.drop_first() == groups);
    assert(right.drop_first() == tp);
    assert(left[0] == '[');
    assert(right[0] == ':');
    assert(addr.text()[0] == '[');
}

} // verus!
