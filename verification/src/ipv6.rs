//! IPv6 addresses in text form: up to eight groups of hexadecimal digits
//! separated by colons, one run of zero groups written as `::`, and the
//! last two groups optionally written as a dotted IPv4 address.

use vstd::prelude::*;
use crate::addr::{decimal_value, is_octet, parse_number};
use crate::text::{pieces_view, split, split_on};

verus! {

/// True for the hexadecimal digits, in either letter case.
pub open spec fn is_hex(c: char) -> bool {
    ('0' <= c && c <= '9') || ('a' <= c && c <= 'f') || ('A' <= c && c <= 'F')
}

/// The number a hexadecimal digit stands for.
pub open spec fn hex_digit(c: char) -> nat {
    if '0' <= c && c <= '9' {
        (c as u32 - '0' as u32) as nat
    } else if 'a' <= c && c <= 'f' {
        (c as u32 - 'a' as u32 + 10) as nat
    } else {
        (c as u32 - 'A' as u32 + 10) as nat
    }
}

/// The number written by the hexadecimal digits of `s`.
pub open spec fn hex_value(s: Seq<char>) -> nat
    decreases s.len(),
{
    if s.len() == 0 {
        0
    } else {
        hex_value(s.drop_last()) * 16 + hex_digit(s.last())
    }
}

/// One group: one to four hexadecimal digits.
pub open spec fn is_group(s: Seq<char>) -> bool {
    1 <= s.len() <= 4 && forall|i: int| 0 <= i < s.len() ==> is_hex(#[trigger] s[i])
}

/// Every piece is a group.
pub open spec fn all_groups(pieces: Seq<Seq<char>>) -> bool {
    forall|i: int| 0 <= i < pieces.len() ==> is_group(#[trigger] pieces[i])
}

/// The values of the groups, in order.
pub open spec fn group_values(pieces: Seq<Seq<char>>) -> Seq<u16> {
    Seq::new(pieces.len(), |i: int| hex_value(pieces[i]) as u16)
}

/// The two groups that a dotted IPv4 address stands for.
pub open spec fn quad_groups(s: Seq<char>) -> Option<(u16, u16)> {
    let o = split_on(s, '.');
    if o.len() == 4 && is_octet(o[0]) && is_octet(o[1]) && is_octet(o[2]) && is_octet(o[3]) {
        Some(
            (
                (decimal_value(o[0]) * 256 + decimal_value(o[1])) as u16,
                (decimal_value(o[2]) * 256 + decimal_value(o[3])) as u16,
            ),
        )
    } else {
        None
    }
}

/// The groups written by colon-separated pieces of which the last may be a
/// dotted IPv4 address.
pub open spec fn tail_groups(pieces: Seq<Seq<char>>) -> Option<Seq<u16>> {
    if pieces.len() == 0 {
        Some(Seq::empty())
    } else if all_groups(pieces) {
        Some(group_values(pieces))
    } else if all_groups(pieces.drop_last()) && quad_groups(pieces.last()) is Some {
        let quad = quad_groups(pieces.last())->0;
        Some(group_values(pieces.drop_last()).push(quad.0).push(quad.1))
    } else {
        None
    }
}

/// The place of the first empty piece; the number of pieces if none is
/// empty.
pub open spec fn first_empty(pieces: Seq<Seq<char>>) -> int
    decreases pieces.len(),
{
    if pieces.len() == 0 || pieces[0].len() == 0 {
        0
    } else {
        1 + first_empty(pieces.drop_first())
    }
}

/// `count` zero groups.
pub open spec fn zero_groups(count: int) -> Seq<u16> {
    Seq::new(count as nat, |i: int| 0u16)
}

/// The eight groups of the IPv6 address that `t` writes, if it writes one.
/// Without `::` the text holds all eight groups. With `::`, which may
/// stand once, the groups before it and after it are at most seven and
/// the gap is filled with zero groups. The last two groups may be written
/// as a dotted IPv4 address, but not before `::`.
pub open spec fn ipv6_of(t: Seq<char>) -> Option<Seq<u16>> {
    let p = split_on(t, ':');
    let n = p.len() as int;
    let k = first_empty(p);
    if k == n {
        match tail_groups(p) {
            Some(groups) => if groups.len() == 8 {
                Some(groups)
            } else {
                None
            },
            None => None,
        }
    } else {
        let from = if k == 0 {
            2
        } else {
            k + 1
        };
        if (k == 0 && (n < 2 || p[1].len() != 0)) || from >= n {
            None
        } else {
            let after = p.subrange(from, n);
            let tail = if after.len() == 1 && after[0].len() == 0 {
                Some(Seq::<u16>::empty())
            } else {
                tail_groups(after)
            };
            let head = p.subrange(0, k);
            if all_groups(head) && tail is Some && k + tail->0.len() <= 7 {
                Some(group_values(head) + zero_groups(8 - k - tail->0.len()) + tail->0)
            } else {
                None
            }
        }
    }
}

/// With no empty piece before `k`, and `k` the end or an empty piece, `k`
/// is the place of the first empty piece.
pub proof fn lemma_first_empty(pieces: Seq<Seq<char>>, k: int)
    requires
        0 <= k <= pieces.len(),
        forall|j: int| 0 <= j < k ==> (#[trigger] pieces[j]).len() > 0,
        k == pieces.len() || pieces[k].len() == 0,
    ensures
        first_empty(pieces) == k,
    decreases pieces.len(),
{
    if pieces.len() > 0 && pieces[0].len() > 0 {
        let rest = pieces.drop_first();
        assert forall|j: int| 0 <= j < k - 1 implies (#[trigger] rest[j]).len() > 0 by {
            assert(rest[j] == pieces[j + 1]);
        }
        lemma_first_empty(rest, k - 1);
    }
}

/// A prefix of hexadecimal digits is worth no more than the whole.
proof fn lemma_hex_bound(s: Seq<char>)
    requires
        s.len() <= 4,
        forall|i: int| 0 <= i < s.len() ==> is_hex(#[trigger] s[i]),
    ensures
        s.len() == 0 ==> hex_value(s) == 0,
        s.len() == 1 ==> hex_value(s) < 16,
        s.len() == 2 ==> hex_value(s) < 256,
        s.len() == 3 ==> hex_value(s) < 4096,
        s.len() == 4 ==> hex_value(s) < 65536,
    decreases s.len(),
{
    if s.len() > 0 {
        let shorter = s.drop_last();
        assert forall|i: int| 0 <= i < shorter.len() implies is_hex(#[trigger] shorter[i]) by {
            assert(shorter[i] == s[i]);
        }
        lemma_hex_bound(shorter);
        assert(is_hex(s[s.len() - 1]));
    }
}

/// Reads one group.
fn parse_group(s: &Vec<char>) -> (r: Option<u16>)
    ensures
        r is Some <==> is_group(s@),
        r is Some ==> r->0 == hex_value(s@),
{
    let n: usize = s.len();
    if n == 0 || n > 4 {
        return None;
    }
    let mut value: u32 = 0;
    let mut i: usize = 0;
    while i < n
        invariant
            n == s.len(),
            n <= 4,
            i <= n,
            value == hex_value(s@.subrange(0, i as int)),
            forall|j: int| 0 <= j < i ==> is_hex(#[trigger] s@[j]),
        decreases n - i,
    {
        let c = s[i];
        proof {
            let next = s@.subrange(0, i as int + 1);
            assert(next.drop_last() == s@.subrange(0, i as int));
            assert(next.last() == c);
            let prev = s@.subrange(0, i as int);
            assert forall|j: int| 0 <= j < prev.len() implies is_hex(#[trigger] prev[j]) by {
                assert(prev[j] == s@[j]);
            }
            lemma_hex_bound(prev);
        }
        let digit: u32 = if c >= '0' && c <= '9' {
            c as u32 - '0' as u32
        } else if c >= 'a' && c <= 'f' {
            c as u32 - 'a' as u32 + 10
        } else if c >= 'A' && c <= 'F' {
            c as u32 - 'A' as u32 + 10
        } else {
            assert(!is_hex(s@[i as int]));
            return None;
        };
        value = value * 16 + digit;
        i += 1;
    }
    proof {
        assert(s@.subrange(0, n as int) == s@);
        lemma_hex_bound(s@);
    }
    Some(value as u16)
}

/// Reads a dotted IPv4 address as two groups.
fn parse_quad(s: &Vec<char>) -> (r: Option<(u16, u16)>)
    ensures
        r == quad_groups(s@),
{
    let octets = split(s, '.');
    if octets.len() != 4 {
        return None;
    }
    proof {
        assert(pieces_view(octets@)[0] == octets@[0]@);
        assert(pieces_view(octets@)[1] == octets@[1]@);
        assert(pieces_view(octets@)[2] == octets@[2]@);
        assert(pieces_view(octets@)[3] == octets@[3]@);
    }
    let a = parse_number(&octets[0], 3, false, 255);
    let b = parse_number(&octets[1], 3, false, 255);
    let c = parse_number(&octets[2], 3, false, 255);
    let d = parse_number(&octets[3], 3, false, 255);
    match (a, b, c, d) {
        (Some(a), Some(b), Some(c), Some(d)) => Some(((a * 256 + b) as u16, (c * 256 + d) as u16)),
        _ => None,
    }
}

/// Reads the pieces from `lo` to `hi` as groups.
fn parse_groups(pieces: &Vec<Vec<char>>, lo: usize, hi: usize) -> (r: Option<Vec<u16>>)
    requires
        lo <= hi <= pieces.len(),
    ensures
        r is Some <==> all_groups(pieces_view(pieces@).subrange(lo as int, hi as int)),
        r is Some ==> r->0@ == group_values(pieces_view(pieces@).subrange(lo as int, hi as int)),
{
    let ghost sub = pieces_view(pieces@).subrange(lo as int, hi as int);
    let mut out: Vec<u16> = Vec::new();
    let mut i: usize = lo;
    while i < hi
        invariant
            lo <= i <= hi <= pieces.len(),
            sub == pieces_view(pieces@).subrange(lo as int, hi as int),
            out@.len() == i - lo,
            forall|j: int| 0 <= j < i - lo ==> is_group(#[trigger] sub[j]),
            forall|j: int| 0 <= j < i - lo ==> out@[j] == hex_value(#[trigger] sub[j]) as u16,
        decreases hi - i,
    {
        assert(sub[i - lo] == pieces@[i as int]@);
        match parse_group(&pieces[i]) {
            Some(value) => {
                out.push(value);
            },
            None => {
                assert(!is_group(sub[i - lo]));
                return None;
            },
        }
        i += 1;
    }
    assert(out@ == group_values(sub));
    Some(out)
}

/// Reads the pieces from `lo` to `hi` as groups of which the last may be a
/// dotted IPv4 address.
fn parse_tail(pieces: &Vec<Vec<char>>, lo: usize, hi: usize) -> (r: Option<Vec<u16>>)
    requires
        lo <= hi <= pieces.len(),
    ensures
        r is Some <==> tail_groups(pieces_view(pieces@).subrange(lo as int, hi as int)) is Some,
        r is Some ==> r->0@ == tail_groups(
            pieces_view(pieces@).subrange(lo as int, hi as int),
        )->0,
{
    let ghost sub = pieces_view(pieces@).subrange(lo as int, hi as int);
    if lo == hi {
        return Some(Vec::new());
    }
    match parse_groups(pieces, lo, hi) {
        Some(groups) => Some(groups),
        None => {
            proof {
                assert(sub.drop_last() == pieces_view(pieces@).subrange(lo as int, hi - 1));
                assert(sub.last() == pieces@[hi - 1]@);
            }
            let head = parse_groups(pieces, lo, hi - 1);
            let quad = parse_quad(&pieces[hi - 1]);
            match (head, quad) {
                (Some(head), Some(quad)) => {
                    let mut groups = head;
                    groups.push(quad.0);
                    groups.push(quad.1);
                    Some(groups)
                },
                _ => None,
            }
        },
    }
}

/// Reads an IPv6 address; the result holds its eight groups.
pub fn parse_ipv6(chars: &Vec<char>) -> (r: Option<Vec<u16>>)
    ensures
        r is Some <==> ipv6_of(chars@) is Some,
        r is Some ==> r->0@ == ipv6_of(chars@)->0 && r->0@.len() == 8,
{
    let pieces = split(chars, ':');
    let n: usize = pieces.len();
    let ghost p = pieces_view(pieces@);
    let mut k: usize = 0;
    while k < n && pieces[k].len() > 0
        invariant
            n == pieces.len(),
            k <= n,
            p == pieces_view(pieces@),
            forall|j: int| 0 <= j < k ==> (#[trigger] p[j]).len() > 0,
        decreases n - k,
    {
        assert(p[k as int] == pieces@[k as int]@);
        k += 1;
    }
    proof {
        if k < n {
            assert(p[k as int] == pieces@[k as int]@);
        }
        lemma_first_empty(p, k as int);
        assert(p.subrange(0, n as int) == p);
    }
    if k == n {
        return match parse_tail(&pieces, 0, n) {
            Some(groups) => if groups.len() == 8 {
                Some(groups)
            } else {
                None
            },
            None => None,
        };
    }
    if k == 0 {
        if n < 2 {
            return None;
        }
        assert(p[1] == pieces@[1]@);
        if pieces[1].len() != 0 {
            return None;
        }
    }
    let from: usize = if k == 0 {
        2
    } else {
        k + 1
    };
    if from >= n {
        return None;
    }
    let ghost after = p.subrange(from as int, n as int);
    assert(after[0] == pieces@[from as int]@);
    let tail = if n - from == 1 && pieces[from].len() == 0 {
        Some(Vec::new())
    } else {
        parse_tail(&pieces, from, n)
    };
    let head = parse_groups(&pieces, 0, k);
    match (head, tail) {
        (Some(head), Some(tail)) => {
            if k + tail.len() > 7 {
                return None;
            }
            let mut groups = head;
            let fill: usize = 8 - k - tail.len();
            let ghost before = groups@;
            let mut z: usize = 0;
            while z < fill
                invariant
                    z <= fill,
                    groups@ == before + zero_groups(z as int),
                decreases fill - z,
            {
                groups.push(0);
                z += 1;
                assert(groups@ == before + zero_groups(z as int));
            }
            let ghost filled = groups@;
            let mut i: usize = 0;
            while i < tail.len()
                invariant
                    i <= tail.len(),
                    groups@ == filled + tail@.subrange(0, i as int),
                decreases tail.len() - i,
            {
                groups.push(tail[i]);
                i += 1;
                assert(groups@ == filled + tail@.subrange(0, i as int));
            }
            assert(tail@.subrange(0, tail.len() as int) == tail@);
            Some(groups)
        },
        _ => None,
    }
}

} // verus!
