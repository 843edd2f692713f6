//! Address types of the library and verified parsers for the textual forms
//! that the native surface hands back.
//!
//! IPv4 text is four decimal octets separated by dots, each octet one to three
//! digits, value at most 255, with no leading zero. IPv6 text follows the
//! standard representation: colon-separated groups of one to four hexadecimal
//! digits, at most one `::` standing for one or more zero groups, and an
//! optional embedded IPv4 quad in place of the last two groups.

use vstd::prelude::*;
use crate::text::find_range;

verus! {

/// An IPv4 address, as four octets.
#[derive(Clone, Copy, PartialEq, Eq, Debug)]
pub struct Ipv4Address {
    pub octets: [u8; 4],
}

/// An IPv6 address, as eight 16-bit groups.
#[derive(Clone, Copy, PartialEq, Eq, Debug)]
pub struct Ipv6Address {
    pub segments: [u16; 8],
}

/// An address of either family.
#[derive(Clone, Copy, PartialEq, Eq, Debug)]
pub enum IpAddress {
    V4(Ipv4Address),
    V6(Ipv6Address),
}

/// The IPv4 and IPv6 addresses assigned to a node.
#[derive(Clone, Copy, PartialEq, Eq, Debug)]
pub struct IpPair {
    pub ipv4: Ipv4Address,
    pub ipv6: Ipv6Address,
}

/// True for an ASCII decimal digit.
pub open spec fn is_digit(b: u8) -> bool {
    0x30 <= b && b <= 0x39
}

/// The value of an ASCII decimal digit.
pub open spec fn digit_val(b: u8) -> nat
    recommends
        is_digit(b),
{
    (b - 0x30) as nat
}

/// True when every byte of `s` is an ASCII decimal digit.
pub open spec fn all_digits(s: Seq<u8>) -> bool {
    forall|i: int| 0 <= i < s.len() ==> is_digit(s[i])
}

/// The value of `s` read as a decimal number.
pub open spec fn dec_val(s: Seq<u8>) -> nat
    decreases s.len(),
{
    if s.len() == 0 {
        0
    } else {
        dec_val(s.drop_last()) * 10 + digit_val(s.last())
    }
}

/// True when `s` is the text of one IPv4 octet: one to three decimal digits,
/// no leading zero, value at most 255.
pub open spec fn is_dec_octet(s: Seq<u8>) -> bool {
    &&& 1 <= s.len() <= 3
    &&& all_digits(s)
    &&& dec_val(s) <= 255
    &&& (s.len() > 1 ==> s[0] != 0x30)
}

/// True when `s` splits at dot positions `i < j < k` into the four octets
/// `a.b.c.d`.
pub open spec fn is_ipv4_fields(
    s: Seq<u8>,
    i: int,
    j: int,
    k: int,
    a: u8,
    b: u8,
    c: u8,
    d: u8,
) -> bool {
    &&& 0 <= i < j < k < s.len()
    &&& s[i] == 0x2E && s[j] == 0x2E && s[k] == 0x2E
    &&& is_dec_octet(s.subrange(0, i)) && dec_val(s.subrange(0, i)) == a
    &&& is_dec_octet(s.subrange(i + 1, j)) && dec_val(s.subrange(i + 1, j)) == b
    &&& is_dec_octet(s.subrange(j + 1, k)) && dec_val(s.subrange(j + 1, k)) == c
    &&& is_dec_octet(s.subrange(k + 1, s.len() as int)) && dec_val(
        s.subrange(k + 1, s.len() as int),
    ) == d
}

/// True when `s` is the text of the IPv4 address `a.b.c.d`.
pub open spec fn is_ipv4_text(s: Seq<u8>, a: u8, b: u8, c: u8, d: u8) -> bool {
    exists|i: int, j: int, k: int| is_ipv4_fields(s, i, j, k, a, b, c, d)
}

/// In IPv4 text every byte is a digit or a dot, so the three dots of any
/// valid split are exactly the dots of the text.
pub proof fn lemma_ipv4_bytes(s: Seq<u8>, i: int, j: int, k: int, a: u8, b: u8, c: u8, d: u8)
    requires
        is_ipv4_fields(s, i, j, k, a, b, c, d),
    ensures
        forall|m: int| 0 <= m < s.len() ==> (is_digit(s[m]) || m == i || m == j || m == k),
{
    assert forall|m: int| 0 <= m < s.len() implies (is_digit(s[m]) || m == i || m == j || m == k) by {
        if m != i && m != j && m != k {
            if m < i {
                assert(s.subrange(0, i)[m] == s[m]);
            } else if m < j {
                assert(s.subrange(i + 1, j)[m - i - 1] == s[m]);
            } else if m < k {
                assert(s.subrange(j + 1, k)[m - j - 1] == s[m]);
            } else {
                assert(s.subrange(k + 1, s.len() as int)[m - k - 1] == s[m]);
            }
        }
    }
}

/// Two valid splits of the same IPv4 text agree, so the octets of an address
/// text are unique.
pub proof fn lemma_ipv4_unique(
    s: Seq<u8>,
    a1: u8,
    b1: u8,
    c1: u8,
    d1: u8,
    a2: u8,
    b2: u8,
    c2: u8,
    d2: u8,
)
    requires
        is_ipv4_text(s, a1, b1, c1, d1),
        is_ipv4_text(s, a2, b2, c2, d2),
    ensures
        a1 == a2 && b1 == b2 && c1 == c2 && d1 == d2,
{
    let (i1, j1, k1): (int, int, int) = choose|i: int, j: int, k: int|
        is_ipv4_fields(s, i, j, k, a1, b1, c1, d1);
    let (i2, j2, k2): (int, int, int) = choose|i: int, j: int, k: int|
        is_ipv4_fields(s, i, j, k, a2, b2, c2, d2);
    lemma_ipv4_bytes(s, i1, j1, k1, a1, b1, c1, d1);
    lemma_ipv4_bytes(s, i2, j2, k2, a2, b2, c2, d2);
    assert(!is_digit(0x2E));
    assert(i1 == i2 && j1 == j2 && k1 == k2);
}

/// A decimal numeral of at most three digits stays below 1000.
proof fn lemma_dec_val_small(s: Seq<u8>)
    requires
        all_digits(s),
        s.len() <= 3,
    ensures
        dec_val(s) <= (if s.len() == 0 {
            0nat
        } else if s.len() == 1 {
            9nat
        } else if s.len() == 2 {
            99nat
        } else {
            999nat
        }),
    decreases s.len(),
{
    if s.len() > 0 {
        assert(all_digits(s.drop_last()));
        lemma_dec_val_small(s.drop_last());
        assert(is_digit(s.last()));
    }
}

/// Parses `s[from..to]` as one IPv4 octet.
fn parse_dec_octet(s: &[u8], from: usize, to: usize) -> (r: Option<u8>)
    requires
        from <= to <= s@.len(),
    ensures
        match r {
            Some(v) => is_dec_octet(s@.subrange(from as int, to as int)) && dec_val(
                s@.subrange(from as int, to as int),
            ) == v,
            None => !is_dec_octet(s@.subrange(from as int, to as int)),
        },
{
    let ghost sub = s@.subrange(from as int, to as int);
    let len = to - from;
    if len < 1 || len > 3 {
        return None;
    }
    if len > 1 && s[from] == 0x30 {
        proof {
            assert(sub[0] == s@[from as int]);
        }
        return None;
    }
    let mut val: u32 = 0;
    let mut idx: usize = from;
    while idx < to
        invariant
            from <= idx <= to <= s@.len(),
            to - from <= 3,
            sub == s@.subrange(from as int, to as int),
            all_digits(sub.take(idx - from)),
            val == dec_val(sub.take(idx - from)),
        decreases to - idx,
    {
        let bch = s[idx];
        if bch < 0x30 || bch > 0x39 {
            proof {
                assert(sub[idx - from] == s@[idx as int]);
                assert(!is_digit(sub[idx - from]));
            }
            return None;
        }
        proof {
            lemma_dec_val_small(sub.take(idx - from));
            assert(sub.take(idx + 1 - from).drop_last() =~= sub.take(idx - from));
            assert(sub.take(idx + 1 - from).last() == sub[idx - from]);
            assert(sub[idx - from] == s@[idx as int]);
        }
        val = val * 10 + (bch - 0x30) as u32;
        idx += 1;
    }
    proof {
        assert(sub.take(to - from) =~= sub);
    }
    if val > 255 {
        return None;
    }
    Some(val as u8)
}

/// Parses `s[from..to]` as IPv4 address text.
pub fn parse_ipv4(s: &[u8], from: usize, to: usize) -> (r: Option<Ipv4Address>)
    requires
        from <= to <= s@.len(),
    ensures
        match r {
            Some(ip) => is_ipv4_text(
                s@.subrange(from as int, to as int),
                ip.octets@[0],
                ip.octets@[1],
                ip.octets@[2],
                ip.octets@[3],
            ),
            None => forall|a: u8, b: u8, c: u8, d: u8|
                !is_ipv4_text(s@.subrange(from as int, to as int), a, b, c, d),
        },
{
    let ghost sub = s@.subrange(from as int, to as int);
    // Collect the dot positions; a valid address has exactly three.
    let mut n: usize = 0;
    let mut p1: usize = 0;
    let mut p2: usize = 0;
    let mut p3: usize = 0;
    let mut extra: usize = 0;
    let mut has_extra: bool = false;
    let mut idx: usize = from;
    while idx < to
        invariant
            from <= idx <= to <= s@.len(),
            sub == s@.subrange(from as int, to as int),
            n <= 3,
            n >= 1 ==> from <= p1 < idx && s@[p1 as int] == 0x2E,
            n >= 2 ==> p1 < p2 < idx && s@[p2 as int] == 0x2E,
            n >= 3 ==> p2 < p3 < idx && s@[p3 as int] == 0x2E,
            has_extra ==> n == 3 && p3 < extra < idx && s@[extra as int] == 0x2E,
            !has_extra ==> forall|m: int|
                from <= m < idx && s@[m] == 0x2E ==> ((n >= 1 && m == p1) || (n >= 2 && m == p2)
                    || (n >= 3 && m == p3)),
        decreases to - idx,
    {
        if s[idx] == 0x2E {
            if n == 0 {
                p1 = idx;
                n = 1;
            } else if n == 1 {
                p2 = idx;
                n = 2;
            } else if n == 2 {
                p3 = idx;
                n = 3;
            } else if !has_extra {
                extra = idx;
                has_extra = true;
            }
        }
        idx += 1;
    }
    proof {
        assert(forall|m: int| 0 <= m < sub.len() ==> sub[m] == s@[from + m]);
    }
    if has_extra {
        proof {
            assert forall|a: u8, b: u8, c: u8, d: u8| !is_ipv4_text(sub, a, b, c, d) by {
                if is_ipv4_text(sub, a, b, c, d) {
                    let (i, j, k): (int, int, int) = choose|i: int, j: int, k: int|
                        is_ipv4_fields(sub, i, j, k, a, b, c, d);
                    lemma_ipv4_bytes(sub, i, j, k, a, b, c, d);
                    // p1 < p2 < p3 < extra are four distinct dots of sub, but
                    // every dot is one of i, j, k.
                    assert(sub[p1 - from] == 0x2E && !is_digit(sub[p1 - from]));
                    assert(sub[p2 - from] == 0x2E && !is_digit(sub[p2 - from]));
                    assert(sub[p3 - from] == 0x2E && !is_digit(sub[p3 - from]));
                    assert(sub[extra - from] == 0x2E && !is_digit(sub[extra - from]));
                    assert(false);
                }
            }
        }
        return None;
    }
    if n != 3 {
        proof {
            assert forall|a: u8, b: u8, c: u8, d: u8| !is_ipv4_text(sub, a, b, c, d) by {
                if is_ipv4_text(sub, a, b, c, d) {
                    let (i, j, k): (int, int, int) = choose|i: int, j: int, k: int|
                        is_ipv4_fields(sub, i, j, k, a, b, c, d);
                    // i, j, k are three distinct dots of sub, each one of the
                    // at most two recorded positions.
                    assert(s@[from + i] == 0x2E);
                    assert(s@[from + j] == 0x2E);
                    assert(s@[from + k] == 0x2E);
                    assert(false);
                }
            }
        }
        return None;
    }
    // Exactly three dots: the only possible split.
    let o0 = parse_dec_octet(s, from, p1);
    let o1 = parse_dec_octet(s, p1 + 1, p2);
    let o2 = parse_dec_octet(s, p2 + 1, p3);
    let o3 = parse_dec_octet(s, p3 + 1, to);
    let ghost gi = p1 - from;
    let ghost gj = p2 - from;
    let ghost gk = p3 - from;
    proof {
        assert(sub.subrange(0, gi) =~= s@.subrange(from as int, p1 as int));
        assert(sub.subrange(gi + 1, gj) =~= s@.subrange(p1 + 1, p2 as int));
        assert(sub.subrange(gj + 1, gk) =~= s@.subrange(p2 + 1, p3 as int));
        assert(sub.subrange(gk + 1, sub.len() as int) =~= s@.subrange(p3 + 1, to as int));
    }
    match (o0, o1, o2, o3) {
        (Some(a), Some(b), Some(c), Some(d)) => {
            let ip = Ipv4Address { octets: [a, b, c, d] };
            proof {
                assert(sub[gi] == 0x2E && sub[gj] == 0x2E && sub[gk] == 0x2E);
                assert(is_ipv4_fields(sub, gi, gj, gk, a, b, c, d));
                assert(ip.octets@[0] == a && ip.octets@[1] == b && ip.octets@[2] == c
                    && ip.octets@[3] == d);
            }
            Some(ip)
        },
        _ => {
            proof {
                assert forall|a: u8, b: u8, c: u8, d: u8| !is_ipv4_text(sub, a, b, c, d) by {
                    if is_ipv4_text(sub, a, b, c, d) {
                        let (i, j, k): (int, int, int) = choose|i: int, j: int, k: int|
                            is_ipv4_fields(sub, i, j, k, a, b, c, d);
                        lemma_ipv4_bytes(sub, i, j, k, a, b, c, d);
                        // The witness dots can only be the three recorded ones.
                        assert(s@[from + i] == 0x2E);
                        assert(s@[from + j] == 0x2E);
                        assert(s@[from + k] == 0x2E);
                        assert(sub[gi] == 0x2E && !is_digit(sub[gi]));
                        assert(sub[gj] == 0x2E && !is_digit(sub[gj]));
                        assert(sub[gk] == 0x2E && !is_digit(sub[gk]));
                        assert(i == gi && j == gj && k == gk);
                        assert(false);
                    }
                }
            }
            None
        },
    }
}

/// True for an ASCII hexadecimal digit, either case.
pub open spec fn is_hex_digit(b: u8) -> bool {
    is_digit(b) || (0x41 <= b && b <= 0x46) || (0x61 <= b && b <= 0x66)
}

/// The value of an ASCII hexadecimal digit.
pub open spec fn hex_digit_val(b: u8) -> nat
    recommends
        is_hex_digit(b),
{
    if is_digit(b) {
        (b - 0x30) as nat
    } else if 0x41 <= b && b <= 0x46 {
        (b - 0x41 + 10) as nat
    } else {
        (b - 0x61 + 10) as nat
    }
}

/// True when every byte of `s` is an ASCII hexadecimal digit.
pub open spec fn all_hex(s: Seq<u8>) -> bool {
    forall|i: int| 0 <= i < s.len() ==> is_hex_digit(s[i])
}

/// The value of `s` read as a hexadecimal number.
pub open spec fn hex_val(s: Seq<u8>) -> nat
    decreases s.len(),
{
    if s.len() == 0 {
        0
    } else {
        hex_val(s.drop_last()) * 16 + hex_digit_val(s.last())
    }
}

/// True when `s` is the text of one IPv6 group: one to four hexadecimal
/// digits; leading zeros are allowed.
pub open spec fn is_hex_group(s: Seq<u8>) -> bool {
    1 <= s.len() <= 4 && all_hex(s)
}

/// A hexadecimal numeral of at most four digits fits in 16 bits.
proof fn lemma_hex_val_small(s: Seq<u8>)
    requires
        all_hex(s),
        s.len() <= 4,
    ensures
        hex_val(s) <= (if s.len() == 0 {
            0nat
        } else if s.len() == 1 {
            0xFnat
        } else if s.len() == 2 {
            0xFFnat
        } else if s.len() == 3 {
            0xFFFnat
        } else {
            0xFFFFnat
        }),
    decreases s.len(),
{
    if s.len() > 0 {
        assert(all_hex(s.drop_last()));
        lemma_hex_val_small(s.drop_last());
        assert(is_hex_digit(s.last()));
    }
}

/// True when `s` is the values `vals` written as hexadecimal groups joined by
/// single colons.
pub open spec fn group_seq(s: Seq<u8>, vals: Seq<u16>) -> bool
    decreases vals.len(),
{
    if vals.len() == 0 {
        s.len() == 0
    } else if vals.len() == 1 {
        is_hex_group(s) && hex_val(s) == vals[0] as nat
    } else {
        exists|i: int|
            {
                &&& 0 <= i < s.len()
                &&& s[i] == 0x3A
                &&& is_hex_group(s.subrange(0, i))
                &&& hex_val(s.subrange(0, i)) == vals[0] as nat
                &&& group_seq(s.subrange(i + 1, s.len() as int), vals.drop_first())
            }
    }
}

/// A group list writes an empty text exactly for an empty value list.
proof fn lemma_group_seq_nonempty(s: Seq<u8>, vals: Seq<u16>)
    requires
        group_seq(s, vals),
        vals.len() >= 1,
    ensures
        s.len() >= 1,
{
    if vals.len() >= 2 {
        let i = choose|i: int|
            {
                &&& 0 <= i < s.len()
                &&& s[i] == 0x3A
                &&& is_hex_group(s.subrange(0, i))
                &&& hex_val(s.subrange(0, i)) == vals[0] as nat
                &&& group_seq(s.subrange(i + 1, s.len() as int), vals.drop_first())
            };
        assert(0 <= i < s.len());
    }
}

/// The text of a group list holds only hexadecimal digits and single colons:
/// no leading or trailing colon and no two adjacent colons.
pub proof fn lemma_group_seq_shape(s: Seq<u8>, vals: Seq<u16>)
    requires
        group_seq(s, vals),
    ensures
        s.len() > 0 ==> is_hex_digit(s[0]),
        s.len() > 0 ==> is_hex_digit(s[s.len() - 1]),
        forall|m: int| 0 <= m < s.len() - 1 ==> !(#[trigger] s[m] == 0x3A && s[m + 1] == 0x3A),
    decreases vals.len(),
{
    if vals.len() >= 2 {
        let i = choose|i: int|
            {
                &&& 0 <= i < s.len()
                &&& s[i] == 0x3A
                &&& is_hex_group(s.subrange(0, i))
                &&& hex_val(s.subrange(0, i)) == vals[0] as nat
                &&& group_seq(s.subrange(i + 1, s.len() as int), vals.drop_first())
            };
        let head = s.subrange(0, i);
        let rest = s.subrange(i + 1, s.len() as int);
        lemma_group_seq_shape(rest, vals.drop_first());
        lemma_group_seq_nonempty(rest, vals.drop_first());
        assert(forall|q: int| 0 <= q < head.len() ==> head[q] == s[q]);
        assert(forall|q: int| 0 <= q < rest.len() ==> rest[q] == s[i + 1 + q]);
        assert(is_hex_digit(s[0])) by {
            assert(head[0] == s[0]);
        }
        assert(is_hex_digit(s[s.len() - 1])) by {
            assert(rest[rest.len() - 1] == s[s.len() - 1]);
        }
        assert forall|m: int|
            0 <= m < s.len() - 1 implies !(#[trigger] s[m] == 0x3A && s[m + 1] == 0x3A) by {
            if m < i - 1 {
                assert(is_hex_digit(head[m]));
            } else if m == i - 1 {
                assert(is_hex_digit(head[i - 1]));
            } else if m == i {
                assert(rest[0] == s[i + 1]);
                assert(is_hex_digit(rest[0]));
            } else {
                assert(rest[m - i - 1] == s[m]);
                assert(rest[m - i] == s[m + 1]);
            }
        }
    }
}

/// When a group list's text has a colon, its split stands at the first colon.
proof fn lemma_group_split_at_first_colon(s: Seq<u8>, vals: Seq<u16>, ci: int)
    requires
        group_seq(s, vals),
        vals.len() >= 2,
        0 <= ci < s.len(),
        s[ci] == 0x3A,
        forall|j: int| 0 <= j < ci ==> s[j] != 0x3A,
    ensures
        is_hex_group(s.subrange(0, ci)),
        hex_val(s.subrange(0, ci)) == vals[0] as nat,
        group_seq(s.subrange(ci + 1, s.len() as int), vals.drop_first()),
{
    let i = choose|i: int|
        {
            &&& 0 <= i < s.len()
            &&& s[i] == 0x3A
            &&& is_hex_group(s.subrange(0, i))
            &&& hex_val(s.subrange(0, i)) == vals[0] as nat
            &&& group_seq(s.subrange(i + 1, s.len() as int), vals.drop_first())
        };
    assert(i == ci) by {
        if i > ci {
            assert(s.subrange(0, i)[ci] == s[ci]);
            assert(is_hex_digit(s[ci]));
        }
    }
}

/// One text is at most one group list.
pub proof fn lemma_group_seq_unique(s: Seq<u8>, v1: Seq<u16>, v2: Seq<u16>)
    requires
        group_seq(s, v1),
        group_seq(s, v2),
    ensures
        v1 == v2,
    decreases v1.len(),
{
    if v1.len() == 0 {
        if v2.len() >= 1 {
            lemma_group_seq_nonempty(s, v2);
        }
        assert(v1 =~= v2);
    } else if v1.len() == 1 {
        if v2.len() >= 2 {
            let i = choose|i: int|
                {
                    &&& 0 <= i < s.len()
                    &&& s[i] == 0x3A
                    &&& is_hex_group(s.subrange(0, i))
                    &&& hex_val(s.subrange(0, i)) == v2[0] as nat
                    &&& group_seq(s.subrange(i + 1, s.len() as int), v2.drop_first())
                };
            assert(is_hex_digit(s[i]));
            assert(false);
        }
        assert(v2.len() == 1);
        assert(v1[0] as nat == hex_val(s) == v2[0] as nat);
        assert(v1 =~= v2);
    } else {
        let i = choose|i: int|
            {
                &&& 0 <= i < s.len()
                &&& s[i] == 0x3A
                &&& is_hex_group(s.subrange(0, i))
                &&& hex_val(s.subrange(0, i)) == v1[0] as nat
                &&& group_seq(s.subrange(i + 1, s.len() as int), v1.drop_first())
            };
        if v2.len() == 0 {
            assert(false);
        } else if v2.len() == 1 {
            assert(is_hex_digit(s[i]));
            assert(false);
        } else {
            let i2 = choose|q: int|
                {
                    &&& 0 <= q < s.len()
                    &&& s[q] == 0x3A
                    &&& is_hex_group(s.subrange(0, q))
                    &&& hex_val(s.subrange(0, q)) == v2[0] as nat
                    &&& group_seq(s.subrange(q + 1, s.len() as int), v2.drop_first())
                };
            assert(i == i2) by {
                if i < i2 {
                    assert(s.subrange(0, i2)[i] == s[i]);
                    assert(is_hex_digit(s[i]));
                } else if i2 < i {
                    assert(s.subrange(0, i)[i2] == s[i2]);
                    assert(is_hex_digit(s[i2]));
                }
            }
            lemma_group_seq_unique(
                s.subrange(i + 1, s.len() as int),
                v1.drop_first(),
                v2.drop_first(),
            );
            assert(v1[0] == v2[0]);
            assert forall|q: int| 0 <= q < v1.len() implies v1[q] == v2[q] by {
                if q >= 1 {
                    assert(v1.drop_first()[q - 1] == v1[q]);
                    assert(v2.drop_first()[q - 1] == v2[q]);
                }
            }
            assert(v1 =~= v2);
        }
    }
}

/// Parses `s[from..to]` as one IPv6 group.
fn parse_hex_group(s: &[u8], from: usize, to: usize) -> (r: Option<u16>)
    requires
        from <= to <= s@.len(),
    ensures
        match r {
            Some(v) => is_hex_group(s@.subrange(from as int, to as int)) && hex_val(
                s@.subrange(from as int, to as int),
            ) == v as nat,
            None => !is_hex_group(s@.subrange(from as int, to as int)),
        },
{
    let ghost sub = s@.subrange(from as int, to as int);
    let len = to - from;
    if len < 1 || len > 4 {
        return None;
    }
    let mut val: u32 = 0;
    let mut idx: usize = from;
    while idx < to
        invariant
            from <= idx <= to <= s@.len(),
            to - from <= 4,
            sub == s@.subrange(from as int, to as int),
            all_hex(sub.take(idx - from)),
            val == hex_val(sub.take(idx - from)),
        decreases to - idx,
    {
        let bch = s[idx];
        let dv: u32 = if 0x30 <= bch && bch <= 0x39 {
            (bch - 0x30) as u32
        } else if 0x41 <= bch && bch <= 0x46 {
            (bch - 0x41) as u32 + 10
        } else if 0x61 <= bch && bch <= 0x66 {
            (bch - 0x61) as u32 + 10
        } else {
            proof {
                assert(sub[idx - from] == s@[idx as int]);
                assert(!is_hex_digit(sub[idx - from]));
            }
            return None;
        };
        proof {
            lemma_hex_val_small(sub.take(idx - from));
            assert(sub.take(idx + 1 - from).drop_last() =~= sub.take(idx - from));
            assert(sub.take(idx + 1 - from).last() == sub[idx - from]);
            assert(sub[idx - from] == s@[idx as int]);
        }
        val = val * 16 + dv;
        idx += 1;
    }
    proof {
        assert(sub.take(to - from) =~= sub);
        lemma_hex_val_small(sub);
    }
    Some(val as u16)
}

/// Parses `s[from..to]` as a colon-joined list of IPv6 groups.
fn parse_groups(s: &[u8], from: usize, to: usize) -> (r: Option<Vec<u16>>)
    requires
        from <= to <= s@.len(),
    ensures
        match r {
            Some(v) => group_seq(s@.subrange(from as int, to as int), v@),
            None => forall|v: Seq<u16>| !group_seq(s@.subrange(from as int, to as int), v),
        },
    decreases to - from,
{
    let ghost sub = s@.subrange(from as int, to as int);
    proof {
        assert(forall|m: int| 0 <= m < sub.len() ==> sub[m] == s@[from + m]);
    }
    if from == to {
        let v: Vec<u16> = Vec::new();
        return Some(v);
    }
    match find_range(s, from, to, 0x3A) {
        None => {
            match parse_hex_group(s, from, to) {
                Some(g) => {
                    let mut v: Vec<u16> = Vec::new();
                    v.push(g);
                    proof {
                        assert(v@ =~= seq![g]);
                    }
                    Some(v)
                },
                None => {
                    proof {
                        assert forall|v: Seq<u16>| !group_seq(sub, v) by {
                            if group_seq(sub, v) {
                                if v.len() >= 2 {
                                    let i = choose|i: int|
                                        {
                                            &&& 0 <= i < sub.len()
                                            &&& sub[i] == 0x3A
                                            &&& is_hex_group(sub.subrange(0, i))
                                            &&& hex_val(sub.subrange(0, i)) == v[0] as nat
                                            &&& group_seq(
                                                sub.subrange(i + 1, sub.len() as int),
                                                v.drop_first(),
                                            )
                                        };
                                    assert(s@[from + i] == 0x3A);
                                    assert(false);
                                }
                            }
                        }
                    }
                    None
                },
            }
        },
        Some(ci) => {
            let ghost gi = ci - from;
            proof {
                assert(sub[gi] == 0x3A);
                assert(forall|j: int| 0 <= j < gi ==> sub[j] != 0x3A);
                assert(sub.subrange(0, gi) =~= s@.subrange(from as int, ci as int));
                assert(sub.subrange(gi + 1, sub.len() as int) =~= s@.subrange(ci + 1, to as int));
            }
            let head = parse_hex_group(s, from, ci);
            match head {
                None => {
                    proof {
                        assert forall|v: Seq<u16>| !group_seq(sub, v) by {
                            if group_seq(sub, v) {
                                if v.len() == 1 {
                                    assert(is_hex_digit(sub[gi]));
                                } else if v.len() >= 2 {
                                    lemma_group_split_at_first_colon(sub, v, gi);
                                }
                            }
                        }
                    }
                    None
                },
                Some(g0) => {
                    let rest = parse_groups(s, ci + 1, to);
                    match rest {
                        None => {
                            proof {
                                assert forall|v: Seq<u16>| !group_seq(sub, v) by {
                                    if group_seq(sub, v) {
                                        if v.len() == 1 {
                                            assert(is_hex_digit(sub[gi]));
                                        } else if v.len() >= 2 {
                                            lemma_group_split_at_first_colon(sub, v, gi);
                                        }
                                    }
                                }
                            }
                            None
                        },
                        Some(mut rv) => {
                            if rv.len() == 0 {
                                proof {
                                    assert(s@.subrange(ci + 1, to as int).len() == 0);
                                    assert forall|v: Seq<u16>| !group_seq(sub, v) by {
                                        if group_seq(sub, v) {
                                            if v.len() == 1 {
                                                assert(is_hex_digit(sub[gi]));
                                            } else if v.len() >= 2 {
                                                lemma_group_split_at_first_colon(sub, v, gi);
                                                lemma_group_seq_nonempty(
                                                    sub.subrange(gi + 1, sub.len() as int),
                                                    v.drop_first(),
                                                );
                                            }
                                        }
                                    }
                                }
                                return None;
                            }
                            let ghost rvs = rv@;
                            let mut v: Vec<u16> = Vec::new();
                            v.push(g0);
                            v.append(&mut rv);
                            proof {
                                assert(v@ =~= seq![g0] + rvs);
                                assert(v@.drop_first() =~= rvs);
                                assert(v@.len() >= 2);
                                assert({
                                    &&& 0 <= gi < sub.len()
                                    &&& sub[gi] == 0x3A
                                    &&& is_hex_group(sub.subrange(0, gi))
                                    &&& hex_val(sub.subrange(0, gi)) == v@[0] as nat
                                    &&& group_seq(
                                        sub.subrange(gi + 1, sub.len() as int),
                                        v@.drop_first(),
                                    )
                                });
                                assert(group_seq(sub, v@));
                            }
                            Some(v)
                        },
                    }
                },
            }
        },
    }
}

/// True when `s` is IPv4 text whose four octets fill the two 16-bit groups
/// `hi`, `lo`.
pub open spec fn is_v4_tail(s: Seq<u8>, hi: u16, lo: u16) -> bool {
    exists|a: u8, b: u8, c: u8, d: u8|
        {
            &&& is_ipv4_text(s, a, b, c, d)
            &&& hi as int == a as int * 256 + b as int
            &&& lo as int == c as int * 256 + d as int
        }
}

/// True when `s` is the values `vals` written as hexadecimal groups joined by
/// single colons, where the last two values may instead stand as one embedded
/// IPv4 quad.
pub open spec fn tail_seq(s: Seq<u8>, vals: Seq<u16>) -> bool
    decreases vals.len(),
{
    if vals.len() == 0 {
        s.len() == 0
    } else if vals.len() == 1 {
        is_hex_group(s) && hex_val(s) == vals[0] as nat
    } else {
        ||| exists|i: int|
            {
                &&& 0 <= i < s.len()
                &&& s[i] == 0x3A
                &&& is_hex_group(s.subrange(0, i))
                &&& hex_val(s.subrange(0, i)) == vals[0] as nat
                &&& tail_seq(s.subrange(i + 1, s.len() as int), vals.drop_first())
            }
        ||| (vals.len() == 2 && is_v4_tail(s, vals[0], vals[1]))
    }
}

/// IPv4 text is nonempty, holds no colon, and starts and ends with a digit.
proof fn lemma_v4_text_bytes(s: Seq<u8>, a: u8, b: u8, c: u8, d: u8)
    requires
        is_ipv4_text(s, a, b, c, d),
    ensures
        s.len() >= 1,
        forall|m: int| 0 <= m < s.len() ==> #[trigger] s[m] != 0x3A,
        is_digit(s[0]),
        is_digit(s[s.len() - 1]),
{
    let (i, j, k): (int, int, int) = choose|i: int, j: int, k: int|
        is_ipv4_fields(s, i, j, k, a, b, c, d);
    lemma_ipv4_bytes(s, i, j, k, a, b, c, d);
    assert(s.subrange(0, i).len() >= 1);
    assert(s.subrange(0, i)[0] == s[0]);
    assert(is_digit(s.subrange(0, i)[0]));
    let last = s.subrange(k + 1, s.len() as int);
    assert(last.len() >= 1);
    assert(last[last.len() - 1] == s[s.len() - 1]);
    assert(is_digit(last[last.len() - 1]));
    assert forall|m: int| 0 <= m < s.len() implies #[trigger] s[m] != 0x3A by {
        assert(is_digit(s[m]) || m == i || m == j || m == k);
    }
}

/// A tail list writes an empty text exactly for an empty value list.
proof fn lemma_tail_seq_nonempty(s: Seq<u8>, vals: Seq<u16>)
    requires
        tail_seq(s, vals),
        vals.len() >= 1,
    ensures
        s.len() >= 1,
{
    if vals.len() >= 2 {
        if vals.len() == 2 && is_v4_tail(s, vals[0], vals[1]) {
            let (a, b, c, d): (u8, u8, u8, u8) = choose|a: u8, b: u8, c: u8, d: u8|
                {
                    &&& is_ipv4_text(s, a, b, c, d)
                    &&& vals[0] as int == a as int * 256 + b as int
                    &&& vals[1] as int == c as int * 256 + d as int
                };
            lemma_v4_text_bytes(s, a, b, c, d);
        } else {
            let i = choose|i: int|
                {
                    &&& 0 <= i < s.len()
                    &&& s[i] == 0x3A
                    &&& is_hex_group(s.subrange(0, i))
                    &&& hex_val(s.subrange(0, i)) == vals[0] as nat
                    &&& tail_seq(s.subrange(i + 1, s.len() as int), vals.drop_first())
                };
            assert(0 <= i < s.len());
        }
    }
}

/// The text of a tail list starts and ends with a hexadecimal digit and holds
/// no two adjacent colons.
pub proof fn lemma_tail_seq_shape(s: Seq<u8>, vals: Seq<u16>)
    requires
        tail_seq(s, vals),
    ensures
        s.len() > 0 ==> is_hex_digit(s[0]),
        s.len() > 0 ==> is_hex_digit(s[s.len() - 1]),
        forall|m: int| 0 <= m < s.len() - 1 ==> !(#[trigger] s[m] == 0x3A && s[m + 1] == 0x3A),
    decreases vals.len(),
{
    if vals.len() >= 2 {
        if vals.len() == 2 && is_v4_tail(s, vals[0], vals[1]) {
            let (a, b, c, d): (u8, u8, u8, u8) = choose|a: u8, b: u8, c: u8, d: u8|
                {
                    &&& is_ipv4_text(s, a, b, c, d)
                    &&& vals[0] as int == a as int * 256 + b as int
                    &&& vals[1] as int == c as int * 256 + d as int
                };
            lemma_v4_text_bytes(s, a, b, c, d);
        } else {
            let i = choose|i: int|
                {
                    &&& 0 <= i < s.len()
                    &&& s[i] == 0x3A
                    &&& is_hex_group(s.subrange(0, i))
                    &&& hex_val(s.subrange(0, i)) == vals[0] as nat
                    &&& tail_seq(s.subrange(i + 1, s.len() as int), vals.drop_first())
                };
            let head = s.subrange(0, i);
            let rest = s.subrange(i + 1, s.len() as int);
            lemma_tail_seq_shape(rest, vals.drop_first());
            lemma_tail_seq_nonempty(rest, vals.drop_first());
            assert(forall|q: int| 0 <= q < head.len() ==> head[q] == s[q]);
            assert(forall|q: int| 0 <= q < rest.len() ==> rest[q] == s[i + 1 + q]);
            assert(is_hex_digit(s[0])) by {
                assert(head[0] == s[0]);
            }
            assert(is_hex_digit(s[s.len() - 1])) by {
                assert(rest[rest.len() - 1] == s[s.len() - 1]);
            }
            assert forall|m: int|
                0 <= m < s.len() - 1 implies !(#[trigger] s[m] == 0x3A && s[m + 1] == 0x3A) by {
                if m < i - 1 {
                    assert(is_hex_digit(head[m]));
                } else if m == i - 1 {
                    assert(is_hex_digit(head[i - 1]));
                } else if m == i {
                    assert(rest[0] == s[i + 1]);
                    assert(is_hex_digit(rest[0]));
                } else {
                    assert(rest[m - i - 1] == s[m]);
                    assert(rest[m - i] == s[m + 1]);
                }
            }
        }
    }
}

/// When a tail list's text has a colon, its split stands at the first colon.
proof fn lemma_tail_split_at_first_colon(s: Seq<u8>, vals: Seq<u16>, ci: int)
    requires
        tail_seq(s, vals),
        vals.len() >= 2,
        0 <= ci < s.len(),
        s[ci] == 0x3A,
        forall|j: int| 0 <= j < ci ==> s[j] != 0x3A,
    ensures
        is_hex_group(s.subrange(0, ci)),
        hex_val(s.subrange(0, ci)) == vals[0] as nat,
        tail_seq(s.subrange(ci + 1, s.len() as int), vals.drop_first()),
{
    if vals.len() == 2 && is_v4_tail(s, vals[0], vals[1]) {
        let (a, b, c, d): (u8, u8, u8, u8) = choose|a: u8, b: u8, c: u8, d: u8|
            {
                &&& is_ipv4_text(s, a, b, c, d)
                &&& vals[0] as int == a as int * 256 + b as int
                &&& vals[1] as int == c as int * 256 + d as int
            };
        lemma_v4_text_bytes(s, a, b, c, d);
        assert(false);
    }
    let i = choose|i: int|
        {
            &&& 0 <= i < s.len()
            &&& s[i] == 0x3A
            &&& is_hex_group(s.subrange(0, i))
            &&& hex_val(s.subrange(0, i)) == vals[0] as nat
            &&& tail_seq(s.subrange(i + 1, s.len() as int), vals.drop_first())
        };
    assert(i == ci) by {
        if i > ci {
            assert(s.subrange(0, i)[ci] == s[ci]);
            assert(is_hex_digit(s[ci]));
        }
    }
}

/// One text is at most one tail list.
pub proof fn lemma_tail_seq_unique(s: Seq<u8>, v1: Seq<u16>, v2: Seq<u16>)
    requires
        tail_seq(s, v1),
        tail_seq(s, v2),
    ensures
        v1 == v2,
    decreases v1.len(),
{
    if v1.len() == 0 {
        if v2.len() >= 1 {
            lemma_tail_seq_nonempty(s, v2);
        }
        assert(v1 =~= v2);
    } else if v1.len() == 1 {
        // `s` is one hexadecimal group: no colon and no dot stands in it.
        if v2.len() == 0 {
            assert(false);
        } else if v2.len() >= 2 {
            if v2.len() == 2 && is_v4_tail(s, v2[0], v2[1]) {
                let (a, b, c, d): (u8, u8, u8, u8) = choose|a: u8, b: u8, c: u8, d: u8|
                    {
                        &&& is_ipv4_text(s, a, b, c, d)
                        &&& v2[0] as int == a as int * 256 + b as int
                        &&& v2[1] as int == c as int * 256 + d as int
                    };
                let (i, j, k): (int, int, int) = choose|i: int, j: int, k: int|
                    is_ipv4_fields(s, i, j, k, a, b, c, d);
                assert(is_hex_digit(s[i]));
                assert(false);
            } else {
                let i = choose|i: int|
                    {
                        &&& 0 <= i < s.len()
                        &&& s[i] == 0x3A
                        &&& is_hex_group(s.subrange(0, i))
                        &&& hex_val(s.subrange(0, i)) == v2[0] as nat
                        &&& tail_seq(s.subrange(i + 1, s.len() as int), v2.drop_first())
                    };
                assert(is_hex_digit(s[i]));
                assert(false);
            }
        }
        assert(v1[0] as nat == hex_val(s) == v2[0] as nat);
        assert(v1 =~= v2);
    } else {
        if v1.len() == 2 && is_v4_tail(s, v1[0], v1[1]) {
            let (a1, b1, c1, d1): (u8, u8, u8, u8) = choose|a: u8, b: u8, c: u8, d: u8|
                {
                    &&& is_ipv4_text(s, a, b, c, d)
                    &&& v1[0] as int == a as int * 256 + b as int
                    &&& v1[1] as int == c as int * 256 + d as int
                };
            lemma_v4_text_bytes(s, a1, b1, c1, d1);
            // `v2` can only be the same embedded quad: any split would need a
            // colon, and a single group would need `s` free of dots.
            if v2.len() == 1 {
                let (i, j, k): (int, int, int) = choose|i: int, j: int, k: int|
                    is_ipv4_fields(s, i, j, k, a1, b1, c1, d1);
                assert(is_hex_digit(s[i]));
                assert(false);
            } else if v2.len() >= 2 && !(v2.len() == 2 && is_v4_tail(s, v2[0], v2[1])) {
                let i = choose|i: int|
                    {
                        &&& 0 <= i < s.len()
                        &&& s[i] == 0x3A
                        &&& is_hex_group(s.subrange(0, i))
                        &&& hex_val(s.subrange(0, i)) == v2[0] as nat
                        &&& tail_seq(s.subrange(i + 1, s.len() as int), v2.drop_first())
                    };
                assert(s[i] != 0x3A);
                assert(false);
            }
            let (a2, b2, c2, d2): (u8, u8, u8, u8) = choose|a: u8, b: u8, c: u8, d: u8|
                {
                    &&& is_ipv4_text(s, a, b, c, d)
                    &&& v2[0] as int == a as int * 256 + b as int
                    &&& v2[1] as int == c as int * 256 + d as int
                };
            lemma_ipv4_unique(s, a1, b1, c1, d1, a2, b2, c2, d2);
            assert(v1 =~= v2);
        } else {
            let i = choose|i: int|
                {
                    &&& 0 <= i < s.len()
                    &&& s[i] == 0x3A
                    &&& is_hex_group(s.subrange(0, i))
                    &&& hex_val(s.subrange(0, i)) == v1[0] as nat
                    &&& tail_seq(s.subrange(i + 1, s.len() as int), v1.drop_first())
                };
            if v2.len() == 0 {
                assert(false);
            } else if v2.len() == 1 {
                assert(is_hex_digit(s[i]));
                assert(false);
            } else if v2.len() == 2 && is_v4_tail(s, v2[0], v2[1]) {
                let (a, b, c, d): (u8, u8, u8, u8) = choose|a: u8, b: u8, c: u8, d: u8|
                    {
                        &&& is_ipv4_text(s, a, b, c, d)
                        &&& v2[0] as int == a as int * 256 + b as int
                        &&& v2[1] as int == c as int * 256 + d as int
                    };
                lemma_v4_text_bytes(s, a, b, c, d);
                assert(false);
            } else {
                let i2 = choose|q: int|
                    {
                        &&& 0 <= q < s.len()
                        &&& s[q] == 0x3A
                        &&& is_hex_group(s.subrange(0, q))
                        &&& hex_val(s.subrange(0, q)) == v2[0] as nat
                        &&& tail_seq(s.subrange(q + 1, s.len() as int), v2.drop_first())
                    };
                assert(i == i2) by {
                    if i < i2 {
                        assert(s.subrange(0, i2)[i] == s[i]);
                        assert(is_hex_digit(s[i]));
                    } else if i2 < i {
                        assert(s.subrange(0, i)[i2] == s[i2]);
                        assert(is_hex_digit(s[i2]));
                    }
                }
                lemma_tail_seq_unique(
                    s.subrange(i + 1, s.len() as int),
                    v1.drop_first(),
                    v2.drop_first(),
                );
                assert(v1[0] == v2[0]);
                assert forall|q: int| 0 <= q < v1.len() implies v1[q] == v2[q] by {
                    if q >= 1 {
                        assert(v1.drop_first()[q - 1] == v1[q]);
                        assert(v2.drop_first()[q - 1] == v2[q]);
                    }
                }
                assert(v1 =~= v2);
            }
        }
    }
}

/// Parses `s[from..to]` as a tail list: IPv6 groups, optionally ending with an
/// embedded IPv4 quad.
fn parse_tail(s: &[u8], from: usize, to: usize) -> (r: Option<Vec<u16>>)
    requires
        from <= to <= s@.len(),
    ensures
        match r {
            Some(v) => tail_seq(s@.subrange(from as int, to as int), v@),
            None => forall|v: Seq<u16>| !tail_seq(s@.subrange(from as int, to as int), v),
        },
    decreases to - from,
{
    let ghost sub = s@.subrange(from as int, to as int);
    proof {
        assert(forall|m: int| 0 <= m < sub.len() ==> sub[m] == s@[from + m]);
    }
    if from == to {
        let v: Vec<u16> = Vec::new();
        return Some(v);
    }
    match find_range(s, from, to, 0x3A) {
        None => {
            match parse_hex_group(s, from, to) {
                Some(g) => {
                    let mut v: Vec<u16> = Vec::new();
                    v.push(g);
                    proof {
                        assert(v@ =~= seq![g]);
                    }
                    Some(v)
                },
                None => {
                    match parse_ipv4(s, from, to) {
                        Some(ip) => {
                            let hi: u16 = (ip.octets[0] as u16) * 256 + (ip.octets[1] as u16);
                            let lo: u16 = (ip.octets[2] as u16) * 256 + (ip.octets[3] as u16);
                            let mut v: Vec<u16> = Vec::new();
                            v.push(hi);
                            v.push(lo);
                            proof {
                                assert(is_v4_tail(sub, hi, lo)) by {
                                    assert(is_ipv4_text(
                                        sub,
                                        ip.octets@[0],
                                        ip.octets@[1],
                                        ip.octets@[2],
                                        ip.octets@[3],
                                    ));
                                }
                                assert(v@.len() == 2 && v@[0] == hi && v@[1] == lo);
                                assert(tail_seq(sub, v@));
                            }
                            Some(v)
                        },
                        None => {
                            proof {
                                assert forall|v: Seq<u16>| !tail_seq(sub, v) by {
                                    if tail_seq(sub, v) {
                                        if v.len() >= 2 {
                                            if v.len() == 2 && is_v4_tail(sub, v[0], v[1]) {
                                                let (a, b, c, d): (u8, u8, u8, u8) = choose|
                                                    a: u8,
                                                    b: u8,
                                                    c: u8,
                                                    d: u8,
                                                |
                                                    {
                                                        &&& is_ipv4_text(sub, a, b, c, d)
                                                        &&& v[0] as int == a as int * 256 + b as int
                                                        &&& v[1] as int == c as int * 256 + d as int
                                                    };
                                                assert(false);
                                            } else {
                                                let i = choose|i: int|
                                                    {
                                                        &&& 0 <= i < sub.len()
                                                        &&& sub[i] == 0x3A
                                                        &&& is_hex_group(sub.subrange(0, i))
                                                        &&& hex_val(sub.subrange(0, i)) == v[0] as nat
                                                        &&& tail_seq(
                                                            sub.subrange(i + 1, sub.len() as int),
                                                            v.drop_first(),
                                                        )
                                                    };
                                                assert(s@[from + i] == 0x3A);
                                                assert(false);
                                            }
                                        }
                                    }
                                }
                            }
                            None
                        },
                    }
                },
            }
        },
        Some(ci) => {
            let ghost gi = ci - from;
            proof {
                assert(sub[gi] == 0x3A);
                assert(forall|j: int| 0 <= j < gi ==> sub[j] != 0x3A);
                assert(sub.subrange(0, gi) =~= s@.subrange(from as int, ci as int));
                assert(sub.subrange(gi + 1, sub.len() as int) =~= s@.subrange(ci + 1, to as int));
            }
            let head = parse_hex_group(s, from, ci);
            match head {
                None => {
                    proof {
                        assert forall|v: Seq<u16>| !tail_seq(sub, v) by {
                            if tail_seq(sub, v) {
                                if v.len() == 1 {
                                    assert(is_hex_digit(sub[gi]));
                                } else if v.len() >= 2 {
                                    lemma_tail_split_at_first_colon(sub, v, gi);
                                }
                            }
                        }
                    }
                    None
                },
                Some(g0) => {
                    let rest = parse_tail(s, ci + 1, to);
                    match rest {
                        None => {
                            proof {
                                assert forall|v: Seq<u16>| !tail_seq(sub, v) by {
                                    if tail_seq(sub, v) {
                                        if v.len() == 1 {
                                            assert(is_hex_digit(sub[gi]));
                                        } else if v.len() >= 2 {
                                            lemma_tail_split_at_first_colon(sub, v, gi);
                                        }
                                    }
                                }
                            }
                            None
                        },
                        Some(mut rv) => {
                            if rv.len() == 0 {
                                proof {
                                    assert(s@.subrange(ci + 1, to as int).len() == 0);
                                    assert forall|v: Seq<u16>| !tail_seq(sub, v) by {
                                        if tail_seq(sub, v) {
                                            if v.len() == 1 {
                                                assert(is_hex_digit(sub[gi]));
                                            } else if v.len() >= 2 {
                                                lemma_tail_split_at_first_colon(sub, v, gi);
                                                lemma_tail_seq_nonempty(
                                                    sub.subrange(gi + 1, sub.len() as int),
                                                    v.drop_first(),
                                                );
                                            }
                                        }
                                    }
                                }
                                return None;
                            }
                            let ghost rvs = rv@;
                            let mut v: Vec<u16> = Vec::new();
                            v.push(g0);
                            v.append(&mut rv);
                            proof {
                                assert(v@ =~= seq![g0] + rvs);
                                assert(v@.drop_first() =~= rvs);
                                assert(v@.len() >= 2);
                                assert({
                                    &&& 0 <= gi < sub.len()
                                    &&& sub[gi] == 0x3A
                                    &&& is_hex_group(sub.subrange(0, gi))
                                    &&& hex_val(sub.subrange(0, gi)) == v@[0] as nat
                                    &&& tail_seq(
                                        sub.subrange(gi + 1, sub.len() as int),
                                        v@.drop_first(),
                                    )
                                });
                                assert(tail_seq(sub, v@));
                            }
                            Some(v)
                        },
                    }
                },
            }
        },
    }
}

/// True when `s` is IPv6 text in the compressed form whose `::` stands at
/// position `p`, writing the eight groups `g`.
pub open spec fn is_ipv6_compressed_at(s: Seq<u8>, p: int, g: Seq<u16>) -> bool {
    &&& 0 <= p
    &&& p + 2 <= s.len()
    &&& s[p] == 0x3A && s[p + 1] == 0x3A
    &&& exists|hv: Seq<u16>, tv: Seq<u16>|
        {
            &&& group_seq(s.subrange(0, p), hv)
            &&& tail_seq(s.subrange(p + 2, s.len() as int), tv)
            &&& hv.len() + tv.len() <= 7
            &&& g == hv + Seq::new((8 - hv.len() - tv.len()) as nat, |q: int| 0u16) + tv
        }
}

/// True when `s` is the text of the IPv6 address with groups `g`: either all
/// eight groups written out, or a `::` standing for the missing zero groups.
pub open spec fn is_ipv6_text(s: Seq<u8>, g: Seq<u16>) -> bool {
    g.len() == 8 && (tail_seq(s, g) || exists|p: int| is_ipv6_compressed_at(s, p, g))
}

/// True when `s` is the text of some IPv4 address.
pub open spec fn v4_parses(s: Seq<u8>) -> bool {
    exists|a: u8, b: u8, c: u8, d: u8| is_ipv4_text(s, a, b, c, d)
}

/// True when `s` is the text of some IPv6 address.
pub open spec fn v6_parses(s: Seq<u8>) -> bool {
    exists|g: Seq<u16>| is_ipv6_text(s, g)
}

/// A group list's text cannot hold a colon pair, nor end in a colon.
proof fn lemma_group_text_no_dcolon(s: Seq<u8>, vals: Seq<u16>, m: int)
    requires
        group_seq(s, vals),
        0 <= m,
        m + 1 <= s.len(),
    ensures
        !(s[m] == 0x3A && (m + 1 == s.len() || s[m + 1] == 0x3A)),
{
    lemma_group_seq_shape(s, vals);
    if m + 1 == s.len() {
        assert(is_hex_digit(s[s.len() - 1]));
    }
}

/// One text is the address of at most one group vector: address text parses
/// deterministically.
pub proof fn lemma_ipv6_unique(s: Seq<u8>, g1: Seq<u16>, g2: Seq<u16>)
    requires
        is_ipv6_text(s, g1),
        is_ipv6_text(s, g2),
    ensures
        g1 == g2,
{
    if tail_seq(s, g1) && tail_seq(s, g2) {
        lemma_tail_seq_unique(s, g1, g2);
    } else if tail_seq(s, g1) {
        let p = choose|p: int| is_ipv6_compressed_at(s, p, g2);
        lemma_tail_seq_shape(s, g1);
        assert(false);
    } else if tail_seq(s, g2) {
        let p = choose|p: int| is_ipv6_compressed_at(s, p, g1);
        lemma_tail_seq_shape(s, g2);
        assert(false);
    } else {
        let p1 = choose|p: int| is_ipv6_compressed_at(s, p, g1);
        let p2 = choose|p: int| is_ipv6_compressed_at(s, p, g2);
        let (hv1, tv1): (Seq<u16>, Seq<u16>) = choose|hv: Seq<u16>, tv: Seq<u16>|
            {
                &&& group_seq(s.subrange(0, p1), hv)
                &&& tail_seq(s.subrange(p1 + 2, s.len() as int), tv)
                &&& hv.len() + tv.len() <= 7
                &&& g1 == hv + Seq::new((8 - hv.len() - tv.len()) as nat, |q: int| 0u16) + tv
            };
        let (hv2, tv2): (Seq<u16>, Seq<u16>) = choose|hv: Seq<u16>, tv: Seq<u16>|
            {
                &&& group_seq(s.subrange(0, p2), hv)
                &&& tail_seq(s.subrange(p2 + 2, s.len() as int), tv)
                &&& hv.len() + tv.len() <= 7
                &&& g2 == hv + Seq::new((8 - hv.len() - tv.len()) as nat, |q: int| 0u16) + tv
            };
        assert(p1 == p2) by {
            if p1 < p2 {
                let head2 = s.subrange(0, p2);
                assert(head2[p1] == s[p1]);
                if p1 + 1 < p2 {
                    assert(head2[p1 + 1] == s[p1 + 1]);
                }
                lemma_group_text_no_dcolon(head2, hv2, p1);
            } else if p2 < p1 {
                let head1 = s.subrange(0, p1);
                assert(head1[p2] == s[p2]);
                if p2 + 1 < p1 {
                    assert(head1[p2 + 1] == s[p2 + 1]);
                }
                lemma_group_text_no_dcolon(head1, hv1, p2);
            }
        }
        lemma_group_seq_unique(s.subrange(0, p1), hv1, hv2);
        lemma_tail_seq_unique(s.subrange(p1 + 2, s.len() as int), tv1, tv2);
    }
}

/// When IPv6 text holds a `::`, the address stands in the compressed form
/// and splits exactly at the first `::`.
proof fn lemma_compressed_splits_at_first_dcolon(s: Seq<u8>, gp: int, g: Seq<u16>)
    requires
        is_ipv6_text(s, g),
        0 <= gp,
        gp + 1 < s.len(),
        s[gp] == 0x3A,
        s[gp + 1] == 0x3A,
        forall|j: int| 0 <= j < gp ==> !(#[trigger] s[j] == 0x3A && s[j + 1] == 0x3A),
    ensures
        exists|hv: Seq<u16>, tv: Seq<u16>|
            {
                &&& group_seq(s.subrange(0, gp), hv)
                &&& tail_seq(s.subrange(gp + 2, s.len() as int), tv)
                &&& hv.len() + tv.len() <= 7
                &&& g == hv + Seq::new((8 - hv.len() - tv.len()) as nat, |q: int| 0u16) + tv
            },
{
    if tail_seq(s, g) {
        lemma_tail_seq_shape(s, g);
        assert(false);
    }
    let p = choose|p: int| is_ipv6_compressed_at(s, p, g);
    let (hw, tw): (Seq<u16>, Seq<u16>) = choose|hw: Seq<u16>, tw: Seq<u16>|
        {
            &&& group_seq(s.subrange(0, p), hw)
            &&& tail_seq(s.subrange(p + 2, s.len() as int), tw)
            &&& hw.len() + tw.len() <= 7
            &&& g == hw + Seq::new((8 - hw.len() - tw.len()) as nat, |q: int| 0u16) + tw
        };
    assert(p >= gp) by {
        if p < gp {
            assert(s[p] == 0x3A && s[p + 1] == 0x3A);
        }
    }
    if p > gp {
        let head = s.subrange(0, p);
        assert(head[gp] == s[gp]);
        if gp + 1 < p {
            assert(head[gp + 1] == s[gp + 1]);
        }
        lemma_group_text_no_dcolon(head, hw, gp);
        assert(false);
    }
    assert({
        &&& group_seq(s.subrange(0, gp), hw)
        &&& tail_seq(s.subrange(gp + 2, s.len() as int), tw)
        &&& hw.len() + tw.len() <= 7
        &&& g == hw + Seq::new((8 - hw.len() - tw.len()) as nat, |q: int| 0u16) + tw
    });
}

/// Finds the first `::` in `s[from..to]`.
fn find_dcolon(s: &[u8], from: usize, to: usize) -> (r: Option<usize>)
    requires
        from <= to <= s@.len(),
    ensures
        match r {
            Some(p) => from <= p && p + 1 < to && s@[p as int] == 0x3A && s@[p + 1] == 0x3A && (
            forall|j: int| from <= j < p ==> !(#[trigger] s@[j] == 0x3A && s@[j + 1] == 0x3A)),
            None => forall|j: int|
                from <= j && j + 1 < to ==> !(#[trigger] s@[j] == 0x3A && s@[j + 1] == 0x3A),
        },
{
    if to == from {
        return None;
    }
    let mut i: usize = from;
    while i < to - 1
        invariant
            from <= i <= to <= s@.len(),
            to >= 1,
            forall|j: int| from <= j < i ==> !(#[trigger] s@[j] == 0x3A && s@[j + 1] == 0x3A),
        decreases to - i,
    {
        if s[i] == 0x3A && s[i + 1] == 0x3A {
            return Some(i);
        }
        i += 1;
    }
    None
}

/// Parses `s[from..to]` as IPv6 address text.
#[verifier::rlimit(100)]
pub fn parse_ipv6(s: &[u8], from: usize, to: usize) -> (r: Option<Ipv6Address>)
    requires
        from <= to <= s@.len(),
    ensures
        match r {
            Some(ip) => is_ipv6_text(s@.subrange(from as int, to as int), ip.segments@),
            None => forall|g: Seq<u16>| !is_ipv6_text(s@.subrange(from as int, to as int), g),
        },
{
    let ghost sub = s@.subrange(from as int, to as int);
    proof {
        assert(forall|m: int| 0 <= m < sub.len() ==> sub[m] == s@[from + m]);
    }
    match find_dcolon(s, from, to) {
        None => {
            // Plain form: exactly eight groups, no `::`.
            match parse_tail(s, from, to) {
                Some(v) => {
                    if v.len() == 8 {
                        let seg: [u16; 8] = [v[0], v[1], v[2], v[3], v[4], v[5], v[6], v[7]];
                        proof {
                            assert(seg@ =~= v@);
                        }
                        Some(Ipv6Address { segments: seg })
                    } else {
                        proof {
                            assert forall|g: Seq<u16>| !is_ipv6_text(sub, g) by {
                                if is_ipv6_text(sub, g) {
                                    if tail_seq(sub, g) {
                                        lemma_tail_seq_unique(sub, g, v@);
                                    } else {
                                        let p = choose|p: int| is_ipv6_compressed_at(sub, p, g);
                                        assert(s@[from + p] == 0x3A && s@[from + p + 1] == 0x3A);
                                        assert(false);
                                    }
                                }
                            }
                        }
                        None
                    }
                },
                None => {
                    proof {
                        assert forall|g: Seq<u16>| !is_ipv6_text(sub, g) by {
                            if is_ipv6_text(sub, g) {
                                if !tail_seq(sub, g) {
                                    let p = choose|p: int| is_ipv6_compressed_at(sub, p, g);
                                    assert(s@[from + p] == 0x3A && s@[from + p + 1] == 0x3A);
                                    assert(false);
                                }
                            }
                        }
                    }
                    None
                },
            }
        },
        Some(dc) => {
            let ghost gp = dc - from;
            proof {
                assert(sub[gp] == 0x3A && sub[gp + 1] == 0x3A);
                assert(forall|j: int| 0 <= j < gp ==> !(#[trigger] sub[j] == 0x3A && sub[j + 1]
                    == 0x3A));
                assert(sub.subrange(0, gp) =~= s@.subrange(from as int, dc as int));
                assert(sub.subrange(gp + 2, sub.len() as int) =~= s@.subrange(dc + 2, to as int));
            }
            let hr = parse_groups(s, from, dc);
            let tr = parse_tail(s, dc + 2, to);
            match (hr, tr) {
                (Some(hv), Some(tv)) if hv.len() <= 7 && tv.len() <= 7 - hv.len() => {
                    let zeros = 8 - hv.len() - tv.len();
                    let ghost hvs = hv@;
                    let ghost tvs = tv@;
                    let mut segv = hv;
                    let mut zc: usize = 0;
                    while zc < zeros
                        invariant
                            zc <= zeros,
                            zeros == 8 - hvs.len() - tvs.len(),
                            segv@ =~= hvs + Seq::new(zc as nat, |q: int| 0u16),
                        decreases zeros - zc,
                    {
                        segv.push(0u16);
                        zc += 1;
                        proof {
                            assert(segv@ =~= hvs + Seq::new(zc as nat, |q: int| 0u16));
                        }
                    }
                    let mut tvm = tv;
                    segv.append(&mut tvm);
                    proof {
                        assert(segv@ =~= hvs + Seq::new(zeros as nat, |q: int| 0u16) + tvs);
                        assert(segv@.len() == 8);
                    }
                    let seg: [u16; 8] = [
                        segv[0],
                        segv[1],
                        segv[2],
                        segv[3],
                        segv[4],
                        segv[5],
                        segv[6],
                        segv[7],
                    ];
                    proof {
                        assert(seg@ =~= segv@);
                        assert(group_seq(sub.subrange(0, gp), hvs));
                        assert(tail_seq(sub.subrange(gp + 2, sub.len() as int), tvs));
                        assert(seg@ == hvs + Seq::new((8 - hvs.len() - tvs.len()) as nat, |q: int| 0u16)
                            + tvs);
                        assert(is_ipv6_compressed_at(sub, gp, seg@));
                        assert(is_ipv6_text(sub, seg@));
                    }
                    Some(Ipv6Address { segments: seg })
                },
                _ => {
                    proof {
                        assert forall|g: Seq<u16>| !is_ipv6_text(sub, g) by {
                            if is_ipv6_text(sub, g) {
                                lemma_compressed_splits_at_first_dcolon(sub, gp, g);
                                let (hw, tw): (Seq<u16>, Seq<u16>) = choose|
                                    hw: Seq<u16>,
                                    tw: Seq<u16>,
                                |
                                    {
                                        &&& group_seq(sub.subrange(0, gp), hw)
                                        &&& tail_seq(sub.subrange(gp + 2, sub.len() as int), tw)
                                        &&& hw.len() + tw.len() <= 7
                                        &&& g == hw + Seq::new(
                                            (8 - hw.len() - tw.len()) as nat,
                                            |q: int| 0u16,
                                        ) + tw
                                    };
                                // The witness splits at our `::`, so its two
                                // halves are the parses we attempted.
                                match hr {
                                    Some(hv2) => {
                                        lemma_group_seq_unique(sub.subrange(0, gp), hw, hv2@);
                                        match tr {
                                            Some(tv2) => {
                                                lemma_tail_seq_unique(
                                                    sub.subrange(gp + 2, sub.len() as int),
                                                    tw,
                                                    tv2@,
                                                );
                                                assert(false);
                                            },
                                            None => {
                                                assert(false);
                                            },
                                        }
                                    },
                                    None => {
                                        assert(false);
                                    },
                                }
                            }
                        }
                    }
                    None
                },
            }
        },
    }
}

/// Parses `s[from..to]` as address text of either family, trying IPv4 first.
pub fn parse_ip(s: &[u8], from: usize, to: usize) -> (r: Option<IpAddress>)
    requires
        from <= to <= s@.len(),
    ensures
        match r {
            Some(IpAddress::V4(ip)) => is_ipv4_text(
                s@.subrange(from as int, to as int),
                ip.octets@[0],
                ip.octets@[1],
                ip.octets@[2],
                ip.octets@[3],
            ),
            Some(IpAddress::V6(ip)) => is_ipv6_text(s@.subrange(from as int, to as int), ip.segments@)
                && (forall|a: u8, b: u8, c: u8, d: u8|
                !is_ipv4_text(s@.subrange(from as int, to as int), a, b, c, d)),
            None => (forall|a: u8, b: u8, c: u8, d: u8|
                !is_ipv4_text(s@.subrange(from as int, to as int), a, b, c, d)) && (forall|
                g: Seq<u16>,
            | !is_ipv6_text(s@.subrange(from as int, to as int), g)),
        },
{
    match parse_ipv4(s, from, to) {
        Some(ip) => Some(IpAddress::V4(ip)),
        None => {
            match parse_ipv6(s, from, to) {
                Some(ip) => Some(IpAddress::V6(ip)),
                None => None,
            }
        },
    }
}

} // verus!



