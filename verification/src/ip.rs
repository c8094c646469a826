//! Textual IPv4 and IPv6 addresses, read from bytes.
use vstd::prelude::*;
use vstd::slice::slice_subrange;

verus! {

/// An IP address as its numeric parts: four octets, or eight 16-bit groups.
#[derive(Clone, Copy, Debug, PartialEq, Eq, Structural)]
pub enum IpAddress {
    V4(u8, u8, u8, u8),
    V6(u16, u16, u16, u16, u16, u16, u16, u16),
}

/// The byte `.`.
pub const DOT: u8 = 46;

/// The byte `:`.
pub const COLON: u8 = 58;

/// Index of the first `sep` in `s` at or after `from`; `s.len()` if there is none.
pub open spec fn position_of(s: Seq<u8>, sep: u8, from: int) -> int
    decreases s.len() - from,
{
    if from >= s.len() {
        s.len() as int
    } else if s[from] == sep {
        from
    } else {
        position_of(s, sep, from + 1)
    }
}

/// `position_of` stays between `from` and the end of `s`.
pub proof fn lemma_position_bounds(s: Seq<u8>, sep: u8, from: int)
    requires
        0 <= from <= s.len(),
    ensures
        from <= position_of(s, sep, from) <= s.len(),
    decreases s.len() - from,
{
    if from < s.len() && s[from] != sep {
        lemma_position_bounds(s, sep, from + 1);
    }
}

pub open spec fn is_digit(b: u8) -> bool {
    48 <= b <= 57
}

pub open spec fn all_digits(s: Seq<u8>) -> bool {
    forall|i: int| 0 <= i < s.len() ==> is_digit(#[trigger] s[i])
}

/// Value of a decimal numeral of one to three digits.
pub open spec fn decimal_value(s: Seq<u8>) -> int {
    if s.len() == 1 {
        s[0] - 48
    } else if s.len() == 2 {
        (s[0] - 48) * 10 + (s[1] - 48)
    } else {
        (s[0] - 48) * 100 + (s[1] - 48) * 10 + (s[2] - 48)
    }
}

/// An octet in dotted notation: one to three decimal digits, no leading zero
/// on a numeral of several digits, value at most 255.
pub open spec fn octet_of(s: Seq<u8>) -> Option<u8> {
    if 1 <= s.len() <= 3 && all_digits(s) && (s.len() == 1 || s[0] != 48) && decimal_value(s)
        <= 255 {
        Some(decimal_value(s) as u8)
    } else {
        None
    }
}

/// Dotted-quad notation: exactly four octets separated by single dots.
pub open spec fn v4_of(s: Seq<u8>) -> Option<(u8, u8, u8, u8)> {
    let d1 = position_of(s, DOT, 0);
    let d2 = position_of(s, DOT, d1 + 1);
    let d3 = position_of(s, DOT, d2 + 1);
    if d3 < s.len() {
        match (
            octet_of(s.subrange(0, d1)),
            octet_of(s.subrange(d1 + 1, d2)),
            octet_of(s.subrange(d2 + 1, d3)),
            octet_of(s.subrange(d3 + 1, s.len() as int)),
        ) {
            (Some(a), Some(b), Some(c), Some(d)) => Some((a, b, c, d)),
            _ => None,
        }
    } else {
        None
    }
}

/// Value of a hexadecimal digit in either case.
pub open spec fn hex_value(b: u8) -> Option<int> {
    if 48 <= b <= 57 {
        Some(b - 48)
    } else if 97 <= b <= 102 {
        Some(b - 87)
    } else if 65 <= b <= 70 {
        Some(b - 55)
    } else {
        None
    }
}

pub open spec fn all_hex(s: Seq<u8>) -> bool {
    forall|i: int| 0 <= i < s.len() ==> hex_value(#[trigger] s[i]).is_some()
}

/// Value of a hexadecimal numeral, most significant digit first.
pub open spec fn hex_number(s: Seq<u8>) -> int
    decreases s.len(),
{
    if s.len() == 0 {
        0
    } else {
        hex_number(s.drop_last()) * 16 + hex_value(s.last()).unwrap()
    }
}

/// A group of an IPv6 address: one to four hexadecimal digits.
pub open spec fn group_of(s: Seq<u8>) -> Option<u16> {
    if 1 <= s.len() <= 4 && all_hex(s) {
        Some(hex_number(s) as u16)
    } else {
        None
    }
}

/// The two groups that a dotted quad fills at the end of an IPv6 address.
pub open spec fn quad_groups(q: (u8, u8, u8, u8)) -> Seq<u16> {
    seq![(q.0 * 256 + q.1) as u16, (q.2 * 256 + q.3) as u16]
}

pub open spec fn prepend(head: Seq<u16>, rest: Option<Seq<u16>>) -> Option<Seq<u16>> {
    match rest {
        Some(r) => Some(head + r),
        None => None,
    }
}

/// A non-empty run of groups separated by single colons. With `allow_v4` the
/// last piece may be a dotted quad, which counts as two groups.
pub open spec fn groups_of(s: Seq<u8>, allow_v4: bool) -> Option<Seq<u16>>
    decreases s.len(),
    via groups_of_terminates
{
    let c = position_of(s, COLON, 0);
    if c >= s.len() {
        match group_of(s) {
            Some(g) => Some(seq![g]),
            None => if allow_v4 {
                match v4_of(s) {
                    Some(q) => Some(quad_groups(q)),
                    None => None,
                }
            } else {
                None
            },
        }
    } else {
        match group_of(s.subrange(0, c)) {
            Some(g) => prepend(seq![g], groups_of(s.subrange(c + 1, s.len() as int), allow_v4)),
            None => None,
        }
    }
}

#[via_fn]
proof fn groups_of_terminates(s: Seq<u8>, allow_v4: bool) {
    lemma_position_bounds(s, COLON, 0);
}

/// A possibly empty run of groups: what stands on either side of `::`.
pub open spec fn list_of(s: Seq<u8>, allow_v4: bool) -> Option<Seq<u16>> {
    if s.len() == 0 {
        Some(Seq::empty())
    } else {
        groups_of(s, allow_v4)
    }
}

/// Index of the first `::` in `s` at or after `from`; `s.len()` if there is none.
pub open spec fn gap_position(s: Seq<u8>, from: int) -> int
    decreases s.len() - from,
{
    if from + 1 >= s.len() {
        s.len() as int
    } else if s[from] == COLON && s[from + 1] == COLON {
        from
    } else {
        gap_position(s, from + 1)
    }
}

/// The groups on both sides of `::` with the zero groups that it stands for.
pub open spec fn expanded(head: Seq<u16>, tail: Seq<u16>) -> Seq<u16> {
    Seq::new(
        8,
        |k: int|
            if k < head.len() {
                head[k]
            } else if k >= 8 - tail.len() {
                tail[k - (8 - tail.len())]
            } else {
                0u16
            },
    )
}

/// The eight groups of an IPv6 address in standard notation: eight groups in
/// full, or fewer with one `::` that stands for at least one zero group; the
/// last two groups may be written as a dotted quad.
pub open spec fn v6_of(s: Seq<u8>) -> Option<Seq<u16>> {
    let p = gap_position(s, 0);
    if p >= s.len() {
        match groups_of(s, true) {
            Some(g) => if g.len() == 8 {
                Some(g)
            } else {
                None
            },
            None => None,
        }
    } else {
        match (list_of(s.subrange(0, p), false), list_of(s.subrange(p + 2, s.len() as int), true)) {
            (Some(h), Some(t)) => if h.len() + t.len() <= 7 {
                Some(expanded(h, t))
            } else {
                None
            },
            _ => None,
        }
    }
}

/// The IPv6 address that eight groups make.
pub open spec fn v6_address(g: Seq<u16>) -> IpAddress {
    IpAddress::V6(g[0], g[1], g[2], g[3], g[4], g[5], g[6], g[7])
}

/// The address that a text denotes, if it is one: dotted-quad IPv4 first,
/// else IPv6.
pub open spec fn ip_of_text(s: Seq<u8>) -> Option<IpAddress> {
    match v4_of(s) {
        Some(q) => Some(IpAddress::V4(q.0, q.1, q.2, q.3)),
        None => match v6_of(s) {
            Some(g) => Some(v6_address(g)),
            None => None,
        },
    }
}

/// Finds the first `sep` at or after `from`.
pub fn find(s: &[u8], sep: u8, from: usize) -> (r: usize)
    requires
        from <= s@.len(),
    ensures
        r == position_of(s@, sep, from as int),
        from <= r <= s@.len(),
        r < s@.len() ==> s@[r as int] == sep,
{
    let mut i: usize = from;
    while i < s.len() && s[i] != sep
        invariant
            from <= i <= s@.len(),
            position_of(s@, sep, from as int) == position_of(s@, sep, i as int),
        decreases s@.len() - i,
    {
        i = i + 1;
    }
    i
}

/// Reads one octet of a dotted quad.
pub fn parse_octet(s: &[u8]) -> (r: Option<u8>)
    ensures
        r == octet_of(s@),
{
    let n: usize = s.len();
    if n < 1 || n > 3 {
        return None;
    }
    let mut i: usize = 0;
    while i < n
        invariant
            i <= n,
            n == s@.len(),
            forall|j: int| 0 <= j < i ==> is_digit(#[trigger] s@[j]),
        decreases n - i,
    {
        if s[i] < 48 || s[i] > 57 {
            return None;
        }
        i = i + 1;
    }
    if n > 1 && s[0] == 48 {
        return None;
    }
    let value: u16 = if n == 1 {
        (s[0] - 48) as u16
    } else if n == 2 {
        (s[0] - 48) as u16 * 10 + (s[1] - 48) as u16
    } else {
        (s[0] - 48) as u16 * 100 + (s[1] - 48) as u16 * 10 + (s[2] - 48) as u16
    };
    if value > 255 {
        None
    } else {
        Some(value as u8)
    }
}

/// Reads a dotted quad.
pub fn parse_v4(s: &[u8]) -> (r: Option<(u8, u8, u8, u8)>)
    ensures
        r == v4_of(s@),
{
    let n: usize = s.len();
    let d1: usize = find(s, DOT, 0);
    if d1 >= n {
        return None;
    }
    let d2: usize = find(s, DOT, d1 + 1);
    if d2 >= n {
        return None;
    }
    let d3: usize = find(s, DOT, d2 + 1);
    if d3 >= n {
        return None;
    }
    let a = parse_octet(slice_subrange(s, 0, d1));
    let b = parse_octet(slice_subrange(s, d1 + 1, d2));
    let c = parse_octet(slice_subrange(s, d2 + 1, d3));
    let d = parse_octet(slice_subrange(s, d3 + 1, n));
    match (a, b, c, d) {
        (Some(a), Some(b), Some(c), Some(d)) => Some((a, b, c, d)),
        _ => None,
    }
}

/// Sixteen to the power `n`.
pub open spec fn pow16(n: nat) -> int
    decreases n,
{
    if n == 0 {
        1
    } else {
        16 * pow16((n - 1) as nat)
    }
}

/// Reads one group of an IPv6 address.
pub fn parse_group(s: &[u8]) -> (r: Option<u16>)
    ensures
        r == group_of(s@),
{
    let n: usize = s.len();
    if n < 1 || n > 4 {
        return None;
    }
    let mut value: u16 = 0;
    let mut i: usize = 0;
    while i < n
        invariant
            i <= n <= 4,
            n == s@.len(),
            forall|j: int| 0 <= j < i ==> hex_value(#[trigger] s@[j]).is_some(),
            value == hex_number(s@.subrange(0, i as int)),
            value < pow16(i as nat),
        decreases n - i,
    {
        let b: u8 = s[i];
        let digit: u16 = if 48 <= b && b <= 57 {
            (b - 48) as u16
        } else if 97 <= b && b <= 102 {
            (b - 87) as u16
        } else if 65 <= b && b <= 70 {
            (b - 55) as u16
        } else {
            return None;
        };
        proof {
            assert(s@.subrange(0, i + 1).drop_last() =~= s@.subrange(0, i as int));
            reveal_with_fuel(pow16, 5);
        }
        value = value * 16 + digit;
        i = i + 1;
    }
    proof {
        assert(s@.subrange(0, n as int) =~= s@);
    }
    Some(value)
}

/// Reads a non-empty run of groups separated by single colons.
pub fn parse_groups(s: &[u8], allow_v4: bool) -> (r: Option<Vec<u16>>)
    ensures
        r.is_some() == groups_of(s@, allow_v4).is_some(),
        r.is_some() ==> r.unwrap()@ == groups_of(s@, allow_v4).unwrap(),
{
    let mut groups: Vec<u16> = Vec::new();
    let mut rest: &[u8] = s;
    loop
        invariant
            groups_of(s@, allow_v4) == prepend(groups@, groups_of(rest@, allow_v4)),
        decreases rest@.len(),
    {
        let c: usize = find(rest, COLON, 0);
        if c >= rest.len() {
            match parse_group(rest) {
                Some(g) => {
                    let ghost before = groups@;
                    groups.push(g);
                    proof {
                        assert(groups@ =~= before + seq![g]);
                    }
                    return Some(groups);
                },
                None => {
                    if !allow_v4 {
                        return None;
                    }
                    match parse_v4(rest) {
                        Some(q) => {
                            let hi: u16 = q.0 as u16 * 256 + q.1 as u16;
                            let lo: u16 = q.2 as u16 * 256 + q.3 as u16;
                            let ghost before = groups@;
                            groups.push(hi);
                            groups.push(lo);
                            proof {
                                assert(groups@ =~= before + quad_groups(q));
                            }
                            return Some(groups);
                        },
                        None => {
                            return None;
                        },
                    }
                },
            }
        }
        match parse_group(slice_subrange(rest, 0, c)) {
            Some(g) => {
                let ghost before = groups@;
                let ghost tail = groups_of(rest@.subrange(c + 1, rest@.len() as int), allow_v4);
                groups.push(g);
                proof {
                    assert(groups_of(rest@, allow_v4) == prepend(seq![g], tail));
                    if tail.is_some() {
                        assert(before + (seq![g] + tail.unwrap()) =~= groups@ + tail.unwrap());
                    }
                }
                rest = slice_subrange(rest, c + 1, rest.len());
            },
            None => {
                return None;
            },
        }
    }
}

/// Reads a possibly empty run of groups.
pub fn parse_list(s: &[u8], allow_v4: bool) -> (r: Option<Vec<u16>>)
    ensures
        r.is_some() == list_of(s@, allow_v4).is_some(),
        r.is_some() ==> r.unwrap()@ == list_of(s@, allow_v4).unwrap(),
{
    if s.len() == 0 {
        Some(Vec::new())
    } else {
        parse_groups(s, allow_v4)
    }
}

/// Finds the first `::`.
pub fn find_gap(s: &[u8]) -> (r: usize)
    ensures
        r == gap_position(s@, 0),
        r <= s@.len(),
        r < s@.len() ==> r + 2 <= s@.len(),
{
    let n: usize = s.len();
    let mut i: usize = 0;
    while n - i > 1
        invariant
            i <= n,
            n == s@.len(),
            gap_position(s@, 0) == gap_position(s@, i as int),
        decreases n - i,
    {
        if s[i] == COLON && s[i + 1] == COLON {
            return i;
        }
        i = i + 1;
    }
    n
}

/// The group at place `k` once `::` between `head` and `tail` is filled in.
pub fn group_at(head: &Vec<u16>, tail: &Vec<u16>, k: usize) -> (r: u16)
    requires
        head@.len() + tail@.len() <= 8,
        k < 8,
    ensures
        r == expanded(head@, tail@)[k as int],
{
    if k < head.len() {
        head[k]
    } else if k >= 8 - tail.len() {
        tail[k - (8 - tail.len())]
    } else {
        0
    }
}

/// Reads an IPv6 address.
pub fn parse_v6(s: &[u8]) -> (r: Option<IpAddress>)
    ensures
        r == match v6_of(s@) {
            Some(g) => Some(v6_address(g)),
            None => None,
        },
{
    let n: usize = s.len();
    let p: usize = find_gap(s);
    if p >= n {
        match parse_groups(s, true) {
            Some(g) => {
                if g.len() == 8 {
                    Some(IpAddress::V6(g[0], g[1], g[2], g[3], g[4], g[5], g[6], g[7]))
                } else {
                    None
                }
            },
            None => None,
        }
    } else {
        let head = parse_list(slice_subrange(s, 0, p), false);
        let tail = parse_list(slice_subrange(s, p + 2, n), true);
        match (head, tail) {
            (Some(h), Some(t)) => {
                if h.len() <= 7 && t.len() <= 7 - h.len() {
                    Some(
                        IpAddress::V6(
                            group_at(&h, &t, 0),
                            group_at(&h, &t, 1),
                            group_at(&h, &t, 2),
                            group_at(&h, &t, 3),
                            group_at(&h, &t, 4),
                            group_at(&h, &t, 5),
                            group_at(&h, &t, 6),
                            group_at(&h, &t, 7),
                        ),
                    )
                } else {
                    None
                }
            },
            _ => None,
        }
    }
}

/// Reads an address in standard textual notation, IPv4 or IPv6.
pub fn parse_ip(text: &[u8]) -> (r: Option<IpAddress>)
    ensures
        r == ip_of_text(text@),
{
    match parse_v4(text) {
        Some(q) => Some(IpAddress::V4(q.0, q.1, q.2, q.3)),
        None => parse_v6(text),
    }
}

} // verus!
