//! Which texts are addresses: the notation of `ip`, stated over the pieces
//! that a text is made of.
use vstd::prelude::*;
use crate::ip::{
    all_hex, expanded, gap_position, group_of, groups_of, hex_value, ip_of_text, is_digit,
    lemma_position_bounds, list_of, octet_of, position_of, quad_groups, v4_of, v6_address, v6_of,
    IpAddress, COLON, DOT,
};

verus! {

/// `position_of` is `k` where `s[k]` is the separator and nothing from
/// `from` up to `k` is.
pub proof fn lemma_position_found(s: Seq<u8>, sep: u8, from: int, k: int)
    requires
        0 <= from <= k < s.len(),
        s[k] == sep,
        forall|i: int| from <= i < k ==> s[i] != sep,
    ensures
        position_of(s, sep, from) == k,
    decreases k - from,
{
    if from < k {
        lemma_position_found(s, sep, from + 1, k);
    }
}

/// `position_of` is the length of `s` where nothing from `from` on is the
/// separator.
pub proof fn lemma_position_missing(s: Seq<u8>, sep: u8, from: int)
    requires
        0 <= from,
        forall|i: int| from <= i < s.len() ==> s[i] != sep,
    ensures
        position_of(s, sep, from) == s.len(),
    decreases s.len() - from,
{
    if from < s.len() {
        lemma_position_missing(s, sep, from + 1);
    }
}

/// Where `position_of` stops before the end, it stops on the separator.
pub proof fn lemma_position_hits(s: Seq<u8>, sep: u8, from: int)
    requires
        0 <= from,
        position_of(s, sep, from) < s.len(),
    ensures
        from <= position_of(s, sep, from),
        s[position_of(s, sep, from)] == sep,
    decreases s.len() - from,
{
    if from < s.len() && s[from] != sep {
        lemma_position_hits(s, sep, from + 1);
    }
}

/// Four pieces joined by single dots.
pub open spec fn dotted(a: Seq<u8>, b: Seq<u8>, c: Seq<u8>, d: Seq<u8>) -> Seq<u8> {
    a + seq![DOT] + b + seq![DOT] + c + seq![DOT] + d
}

/// Every text made of four octets joined by single dots is an address, and
/// it is the IPv4 address of those octets.
pub proof fn four_octets_are_an_address(a: Seq<u8>, b: Seq<u8>, c: Seq<u8>, d: Seq<u8>)
    requires
        octet_of(a).is_some(),
        octet_of(b).is_some(),
        octet_of(c).is_some(),
        octet_of(d).is_some(),
    ensures
        ip_of_text(dotted(a, b, c, d)) == Some(
            IpAddress::V4(
                octet_of(a).unwrap(),
                octet_of(b).unwrap(),
                octet_of(c).unwrap(),
                octet_of(d).unwrap(),
            ),
        ),
{
    let s = dotted(a, b, c, d);
    let d1 = a.len() as int;
    let d2 = d1 + 1 + b.len();
    let d3 = d2 + 1 + c.len();
    assert(s.len() == d3 + 1 + d.len());
    assert forall|i: int| 0 <= i < d1 implies s[i] != DOT by {
        assert(s[i] == a[i]);
    }
    assert(s[d1] == DOT);
    lemma_position_found(s, DOT, 0, d1);
    assert forall|i: int| d1 + 1 <= i < d2 implies s[i] != DOT by {
        assert(s[i] == b[i - d1 - 1]);
    }
    assert(s[d2] == DOT);
    lemma_position_found(s, DOT, d1 + 1, d2);
    assert forall|i: int| d2 + 1 <= i < d3 implies s[i] != DOT by {
        assert(s[i] == c[i - d2 - 1]);
    }
    assert(s[d3] == DOT);
    lemma_position_found(s, DOT, d2 + 1, d3);
    assert(s.subrange(0, d1) =~= a);
    assert(s.subrange(d1 + 1, d2) =~= b);
    assert(s.subrange(d2 + 1, d3) =~= c);
    assert(s.subrange(d3 + 1, s.len() as int) =~= d);
}

/// Only such texts are IPv4 addresses: a text that reads as a dotted quad
/// is four octets joined by single dots.
pub proof fn dotted_quad_is_four_octets(s: Seq<u8>)
    requires
        v4_of(s).is_some(),
    ensures
        exists|a: Seq<u8>, b: Seq<u8>, c: Seq<u8>, d: Seq<u8>|
            #![trigger dotted(a, b, c, d)]
            s == dotted(a, b, c, d) && octet_of(a) == Some(v4_of(s).unwrap().0) && octet_of(b)
                == Some(v4_of(s).unwrap().1) && octet_of(c) == Some(v4_of(s).unwrap().2)
                && octet_of(d) == Some(v4_of(s).unwrap().3),
{
    let d1 = position_of(s, DOT, 0);
    let d2 = position_of(s, DOT, d1 + 1);
    let d3 = position_of(s, DOT, d2 + 1);
    lemma_position_bounds(s, DOT, 0);
    assert(d1 < s.len());
    lemma_position_bounds(s, DOT, d1 + 1);
    assert(d2 < s.len());
    lemma_position_hits(s, DOT, 0);
    lemma_position_hits(s, DOT, d1 + 1);
    lemma_position_hits(s, DOT, d2 + 1);
    let a = s.subrange(0, d1);
    let b = s.subrange(d1 + 1, d2);
    let c = s.subrange(d2 + 1, d3);
    let d = s.subrange(d3 + 1, s.len() as int);
    assert(s =~= dotted(a, b, c, d));
}

/// Pieces joined by single colons.
pub open spec fn joined(pieces: Seq<Seq<u8>>) -> Seq<u8>
    decreases pieces.len(),
{
    if pieces.len() == 0 {
        Seq::empty()
    } else if pieces.len() == 1 {
        pieces[0]
    } else {
        pieces[0] + seq![COLON] + joined(pieces.drop_first())
    }
}

/// Whether every piece is a group.
pub open spec fn all_groups(pieces: Seq<Seq<u8>>) -> bool {
    forall|i: int| 0 <= i < pieces.len() ==> group_of(#[trigger] pieces[i]).is_some()
}

/// The values of pieces that are groups.
pub open spec fn group_values(pieces: Seq<Seq<u8>>) -> Seq<u16> {
    Seq::new(pieces.len(), |i: int| group_of(pieces[i]).unwrap())
}

/// Whether `s` holds no `::`.
pub open spec fn no_gap(s: Seq<u8>) -> bool {
    forall|i: int| 0 <= i < s.len() - 1 ==> !(#[trigger] s[i] == COLON && s[i + 1] == COLON)
}

/// Groups joined by single colons start and end with a digit and hold no `::`.
pub proof fn lemma_joined_shape(pieces: Seq<Seq<u8>>)
    requires
        pieces.len() >= 1,
        all_groups(pieces),
    ensures
        joined(pieces).len() >= 1,
        joined(pieces)[0] != COLON,
        joined(pieces).last() != COLON,
        no_gap(joined(pieces)),
        pieces.len() >= 2 ==> joined(pieces)[pieces[0].len() as int] == COLON,
        forall|i: int| 0 <= i < joined(pieces).len() ==> joined(pieces)[i] != DOT,
    decreases pieces.len(),
{
    let s = joined(pieces);
    let p = pieces[0];
    assert(group_of(p).is_some());
    assert forall|i: int| 0 <= i < p.len() implies p[i] != COLON && p[i] != DOT by {
        assert(hex_value(p[i]).is_some());
    }
    if pieces.len() >= 2 {
        let rest = pieces.drop_first();
        assert forall|i: int| 0 <= i < rest.len() implies group_of(#[trigger] rest[i]).is_some() by {
            assert(rest[i] == pieces[i + 1]);
        }
        lemma_joined_shape(rest);
        let r = joined(rest);
        let n = p.len() as int;
        assert(s =~= p + seq![COLON] + r);
        assert(s.len() == n + 1 + r.len());
        assert(s[0] == p[0]);
        assert(s.last() == r.last());
        assert forall|i: int| 0 <= i < s.len() - 1 implies !(#[trigger] s[i] == COLON && s[i + 1]
            == COLON) by {
            if i < n {
                assert(s[i] == p[i]);
            } else if i == n {
                assert(s[i + 1] == r[0]);
            } else {
                assert(s[i] == r[i - n - 1]);
                assert(s[i + 1] == r[i - n]);
            }
        }
        assert forall|i: int| 0 <= i < s.len() implies s[i] != DOT by {
            if i < n {
                assert(s[i] == p[i]);
            } else if i > n {
                assert(s[i] == r[i - n - 1]);
            }
        }
    }
}

/// Groups joined by single colons read as the run of their values.
pub proof fn lemma_groups_of_joined(pieces: Seq<Seq<u8>>, allow_v4: bool)
    requires
        pieces.len() >= 1,
        all_groups(pieces),
    ensures
        groups_of(joined(pieces), allow_v4) == Some(group_values(pieces)),
    decreases pieces.len(),
{
    let s = joined(pieces);
    let p = pieces[0];
    assert(group_of(p).is_some());
    assert forall|i: int| 0 <= i < p.len() implies p[i] != COLON by {
        assert(hex_value(p[i]).is_some());
    }
    if pieces.len() == 1 {
        lemma_position_missing(s, COLON, 0);
        assert(group_values(pieces) =~= seq![group_of(p).unwrap()]);
    } else {
        let rest = pieces.drop_first();
        assert forall|i: int| 0 <= i < rest.len() implies group_of(#[trigger] rest[i]).is_some() by {
            assert(rest[i] == pieces[i + 1]);
        }
        lemma_groups_of_joined(rest, allow_v4);
        let r = joined(rest);
        let n = p.len() as int;
        assert(s =~= p + seq![COLON] + r);
        assert forall|i: int| 0 <= i < n implies s[i] != COLON by {
            assert(s[i] == p[i]);
        }
        assert(s[n] == COLON);
        lemma_position_found(s, COLON, 0, n);
        assert(s.subrange(0, n) =~= p);
        assert(s.subrange(n + 1, s.len() as int) =~= r);
        assert(group_values(pieces) =~= seq![group_of(p).unwrap()] + group_values(rest));
    }
}

/// `gap_position` is the length of `s` where `s` holds no `::`.
pub proof fn lemma_gap_missing(s: Seq<u8>, from: int)
    requires
        0 <= from,
        no_gap(s),
    ensures
        gap_position(s, from) == s.len(),
    decreases s.len() - from,
{
    if from + 1 < s.len() {
        assert(!(s[from] == COLON && s[from + 1] == COLON));
        lemma_gap_missing(s, from + 1);
    }
}

/// `gap_position` is `k` where `::` stands at `k` and nowhere from `from`
/// up to `k`.
pub proof fn lemma_gap_found(s: Seq<u8>, from: int, k: int)
    requires
        0 <= from <= k,
        k + 1 < s.len(),
        s[k] == COLON,
        s[k + 1] == COLON,
        forall|i: int| from <= i < k ==> !(#[trigger] s[i] == COLON && s[i + 1] == COLON),
    ensures
        gap_position(s, from) == k,
    decreases k - from,
{
    if from < k {
        assert(!(s[from] == COLON && s[from + 1] == COLON));
        lemma_gap_found(s, from + 1, k);
    }
}

/// A text that holds a colon is no dotted quad.
pub proof fn lemma_colon_excludes_v4(s: Seq<u8>, k: int)
    requires
        0 <= k < s.len(),
        s[k] == COLON,
    ensures
        v4_of(s).is_none(),
{
    if v4_of(s).is_some() {
        let d1 = position_of(s, DOT, 0);
        let d2 = position_of(s, DOT, d1 + 1);
        let d3 = position_of(s, DOT, d2 + 1);
        lemma_position_bounds(s, DOT, 0);
        assert(d1 < s.len());
        lemma_position_bounds(s, DOT, d1 + 1);
        assert(d2 < s.len());
        lemma_position_bounds(s, DOT, d2 + 1);
        lemma_position_hits(s, DOT, 0);
        lemma_position_hits(s, DOT, d1 + 1);
        lemma_position_hits(s, DOT, d2 + 1);
        let a = s.subrange(0, d1);
        let b = s.subrange(d1 + 1, d2);
        let c = s.subrange(d2 + 1, d3);
        let d = s.subrange(d3 + 1, s.len() as int);
        if k < d1 {
            assert(is_digit(a[k]));
        } else if d1 < k < d2 {
            assert(is_digit(b[k - d1 - 1]));
        } else if d2 < k < d3 {
            assert(is_digit(c[k - d2 - 1]));
        } else if d3 < k {
            assert(is_digit(d[k - d3 - 1]));
        }
    }
}

/// Every text made of eight groups joined by single colons is an address,
/// and it is the IPv6 address of those groups.
pub proof fn eight_groups_are_an_address(pieces: Seq<Seq<u8>>)
    requires
        pieces.len() == 8,
        all_groups(pieces),
    ensures
        ip_of_text(joined(pieces)) == Some(v6_address(group_values(pieces))),
{
    let s = joined(pieces);
    lemma_joined_shape(pieces);
    lemma_groups_of_joined(pieces, true);
    lemma_gap_missing(s, 0);
    lemma_position_bounds(s, COLON, 0);
    lemma_colon_excludes_v4(s, pieces[0].len() as int);
}

/// A head and a tail of groups around `::`.
pub open spec fn compressed(head: Seq<Seq<u8>>, tail: Seq<Seq<u8>>) -> Seq<u8> {
    joined(head) + seq![COLON, COLON] + joined(tail)
}

/// Every text made of at most seven groups, joined by single colons but for
/// one `::`, is an address: the IPv6 address of those groups with zero
/// groups in place of `::`.
pub proof fn compressed_groups_are_an_address(head: Seq<Seq<u8>>, tail: Seq<Seq<u8>>)
    requires
        head.len() + tail.len() <= 7,
        all_groups(head),
        all_groups(tail),
    ensures
        ip_of_text(compressed(head, tail)) == Some(
            v6_address(expanded(group_values(head), group_values(tail))),
        ),
{
    let h = joined(head);
    let t = joined(tail);
    let s = compressed(head, tail);
    let p = h.len() as int;
    assert(s.len() == p + 2 + t.len());
    assert(s[p] == COLON && s[p + 1] == COLON);
    if head.len() >= 1 {
        lemma_joined_shape(head);
        lemma_groups_of_joined(head, false);
    }
    if tail.len() >= 1 {
        lemma_joined_shape(tail);
        lemma_groups_of_joined(tail, true);
    }
    assert forall|i: int| 0 <= i < p implies !(#[trigger] s[i] == COLON && s[i + 1] == COLON) by {
        assert(s[i] == h[i]);
        if i + 1 < p {
            assert(s[i + 1] == h[i + 1]);
        }
    }
    lemma_gap_found(s, 0, p);
    assert(s.subrange(0, p) =~= h);
    assert(s.subrange(p + 2, s.len() as int) =~= t);
    assert(head.len() == 0 ==> group_values(head) =~= Seq::<u16>::empty());
    assert(tail.len() == 0 ==> group_values(tail) =~= Seq::<u16>::empty());
    lemma_colon_excludes_v4(s, p);
}

/// Groups and then a dotted quad, joined by single colons.
pub open spec fn joined_with_quad(pieces: Seq<Seq<u8>>, quad: Seq<u8>) -> Seq<u8>
    decreases pieces.len(),
{
    if pieces.len() == 0 {
        quad
    } else {
        pieces[0] + seq![COLON] + joined_with_quad(pieces.drop_first(), quad)
    }
}

/// A dotted quad holds no colon, and reads as a run of two groups.
pub proof fn lemma_quad_as_groups(quad: Seq<u8>)
    requires
        v4_of(quad).is_some(),
    ensures
        groups_of(quad, true) == Some(quad_groups(v4_of(quad).unwrap())),
        forall|i: int| 0 <= i < quad.len() ==> quad[i] != COLON,
        quad.len() >= 1,
{
    assert forall|i: int| 0 <= i < quad.len() implies quad[i] != COLON by {
        if quad[i] == COLON {
            lemma_colon_excludes_v4(quad, i);
        }
    }
    lemma_position_missing(quad, COLON, 0);
    let d1 = position_of(quad, DOT, 0);
    lemma_position_bounds(quad, DOT, 0);
    lemma_position_hits(quad, DOT, 0);
    assert(hex_value(quad[d1]).is_none());
}

/// Groups and a dotted quad joined by single colons start with a digit,
/// hold no `::`, and read as the run of the groups' values and the two
/// groups of the quad.
pub proof fn lemma_groups_of_joined_with_quad(pieces: Seq<Seq<u8>>, quad: Seq<u8>)
    requires
        all_groups(pieces),
        v4_of(quad).is_some(),
    ensures
        groups_of(joined_with_quad(pieces, quad), true) == Some(
            group_values(pieces) + quad_groups(v4_of(quad).unwrap()),
        ),
        joined_with_quad(pieces, quad).len() >= 1,
        joined_with_quad(pieces, quad)[0] != COLON,
        no_gap(joined_with_quad(pieces, quad)),
        pieces.len() >= 1 ==> joined_with_quad(pieces, quad)[pieces[0].len() as int] == COLON,
    decreases pieces.len(),
{
    let s = joined_with_quad(pieces, quad);
    lemma_quad_as_groups(quad);
    if pieces.len() == 0 {
        assert(group_values(pieces) + quad_groups(v4_of(quad).unwrap()) =~= quad_groups(
            v4_of(quad).unwrap(),
        ));
    } else {
        let p = pieces[0];
        assert(group_of(p).is_some());
        assert forall|i: int| 0 <= i < p.len() implies p[i] != COLON by {
            assert(hex_value(p[i]).is_some());
        }
        let rest = pieces.drop_first();
        assert forall|i: int| 0 <= i < rest.len() implies group_of(#[trigger] rest[i]).is_some() by {
            assert(rest[i] == pieces[i + 1]);
        }
        lemma_groups_of_joined_with_quad(rest, quad);
        let r = joined_with_quad(rest, quad);
        let n = p.len() as int;
        assert(s =~= p + seq![COLON] + r);
        assert(s.len() == n + 1 + r.len());
        assert(s[0] == p[0]);
        assert forall|i: int| 0 <= i < n implies s[i] != COLON by {
            assert(s[i] == p[i]);
        }
        assert(s[n] == COLON);
        lemma_position_found(s, COLON, 0, n);
        assert(s.subrange(0, n) =~= p);
        assert(s.subrange(n + 1, s.len() as int) =~= r);
        assert(group_values(pieces) + quad_groups(v4_of(quad).unwrap()) =~= seq![
            group_of(p).unwrap(),
        ] + (group_values(rest) + quad_groups(v4_of(quad).unwrap())));
        assert forall|i: int| 0 <= i < s.len() - 1 implies !(#[trigger] s[i] == COLON && s[i + 1]
            == COLON) by {
            if i < n {
                assert(s[i] == p[i]);
            } else if i == n {
                assert(s[i + 1] == r[0]);
            } else {
                assert(s[i] == r[i - n - 1]);
                assert(s[i + 1] == r[i - n]);
            }
        }
    }
}

/// Every text made of six groups and a dotted quad, joined by single
/// colons, is an address: the IPv6 address of the six groups and the two
/// groups that the quad fills.
pub proof fn six_groups_and_quad_are_an_address(pieces: Seq<Seq<u8>>, quad: Seq<u8>)
    requires
        pieces.len() == 6,
        all_groups(pieces),
        v4_of(quad).is_some(),
    ensures
        ip_of_text(joined_with_quad(pieces, quad)) == Some(
            v6_address(group_values(pieces) + quad_groups(v4_of(quad).unwrap())),
        ),
{
    let s = joined_with_quad(pieces, quad);
    lemma_groups_of_joined_with_quad(pieces, quad);
    lemma_gap_missing(s, 0);
    assert(group_of(pieces[0]).is_some());
    lemma_colon_excludes_v4(s, pieces[0].len() as int);
}

/// Every text made of groups, `::`, and then groups and a dotted quad, with
/// at most five groups in all, is an address: the IPv6 address of those
/// groups and the two groups of the quad, with zero groups in place of `::`.
pub proof fn compressed_groups_and_quad_are_an_address(
    head: Seq<Seq<u8>>,
    tail: Seq<Seq<u8>>,
    quad: Seq<u8>,
)
    requires
        head.len() + tail.len() <= 5,
        all_groups(head),
        all_groups(tail),
        v4_of(quad).is_some(),
    ensures
        ip_of_text(joined(head) + seq![COLON, COLON] + joined_with_quad(tail, quad)) == Some(
            v6_address(
                expanded(
                    group_values(head),
                    group_values(tail) + quad_groups(v4_of(quad).unwrap()),
                ),
            ),
        ),
{
    let h = joined(head);
    let t = joined_with_quad(tail, quad);
    let s = h + seq![COLON, COLON] + t;
    let p = h.len() as int;
    assert(s.len() == p + 2 + t.len());
    assert(s[p] == COLON && s[p + 1] == COLON);
    if head.len() >= 1 {
        lemma_joined_shape(head);
        lemma_groups_of_joined(head, false);
    }
    lemma_groups_of_joined_with_quad(tail, quad);
    assert forall|i: int| 0 <= i < p implies !(#[trigger] s[i] == COLON && s[i + 1] == COLON) by {
        assert(s[i] == h[i]);
        if i + 1 < p {
            assert(s[i + 1] == h[i + 1]);
        }
    }
    lemma_gap_found(s, 0, p);
    assert(s.subrange(0, p) =~= h);
    assert(s.subrange(p + 2, s.len() as int) =~= t);
    assert(head.len() == 0 ==> group_values(head) =~= Seq::<u16>::empty());
    lemma_colon_excludes_v4(s, p);
}

/// The bytes that the notation is written in: hexadecimal digits, the
/// colon and the dot.
pub open spec fn is_address_byte(b: u8) -> bool {
    hex_value(b).is_some() || b == COLON || b == DOT
}

pub open spec fn all_address_bytes(s: Seq<u8>) -> bool {
    forall|i: int| 0 <= i < s.len() ==> is_address_byte(#[trigger] s[i])
}

/// A dotted quad is written in digits and dots.
pub proof fn lemma_quad_bytes(s: Seq<u8>)
    requires
        v4_of(s).is_some(),
    ensures
        all_address_bytes(s),
{
    let d1 = position_of(s, DOT, 0);
    let d2 = position_of(s, DOT, d1 + 1);
    let d3 = position_of(s, DOT, d2 + 1);
    lemma_position_bounds(s, DOT, 0);
    assert(d1 < s.len());
    lemma_position_bounds(s, DOT, d1 + 1);
    assert(d2 < s.len());
    lemma_position_bounds(s, DOT, d2 + 1);
    lemma_position_hits(s, DOT, 0);
    lemma_position_hits(s, DOT, d1 + 1);
    lemma_position_hits(s, DOT, d2 + 1);
    let a = s.subrange(0, d1);
    let b = s.subrange(d1 + 1, d2);
    let c = s.subrange(d2 + 1, d3);
    let d = s.subrange(d3 + 1, s.len() as int);
    assert forall|k: int| 0 <= k < s.len() implies is_address_byte(#[trigger] s[k]) by {
        if k < d1 {
            assert(is_digit(a[k]));
        } else if d1 < k < d2 {
            assert(is_digit(b[k - d1 - 1]));
        } else if d2 < k < d3 {
            assert(is_digit(c[k - d2 - 1]));
        } else if d3 < k {
            assert(is_digit(d[k - d3 - 1]));
        }
    }
}

/// A run of groups is written in address bytes.
pub proof fn lemma_groups_bytes(s: Seq<u8>, allow_v4: bool)
    requires
        groups_of(s, allow_v4).is_some(),
    ensures
        all_address_bytes(s),
    decreases s.len(),
{
    let c = position_of(s, COLON, 0);
    lemma_position_bounds(s, COLON, 0);
    if c >= s.len() {
        if group_of(s).is_some() {
            assert forall|k: int| 0 <= k < s.len() implies is_address_byte(#[trigger] s[k]) by {
                assert(hex_value(s[k]).is_some());
            }
        } else {
            lemma_quad_bytes(s);
        }
    } else {
        lemma_position_hits(s, COLON, 0);
        let p = s.subrange(0, c);
        let rest = s.subrange(c + 1, s.len() as int);
        assert(group_of(p).is_some());
        lemma_groups_bytes(rest, allow_v4);
        assert forall|k: int| 0 <= k < s.len() implies is_address_byte(#[trigger] s[k]) by {
            if k < c {
                assert(hex_value(p[k]).is_some());
            } else if k > c {
                assert(is_address_byte(rest[k - c - 1]));
            }
        }
    }
}

/// Where `gap_position` stops before the end, it stops on `::`.
pub proof fn lemma_gap_hits(s: Seq<u8>, from: int)
    requires
        0 <= from,
        gap_position(s, from) < s.len(),
    ensures
        from <= gap_position(s, from),
        gap_position(s, from) + 1 < s.len(),
        s[gap_position(s, from)] == COLON,
        s[gap_position(s, from) + 1] == COLON,
    decreases s.len() - from,
{
    if from + 1 < s.len() && !(s[from] == COLON && s[from + 1] == COLON) {
        lemma_gap_hits(s, from + 1);
    }
}

/// Every address is written in hexadecimal digits, colons and dots: a text
/// that holds any other byte is no address.
pub proof fn address_is_written_in_address_bytes(s: Seq<u8>)
    requires
        ip_of_text(s).is_some(),
    ensures
        all_address_bytes(s),
{
    if v4_of(s).is_some() {
        lemma_quad_bytes(s);
    } else {
        assert(v6_of(s).is_some());
        let p = gap_position(s, 0);
        if p >= s.len() {
            lemma_groups_bytes(s, true);
        } else {
            lemma_gap_hits(s, 0);
            let h = s.subrange(0, p);
            let t = s.subrange(p + 2, s.len() as int);
            assert(list_of(h, false).is_some());
            assert(list_of(t, true).is_some());
            if h.len() > 0 {
                lemma_groups_bytes(h, false);
            }
            if t.len() > 0 {
                lemma_groups_bytes(t, true);
            }
            assert forall|k: int| 0 <= k < s.len() implies is_address_byte(#[trigger] s[k]) by {
                if k < p {
                    assert(is_address_byte(h[k]));
                } else if k >= p + 2 {
                    assert(is_address_byte(t[k - p - 2]));
                }
            }
        }
    }
}

} // verus!
