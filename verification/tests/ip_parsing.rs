use geoip_service::ip::{find, parse_group, parse_groups, parse_ip, parse_octet, parse_v4, parse_v6, IpAddress};

#[test]
fn dotted_quad_is_read() {
    assert_eq!(parse_ip(b"8.8.8.8"), Some(IpAddress::V4(8, 8, 8, 8)));
    assert_eq!(parse_ip(b"203.0.113.1"), Some(IpAddress::V4(203, 0, 113, 1)));
    assert_eq!(parse_ip(b"0.0.0.0"), Some(IpAddress::V4(0, 0, 0, 0)));
    assert_eq!(parse_ip(b"255.255.255.255"), Some(IpAddress::V4(255, 255, 255, 255)));
    assert_eq!(parse_ip(b"127.0.0.1"), Some(IpAddress::V4(127, 0, 0, 1)));
}

#[test]
fn malformed_dotted_quads_are_refused() {
    assert_eq!(parse_ip(b""), None);
    assert_eq!(parse_ip(b"not-an-ip"), None);
    assert_eq!(parse_ip(b"1.2.3"), None);
    assert_eq!(parse_ip(b"1.2.3.4.5"), None);
    assert_eq!(parse_ip(b"1.2.3.256"), None);
    assert_eq!(parse_ip(b"1.2.3.04"), None);
    assert_eq!(parse_ip(b"01.2.3.4"), None);
    assert_eq!(parse_ip(b"1..3.4"), None);
    assert_eq!(parse_ip(b".1.2.3"), None);
    assert_eq!(parse_ip(b"1.2.3."), None);
    assert_eq!(parse_ip(b"1.2.3.4 "), None);
    assert_eq!(parse_ip(b" 1.2.3.4"), None);
    assert_eq!(parse_ip(b"1.2.3.a"), None);
    assert_eq!(parse_ip(b"1.2.3.1000"), None);
    assert_eq!(parse_ip(b"/api/locate/1.2.3.4"), None);
    assert_eq!(parse_ip("1.2.3.\u{664}".as_bytes()), None);
}

#[test]
fn octets_are_read_exactly() {
    assert_eq!(parse_octet(b"0"), Some(0));
    assert_eq!(parse_octet(b"9"), Some(9));
    assert_eq!(parse_octet(b"10"), Some(10));
    assert_eq!(parse_octet(b"99"), Some(99));
    assert_eq!(parse_octet(b"100"), Some(100));
    assert_eq!(parse_octet(b"255"), Some(255));
    assert_eq!(parse_octet(b"256"), None);
    assert_eq!(parse_octet(b"00"), None);
    assert_eq!(parse_octet(b""), None);
    assert_eq!(parse_octet(b"1234"), None);
    assert_eq!(parse_octet(b"+1"), None);
}

#[test]
fn separator_is_found() {
    assert_eq!(find(b"ab.cd.e", b'.', 0), 2);
    assert_eq!(find(b"ab.cd.e", b'.', 3), 5);
    assert_eq!(find(b"ab.cd.e", b'.', 6), 7);
    assert_eq!(find(b"", b'.', 0), 0);
}

#[test]
fn quad_alone() {
    assert_eq!(parse_v4(b"192.168.1.20"), Some((192, 168, 1, 20)));
    assert_eq!(parse_v4(b"::1"), None);
}

#[test]
fn groups_are_read_exactly() {
    assert_eq!(parse_group(b"0"), Some(0));
    assert_eq!(parse_group(b"ffff"), Some(0xffff));
    assert_eq!(parse_group(b"FfFf"), Some(0xffff));
    assert_eq!(parse_group(b"0db8"), Some(0x0db8));
    assert_eq!(parse_group(b"a"), Some(10));
    assert_eq!(parse_group(b"10"), Some(16));
    assert_eq!(parse_group(b"12345"), None);
    assert_eq!(parse_group(b""), None);
    assert_eq!(parse_group(b"g"), None);
    assert_eq!(parse_groups(b"1:2:3", false), Some(vec![1, 2, 3]));
    assert_eq!(parse_groups(b"1:2:1.2.3.4", true), Some(vec![1, 2, 0x0102, 0x0304]));
    assert_eq!(parse_groups(b"1:2:1.2.3.4", false), None);
    assert_eq!(parse_groups(b"1:2:", false), None);
    assert_eq!(parse_groups(b":1", false), None);
}

#[test]
fn full_ipv6_is_read() {
    assert_eq!(
        parse_ip(b"2001:0db8:85a3:0000:0000:8a2e:0370:7334"),
        Some(IpAddress::V6(0x2001, 0x0db8, 0x85a3, 0, 0, 0x8a2e, 0x0370, 0x7334))
    );
    assert_eq!(parse_ip(b"1:2:3:4:5:6:7:8"), Some(IpAddress::V6(1, 2, 3, 4, 5, 6, 7, 8)));
    assert_eq!(
        parse_ip(b"1:2:3:4:5:6:1.2.3.4"),
        Some(IpAddress::V6(1, 2, 3, 4, 5, 6, 0x0102, 0x0304))
    );
}

#[test]
fn compressed_ipv6_is_read() {
    assert_eq!(parse_ip(b"::"), Some(IpAddress::V6(0, 0, 0, 0, 0, 0, 0, 0)));
    assert_eq!(parse_ip(b"::1"), Some(IpAddress::V6(0, 0, 0, 0, 0, 0, 0, 1)));
    assert_eq!(parse_ip(b"1::"), Some(IpAddress::V6(1, 0, 0, 0, 0, 0, 0, 0)));
    assert_eq!(
        parse_ip(b"2001:4860:4860::8888"),
        Some(IpAddress::V6(0x2001, 0x4860, 0x4860, 0, 0, 0, 0, 0x8888))
    );
    assert_eq!(
        parse_ip(b"::ffff:192.0.2.128"),
        Some(IpAddress::V6(0, 0, 0, 0, 0, 0xffff, 0xc000, 0x0280))
    );
    assert_eq!(parse_ip(b"1:2:3:4:5:6:7::"), Some(IpAddress::V6(1, 2, 3, 4, 5, 6, 7, 0)));
    assert_eq!(parse_ip(b"::2:3:4:5:6:7:8"), Some(IpAddress::V6(0, 2, 3, 4, 5, 6, 7, 8)));
    assert_eq!(
        parse_ip(b"1:2:3:4:5::1.2.3.4"),
        Some(IpAddress::V6(1, 2, 3, 4, 5, 0, 0x0102, 0x0304))
    );
    assert_eq!(parse_v6(b"fe80::1"), Some(IpAddress::V6(0xfe80, 0, 0, 0, 0, 0, 0, 1)));
}

#[test]
fn malformed_ipv6_is_refused() {
    assert_eq!(parse_ip(b":"), None);
    assert_eq!(parse_ip(b":::"), None);
    assert_eq!(parse_ip(b"1:::2"), None);
    assert_eq!(parse_ip(b"1::2::3"), None);
    assert_eq!(parse_ip(b"1:2:3:4:5:6:7"), None);
    assert_eq!(parse_ip(b"1:2:3:4:5:6:7:8:9"), None);
    assert_eq!(parse_ip(b"1:2:3:4:5:6:7:8::"), None);
    assert_eq!(parse_ip(b"::1:2:3:4:5:6:7:8"), None);
    assert_eq!(parse_ip(b"1:2:3:4:5:6:7:1.2.3.4"), None);
    assert_eq!(parse_ip(b"1:2:3:4:5:6::1.2.3.4"), None);
    assert_eq!(parse_ip(b"1.2.3.4::"), None);
    assert_eq!(parse_ip(b"1.2.3.4:1:2:3:4:5:6"), None);
    assert_eq!(parse_ip(b"12345::"), None);
    assert_eq!(parse_ip(b"g::"), None);
    assert_eq!(parse_ip(b"fe80::1%eth0"), None);
    assert_eq!(parse_ip(b"[::1]"), None);
    assert_eq!(parse_ip(b"1:2:3:4:5:6:7:"), None);
    assert_eq!(parse_ip(b":1:2:3:4:5:6:7"), None);
}
