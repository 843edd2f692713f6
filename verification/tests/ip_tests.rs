use tailscale2::ip::{parse_ip, parse_ipv4, parse_ipv6, IpAddress};

fn v4(s: &str) -> Option<[u8; 4]> {
    let b = s.as_bytes();
    parse_ipv4(b, 0, b.len()).map(|ip| ip.octets)
}

fn v6(s: &str) -> Option<[u16; 8]> {
    let b = s.as_bytes();
    parse_ipv6(b, 0, b.len()).map(|ip| ip.segments)
}

#[test]
fn ipv4_basic() {
    assert_eq!(v4("100.64.0.1"), Some([100, 64, 0, 1]));
    assert_eq!(v4("0.0.0.0"), Some([0, 0, 0, 0]));
    assert_eq!(v4("255.255.255.255"), Some([255, 255, 255, 255]));
    assert_eq!(v4("1.2.3.4"), Some([1, 2, 3, 4]));
}

#[test]
fn ipv4_rejects_leading_zero() {
    assert_eq!(v4("01.2.3.4"), None);
    assert_eq!(v4("1.2.3.04"), None);
    assert_eq!(v4("00.0.0.0"), None);
}

#[test]
fn ipv4_rejects_out_of_range() {
    assert_eq!(v4("256.1.1.1"), None);
    assert_eq!(v4("1.1.1.999"), None);
    assert_eq!(v4("1234.1.1.1"), None);
}

#[test]
fn ipv4_rejects_wrong_shape() {
    assert_eq!(v4(""), None);
    assert_eq!(v4("1.2.3"), None);
    assert_eq!(v4("1.2.3.4.5"), None);
    assert_eq!(v4("1..2.3"), None);
    assert_eq!(v4(".1.2.3"), None);
    assert_eq!(v4("1.2.3."), None);
    assert_eq!(v4("1.2.3.4 "), None);
    assert_eq!(v4("a.b.c.d"), None);
    assert_eq!(v4("garbage"), None);
}

#[test]
fn ipv6_full_form() {
    assert_eq!(
        v6("1:2:3:4:5:6:7:8"),
        Some([1, 2, 3, 4, 5, 6, 7, 8])
    );
    assert_eq!(
        v6("fd7a:115c:a1e0:0:0:0:0:1"),
        Some([0xfd7a, 0x115c, 0xa1e0, 0, 0, 0, 0, 1])
    );
    assert_eq!(
        v6("FD7A:115C:A1E0:0:0:0:0:1"),
        Some([0xfd7a, 0x115c, 0xa1e0, 0, 0, 0, 0, 1])
    );
}

#[test]
fn ipv6_compressed_form() {
    assert_eq!(v6("::"), Some([0, 0, 0, 0, 0, 0, 0, 0]));
    assert_eq!(v6("::1"), Some([0, 0, 0, 0, 0, 0, 0, 1]));
    assert_eq!(v6("1::"), Some([1, 0, 0, 0, 0, 0, 0, 0]));
    assert_eq!(
        v6("fd7a:115c:a1e0::1"),
        Some([0xfd7a, 0x115c, 0xa1e0, 0, 0, 0, 0, 1])
    );
    assert_eq!(v6("1::8"), Some([1, 0, 0, 0, 0, 0, 0, 8]));
    assert_eq!(
        v6("1:2:3:4:5:6:7::"),
        Some([1, 2, 3, 4, 5, 6, 7, 0])
    );
    assert_eq!(v6("0001::"), Some([1, 0, 0, 0, 0, 0, 0, 0]));
}

#[test]
fn ipv6_embedded_ipv4() {
    assert_eq!(
        v6("::ffff:192.168.0.1"),
        Some([0, 0, 0, 0, 0, 0xffff, 0xc0a8, 0x0001])
    );
    assert_eq!(
        v6("::1.2.3.4"),
        Some([0, 0, 0, 0, 0, 0, 0x0102, 0x0304])
    );
    assert_eq!(
        v6("1:2:3:4:5:6:1.2.3.4"),
        Some([1, 2, 3, 4, 5, 6, 0x0102, 0x0304])
    );
}

#[test]
fn ipv6_compressed_with_tail_groups() {
    assert_eq!(v6("1::2:3"), Some([1, 0, 0, 0, 0, 0, 2, 3]));
    assert_eq!(
        v6("1::2:3:4:5:6:7"),
        Some([1, 0, 2, 3, 4, 5, 6, 7])
    );
    assert_eq!(
        v6("1:2::1.2.3.4"),
        Some([1, 2, 0, 0, 0, 0, 0x0102, 0x0304])
    );
}

#[test]
fn ipv6_rejects_overfull_compressed() {
    // `::` must stand for at least one zero group.
    assert_eq!(v6("1:2:3:4:5:6:7:8::"), None);
    assert_eq!(v6("1::2:3:4:5:6:7:8"), None);
    assert_eq!(v6("::1:2:3:4:5:6:7:8"), None);
}

#[test]
fn ipv6_rejects_trailing_or_leading_colon() {
    assert_eq!(v6("1::2:"), None);
    assert_eq!(v6(":1::2"), None);
}

#[test]
fn ipv6_rejects_wrong_shape() {
    assert_eq!(v6(""), None);
    assert_eq!(v6(":"), None);
    assert_eq!(v6(":::"), None);
    assert_eq!(v6("1:2:3:4:5:6:7"), None);
    assert_eq!(v6("1:2:3:4:5:6:7:8:9"), None);
    assert_eq!(v6("1:2:3:4:5:6:7:8::"), None);
    assert_eq!(v6("1::2::3"), None);
    assert_eq!(v6("12345::"), None);
    assert_eq!(v6("1:2:3:4:5:1.2.3.4"), None);
    assert_eq!(v6("::1.2.3.4:5"), None);
    assert_eq!(v6("1.2.3.4"), None);
    assert_eq!(v6("garbage"), None);
    assert_eq!(v6("g::1"), None);
    assert_eq!(v6("1::8 "), None);
}

#[test]
fn parse_ip_picks_family() {
    let b = b"100.64.0.1";
    match parse_ip(b, 0, b.len()) {
        Some(IpAddress::V4(ip)) => assert_eq!(ip.octets, [100, 64, 0, 1]),
        other => panic!("expected V4, got {:?}", other),
    }
    let b = b"fd7a:115c:a1e0::1";
    match parse_ip(b, 0, b.len()) {
        Some(IpAddress::V6(ip)) => {
            assert_eq!(ip.segments, [0xfd7a, 0x115c, 0xa1e0, 0, 0, 0, 0, 1])
        }
        other => panic!("expected V6, got {:?}", other),
    }
    let b = b"neither";
    assert!(parse_ip(b, 0, b.len()).is_none());
}

#[test]
fn parse_respects_range_bounds() {
    // Only the bytes inside [from, to) count.
    let b = b"xx1.2.3.4yy";
    assert_eq!(
        parse_ipv4(b, 2, 9).map(|ip| ip.octets),
        Some([1, 2, 3, 4])
    );
    assert_eq!(parse_ipv4(b, 0, b.len()), None);
}
