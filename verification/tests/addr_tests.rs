use rnccd::addr::{fmt_optional_addr, format_ipv4, parse_ipv4, Ipv4};

fn ip(a: u8, b: u8, c: u8, d: u8) -> Ipv4 {
    Ipv4 { a, b, c, d }
}

#[test]
fn format_simple() {
    assert_eq!(format_ipv4(&ip(1, 2, 3, 4)), b"1.2.3.4".to_vec());
}

#[test]
fn format_all_widths() {
    assert_eq!(format_ipv4(&ip(0, 0, 0, 0)), b"0.0.0.0".to_vec());
    assert_eq!(format_ipv4(&ip(255, 255, 255, 255)), b"255.255.255.255".to_vec());
    assert_eq!(format_ipv4(&ip(10, 0, 200, 7)), b"10.0.200.7".to_vec());
    assert_eq!(format_ipv4(&ip(192, 168, 1, 254)), b"192.168.1.254".to_vec());
}

#[test]
fn parse_simple() {
    assert_eq!(parse_ipv4(b"1.2.3.4"), Some(ip(1, 2, 3, 4)));
    assert_eq!(parse_ipv4(b"0.0.0.0"), Some(ip(0, 0, 0, 0)));
    assert_eq!(parse_ipv4(b"255.255.255.255"), Some(ip(255, 255, 255, 255)));
    assert_eq!(parse_ipv4(b"203.0.113.7"), Some(ip(203, 0, 113, 7)));
}

#[test]
fn parse_round_trip() {
    let cases = [
        ip(0, 0, 0, 0),
        ip(1, 2, 3, 4),
        ip(9, 10, 99, 100),
        ip(100, 99, 10, 9),
        ip(255, 0, 255, 0),
        ip(172, 16, 31, 255),
    ];
    for c in cases {
        assert_eq!(parse_ipv4(&format_ipv4(&c)), Some(c));
    }
}

#[test]
fn parse_rejects_wrong_shape() {
    assert_eq!(parse_ipv4(b""), None);
    assert_eq!(parse_ipv4(b"1.2.3"), None);
    assert_eq!(parse_ipv4(b"1.2.3."), None);
    assert_eq!(parse_ipv4(b".1.2.3.4"), None);
    assert_eq!(parse_ipv4(b"1.2.3.4.5"), None);
    assert_eq!(parse_ipv4(b"1..2.3.4"), None);
    assert_eq!(parse_ipv4(b"1.2.3.4 "), None);
    assert_eq!(parse_ipv4(b" 1.2.3.4"), None);
    assert_eq!(parse_ipv4(b"a.b.c.d"), None);
    assert_eq!(parse_ipv4(b"1.2.3.4\n"), None);
}

#[test]
fn parse_rejects_bad_octets() {
    assert_eq!(parse_ipv4(b"256.1.1.1"), None);
    assert_eq!(parse_ipv4(b"1.2.3.256"), None);
    assert_eq!(parse_ipv4(b"999.1.1.1"), None);
    assert_eq!(parse_ipv4(b"1234.1.1.1"), None);
    assert_eq!(parse_ipv4(b"01.2.3.4"), None);
    assert_eq!(parse_ipv4(b"1.2.3.04"), None);
    assert_eq!(parse_ipv4(b"00.0.0.0"), None);
}

#[test]
fn fmt_optional_addr_values() {
    assert_eq!(fmt_optional_addr(&None), b"None".to_vec());
    assert_eq!(fmt_optional_addr(&Some(ip(8, 8, 8, 8))), b"8.8.8.8".to_vec());
}
