use kagemusha::ip::IpAddress;

#[test]
fn parses_ipv4_like_std() {
    assert_eq!(IpAddress::parse("1.2.3.4"), Some(IpAddress::V4(1, 2, 3, 4)));
    assert_eq!(IpAddress::parse("0.0.0.0"), Some(IpAddress::V4(0, 0, 0, 0)));
    assert_eq!(IpAddress::parse("255.255.255.255"), Some(IpAddress::V4(255, 255, 255, 255)));
    assert_eq!(IpAddress::parse("256.1.1.1"), None);
    assert_eq!(IpAddress::parse("01.2.3.4"), None);
    assert_eq!(IpAddress::parse("1.2.3"), None);
    assert_eq!(IpAddress::parse("1.2.3.4.5"), None);
    assert_eq!(IpAddress::parse("1..3.4"), None);
    assert_eq!(IpAddress::parse(" 1.2.3.4"), None);
    assert_eq!(IpAddress::parse("1.2.3.4 "), None);
    assert_eq!(IpAddress::parse("1234.1.1.1"), None);
    assert_eq!(IpAddress::parse(""), None);
    assert_eq!(IpAddress::parse("not_an_ip"), None);
}

#[test]
fn parses_ipv6_like_std() {
    assert_eq!(IpAddress::parse("::"), Some(IpAddress::V6(0, 0, 0, 0, 0, 0, 0, 0)));
    assert_eq!(IpAddress::parse("::1"), Some(IpAddress::V6(0, 0, 0, 0, 0, 0, 0, 1)));
    assert_eq!(IpAddress::parse("1::"), Some(IpAddress::V6(1, 0, 0, 0, 0, 0, 0, 0)));
    assert_eq!(
        IpAddress::parse("2001:db8::1"),
        Some(IpAddress::V6(0x2001, 0xdb8, 0, 0, 0, 0, 0, 1))
    );
    assert_eq!(
        IpAddress::parse("1:2:3:4:5:6:7:8"),
        Some(IpAddress::V6(1, 2, 3, 4, 5, 6, 7, 8))
    );
    assert_eq!(
        IpAddress::parse("1:2:3:4:5:6:7::"),
        Some(IpAddress::V6(1, 2, 3, 4, 5, 6, 7, 0))
    );
    assert_eq!(
        IpAddress::parse("::ffff:1.2.3.4"),
        Some(IpAddress::V6(0, 0, 0, 0, 0, 0xffff, 0x0102, 0x0304))
    );
    assert_eq!(
        IpAddress::parse("1:2:3:4:5:6:1.2.3.4"),
        Some(IpAddress::V6(1, 2, 3, 4, 5, 6, 0x0102, 0x0304))
    );
    assert_eq!(
        IpAddress::parse("1:2:3:4:5::1.2.3.4"),
        Some(IpAddress::V6(1, 2, 3, 4, 5, 0, 0x0102, 0x0304))
    );
    assert_eq!(IpAddress::parse("ABCD:ef01::"), Some(IpAddress::V6(0xabcd, 0xef01, 0, 0, 0, 0, 0, 0)));
    assert_eq!(IpAddress::parse("0000:0:00:000:0:0:0:1"), Some(IpAddress::V6(0, 0, 0, 0, 0, 0, 0, 1)));
    for bad in [
        "1:2:3:4:5:6:7:8:9",
        "1:2:3:4:5:6:7:8::",
        "1:2:3:4:5:6:7::8",
        "1:2:3:4:5:6::1.2.3.4",
        "1.2.3.4::",
        "1:2:1.2.3.4:5:6:7",
        "::1::",
        ":::",
        "1:::2",
        ":1::",
        "12345::",
        "1:2:3:4:5:6:7",
        "g::",
        "::1.2.3",
        "::1.2.3.4a",
        "1:2:3:4:5:6:7:1.2.3.4",
        ":",
    ] {
        assert_eq!(IpAddress::parse(bad), None, "{}", bad);
    }
}

#[test]
fn displays_like_std() {
    let cases: &[(IpAddress, &str)] = &[
        (IpAddress::V4(1, 2, 3, 4), "1.2.3.4"),
        (IpAddress::V4(192, 168, 0, 10), "192.168.0.10"),
        (IpAddress::V6(0, 0, 0, 0, 0, 0, 0, 0), "::"),
        (IpAddress::V6(0, 0, 0, 0, 0, 0, 0, 1), "::1"),
        (IpAddress::V6(1, 0, 0, 0, 0, 0, 0, 0), "1::"),
        (IpAddress::V6(0x2001, 0xdb8, 0, 0, 0, 0, 0, 1), "2001:db8::1"),
        (IpAddress::V6(1, 0, 2, 3, 4, 5, 6, 7), "1:0:2:3:4:5:6:7"),
        (IpAddress::V6(1, 0, 0, 2, 0, 0, 0, 3), "1:0:0:2::3"),
        (IpAddress::V6(1, 0, 0, 2, 3, 0, 0, 4), "1::2:3:0:0:4"),
        (IpAddress::V6(0, 0, 0, 0, 0, 0xffff, 0x0102, 0x0304), "::ffff:1.2.3.4"),
        (IpAddress::V6(0xabcd, 0xef01, 0x10, 0x200, 0x3000, 0xffff, 0xa, 0xb), "abcd:ef01:10:200:3000:ffff:a:b"),
    ];
    for (ip, text) in cases {
        assert_eq!(ip.to_string(), *text);
        assert_eq!(IpAddress::parse(text), Some(*ip));
    }
}

#[test]
fn displayed_address_parses_back() {
    let addresses = [
        IpAddress::V4(0, 0, 0, 0),
        IpAddress::V4(10, 0, 255, 7),
        IpAddress::V4(192, 168, 1, 100),
        IpAddress::V6(0, 0, 0, 0, 0, 0, 0, 0),
        IpAddress::V6(0, 0, 0, 0, 0, 0, 0, 1),
        IpAddress::V6(0x2001, 0xdb8, 0, 0, 1, 0, 0, 1),
        IpAddress::V6(1, 0, 2, 0, 3, 0, 4, 0),
        IpAddress::V6(0xfe80, 0, 0, 0, 0, 0, 0, 0),
        IpAddress::V6(0, 0, 0, 0, 0, 0xffff, 0xc0a8, 0x0101),
        IpAddress::V6(0xffff, 0xffff, 0xffff, 0xffff, 0xffff, 0xffff, 0xffff, 0xffff),
    ];
    for ip in addresses {
        let text = ip.to_string();
        assert_eq!(IpAddress::parse(&text), Some(ip), "{}", text);
    }
}
