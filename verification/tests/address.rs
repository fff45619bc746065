use hafox::address::IpAddress;

#[test]
fn reads_ipv4_addresses() {
    assert_eq!(IpAddress::parse("10.97.59.174"), Some(IpAddress::V4 { octets: [10, 97, 59, 174] }));
    assert_eq!(IpAddress::parse("0.0.0.0"), Some(IpAddress::V4 { octets: [0, 0, 0, 0] }));
    assert_eq!(
        IpAddress::parse("255.255.255.255"),
        Some(IpAddress::V4 { octets: [255, 255, 255, 255] })
    );
    assert_eq!("192.168.1.20".parse::<IpAddress>(), Ok(IpAddress::V4 { octets: [192, 168, 1, 20] }));
}

#[test]
fn refuses_malformed_ipv4() {
    for text in ["", "1.2.3", "1.2.3.4.5", "256.1.1.1", "01.2.3.4", "1..2.3", "1.2.3.4 ", " 1.2.3.4", "1.2.3.a", "1234.1.1.1"] {
        assert_eq!(IpAddress::parse(text), None, "{text}");
        assert!(text.parse::<IpAddress>().is_err(), "{text}");
    }
}

#[test]
fn reads_ipv6_addresses() {
    assert_eq!(IpAddress::parse("::"), Some(IpAddress::V6 { segments: [0; 8] }));
    assert_eq!(IpAddress::parse("::1"), Some(IpAddress::V6 { segments: [0, 0, 0, 0, 0, 0, 0, 1] }));
    assert_eq!(IpAddress::parse("1::"), Some(IpAddress::V6 { segments: [1, 0, 0, 0, 0, 0, 0, 0] }));
    assert_eq!(
        IpAddress::parse("fe80::1:AbCd"),
        Some(IpAddress::V6 { segments: [0xfe80, 0, 0, 0, 0, 0, 1, 0xabcd] })
    );
    assert_eq!(
        IpAddress::parse("1:2:3:4:5:6:7:8"),
        Some(IpAddress::V6 { segments: [1, 2, 3, 4, 5, 6, 7, 8] })
    );
    assert_eq!(
        IpAddress::parse("::ffff:10.97.59.174"),
        Some(IpAddress::V6 { segments: [0, 0, 0, 0, 0, 0xffff, 0x0a61, 0x3bae] })
    );
    assert_eq!(
        IpAddress::parse("1:2:3:4:5:6:1.2.3.4"),
        Some(IpAddress::V6 { segments: [1, 2, 3, 4, 5, 6, 0x0102, 0x0304] })
    );
    assert_eq!(
        IpAddress::parse("1:2:3:4:5:6:7::"),
        Some(IpAddress::V6 { segments: [1, 2, 3, 4, 5, 6, 7, 0] })
    );
    assert_eq!(
        IpAddress::parse("0001:002:03::"),
        Some(IpAddress::V6 { segments: [1, 2, 3, 0, 0, 0, 0, 0] })
    );
}

#[test]
fn refuses_malformed_ipv6() {
    for text in [
        ":::",
        "1:::2",
        "1::2::3",
        "1:2:3:4:5:6:7",
        "1:2:3:4:5:6:7:8:9",
        "1:2:3:4:5:6:7:8::",
        "1:2:3:4:5:6:7::8",
        "12345::",
        "1.2.3.4::",
        "1::1.2.3.4:5",
        "1:2:3:4:5:6::1.2.3.4",
        ":1::2",
        "1::2:",
        "g::",
    ] {
        assert_eq!(IpAddress::parse(text), None, "{text}");
    }
}
