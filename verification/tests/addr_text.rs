use tunnel::addr::{Address, IpAddress, SocketAddress, ipv4_string, ipv6_string,
    socket_addr_string};
use tunnel::parse::{addr_to_tuple, parse_ipv4, parse_ipv6};
use tunnel::text::{u16_dec_string, u16_hex_string, u32_dec_string};

#[test]
fn decimal_rendering() {
    assert_eq!(u32_dec_string(0).as_str(), "0");
    assert_eq!(u32_dec_string(65535).as_str(), "65535");
    assert_eq!(u16_dec_string(443).as_str(), "443");
    assert_eq!(u16_hex_string(0x2001).as_str(), "2001");
    assert_eq!(u16_hex_string(0xdb8).as_str(), "db8");
    assert_eq!(u16_hex_string(0).as_str(), "0");
}

#[test]
fn ipv4_rendering() {
    assert_eq!(ipv4_string(0x7f000001).as_str(), "127.0.0.1");
    assert_eq!(ipv4_string(0x08080808).as_str(), "8.8.8.8");
    assert_eq!(ipv4_string(0xffffffff).as_str(), "255.255.255.255");
}

#[test]
fn ipv6_rendering() {
    // 2001:db8::1 — the longest zero run is elided
    let v: u128 = 0x2001_0db8_0000_0000_0000_0000_0000_0001;
    assert_eq!(ipv6_string(v).as_str(), "2001:db8::1");
    assert_eq!(ipv6_string(1).as_str(), "::1");
    assert_eq!(ipv6_string(0).as_str(), "::");
    // no run of two zero groups: all groups spelled out
    let w: u128 = 0x0001_0002_0003_0004_0005_0006_0007_0008;
    assert_eq!(ipv6_string(w).as_str(), "1:2:3:4:5:6:7:8");
}

#[test]
fn socket_rendering() {
    let sa = SocketAddress { ip: IpAddress::V4(0x7f000001), port: 80 };
    assert_eq!(socket_addr_string(&sa).as_str(), "127.0.0.1:80");
    let sb = SocketAddress { ip: IpAddress::V6(1), port: 53 };
    assert_eq!(socket_addr_string(&sb).as_str(), "[::1]:53");
}

#[test]
fn ipv4_literals() {
    assert_eq!(parse_ipv4("1.2.3.4"), Some(0x01020304));
    assert_eq!(parse_ipv4("127.0.0.1"), Some(0x7f000001));
    assert_eq!(parse_ipv4("255.255.255.255"), Some(0xffffffff));
    assert_eq!(parse_ipv4("256.1.1.1"), None);
    assert_eq!(parse_ipv4("01.2.3.4"), None);
    assert_eq!(parse_ipv4("1.2.3"), None);
    assert_eq!(parse_ipv4("1.2.3.4.5"), None);
    assert_eq!(parse_ipv4("a.b.c.d"), None);
    assert_eq!(parse_ipv4(""), None);
}

#[test]
fn host_port_split() {
    let (host, port) = addr_to_tuple("example.com:8080");
    assert_eq!(host.as_str(), "example.com");
    assert_eq!(port, 8080);
    let (host2, port2) = addr_to_tuple("127.0.0.1:53");
    assert_eq!(host2.as_str(), "127.0.0.1");
    assert_eq!(port2, 53);
}

#[test]
fn address_construction() {
    let a = Address::from_parts(String::from("10.0.0.1"), 443);
    match a {
        Address::Ip(sa) => {
            assert_eq!(sa.ip, IpAddress::V4(0x0a000001));
            assert_eq!(sa.port, 443);
        },
        _ => panic!("expected a resolved address"),
    }
    let b = Address::from_parts(String::from("c.msn.cn"), 443);
    match &b {
        Address::Domain(name, port) => {
            assert_eq!(name.as_str(), "c.msn.cn");
            assert_eq!(*port, 443);
        },
        _ => panic!("expected a domain"),
    }
    assert_eq!(b.to_display_string().as_str(), "c.msn.cn:443");
    assert_eq!(b.host().as_str(), "c.msn.cn");
    assert_eq!(b.port(), 443);
}

#[test]
fn error_rendering() {
    let e = tunnel::proxy::Error::ConnectError(String::from("example.com"), 80);
    assert_eq!(e.to_display_string().as_str(), "connect to example.com:80 failed");
}


#[test]
fn ipv6_literals() {
    assert_eq!(parse_ipv6("::"), Some(0));
    assert_eq!(parse_ipv6("::1"), Some(1));
    assert_eq!(
        parse_ipv6("2001:db8::1"),
        Some(0x2001_0db8_0000_0000_0000_0000_0000_0001)
    );
    assert_eq!(
        parse_ipv6("1:2:3:4:5:6:7:8"),
        Some(0x0001_0002_0003_0004_0005_0006_0007_0008)
    );
    assert_eq!(parse_ipv6("fe80::"), Some(0xfe80_0000_0000_0000_0000_0000_0000_0000));
    assert_eq!(parse_ipv6("1:2:3:4:5:6:7"), None);
    assert_eq!(parse_ipv6("1:2:3:4:5:6:7:8:9"), None);
    assert_eq!(parse_ipv6("1::2::3"), None);
    assert_eq!(parse_ipv6("12345::"), None);
    assert_eq!(parse_ipv6("g::1"), None);
    assert_eq!(parse_ipv6(""), None);
    // an IP literal of either family resolves instead of becoming a domain
    let a = tunnel::addr::Address::from_parts(String::from("2001:db8::1"), 53);
    match a {
        tunnel::addr::Address::Ip(sa) => {
            assert_eq!(sa.ip, IpAddress::V6(0x2001_0db8_0000_0000_0000_0000_0000_0001));
            assert_eq!(sa.port, 53);
        },
        _ => panic!("expected a resolved v6 address"),
    }
}
