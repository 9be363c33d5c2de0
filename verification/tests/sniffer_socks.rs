use tunnel::addr::{Address, IpAddress, Network, Session, SocketAddress};
use tunnel::dispatcher::Dispatcher;
use tunnel::sniffer::{SniffOutcome, Sniffer, slice_at_range, truncate_before};
use tunnel::socks::{classify_command, check_server_choice, encode_greeting_reply,
    encode_method_selection, encode_server_reply, parse_greeting, parse_request,
    parse_udp_header, build_request, CommandKind, GreetingOutcome, RequestOutcome, SocksError,
    UdpHeaderOutcome};

fn client_hello() -> Vec<u8> {
    vec![
        0x16, 0x03, 0x01, 0x02, 0x00, 0x01, 0x00, 0x01, 0xfc, 0x03, 0x03, 0x23,
        0x9d, 0x18, 0x59, 0x78, 0x08, 0x33, 0xd0, 0xd2, 0x12, 0xdc, 0x2e, 0x33,
        0xaf, 0xa0, 0x48, 0xdb, 0x76, 0x1a, 0x11, 0x4b, 0x68, 0xcb, 0x91, 0xbd,
        0x7c, 0xf9, 0xc4, 0x6d, 0xdb, 0xce, 0xc0, 0x20, 0x76, 0x2c, 0x00, 0x00,
        0x8f, 0x77, 0x33, 0x8f, 0x74, 0xcc, 0x85, 0xfc, 0xe6, 0x57, 0x5c, 0x7b,
        0xff, 0x67, 0xfc, 0xa9, 0xd2, 0x90, 0x84, 0x50, 0x35, 0x96, 0x84, 0x60,
        0x55, 0x5a, 0x48, 0xa5, 0x00, 0x20, 0xca, 0xca, 0x13, 0x01, 0x13, 0x02,
        0x13, 0x03, 0xc0, 0x2b, 0xc0, 0x2f, 0xc0, 0x2c, 0xc0, 0x30, 0xcc, 0xa9,
        0xcc, 0xa8, 0xc0, 0x13, 0xc0, 0x14, 0x00, 0x9c, 0x00, 0x9d, 0x00, 0x2f,
        0x00, 0x35, 0x01, 0x00, 0x01, 0x93, 0x3a, 0x3a, 0x00, 0x00, 0x00, 0x00,
        0x00, 0x0d, 0x00, 0x0b, 0x00, 0x00, 0x08, 0x63, 0x2e, 0x6d, 0x73, 0x6e,
        0x2e, 0x63, 0x6e, 0x00, 0x17, 0x00, 0x00, 0xff, 0x01, 0x00, 0x01, 0x00,
        0x00, 0x0a, 0x00, 0x0a, 0x00, 0x08, 0xfa, 0xfa, 0x00, 0x1d, 0x00, 0x17,
        0x00, 0x18, 0x00, 0x0b, 0x00, 0x02, 0x01, 0x00, 0x00, 0x23, 0x00, 0x00,
        0x00, 0x10, 0x00, 0x0e, 0x00, 0x0c, 0x02, 0x68, 0x32, 0x08, 0x68, 0x74,
        0x74, 0x70, 0x2f, 0x31, 0x2e, 0x31, 0x00, 0x05, 0x00, 0x05, 0x01, 0x00,
        0x00, 0x00, 0x00, 0x00, 0x0d, 0x00, 0x12, 0x00, 0x10, 0x04, 0x03, 0x08,
        0x04, 0x04, 0x01, 0x05, 0x03, 0x08, 0x05, 0x05, 0x01, 0x08, 0x06, 0x06,
        0x01, 0x00, 0x12, 0x00, 0x00, 0x00, 0x33, 0x00, 0x2b, 0x00, 0x29, 0xfa,
        0xfa, 0x00, 0x01, 0x00, 0x00, 0x1d, 0x00, 0x20, 0x32, 0xd2, 0x4c, 0x0a,
        0xf6, 0x24, 0x83, 0x88, 0x2d, 0x3c, 0xbb, 0x0c, 0xec, 0x17, 0x3a, 0x24,
        0xd1, 0xad, 0x2a, 0xd3, 0xa7, 0x67, 0x56, 0x19, 0x02, 0x25, 0x6b, 0xf2,
        0x9c, 0x54, 0x25, 0x2e, 0x00, 0x2d, 0x00, 0x02, 0x01, 0x01, 0x00, 0x2b,
        0x00, 0x07, 0x06, 0xba, 0xba, 0x03, 0x04, 0x03, 0x03, 0x00, 0x1b, 0x00,
        0x03, 0x02, 0x00, 0x02, 0x44, 0x69, 0x00, 0x05, 0x00, 0x03, 0x02, 0x68,
        0x32, 0x2a, 0x2a, 0x00, 0x01, 0x00, 0x00, 0x15, 0x00, 0xcf, 0x00, 0x00,
        0x00, 0x00, 0x00, 0x00, 0x00, 0x00, 0x00, 0x00, 0x00, 0x00, 0x00, 0x00,
        0x00, 0x00, 0x00, 0x00, 0x00, 0x00, 0x00, 0x00, 0x00, 0x00, 0x00, 0x00,
        0x00, 0x00, 0x00, 0x00, 0x00, 0x00, 0x00, 0x00, 0x00, 0x00, 0x00, 0x00,
        0x00, 0x00, 0x00, 0x00, 0x00, 0x00, 0x00, 0x00, 0x00, 0x00, 0x00, 0x00,
        0x00, 0x00, 0x00, 0x00, 0x00, 0x00, 0x00, 0x00, 0x00, 0x00, 0x00, 0x00,
        0x00, 0x00, 0x00, 0x00, 0x00, 0x00, 0x00, 0x00, 0x00, 0x00, 0x00, 0x00,
        0x00, 0x00, 0x00, 0x00, 0x00, 0x00, 0x00, 0x00, 0x00, 0x00, 0x00, 0x00,
        0x00, 0x00, 0x00, 0x00, 0x00, 0x00, 0x00, 0x00, 0x00, 0x00, 0x00, 0x00,
        0x00, 0x00, 0x00, 0x00, 0x00, 0x00, 0x00, 0x00, 0x00, 0x00, 0x00, 0x00,
        0x00, 0x00, 0x00, 0x00, 0x00, 0x00, 0x00, 0x00, 0x00, 0x00, 0x00, 0x00,
        0x00, 0x00, 0x00, 0x00, 0x00, 0x00, 0x00, 0x00, 0x00, 0x00, 0x00, 0x00,
        0x00, 0x00, 0x00, 0x00, 0x00, 0x00, 0x00, 0x00, 0x00, 0x00, 0x00, 0x00,
        0x00, 0x00, 0x00, 0x00, 0x00, 0x00, 0x00, 0x00, 0x00, 0x00, 0x00, 0x00,
        0x00, 0x00, 0x00, 0x00, 0x00, 0x00, 0x00, 0x00, 0x00, 0x00, 0x00, 0x00,
        0x00, 0x00, 0x00, 0x00, 0x00, 0x00, 0x00, 0x00, 0x00, 0x00, 0x00, 0x00,
        0x00, 0x00, 0x00, 0x00, 0x00, 0x00, 0x00, 0x00, 0x00, 0x00, 0x00, 0x00,
        0x00, 0x00, 0x00, 0x00, 0x00, 0x00, 0x00, 0x00, 0x00, 0x00, 0x00, 0x00,
        0x00,
    ]
}

#[test]
fn test_server_name() {
    let bytes = client_hello();
    let mut sniffer = Sniffer::new();
    sniffer.push_bytes(&bytes);
    let res = match sniffer.sniff() {
        SniffOutcome::Found(name) => name,
        _ => panic!("expected a server name"),
    };
    assert!("c.msn.cn" == res.as_str());
}

#[test]
fn sniffer_replays_all_bytes() {
    let bytes = client_hello();
    let mut sniffer = Sniffer::new();
    sniffer.push_bytes(&bytes);
    match sniffer.sniff() {
        SniffOutcome::Found(_) => {},
        _ => panic!("expected a server name"),
    }
    // the downstream reader sees exactly the consumed bytes, in order
    let mut replay = Vec::new();
    loop {
        let chunk = sniffer.drain_replay(100);
        if chunk.is_empty() {
            break;
        }
        replay.extend_from_slice(&chunk);
    }
    assert_eq!(replay, bytes);
}

#[test]
fn sniffer_rewrites_session_destination() {
    let bytes = client_hello();
    let mut sniffer = Sniffer::new();
    sniffer.push_bytes(&bytes);
    let name = match sniffer.sniff() {
        SniffOutcome::Found(name) => name,
        _ => panic!("expected a server name"),
    };
    let listener = SocketAddress { ip: IpAddress::V4(0x7f000001), port: 443 };
    let peer = SocketAddress { ip: IpAddress::V4(0x0a000002), port: 55000 };
    let mut sess = Session {
        destination: Address::Ip(SocketAddress { ip: IpAddress::V4(0x01020304), port: 443 }),
        local_peer: listener,
        peer_address: peer,
        network: Network::TCP,
    };
    assert!(Dispatcher::should_sniff(&sess));
    Dispatcher::apply_sni(&mut sess, name);
    match &sess.destination {
        Address::Domain(n, p) => {
            assert_eq!(n.as_str(), "c.msn.cn");
            assert_eq!(*p, 443);
        },
        _ => panic!("expected a domain destination"),
    }
    // only the destination changed
    assert_eq!(sess.local_peer, listener);
    assert_eq!(sess.peer_address, peer);
    assert!(matches!(sess.network, Network::TCP));
}

#[test]
fn sniffer_rejects_non_tls() {
    let mut sniffer = Sniffer::new();
    sniffer.push_bytes(&[0x17, 0x03, 0x01, 0x00, 0x05, 1, 2, 3, 4, 5]);
    assert!(matches!(sniffer.sniff(), SniffOutcome::NotTls));
    let mut sniffer2 = Sniffer::new();
    sniffer2.push_bytes(&[0x16, 0x04]);
    assert!(matches!(sniffer2.sniff(), SniffOutcome::NeedMoreData));
}

#[test]
fn slice_helpers() {
    let data = [0x00u8, 0x03, 0xaa, 0xbb, 0xcc, 0xdd];
    let body = slice_at_range(&data, 0, 2).unwrap();
    assert_eq!(body, &[0xaa, 0xbb, 0xcc]);
    let rest = truncate_before(&data, 0, 2).unwrap();
    assert_eq!(rest, &[0xdd]);
    assert!(slice_at_range(&data, 0, 7).is_err());
    assert!(slice_at_range(&[0x00u8, 0x09], 0, 2).is_err());
}

#[test]
fn socks5_connect_happy_path() {
    // client greeting: 05 01 00
    match parse_greeting(&[0x05, 0x01, 0x00]) {
        GreetingOutcome::Done(n) => assert_eq!(n, 3),
        _ => panic!("expected a complete greeting"),
    }
    // server replies 05 00
    assert_eq!(encode_greeting_reply(), vec![0x05, 0x00]);
    // client request: 05 01 00 01 7F 00 00 01 00 50
    match parse_request(&[0x05, 0x01, 0x00, 0x01, 0x7f, 0x00, 0x00, 0x01, 0x00, 0x50]) {
        RequestOutcome::Done { cmd, dest, consumed } => {
            assert!(matches!(classify_command(cmd), CommandKind::Connect));
            assert_eq!(consumed, 10);
            match dest {
                Address::Ip(sa) => {
                    assert_eq!(sa.ip, IpAddress::V4(0x7f000001));
                    assert_eq!(sa.port, 80);
                },
                _ => panic!("expected a resolved destination"),
            }
        },
        _ => panic!("expected a parsed request"),
    }
    assert_eq!(
        encode_server_reply(),
        vec![0x05, 0x00, 0x00, 0x01, 0x00, 0x00, 0x00, 0x00, 0x00, 0x00]
    );
}

#[test]
fn socks5_rejections() {
    assert!(matches!(
        parse_greeting(&[0x04, 0x01, 0x00]),
        GreetingOutcome::Bad(SocksError::BadVersion(4))
    ));
    assert!(matches!(parse_greeting(&[0x05]), GreetingOutcome::NeedMore));
    assert!(matches!(
        parse_request(&[0x05, 0x01, 0x00, 0x09, 0, 0, 0, 0, 0, 0]),
        RequestOutcome::Bad(SocksError::UnknownAtyp(9))
    ));
    assert!(matches!(classify_command(2), CommandKind::Unsupported));
    assert!(matches!(classify_command(3), CommandKind::UdpAssociate));
    assert!(check_server_choice(&[0x05, 0x00]).is_ok());
    assert!(matches!(
        check_server_choice(&[0x05, 0xff]),
        Err(SocksError::AuthNotSupported(0xff))
    ));
}

#[test]
fn socks5_domain_request_and_udp_header() {
    // domain request: atyp 3, name "a.io", port 443
    let mut req = vec![0x05u8, 0x01, 0x00, 0x03, 0x04];
    req.extend_from_slice(b"a.io");
    req.extend_from_slice(&[0x01, 0xbb]);
    match parse_request(&req) {
        RequestOutcome::Done { dest, consumed, .. } => {
            assert_eq!(consumed, req.len());
            match dest {
                Address::Domain(name, port) => {
                    assert_eq!(name.as_str(), "a.io");
                    assert_eq!(port, 443);
                },
                _ => panic!("expected a domain destination"),
            }
        },
        _ => panic!("expected a parsed request"),
    }
    // udp header with a fragment number is dropped
    let frag = [0x00u8, 0x00, 0x01, 0x01, 1, 2, 3, 4, 0x00, 0x35, 0xaa];
    assert!(matches!(
        parse_udp_header(&frag),
        UdpHeaderOutcome::Bad(SocksError::Fragmented)
    ));
    // a sound header yields the destination and the payload offset
    let ok = [0x00u8, 0x00, 0x00, 0x01, 1, 2, 3, 4, 0x00, 0x35, 0xaa, 0xbb];
    match parse_udp_header(&ok) {
        UdpHeaderOutcome::Done { dest, payload_start } => {
            assert_eq!(payload_start, 10);
            match dest {
                Address::Ip(sa) => {
                    assert_eq!(sa.ip, IpAddress::V4(0x01020304));
                    assert_eq!(sa.port, 53);
                },
                _ => panic!("expected a resolved destination"),
            }
        },
        _ => panic!("expected a parsed header"),
    }
    assert!(matches!(
        parse_udp_header(&[0x01u8, 0x00, 0x00, 0x01]),
        UdpHeaderOutcome::Bad(SocksError::BadHeader)
    ));
}

#[test]
fn socks5_request_encoding() {
    assert_eq!(encode_method_selection(), vec![0x05, 0x01, 0x00]);
    let sess = Session {
        destination: Address::Domain(String::from("a.io"), 443),
        local_peer: SocketAddress { ip: IpAddress::V4(0), port: 1080 },
        peer_address: SocketAddress { ip: IpAddress::V4(0), port: 4000 },
        network: Network::TCP,
    };
    let mut buf = Vec::new();
    build_request(&mut buf, &sess);
    let mut expected = vec![0x05u8, 0x01, 0x00, 0x03, 0x04];
    expected.extend_from_slice(b"a.io");
    expected.extend_from_slice(&[0x01, 0xbb]);
    assert_eq!(buf, expected);
}
