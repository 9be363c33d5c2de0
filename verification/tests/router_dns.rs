use tunnel::addr::{Address, IpAddress, Network, Session, SocketAddress};
use tunnel::config::{GeneralSettings, Outbound, OutboundSettings, Rule, Socks5OutboundSettings};
use tunnel::dispatcher::{DispatchError, Dispatcher};
use tunnel::dns::{merge_lookup_results, parse_response, plan_queries, pick_first_address,
    DnsClient, DnsError, RecordType};
use tunnel::outbound::OutboundManager;
use tunnel::proxy::TcpOutboundKind;
use tunnel::router::{cidr_check, cidr6_check, parse_any_cidr, parse_cidr, parse_cidr6, AnyCidr,
    Router};
use tunnel::cipher::{method_for_name, CipherInfo, Method};

fn rule(
    target: &str,
    domain: Option<Vec<String>>,
    ip: Option<Vec<String>>,
    regexp: Option<Vec<String>>,
) -> Rule {
    Rule {
        ip,
        portRange: None,
        domain,
        domainSuffix: None,
        domainKeyword: None,
        regexp,
        target: String::from(target),
    }
}

fn session_to(dest: Address) -> Session {
    Session {
        destination: dest,
        local_peer: SocketAddress { ip: IpAddress::V4(0x7f000001), port: 1080 },
        peer_address: SocketAddress { ip: IpAddress::V4(0x7f000001), port: 50000 },
        network: Network::TCP,
    }
}

#[test]
fn router_regex_fallthrough() {
    let rules = vec![
        rule("A", Some(vec![String::from("a.com")]), None, None),
        rule("B", None, None, Some(vec![String::from(".*")])),
    ];
    let router = Router::new(rules);
    let to_b = session_to(Address::Domain(String::from("b.com"), 443));
    assert_eq!(router.route(&to_b).unwrap().as_str(), "B");
    let to_a = session_to(Address::Domain(String::from("a.com"), 443));
    assert_eq!(router.route(&to_a).unwrap().as_str(), "A");
}

#[test]
fn router_cidr_matching() {
    let rules = vec![
        rule("LAN", None, Some(vec![String::from("10.0.0.0/8")]), None),
    ];
    let router = Router::new(rules);
    let inside = session_to(Address::Ip(SocketAddress { ip: IpAddress::V4(0x0a010203), port: 80 }));
    assert_eq!(router.route(&inside).unwrap().as_str(), "LAN");
    let outside = session_to(
        Address::Ip(SocketAddress { ip: IpAddress::V4(0x0b010203), port: 80 }),
    );
    assert!(router.route(&outside).is_none());
    // a rule with one bad CIDR is dropped and never matches
    let rules2 = vec![
        rule("X", None, Some(vec![String::from("10.0.0.0/99")]), None),
    ];
    let router2 = Router::new(rules2);
    assert!(router2.route(&inside).is_none());
}

#[test]
fn cidr_parsing() {
    let c = parse_cidr("10.0.0.0/8").unwrap();
    assert_eq!(c.base, 0x0a000000);
    assert_eq!(c.prefix, 8);
    assert!(cidr_check(&c, 0x0a123456));
    assert!(!cidr_check(&c, 0x0b123456));
    let all = parse_cidr("0.0.0.0/0").unwrap();
    assert!(cidr_check(&all, 0xdeadbeef));
    assert!(parse_cidr("10.0.0.0").is_none());
    assert!(parse_cidr("10.0.0.0/33").is_none());
    assert!(parse_cidr("10.0.0/8").is_none());
}

#[test]
fn outbound_manager_lookup() {
    let outbounds = vec![
        Outbound {
            protocol: String::from("socks"),
            settings: Some(
                OutboundSettings::Socks(
                    Socks5OutboundSettings { address: String::from("1.2.3.4"), port: 1080 },
                ),
            ),
            tag: String::from("up"),
        },
        Outbound {
            protocol: String::from("direct"),
            settings: None,
            tag: String::from("free"),
        },
        Outbound { protocol: String::from("warp"), settings: None, tag: String::from("odd") },
    ];
    let mgr = OutboundManager::new(&outbounds);
    let up = mgr.get_handler("up").unwrap();
    match up.tcp_handler.as_ref().unwrap() {
        TcpOutboundKind::Socks { address, port } => {
            assert_eq!(address.as_str(), "1.2.3.4");
            assert_eq!(*port, 1080);
        },
        _ => panic!("expected the socks half"),
    }
    assert!(mgr.get_handler("free").is_some());
    // the unknown protocol was skipped
    assert!(mgr.get_handler("odd").is_none());
}

#[test]
fn dispatcher_planning() {
    let rules = vec![rule("up", Some(vec![String::from("a.com")]), None, None)];
    let router = Router::new(rules);
    let outbounds = vec![
        Outbound {
            protocol: String::from("socks"),
            settings: Some(
                OutboundSettings::Socks(
                    Socks5OutboundSettings { address: String::from("1.2.3.4"), port: 1080 },
                ),
            ),
            tag: String::from("up"),
        },
    ];
    let mgr = OutboundManager::new(&outbounds);
    let d = Dispatcher::new(router, mgr);
    let sess = session_to(Address::Domain(String::from("a.com"), 443));
    assert!(matches!(d.plan_tcp(&sess), Ok(TcpOutboundKind::Socks { .. })));
    let miss = session_to(Address::Domain(String::from("b.com"), 443));
    assert!(matches!(d.plan_tcp(&miss), Err(DispatchError::NoRoute)));
    assert!(d.plan_udp(&sess).is_ok());
}

fn answer_a(ip: [u8; 4]) -> Vec<u8> {
    // header: id, flags, qd=1, an=1, ns=0, ar=0
    let mut r = vec![0x12u8, 0x34, 0x81, 0x80, 0x00, 0x01, 0x00, 0x01, 0x00, 0x00, 0x00, 0x00];
    // question: dual.example A IN
    r.extend_from_slice(&[4]);
    r.extend_from_slice(b"dual");
    r.extend_from_slice(&[7]);
    r.extend_from_slice(b"example");
    r.extend_from_slice(&[0, 0x00, 0x01, 0x00, 0x01]);
    // answer: pointer to the name, A IN, ttl, rdlength 4, address
    r.extend_from_slice(&[0xc0, 0x0c, 0x00, 0x01, 0x00, 0x01, 0x00, 0x00, 0x00, 0x3c, 0x00, 0x04]);
    r.extend_from_slice(&ip);
    r
}

fn answer_aaaa(ip: [u8; 16]) -> Vec<u8> {
    let mut r = vec![0x56u8, 0x78, 0x81, 0x80, 0x00, 0x01, 0x00, 0x01, 0x00, 0x00, 0x00, 0x00];
    r.extend_from_slice(&[4]);
    r.extend_from_slice(b"dual");
    r.extend_from_slice(&[7]);
    r.extend_from_slice(b"example");
    r.extend_from_slice(&[0, 0x00, 0x1c, 0x00, 0x01]);
    r.extend_from_slice(&[0xc0, 0x0c, 0x00, 0x1c, 0x00, 0x01, 0x00, 0x00, 0x00, 0x3c, 0x00, 0x10]);
    r.extend_from_slice(&ip);
    r
}

#[test]
fn dns_dual_stack_lookup() {
    // use_ipv6 without preference queries both families and unions the answers
    let config = GeneralSettings { prefer_ipv6: false, use_ipv6: true };
    let plan = plan_queries(&config);
    assert_eq!(plan, vec![RecordType::A, RecordType::AAAA]);

    let a = parse_response(&answer_a([1, 2, 3, 4])).unwrap();
    assert_eq!(a, vec![IpAddress::V4(0x01020304)]);
    let mut six = [0u8; 16];
    six[0] = 0x20;
    six[1] = 0x01;
    six[2] = 0x0d;
    six[3] = 0xb8;
    six[15] = 0x01;
    let aaaa = parse_response(&answer_aaaa(six)).unwrap();
    assert_eq!(aaaa, vec![IpAddress::V6(0x2001_0db8_0000_0000_0000_0000_0000_0001)]);

    let merged = merge_lookup_results(vec![Ok(a), Ok(aaaa)]).unwrap();
    assert_eq!(
        merged,
        vec![
            IpAddress::V4(0x01020304),
            IpAddress::V6(0x2001_0db8_0000_0000_0000_0000_0000_0001),
        ]
    );
    let first = pick_first_address(&merged, 443).unwrap();
    assert_eq!(first.ip, IpAddress::V4(0x01020304));
    assert_eq!(first.port, 443);
}

#[test]
fn dns_policies() {
    let v4_only = plan_queries(&GeneralSettings { prefer_ipv6: false, use_ipv6: false });
    assert_eq!(v4_only, vec![RecordType::A]);
    let v6_only = plan_queries(&GeneralSettings { prefer_ipv6: true, use_ipv6: true });
    assert_eq!(v6_only, vec![RecordType::AAAA]);
}

#[test]
fn dns_failures() {
    // rcode 3: NXDOMAIN
    let mut bad = answer_a([1, 2, 3, 4]);
    bad[3] = 0x83;
    assert_eq!(parse_response(&bad), Err(DnsError::Rcode(3)));
    assert_eq!(parse_response(&[0u8; 4]), Err(DnsError::BadResponse));
    let merged = merge_lookup_results(vec![
        Ok(vec![IpAddress::V4(1)]),
        Err(DnsError::Timeout),
    ]);
    assert_eq!(merged, Err(DnsError::Timeout));
    assert!(pick_first_address(&Vec::new(), 80).is_none());
}

#[test]
fn dns_query_layout() {
    let client = DnsClient::new(vec![IpAddress::V4(0x08080808)]);
    assert_eq!(client.remote_dns_servers.len(), 1);
    assert_eq!(client.remote_dns_servers[0].port, 53);
    let q = client.new_query("dual.example", RecordType::A);
    // flags: recursion desired; one question, no answers
    assert_eq!(&q[2..12], &[0x01, 0x00, 0x00, 0x01, 0x00, 0x00, 0x00, 0x00, 0x00, 0x00]);
    let mut qname = vec![4u8];
    qname.extend_from_slice(b"dual");
    qname.push(7);
    qname.extend_from_slice(b"example");
    qname.push(0);
    assert_eq!(&q[12..12 + qname.len()], &qname[..]);
    assert_eq!(&q[12 + qname.len()..], &[0x00, 0x01, 0x00, 0x01]);
}

#[test]
fn inbound_manager_builds_handlers() {
    let inbounds = vec![
        tunnel::config::Inbound {
            port: Some(1080),
            listen: Some(String::from("127.0.0.1")),
            protocol: String::from("socks"),
            tag: String::from("in"),
            settings: None,
        },
        tunnel::config::Inbound {
            port: None,
            listen: None,
            protocol: String::from("quic"),
            tag: String::from("odd"),
            settings: None,
        },
    ];
    let mgr = tunnel::inbound::InboundManager::new(inbounds);
    assert_eq!(mgr.handlers.len(), 1);
    let (tag, handler) = &mgr.handlers[0];
    assert_eq!(tag.as_str(), "in");
    assert!(handler.has_tcp());
    assert!(handler.has_udp());
    let bare = tunnel::proxy::InboundHandler::new(String::from("t"), None, None);
    assert!(!bare.has_tcp() && !bare.has_udp());
}

#[test]
fn cipher_registry() {
    assert_eq!(method_for_name("aes-128-gcm"), Some(Method::AES_128_GCM));
    assert_eq!(method_for_name("aes-256-gcm"), Some(Method::AES_256_GCM));
    assert_eq!(method_for_name("rc4"), None);
    let info = CipherInfo::new(16, 16, 12, 16);
    assert_eq!(info.key_len, 16);
    assert_eq!(info.salt_len, 16);
    assert_eq!(info.nonce_len, 12);
    assert_eq!(info.tag_len, 16);
    assert_eq!(Method::AES_128_GCM.to_display_string().as_str(), "AES_128_GCM");
}


#[test]
fn cidr6_parsing_and_matching() {
    let c = parse_cidr6("2001:db8::/32").unwrap();
    assert_eq!(c.base, 0x2001_0db8_0000_0000_0000_0000_0000_0000);
    assert_eq!(c.prefix, 32);
    assert!(cidr6_check(&c, 0x2001_0db8_0000_0000_0000_0000_0000_0001));
    assert!(!cidr6_check(&c, 0x2001_0db9_0000_0000_0000_0000_0000_0001));
    assert!(parse_cidr6("2001:db8::/129").is_none());
    assert!(parse_cidr6("2001:db8::").is_none());
    assert!(matches!(parse_any_cidr("10.0.0.0/8"), Some(AnyCidr::V4(_))));
    assert!(matches!(parse_any_cidr("2001:db8::/32"), Some(AnyCidr::V6(_))));
    assert!(parse_any_cidr("nonsense/8").is_none());

    // a rule over a v6 network matches resolved v6 destinations
    let rules = vec![rule("SIX", None, Some(vec![String::from("2001:db8::/32")]), None)];
    let router = Router::new(rules);
    let inside = session_to(Address::Ip(SocketAddress {
        ip: IpAddress::V6(0x2001_0db8_0000_0000_0000_0000_0000_0001),
        port: 443,
    }));
    assert_eq!(router.route(&inside).unwrap().as_str(), "SIX");
    let outside = session_to(Address::Ip(SocketAddress {
        ip: IpAddress::V4(0x0a000001),
        port: 443,
    }));
    assert!(router.route(&outside).is_none());
}
