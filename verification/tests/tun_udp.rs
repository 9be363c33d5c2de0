use tunnel::addr::{Address, IpAddress, SocketAddress};
use tunnel::packet::handle_ip_packet;
use tunnel::router::Cidr;
use tunnel::tun::{State, TcpFlags, TcpTun};
use tunnel::udp_assoc::{SendPacketAction, UdpAssociationManager, UdpPacket};

fn sa(ip: u32, port: u16) -> SocketAddress {
    SocketAddress { ip: IpAddress::V4(ip), port }
}

fn flags(syn: bool, ack: bool, fin: bool, rst: bool) -> TcpFlags {
    TcpFlags { syn, ack, fin, rst }
}

fn fresh_tun() -> TcpTun {
    let (listener_ip, pool) = TcpTun::plan_addresses(
        Cidr { base: 0x0a000000, prefix: 24 },
    ).unwrap();
    assert_eq!(listener_ip, IpAddress::V4(0x0a000001));
    assert_eq!(pool.len(), 10);
    assert_eq!(pool[0], IpAddress::V4(0x0a000002));
    TcpTun::new(SocketAddress { ip: listener_ip, port: 9000 }, pool)
}

#[test]
fn tun_nat_connection_lifecycle() {
    let mut tun = fresh_tun();
    let client = sa(0x0a000005, 33000);
    let server = sa(0x08080808, 443);

    // outbound SYN allocates a fake source aimed at the listener
    let (fake, listener) = tun.handle_packet(client, server, flags(true, false, false, false), 10)
        .unwrap();
    assert_eq!(listener, tun.listener_addr);
    assert!(fake.port >= 1024);
    let entry = tun.nat.find_by_fake(fake).unwrap();
    assert_eq!(entry.src_addr, client);
    assert_eq!(entry.dest_addr, server);
    assert!(matches!(entry.state, State::Established));

    // a further outbound packet is rewritten the same way, refreshing the
    // flow's clock
    let (fake2, listener2) = tun.handle_packet(client, server, flags(false, true, false, false), 20)
        .unwrap();
    assert_eq!(tun.nat.find_by_fake(fake).unwrap().last_seen, 20);
    assert_eq!(fake2, fake);
    assert_eq!(listener2, tun.listener_addr);

    // the listener's reply to the fake address goes back to the client,
    // from the real server: the two rewrites compose to the identity
    let (rs, rd) = tun.handle_packet(tun.listener_addr, fake, flags(false, true, false, false), 30)
        .unwrap();
    assert_eq!(rs, server);
    assert_eq!(rd, client);

    // client FIN: Established -> FinWait
    tun.handle_packet(client, server, flags(false, false, true, false), 40).unwrap();
    assert!(matches!(tun.nat.find_by_fake(fake).unwrap().state, State::FinWait));
    // server FIN (a reply): FinWait -> LastAck
    tun.handle_packet(tun.listener_addr, fake, flags(false, false, true, false), 50).unwrap();
    assert!(matches!(tun.nat.find_by_fake(fake).unwrap().state, State::LastAck));
    // final client ACK removes both views of the flow
    tun.handle_packet(client, server, flags(false, true, false, false), 60).unwrap();
    assert!(tun.nat.find_by_fake(fake).is_none());
    assert!(tun.nat.find_by_pair(client, server).is_none());
    // and later packets of the dead flow are dropped
    assert!(tun.handle_packet(client, server, flags(false, true, false, false), 70).is_none());
}

#[test]
fn tun_nat_reset_teardown() {
    let mut tun = fresh_tun();
    let client = sa(0x0a000006, 40000);
    let server = sa(0x01010101, 80);
    let (fake, _) = tun.handle_packet(client, server, flags(true, false, false, false), 0).unwrap();
    tun.handle_packet(client, server, flags(false, false, false, true), 1).unwrap();
    assert!(tun.nat.find_by_fake(fake).is_none());
    assert!(tun.nat.find_by_pair(client, server).is_none());
}

#[test]
fn tun_nat_drops_unknown() {
    let mut tun = fresh_tun();
    assert!(
        tun.handle_packet(
            sa(0x0a000005, 1),
            sa(0x08080808, 2),
            flags(false, true, false, false),
            0,
        ).is_none()
    );
}

fn ones_complement_sum(data: &[u8], from: usize, to: usize) -> u32 {
    let mut sum: u32 = 0;
    let mut i = from;
    while i < to {
        let word = if i + 1 < to {
            ((data[i] as u32) << 8) | (data[i + 1] as u32)
        } else {
            (data[i] as u32) << 8
        };
        sum += word;
        i += 2;
    }
    while sum > 0xffff {
        sum = (sum & 0xffff) + (sum >> 16);
    }
    sum
}

#[test]
fn packet_rewrite_and_checksums() {
    let mut tun = fresh_tun();
    // a 40-byte IPv4 TCP SYN: 10.0.0.5:33000 -> 8.8.8.8:443
    let mut packet: Vec<u8> = vec![
        0x45, 0x00, 0x00, 0x28, 0x00, 0x01, 0x00, 0x00, 0x40, 0x06, 0x00, 0x00, 10, 0, 0, 5, 8,
        8, 8, 8,
    ];
    packet.extend_from_slice(&[
        0x80, 0xe8, 0x01, 0xbb, 0x00, 0x00, 0x00, 0x01, 0x00, 0x00, 0x00, 0x00, 0x50, 0x02, 0xff,
        0xff, 0x00, 0x00, 0x00, 0x00,
    ]);
    let before_len = packet.len();
    let (ns, nd) = handle_ip_packet(&mut tun, &mut packet, 0).unwrap();
    assert_eq!(packet.len(), before_len);
    assert_eq!(nd, tun.listener_addr);
    // the source was rewritten onto the fake, the destination onto the listener
    match (ns.ip, nd.ip) {
        (IpAddress::V4(s), IpAddress::V4(d)) => {
            assert_eq!(&packet[12..16], &s.to_be_bytes());
            assert_eq!(&packet[16..20], &d.to_be_bytes());
        },
        _ => panic!("expected v4 endpoints"),
    }
    assert_eq!(&packet[20..22], &ns.port.to_be_bytes());
    assert_eq!(&packet[22..24], &nd.port.to_be_bytes());
    // a valid IP header sums to 0xffff including its checksum field
    assert_eq!(ones_complement_sum(&packet, 0, 20), 0xffff);
    // the TCP checksum closes the pseudo-header sum the same way
    let mut sum = ones_complement_sum(&packet, 20, packet.len());
    sum += ones_complement_sum(&packet, 12, 20);
    sum += 6 + (packet.len() as u32 - 20);
    while sum > 0xffff {
        sum = (sum & 0xffff) + (sum >> 16);
    }
    assert_eq!(sum, 0xffff);
    // other traffic passes through untouched
    let mut udp_packet = vec![0x45u8; 28];
    udp_packet[9] = 17;
    let copy = udp_packet.clone();
    assert!(handle_ip_packet(&mut tun, &mut udp_packet, 0).is_none());
    assert_eq!(udp_packet, copy);
}

#[test]
fn udp_association_uniqueness() {
    let mut mgr = UdpAssociationManager::new();
    let source = sa(0x0a000005, 50000);
    // the first packet creates exactly one association
    let first = mgr.send_packet(source, 100);
    let handle = match first {
        SendPacketAction::CreateAssociation(h) => h,
        _ => panic!("expected a fresh association"),
    };
    // a concurrent second packet reuses it: no second entry appears, and
    // the flow's clock is refreshed
    match mgr.send_packet(source, 200) {
        SendPacketAction::Enqueue(h) => assert_eq!(h, handle),
        _ => panic!("expected the existing association"),
    }
    assert_eq!(mgr.store.len(), 1);
    assert_eq!(mgr.store[0].last_seen, 200);
    assert_eq!(mgr.sender_for(source), Some(handle));

    // another source gets its own association under a fresh handle
    let other = sa(0x0a000006, 50000);
    match mgr.send_packet(other, 300) {
        SendPacketAction::CreateAssociation(h) => assert!(h != handle),
        _ => panic!("expected a fresh association"),
    }
    assert_eq!(mgr.store.len(), 2);

    // teardown removes only that source
    mgr.remove_association(source);
    assert!(mgr.sender_for(source).is_none());
    assert!(mgr.sender_for(other).is_some());

    let p = UdpPacket { data: b"x".to_vec(), dest: Address::Domain(String::from("a.io"), 53) };
    assert_eq!(p.data, b"x".to_vec());
}


#[test]
fn tun_nat_expiry() {
    let mut tun = fresh_tun();
    let client = sa(0x0a000005, 33000);
    let server = sa(0x08080808, 443);
    let (fake, _) = tun.handle_packet(client, server, flags(true, false, false, false), 1000)
        .unwrap();
    // a pass within the window keeps the flow
    tun.evict_expired(1000 + 86_400, 86_400);
    assert!(tun.nat.find_by_fake(fake).is_some());
    // a packet refreshes the clock; idling past the window evicts
    tun.handle_packet(client, server, flags(false, true, false, false), 2000).unwrap();
    tun.evict_expired(2000 + 86_401, 86_400);
    assert!(tun.nat.find_by_fake(fake).is_none());
    assert!(tun.nat.find_by_pair(client, server).is_none());
}

#[test]
fn udp_association_expiry() {
    let mut mgr = UdpAssociationManager::new();
    let source = sa(0x0a000005, 50000);
    mgr.send_packet(source, 1000);
    mgr.evict_expired(1000 + 86_400, 86_400);
    assert!(mgr.sender_for(source).is_some());
    mgr.evict_expired(1000 + 86_401, 86_400);
    assert!(mgr.sender_for(source).is_none());
    assert_eq!(mgr.store.len(), 0);
}
