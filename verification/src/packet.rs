//! IPv4/TCP packet rewriting for the TUN: reads the headers, asks the NAT
//! for the rewritten endpoints, writes them back in place and recomputes
//! both checksums.
use crate::addr::{IpAddress, SocketAddress};
use crate::tun::{conn_v4, handle_packet_post, lemma_find_by_fake_props, lemma_find_by_pair_props,
    sock_v4, sp_find_by_fake, sp_find_by_pair, TcpFlags, TcpTun};
use crate::wire::be_val;
use vstd::pervasive::VecAdditionalExecFns;
use vstd::prelude::*;

verus! {

/// The big-endian 16-bit words of `s[from..to]` summed as plain integers;
/// an odd trailing byte counts as the high byte of a final word.
pub open spec fn sum_words(s: Seq<u8>, from: int, to: int) -> int
    decreases to - from,
{
    if from >= to {
        0
    } else if from + 1 == to {
        s[from] * 256
    } else {
        s[from] * 256 + s[from + 1] + sum_words(s, from + 2, to)
    }
}

/// The end-around-carry fold of a word sum down to 16 bits.
pub open spec fn fold16(x: int) -> int
    decreases x,
    via fold16_decreases
{
    if x <= 0xffff {
        x
    } else {
        fold16(x % 0x10000 + x / 0x10000)
    }
}

#[via_fn]
proof fn fold16_decreases(x: int) {
    if x > 0xffff {
        assert(x % 0x10000 + x / 0x10000 < x) by (nonlinear_arith)
            requires
                x > 0xffff,
        ;
    }
}

/// The internet checksum over `s[from..to]`: the complement of the folded
/// word sum.
pub open spec fn checksum16(s: Seq<u8>, from: int, to: int) -> int {
    0xffff - fold16(sum_words(s, from, to))
}

/// A word sum is bounded by the byte count.
proof fn lemma_sum_words_bound(s: Seq<u8>, from: int, to: int)
    requires
        from <= to,
    ensures
        0 <= sum_words(s, from, to) <= 65536 * (to - from),
    decreases to - from,
{
    if from + 1 < to {
        lemma_sum_words_bound(s, from + 2, to);
    }
}

/// Sums the big-endian words of `data[from..to]`.
fn sum_range(data: &Vec<u8>, from: usize, to: usize) -> (r: u64)
    requires
        from <= to,
        to <= data@.len(),
        to - from <= 0x20000,
    ensures
        r as int == sum_words(data@, from as int, to as int),
    decreases to - from,
{
    proof {
        lemma_sum_words_bound(data@, from as int, to as int);
        if from + 2 <= to {
            lemma_sum_words_bound(data@, from as int + 2, to as int);
        }
    }
    if from >= to {
        0
    } else if from + 1 == to {
        (data[from] as u64) * 256
    } else {
        (data[from] as u64) * 256 + (data[from + 1] as u64) + sum_range(data, from + 2, to)
    }
}

/// Folds a word sum with its carries down to 16 bits.
fn fold_sum(x: u64) -> (r: u16)
    requires
        x <= 0x2_0000_0000,
    ensures
        r as int == fold16(x as int),
{
    let mut v = x;
    while v > 0xffff
        invariant
            fold16(x as int) == fold16(v as int),
            v <= 0x2_0000_0000,
        decreases v,
    {
        proof {
            assert((v & 0xffff) == v % 0x10000 && (v >> 16) == v / 0x10000 && ((v & 0xffff) + (v
                >> 16)) < v && (v & 0xffff) + (v >> 16) <= 0x2_0000_0000) by (bit_vector)
                requires
                    v > 0xffff && v <= 0x2_0000_0000,
            ;
        }
        let next = (v & 0xffff) + (v >> 16);
        v = next;
    }
    v as u16
}

/// Writes a 16-bit big-endian value at `i`.
fn write_u16_at(data: &mut Vec<u8>, i: usize, v: u16)
    requires
        i + 2 <= old(data)@.len(),
    ensures
        final(data)@ == old(data)@.update(i as int, (v / 256) as u8).update(
            i as int + 1,
            (v % 256) as u8,
        ),
        final(data)@.len() == old(data)@.len(),
{
    let n = data.len();
    data.set(i, (v / 256) as u8);
    data.set(i + 1, (v % 256) as u8);
}

/// Writes a 32-bit big-endian value at `i`.
fn write_u32_at(data: &mut Vec<u8>, i: usize, v: u32)
    requires
        i + 4 <= old(data)@.len(),
    ensures
        final(data)@.len() == old(data)@.len(),
        be_val(final(data)@, i as int, i as int + 4) == v,
        forall|j: int|
            0 <= j < old(data)@.len() && !(i <= j < i + 4) ==> final(data)@[j] == old(
                data,
            )@[j],
{
    let n = data.len();
    let b0 = (v >> 24) as u8;
    let b1 = ((v >> 16) & 0xff) as u8;
    let b2 = ((v >> 8) & 0xff) as u8;
    let b3 = (v & 0xff) as u8;
    data.set(i, b0);
    data.set(i + 1, b1);
    data.set(i + 2, b2);
    data.set(i + 3, b3);
    proof {
        assert((v >> 24) < 256 && ((v >> 16) & 0xff) < 256 && ((v >> 8) & 0xff) < 256 && (v
            & 0xff) < 256 && ((((v >> 24) * 256 + ((v >> 16) & 0xff)) * 256 + ((v >> 8) & 0xff))
            * 256 + (v & 0xff)) == v) by (bit_vector);
        reveal_with_fuel(be_val, 5);
    }
}

/// The IP header checksum is in place: the field at bytes 10 and 11 is the
/// checksum of the header read with that field as zero.
pub open spec fn ip_checksum_ok(p: Seq<u8>, ihl: int) -> bool {
    be_val(p, 10, 12) == checksum16(p.update(10, 0u8).update(11, 0u8), 0, ihl)
}

/// The sum of the TCP pseudo-header for this packet: both addresses, the
/// protocol number and the segment length.
pub open spec fn pseudo_sum(p: Seq<u8>, ihl: int) -> int {
    sum_words(p, 12, 20) + 6 + (p.len() - ihl)
}

/// The TCP checksum is in place: the field at `ihl + 16` complements the
/// folded sum of the pseudo-header and the segment read with the field as
/// zero.
pub open spec fn tcp_checksum_ok(p: Seq<u8>, ihl: int) -> bool {
    let z = p.update(ihl + 16, 0u8).update(ihl + 17, 0u8);
    be_val(p, ihl + 16, ihl + 18) == 0xffff - fold16(
        sum_words(z, ihl, p.len() as int) + pseudo_sum(z, ihl),
    )
}

/// The header length the packet announces, in bytes.
pub open spec fn pkt_ihl(p: Seq<u8>) -> int {
    (p[0] % 16) * 4
}

/// Whether the bytes are a well-formed IPv4 TCP packet that the TUN
/// rewrites: long enough for both headers, version 4, protocol TCP.
pub open spec fn pkt_parses(p: Seq<u8>) -> bool {
    &&& p.len() >= 20
    &&& p[0] / 16 == 4
    &&& pkt_ihl(p) >= 20
    &&& pkt_ihl(p) + 20 <= p.len()
    &&& p[9] == 6
}

/// The packet's source endpoint.
pub open spec fn pkt_src(p: Seq<u8>) -> SocketAddress {
    SocketAddress {
        ip: IpAddress::V4(be_val(p, 12, 16) as u32),
        port: be_val(p, pkt_ihl(p), pkt_ihl(p) + 2) as u16,
    }
}

/// The packet's destination endpoint.
pub open spec fn pkt_dest(p: Seq<u8>) -> SocketAddress {
    SocketAddress {
        ip: IpAddress::V4(be_val(p, 16, 20) as u32),
        port: be_val(p, pkt_ihl(p) + 2, pkt_ihl(p) + 4) as u16,
    }
}

/// The packet's TCP flags, read from the flag byte.
pub open spec fn pkt_flags(p: Seq<u8>) -> TcpFlags {
    let b = p[pkt_ihl(p) + 13];
    TcpFlags {
        fin: b % 2 == 1,
        syn: (b / 2) % 2 == 1,
        rst: (b / 4) % 2 == 1,
        ack: (b / 16) % 2 == 1,
    }
}

/// Rewrites one packet of the TUN device in place.
///
/// A well-formed IPv4 TCP packet is handed to the NAT under its parsed
/// endpoints and flags, and the NAT's verdict decides: a rewrite writes the
/// new endpoints back into the buffer and recomputes both checksums; a drop
/// leaves the buffer untouched. Everything else passes through untouched as
/// `None`.
#[verifier::rlimit(100)]
pub fn handle_ip_packet(tun: &mut TcpTun, packet: &mut Vec<u8>, now: u64) -> (r: Option<
    (SocketAddress, SocketAddress),
>)
    requires
        old(tun).wf(),
        old(tun).v4_only(),
        old(packet)@.len() <= 0xffff,
    ensures
        final(tun).wf(),
        final(tun).v4_only(),
        final(tun).listener_addr == old(tun).listener_addr,
        final(tun).free_address == old(tun).free_address,
        final(packet)@.len() == old(packet)@.len(),
        !pkt_parses(old(packet)@) ==> r is None && *final(tun) == *old(tun),
        pkt_parses(old(packet)@) ==> handle_packet_post(
            *old(tun),
            *final(tun),
            pkt_src(old(packet)@),
            pkt_dest(old(packet)@),
            pkt_flags(old(packet)@),
            now,
            r,
        ),
        r is None ==> final(packet)@ == old(packet)@,
        match r {
            None => final(packet)@ == old(packet)@,
            Some((ns, nd)) => {
                let ihl = pkt_ihl(old(packet)@);
                &&& ns.ip is V4 && nd.ip is V4
                &&& be_val(final(packet)@, 12, 16) == ns.ip->V4_0
                &&& be_val(final(packet)@, 16, 20) == nd.ip->V4_0
                &&& be_val(final(packet)@, ihl, ihl + 2) == ns.port
                &&& be_val(final(packet)@, ihl + 2, ihl + 4) == nd.port
                &&& ip_checksum_ok(final(packet)@, ihl)
                &&& tcp_checksum_ok(final(packet)@, ihl)
            },
        },
{
    let plen = packet.len();
    if plen < 20 {
        return None;
    }
    let v_ihl = packet[0];
    if v_ihl / 16 != 4 {
        return None;
    }
    let ihl = ((v_ihl % 16) as usize) * 4;
    if ihl < 20 || ihl + 20 > plen {
        return None;
    }
    if packet[9] != 6 {
        return None;
    }
    proof {
        crate::wire::lemma_be_val_bound(packet@, 12, 16);
        crate::wire::lemma_be_val_bound(packet@, 16, 20);
        crate::wire::lemma_be_val_bound(packet@, ihl as int, ihl as int + 2);
        crate::wire::lemma_be_val_bound(packet@, ihl as int + 2, ihl as int + 4);
        reveal_with_fuel(vstd::arithmetic::power::pow, 5);
    }
    let src_ip = crate::wire::read_u32_be(packet.as_slice(), 12);
    let dst_ip = crate::wire::read_u32_be(packet.as_slice(), 16);
    let src_port = crate::wire::read_u16_be(packet.as_slice(), ihl);
    let dst_port = crate::wire::read_u16_be(packet.as_slice(), ihl + 2);
    let fbits = packet[ihl + 13];
    let flags = TcpFlags {
        fin: fbits % 2 == 1,
        syn: (fbits / 2) % 2 == 1,
        rst: (fbits / 4) % 2 == 1,
        ack: (fbits / 16) % 2 == 1,
    };
    let src = SocketAddress { ip: IpAddress::V4(src_ip), port: src_port };
    let dest = SocketAddress { ip: IpAddress::V4(dst_ip), port: dst_port };
    proof {
        assert(src == pkt_src(packet@));
        assert(dest == pkt_dest(packet@));
        assert(flags == pkt_flags(packet@));
    }
    let (new_src, new_dest) = match tun.handle_packet(src, dest, flags, now) {
        Some(pair) => pair,
        None => {
            return None;
        },
    };
    proof {
        // the NAT hands back only IPv4 endpoints: each branch of its verdict
        // draws them from the v4-only state
        let es = old(tun).nat.entries@;
        match sp_find_by_pair(es, src, dest, 0) {
            Some(c) => {
                lemma_find_by_pair_props(es, src, dest, 0);
                let j = choose|j: int| 0 <= j < es.len() && es[j] == c;
                assert(conn_v4(es[j]));
            },
            None => {
                if flags.syn && !flags.ack {
                    let i = choose|i: int|
                        0 <= i < old(tun).free_address@.len() && new_src.ip == #[trigger] old(
                            tun,
                        ).free_address@[i];
                    assert(old(tun).free_address@[i] is V4);
                } else {
                    match sp_find_by_fake(es, dest, 0) {
                        Some(c) => {
                            lemma_find_by_fake_props(es, dest, 0);
                            let j = choose|j: int| 0 <= j < es.len() && es[j] == c;
                            assert(conn_v4(es[j]));
                        },
                        None => {},
                    }
                }
            },
        }
        assert(sock_v4(new_src) && sock_v4(new_dest));
    }
    let ns_ip = match new_src.ip {
        IpAddress::V4(v) => v,
        IpAddress::V6(_) => unreached(),
    };
    let nd_ip = match new_dest.ip {
        IpAddress::V4(v) => v,
        IpAddress::V6(_) => unreached(),
    };
    write_u32_at(packet, 12, ns_ip);
    let ghost g1 = packet@;
    write_u32_at(packet, 16, nd_ip);
    proof {
        crate::wire::lemma_be_val_congruent(packet@, g1, 12, 16);
    }
    let ghost g2 = packet@;
    write_u16_at(packet, ihl, new_src.port);
    proof {
        crate::wire::lemma_be_val_congruent(packet@, g2, 12, 16);
        crate::wire::lemma_be_val_congruent(packet@, g2, 16, 20);
        reveal_with_fuel(be_val, 3);
        assert(be_val(packet@, ihl as int, ihl as int + 2) == (new_src.port / 256) * 256 + (
        new_src.port % 256));
    }
    let ghost g3 = packet@;
    write_u16_at(packet, ihl + 2, new_dest.port);
    proof {
        crate::wire::lemma_be_val_congruent(packet@, g3, 12, 16);
        crate::wire::lemma_be_val_congruent(packet@, g3, 16, 20);
        crate::wire::lemma_be_val_congruent(packet@, g3, ihl as int, ihl as int + 2);
        reveal_with_fuel(be_val, 3);
        assert(be_val(packet@, ihl as int + 2, ihl as int + 4) == (new_dest.port / 256) * 256 + (
        new_dest.port % 256));
    }
    let ghost endpoints_done = packet@;
    // IP header checksum over the header with its field zeroed
    write_u16_at(packet, 10, 0);
    let ip_sum = sum_range(packet, 0, ihl);
    proof {
        lemma_sum_words_bound(packet@, 0, ihl as int);
    }
    let ghost zeroed_ip = packet@;
    let ip_ck = 0xffffu16 - fold_sum(ip_sum);
    write_u16_at(packet, 10, ip_ck);
    // TCP checksum over the pseudo-header and the segment with its field
    // zeroed
    write_u16_at(packet, ihl + 16, 0);
    let seg_sum = sum_range(packet, ihl, plen);
    let addr_sum = sum_range(packet, 12, 20);
    proof {
        lemma_sum_words_bound(packet@, ihl as int, plen as int);
        lemma_sum_words_bound(packet@, 12, 20);
    }
    let ghost zeroed_tcp = packet@;
    let total: u64 = seg_sum + addr_sum + 6 + ((plen - ihl) as u64);
    let tcp_ck = 0xffffu16 - fold_sum(total);
    write_u16_at(packet, ihl + 16, tcp_ck);
    proof {
        let p = packet@;
        let il = ihl as int;
        reveal_with_fuel(be_val, 3);
        // the endpoint fields survive the checksum writes
        crate::wire::lemma_be_val_congruent(p, endpoints_done, 12, 16);
        crate::wire::lemma_be_val_congruent(p, endpoints_done, 16, 20);
        crate::wire::lemma_be_val_congruent(p, endpoints_done, il, il + 2);
        crate::wire::lemma_be_val_congruent(p, endpoints_done, il + 2, il + 4);
        // the IP checksum field reads back and covers the zeroed header
        crate::wire::lemma_be_val_congruent(p, zeroed_ip.update(10, (ip_ck / 256) as u8).update(
            11,
            (ip_ck % 256) as u8,
        ), 10, 12);
        assert(be_val(p, 10, 12) == (ip_ck / 256) * 256 + (ip_ck % 256));
        assert(p.update(10, 0u8).update(11, 0u8) =~= zeroed_ip.update(
            il + 16,
            0u8,
        ).update(il + 17, 0u8).update(il + 16, (tcp_ck / 256) as u8).update(
            il + 17,
            (tcp_ck % 256) as u8,
        ));
        lemma_sum_words_congruent(p.update(10, 0u8).update(11, 0u8), zeroed_ip, 0, il);
        assert(ip_checksum_ok(p, il));
        // the TCP checksum field reads back and covers the zeroed segment
        assert(be_val(p, il + 16, il + 18) == (tcp_ck / 256) * 256 + (tcp_ck % 256));
        assert(p.update(il + 16, 0u8).update(il + 17, 0u8) =~= zeroed_tcp);
        assert(sum_words(zeroed_tcp, il, plen as int) == seg_sum);
        assert(sum_words(zeroed_tcp, 12, 20) == addr_sum);
        assert(tcp_checksum_ok(p, il));
    }
    Some((new_src, new_dest))
}


/// Two sequences that agree on `[from..to]` have the same word sum there.
proof fn lemma_sum_words_congruent(s: Seq<u8>, t: Seq<u8>, from: int, to: int)
    requires
        0 <= from,
        to <= s.len(),
        to <= t.len(),
        forall|j: int| from <= j < to ==> s[j] == t[j],
    ensures
        sum_words(s, from, to) == sum_words(t, from, to),
    decreases to - from,
{
    if from + 1 < to {
        lemma_sum_words_congruent(s, t, from + 2, to);
    }
}

/// After the final checksum write, the fields written earlier still read
/// back as written: the updates at the checksum bytes leave them alone.
proof fn lemma_be_val_last(now: Seq<u8>, zeroed: Seq<u8>, ihl: int)
    requires
        now.len() == zeroed.len(),
        20 <= ihl,
        ihl + 20 <= now.len(),
        forall|j: int| 0 <= j < now.len() && !(ihl + 16 <= j < ihl + 18) ==> now[j] == zeroed[j],
    ensures
        be_val(now, 12, 16) == be_val(zeroed, 12, 16),
        be_val(now, 16, 20) == be_val(zeroed, 16, 20),
        be_val(now, ihl, ihl + 2) == be_val(zeroed, ihl, ihl + 2),
        be_val(now, ihl + 2, ihl + 4) == be_val(zeroed, ihl + 2, ihl + 4),
{
    crate::wire::lemma_be_val_congruent(now, zeroed, 12, 16);
    crate::wire::lemma_be_val_congruent(now, zeroed, 16, 20);
    crate::wire::lemma_be_val_congruent(now, zeroed, ihl, ihl + 2);
    crate::wire::lemma_be_val_congruent(now, zeroed, ihl + 2, ihl + 4);
}

} // verus!
