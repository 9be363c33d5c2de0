//! Address model of the proxy: IP addresses as plain integers, socket
//! addresses, destinations (domain or resolved), and sessions.
use crate::text::{dec_str, hex_str, u16_dec_string, u16_hex_string, u32_dec_string};
use vstd::prelude::*;

verus! {

/// One octet of an IPv4 address, counted from the most significant end.
pub open spec fn ipv4_octet(v: u32, i: int) -> int {
    (v >> ((3 - i) * 8)) as int % 256
}

/// The dotted-quad decimal rendering of an IPv4 address.
pub open spec fn ipv4_str(v: u32) -> Seq<char> {
    dec_str(ipv4_octet(v, 0)) + seq!['.'] + dec_str(ipv4_octet(v, 1)) + seq!['.'] + dec_str(
        ipv4_octet(v, 2),
    ) + seq!['.'] + dec_str(ipv4_octet(v, 3))
}

/// One 16-bit group of an IPv6 address, counted from the most significant end.
pub open spec fn ipv6_group(v: u128, i: int) -> u16 {
    ((v >> ((7 - i) * 16)) & 0xffff) as u16
}

/// The eight 16-bit groups of an IPv6 address.
pub open spec fn ipv6_groups(v: u128) -> Seq<u16> {
    Seq::new(8, |i: int| ipv6_group(v, i))
}

/// Length of the run of zero groups starting at index `i`.
pub open spec fn zero_run_len(gs: Seq<u16>, i: int) -> int
    decreases gs.len() - i,
{
    if i < 0 || i >= gs.len() || gs[i] != 0 {
        0
    } else {
        1 + zero_run_len(gs, i + 1)
    }
}

/// The longest zero-run length over all starts at or after `i`.
pub open spec fn max_zero_run(gs: Seq<u16>, i: int) -> int
    decreases gs.len() - i,
{
    if i >= gs.len() {
        0
    } else {
        let rest = max_zero_run(gs, i + 1);
        if zero_run_len(gs, i) >= rest {
            zero_run_len(gs, i)
        } else {
            rest
        }
    }
}

/// The start of the leftmost longest zero run at or after `i`.
pub open spec fn best_zero_run_start(gs: Seq<u16>, i: int) -> int
    decreases gs.len() - i,
{
    if i >= gs.len() {
        i
    } else if zero_run_len(gs, i) >= max_zero_run(gs, i + 1) {
        i
    } else {
        best_zero_run_start(gs, i + 1)
    }
}

/// Groups `from..to` rendered in hexadecimal and joined with `:`.
pub open spec fn groups_str(gs: Seq<u16>, from: int, to: int) -> Seq<char>
    decreases to - from,
{
    if from >= to {
        Seq::<char>::empty()
    } else if to == from + 1 {
        hex_str(gs[from] as int)
    } else {
        groups_str(gs, from, to - 1) + seq![':'] + hex_str(gs[to - 1] as int)
    }
}

/// The canonical textual rendering of an IPv6 address: lowercase hexadecimal
/// groups, and the leftmost longest run of at least two zero groups elided as
/// `::`.
pub open spec fn ipv6_str(v: u128) -> Seq<char> {
    let gs = ipv6_groups(v);
    let run = max_zero_run(gs, 0);
    let start = best_zero_run_start(gs, 0);
    if run >= 2 {
        groups_str(gs, 0, start) + seq![':', ':'] + groups_str(gs, start + run, 8)
    } else {
        groups_str(gs, 0, 8)
    }
}

/// The textual rendering of a socket address: `a.b.c.d:port` for v4 and
/// `[groups]:port` for v6.
pub open spec fn socket_addr_str(sa: SocketAddress) -> Seq<char> {
    match sa.ip {
        IpAddress::V4(v) => ipv4_str(v) + seq![':'] + dec_str(sa.port as int),
        IpAddress::V6(v) => seq!['['] + ipv6_str(v) + seq![']', ':'] + dec_str(sa.port as int),
    }
}

/// An IP address held as a plain integer: 32 bits for v4, 128 bits for v6.
#[derive(Clone, Copy, PartialEq, Eq, Structural, Debug)]
pub enum IpAddress {
    V4(u32),
    V6(u128),
}

/// A socket address: an IP address together with a port.
#[derive(Clone, Copy, PartialEq, Eq, Structural, Debug)]
pub struct SocketAddress {
    pub ip: IpAddress,
    pub port: u16,
}

/// The destination of a session: either a still-unresolved domain name with a
/// port, or a resolved socket address.
#[derive(Clone, Debug)]
pub enum Address {
    Domain(String, u16),
    Ip(SocketAddress),
}

/// Transport protocol of a session.
#[derive(Clone, Copy, PartialEq, Eq, Structural, Debug)]
pub enum Network {
    TCP,
    UDP,
}

/// Transport protocol selector used when describing listener endpoints.
#[derive(Clone, Copy, PartialEq, Eq, Structural, Debug)]
pub enum NetworkType {
    TCP,
    UDP,
}

/// A listener endpoint: where to accept, and over which transport.
#[derive(Clone, Copy, Debug)]
pub struct TransportNetwork {
    pub addr: SocketAddress,
    pub net_type: NetworkType,
}

/// A domain name with a port, before it is wrapped into an `Address`.
#[derive(Clone, Debug)]
pub struct DomainSession {
    pub name: String,
    pub port: u16,
}

/// Renders an IPv4 address as dotted-quad decimal text.
pub fn ipv4_string(v: u32) -> (r: String)
    ensures
        r@ == ipv4_str(v),
{
    proof {
        reveal_strlit(".");
    }
    let o0 = v >> 24;
    let o1 = (v >> 16) & 0xff;
    let o2 = (v >> 8) & 0xff;
    let o3 = v & 0xff;
    proof {
        assert((v >> 24) % 256 == (v >> 24) && ((v >> 16) & 0xff) == (v >> 16) % 256 && ((v >> 8)
            & 0xff) == (v >> 8) % 256 && (v & 0xff) == (v >> 0) % 256) by (bit_vector);
        assert(v >> 0 == v) by (bit_vector);
    }
    let r = u32_dec_string(o0).concat(".").concat(u32_dec_string(o1).as_str()).concat(
        ".",
    ).concat(u32_dec_string(o2).as_str()).concat(".").concat(u32_dec_string(o3).as_str());
    proof {
        assert(r@ =~= ipv4_str(v));
    }
    r
}

/// The 16-bit group `i` of an IPv6 address, most significant first.
fn ipv6_group_at(v: u128, i: usize) -> (g: u16)
    requires
        i < 8,
    ensures
        g == ipv6_group(v, i as int),
{
    let sh: u32 = 112 - 16 * (i as u32);
    let masked = (v >> sh) & 0xffff;
    proof {
        assert((v >> sh) & 0xffff < 65536) by (bit_vector);
    }
    masked as u16
}

/// Length of the run of zero groups starting at `i`.
fn zero_run_at(gs: &Vec<u16>, i: usize) -> (l: usize)
    requires
        gs@.len() == 8,
        i <= 8,
    ensures
        l as int == zero_run_len(gs@, i as int),
        l + i <= 8,
    decreases 8 - i,
{
    if i >= 8 || gs[i] != 0 {
        0
    } else {
        1 + zero_run_at(gs, i + 1)
    }
}

/// The leftmost longest zero run at or after `i`, as `(start, length)`.
fn best_zero_run(gs: &Vec<u16>, i: usize) -> (r: (usize, usize))
    requires
        gs@.len() == 8,
        i <= 8,
    ensures
        r.0 as int == best_zero_run_start(gs@, i as int),
        r.1 as int == max_zero_run(gs@, i as int),
        r.0 + r.1 <= 8,
        i <= r.0,
    decreases 8 - i,
{
    if i >= 8 {
        (i, 0)
    } else {
        let rest = best_zero_run(gs, i + 1);
        let here = zero_run_at(gs, i);
        if here >= rest.1 {
            (i, here)
        } else {
            rest
        }
    }
}

/// Appends groups `from..to` in hexadecimal, joined with `:`, to `s`.
fn append_groups(s: String, gs: &Vec<u16>, from: usize, to: usize) -> (r: String)
    requires
        gs@.len() == 8,
        from <= to <= 8,
    ensures
        r@ == s@ + groups_str(gs@, from as int, to as int),
{
    proof {
        reveal_strlit(":");
    }
    let mut out = s;
    let ghost init = out@;
    let mut i = from;
    while i < to
        invariant
            from <= i <= to <= 8,
            gs@.len() == 8,
            out@ =~= init + groups_str(gs@, from as int, i as int),
        decreases to - i,
    {
        if i > from {
            out.append(":");
        }
        let hx = u16_hex_string(gs[i]);
        out.append(hx.as_str());
        proof {
            reveal_strlit(":");
            if i == from {
                assert(groups_str(gs@, from as int, i as int + 1) == hex_str(
                    gs@[from as int] as int,
                ));
            } else {
                assert(groups_str(gs@, from as int, i as int + 1) == groups_str(
                    gs@,
                    from as int,
                    i as int,
                ) + seq![':'] + hex_str(gs@[i as int] as int));
            }
            assert(out@ =~= init + groups_str(gs@, from as int, i as int + 1));
        }
        i += 1;
    }
    proof {
        assert(out@ =~= s@ + groups_str(gs@, from as int, to as int));
    }
    out
}

/// Renders an IPv6 address in its canonical textual form.
pub fn ipv6_string(v: u128) -> (r: String)
    ensures
        r@ == ipv6_str(v),
{
    proof {
        reveal_strlit("::");
    }
    let mut gs: Vec<u16> = Vec::new();
    let mut i: usize = 0;
    while i < 8
        invariant
            i <= 8,
            gs@.len() == i,
            forall|j: int| 0 <= j < i ==> gs@[j] == ipv6_group(v, j),
        decreases 8 - i,
    {
        gs.push(ipv6_group_at(v, i));
        i += 1;
    }
    proof {
        assert(gs@ =~= ipv6_groups(v));
    }
    let (start, run) = best_zero_run(&gs, 0);
    if run >= 2 {
        let head = append_groups(String::new(), &gs, 0, start);
        let mid = head.concat("::");
        let r = append_groups(mid, &gs, start + run, 8);
        proof {
            assert(r@ =~= ipv6_str(v));
        }
        r
    } else {
        let r = append_groups(String::new(), &gs, 0, 8);
        proof {
            assert(r@ =~= ipv6_str(v));
        }
        r
    }
}

/// Renders a socket address as `host:port` text.
pub fn socket_addr_string(sa: &SocketAddress) -> (r: String)
    ensures
        r@ == socket_addr_str(*sa),
{
    proof {
        reveal_strlit(":");
        reveal_strlit("[");
        reveal_strlit("]:");
    }
    let r = match sa.ip {
        IpAddress::V4(v) => ipv4_string(v).concat(":").concat(u16_dec_string(sa.port).as_str()),
        IpAddress::V6(v) => String::from_str("[").concat(ipv6_string(v).as_str()).concat(
            "]:",
        ).concat(u16_dec_string(sa.port).as_str()),
    };
    proof {
        assert(r@ =~= socket_addr_str(*sa));
    }
    r
}

impl Address {
    /// The port of the destination, for both variants.
    pub fn port(&self) -> (p: u16)
        ensures
            p == self.spec_port(),
    {
        match self {
            Address::Domain(_, port) => *port,
            Address::Ip(sa) => sa.port,
        }
    }

    /// The port of the destination, at the specification level.
    pub open spec fn spec_port(&self) -> u16 {
        match self {
            Address::Domain(_, port) => *port,
            Address::Ip(sa) => sa.port,
        }
    }

    /// The host part: the domain name itself, or the `host:port` text of a
    /// resolved socket address.
    pub open spec fn spec_host(&self) -> Seq<char> {
        match self {
            Address::Domain(name, _) => name@,
            Address::Ip(sa) => socket_addr_str(*sa),
        }
    }

    /// The host part of the destination.
    pub fn host(&self) -> (r: String)
        ensures
            r@ == self.spec_host(),
    {
        match self {
            Address::Domain(name, _) => name.clone(),
            Address::Ip(sa) => socket_addr_string(sa),
        }
    }

    /// The `host:port` text of the destination. A resolved address renders as
    /// its socket address; a domain renders as `name:port`.
    pub open spec fn spec_display(&self) -> Seq<char> {
        match self {
            Address::Domain(name, port) => name@ + seq![':'] + dec_str(*port as int),
            Address::Ip(sa) => socket_addr_str(*sa),
        }
    }

    /// Builds an address from a host string and a port: a string that is an
    /// IP literal becomes a resolved address, anything else a domain name.
    pub fn from_parts(host: String, port: u16) -> (r: Address)
        ensures
            r == (match crate::parse::spec_parse_ipv4(host@) {
                Some(v) => Address::Ip(SocketAddress { ip: IpAddress::V4(v), port }),
                None => match crate::parse::spec_parse_ipv6(host@) {
                    Some(v) => Address::Ip(SocketAddress { ip: IpAddress::V6(v), port }),
                    None => Address::Domain(host, port),
                },
            }),
    {
        match crate::parse::parse_ipv4(host.as_str()) {
            Some(v) => Address::Ip(SocketAddress { ip: IpAddress::V4(v), port }),
            None => match crate::parse::parse_ipv6(host.as_str()) {
                Some(v) => Address::Ip(SocketAddress { ip: IpAddress::V6(v), port }),
                None => Address::Domain(host, port),
            },
        }
    }

    /// Renders the destination as `host:port` text.
    pub fn to_display_string(&self) -> (r: String)
        ensures
            r@ == self.spec_display(),
    {
        proof {
            reveal_strlit(":");
        }
        match self {
            Address::Domain(name, port) => {
                let r = name.clone().concat(":").concat(u16_dec_string(*port).as_str());
                proof {
                    assert(r@ =~= self.spec_display());
                }
                r
            },
            Address::Ip(sa) => socket_addr_string(sa),
        }
    }
}

/// One accepted client flow: its (possibly rewritten) destination, the local
/// listener socket, the client's own socket, and the transport in use.
#[derive(Clone, Debug)]
pub struct Session {
    pub destination: Address,
    pub local_peer: SocketAddress,
    pub peer_address: SocketAddress,
    pub network: Network,
}

impl Session {
    /// The destination port of the session.
    pub fn port(&self) -> (p: u16)
        ensures
            p == self.destination.spec_port(),
    {
        self.destination.port()
    }
}

} // verus!
