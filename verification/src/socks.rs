//! SOCKS5 codec: the byte frames of the RFC 1928 TCP handshake in both the
//! server and the client role, and the UDP relay header.
use crate::addr::{Address, IpAddress, SocketAddress};
use crate::sniffer::{utf8_lossy, utf8_lossy_of};
use crate::wire::{be_val, int_be_bytes, lemma_be_val_bound, push_u16_be, read_u128_be, read_u16_be,
    read_u32_be};
use vstd::prelude::*;
use vstd::slice::slice_subrange;

verus! {

/// Ways a SOCKS5 frame can be rejected.
#[derive(Clone, Copy, PartialEq, Eq, Structural, Debug)]
pub enum SocksError {
    /// The version byte was not 0x05.
    BadVersion(u8),
    /// The server offered an authentication method other than no-auth.
    AuthNotSupported(u8),
    /// An address type byte that is neither IPv4, DOMAIN nor IPv6.
    UnknownAtyp(u8),
    /// The upstream reply did not announce success.
    BadReply,
    /// A UDP datagram with a non-zero fragment number; it must be dropped.
    Fragmented,
    /// A UDP relay header too short or with a non-zero reserved field.
    BadHeader,
    /// A command this proxy does not serve.
    NotSupported,
}

/// What a SOCKS5 command byte asks for.
#[derive(Clone, Copy, PartialEq, Eq, Structural, Debug)]
pub enum CommandKind {
    Connect,
    UdpAssociate,
    Unsupported,
}

/// Classifies a command byte: CONNECT and UDP ASSOCIATE are served, BIND and
/// everything else is not.
pub fn classify_command(cmd: u8) -> (r: CommandKind)
    ensures
        r == (if cmd == 1 {
            CommandKind::Connect
        } else if cmd == 3 {
            CommandKind::UdpAssociate
        } else {
            CommandKind::Unsupported
        }),
{
    if cmd == 1 {
        CommandKind::Connect
    } else if cmd == 3 {
        CommandKind::UdpAssociate
    } else {
        CommandKind::Unsupported
    }
}

/// A destination at the specification level: a domain name still as the raw
/// bytes carried on the wire, or a resolved socket address.
pub enum SpecAddr {
    Domain(Seq<u8>, u16),
    Ip(SocketAddress),
}

/// Whether the exec address reports the spec-level one: a parsed domain name
/// is the lossy UTF-8 decoding of the wire bytes.
pub open spec fn addr_matches(a: Address, s: SpecAddr) -> bool {
    match (a, s) {
        (Address::Domain(name, p), SpecAddr::Domain(bytes, q)) => name@ == utf8_lossy_of(bytes)
            && p == q,
        (Address::Ip(sa), SpecAddr::Ip(sb)) => sa == sb,
        _ => false,
    }
}

/// Outcome of parsing one variable-length address field (ATYP, address,
/// port) at position `i`, at the specification level.
pub enum AddrFieldSpec {
    NeedMore,
    Bad(SocksError),
    Done(SpecAddr, int),
}

/// Parses the address field `ATYP ADDR PORT` at `data[i..]`: four bytes for
/// IPv4, a length-prefixed name for DOMAIN, sixteen bytes for IPv6, then a
/// big-endian port. Yields the address and the index just past the field.
pub open spec fn sp_addr_field(data: Seq<u8>, i: int) -> AddrFieldSpec {
    if data.len() < i + 1 {
        AddrFieldSpec::NeedMore
    } else {
        let atyp = data[i];
        if atyp == 1 {
            if data.len() < i + 7 {
                AddrFieldSpec::NeedMore
            } else {
                AddrFieldSpec::Done(
                    SpecAddr::Ip(
                        SocketAddress {
                            ip: IpAddress::V4(be_val(data, i + 1, i + 5) as u32),
                            port: be_val(data, i + 5, i + 7) as u16,
                        },
                    ),
                    i + 7,
                )
            }
        } else if atyp == 3 {
            if data.len() < i + 2 {
                AddrFieldSpec::NeedMore
            } else {
                let l = data[i + 1] as int;
                if data.len() < i + 2 + l + 2 {
                    AddrFieldSpec::NeedMore
                } else {
                    AddrFieldSpec::Done(
                        SpecAddr::Domain(
                            data.subrange(i + 2, i + 2 + l),
                            be_val(data, i + 2 + l, i + 4 + l) as u16,
                        ),
                        i + 4 + l,
                    )
                }
            }
        } else if atyp == 4 {
            if data.len() < i + 19 {
                AddrFieldSpec::NeedMore
            } else {
                AddrFieldSpec::Done(
                    SpecAddr::Ip(
                        SocketAddress {
                            ip: IpAddress::V6(be_val(data, i + 1, i + 17) as u128),
                            port: be_val(data, i + 17, i + 19) as u16,
                        },
                    ),
                    i + 19,
                )
            }
        } else {
            AddrFieldSpec::Bad(SocksError::UnknownAtyp(atyp))
        }
    }
}

/// Outcome of parsing one variable-length address field.
pub enum AddrFieldOutcome {
    NeedMore,
    Bad(SocksError),
    Done(Address, usize),
}

/// Whether the exec outcome reports the spec-level one.
pub open spec fn addr_field_matches(r: AddrFieldOutcome, s: AddrFieldSpec) -> bool {
    match r {
        AddrFieldOutcome::NeedMore => s == AddrFieldSpec::NeedMore,
        AddrFieldOutcome::Bad(e) => s == AddrFieldSpec::Bad(e),
        AddrFieldOutcome::Done(a, n) => s matches AddrFieldSpec::Done(sa, sn) && addr_matches(a, sa)
            && n as int == sn,
    }
}

/// Parses the address field `ATYP ADDR PORT` at `data[i..]`.
pub fn parse_addr_field(data: &[u8], i: usize) -> (r: AddrFieldOutcome)
    requires
        i <= data@.len(),
        data@.len() < 0x1000_0000,
    ensures
        addr_field_matches(r, sp_addr_field(data@, i as int)),
{
    let dlen = data.len();
    if dlen < i + 1 {
        return AddrFieldOutcome::NeedMore;
    }
    let atyp = data[i];
    if atyp == 1 {
        if dlen < i + 7 {
            return AddrFieldOutcome::NeedMore;
        }
        proof {
            lemma_be_val_bound(data@, i as int + 1, i as int + 5);
            lemma_be_val_bound(data@, i as int + 5, i as int + 7);
            reveal_with_fuel(vstd::arithmetic::power::pow, 5);
        }
        let ip = read_u32_be(data, i + 1);
        let port = read_u16_be(data, i + 5);
        AddrFieldOutcome::Done(
            Address::Ip(SocketAddress { ip: IpAddress::V4(ip), port }),
            i + 7,
        )
    } else if atyp == 3 {
        if dlen < i + 2 {
            return AddrFieldOutcome::NeedMore;
        }
        let l = data[i + 1] as usize;
        if dlen < i + 2 + l + 2 {
            return AddrFieldOutcome::NeedMore;
        }
        let name_bytes = slice_subrange(data, i + 2, i + 2 + l);
        let name = utf8_lossy(name_bytes);
        proof {
            lemma_be_val_bound(data@, i as int + 2 + l, i as int + 4 + l);
            reveal_with_fuel(vstd::arithmetic::power::pow, 3);
        }
        let port = read_u16_be(data, i + 2 + l);
        AddrFieldOutcome::Done(Address::Domain(name, port), i + 4 + l)
    } else if atyp == 4 {
        if dlen < i + 19 {
            return AddrFieldOutcome::NeedMore;
        }
        proof {
            lemma_be_val_bound(data@, i as int + 1, i as int + 17);
            lemma_be_val_bound(data@, i as int + 17, i as int + 19);
            reveal_with_fuel(vstd::arithmetic::power::pow, 17);
        }
        let ip = read_u128_be(data, i + 1);
        let port = read_u16_be(data, i + 17);
        AddrFieldOutcome::Done(
            Address::Ip(SocketAddress { ip: IpAddress::V6(ip), port }),
            i + 19,
        )
    } else {
        AddrFieldOutcome::Bad(SocksError::UnknownAtyp(atyp))
    }
}

/// Outcome of parsing the client greeting, at the specification level.
pub enum GreetingSpec {
    NeedMore,
    Bad(SocksError),
    Done(int),
}

/// Parses the client greeting `VER NMETHODS METHODS`: the number of bytes it
/// occupies, once all method bytes have arrived.
pub open spec fn sp_parse_greeting(data: Seq<u8>) -> GreetingSpec {
    if data.len() < 2 {
        GreetingSpec::NeedMore
    } else if data[0] != 5 {
        GreetingSpec::Bad(SocksError::BadVersion(data[0]))
    } else if data.len() < 2 + data[1] {
        GreetingSpec::NeedMore
    } else {
        GreetingSpec::Done(2 + data[1] as int)
    }
}

/// Outcome of parsing the client greeting.
pub enum GreetingOutcome {
    NeedMore,
    Bad(SocksError),
    Done(usize),
}

/// Whether the exec outcome reports the spec-level one.
pub open spec fn greeting_matches(r: GreetingOutcome, s: GreetingSpec) -> bool {
    match r {
        GreetingOutcome::NeedMore => s == GreetingSpec::NeedMore,
        GreetingOutcome::Bad(e) => s == GreetingSpec::Bad(e),
        GreetingOutcome::Done(n) => s == GreetingSpec::Done(n as int),
    }
}

/// Parses the client greeting `VER NMETHODS METHODS`.
pub fn parse_greeting(data: &[u8]) -> (r: GreetingOutcome)
    ensures
        greeting_matches(r, sp_parse_greeting(data@)),
{
    let dlen = data.len();
    if dlen < 2 {
        return GreetingOutcome::NeedMore;
    }
    if data[0] != 5 {
        return GreetingOutcome::Bad(SocksError::BadVersion(data[0]));
    }
    let n = data[1] as usize;
    if dlen < 2 + n {
        return GreetingOutcome::NeedMore;
    }
    GreetingOutcome::Done(2 + n)
}

/// The server's method selection reply: no authentication required.
pub fn encode_greeting_reply() -> (r: Vec<u8>)
    ensures
        r@ == seq![5u8, 0u8],
{
    let mut v: Vec<u8> = Vec::new();
    v.push(5);
    v.push(0);
    proof {
        assert(v@ =~= seq![5u8, 0u8]);
    }
    v
}

/// The client greeting: version 5, one method, no authentication.
pub fn encode_method_selection() -> (r: Vec<u8>)
    ensures
        r@ == seq![5u8, 1u8, 0u8],
{
    let mut v: Vec<u8> = Vec::new();
    v.push(5);
    v.push(1);
    v.push(0);
    proof {
        assert(v@ =~= seq![5u8, 1u8, 0u8]);
    }
    v
}

/// Checks the server's two-byte method choice: only no-auth is acceptable.
pub fn check_server_choice(reply: &[u8]) -> (r: Result<(), SocksError>)
    requires
        reply@.len() == 2,
    ensures
        r is Ok <==> (reply@[0] == 5 && reply@[1] == 0),
        r matches Err(e) ==> e == (if reply@[0] != 5 {
            SocksError::BadVersion(reply@[0])
        } else {
            SocksError::AuthNotSupported(reply@[1])
        }),
{
    if reply[0] != 5 {
        Err(SocksError::BadVersion(reply[0]))
    } else if reply[1] != 0 {
        Err(SocksError::AuthNotSupported(reply[1]))
    } else {
        Ok(())
    }
}

/// Outcome of parsing the client request, at the specification level.
pub enum RequestSpec {
    NeedMore,
    Bad(SocksError),
    Done { cmd: u8, dest: SpecAddr, consumed: int },
}

/// Parses the client request `VER CMD RSV ATYP ADDR PORT`.
pub open spec fn sp_parse_request(data: Seq<u8>) -> RequestSpec {
    if data.len() < 4 {
        RequestSpec::NeedMore
    } else if data[0] != 5 {
        RequestSpec::Bad(SocksError::BadVersion(data[0]))
    } else {
        match sp_addr_field(data, 3) {
            AddrFieldSpec::NeedMore => RequestSpec::NeedMore,
            AddrFieldSpec::Bad(e) => RequestSpec::Bad(e),
            AddrFieldSpec::Done(dest, n) => RequestSpec::Done { cmd: data[1], dest, consumed: n },
        }
    }
}

/// Outcome of parsing the client request.
pub enum RequestOutcome {
    NeedMore,
    Bad(SocksError),
    Done { cmd: u8, dest: Address, consumed: usize },
}

/// Whether the exec outcome reports the spec-level one.
pub open spec fn request_matches(r: RequestOutcome, s: RequestSpec) -> bool {
    match r {
        RequestOutcome::NeedMore => s == RequestSpec::NeedMore,
        RequestOutcome::Bad(e) => s == RequestSpec::Bad(e),
        RequestOutcome::Done { cmd, dest, consumed } => s matches RequestSpec::Done {
            cmd: c2,
            dest: d2,
            consumed: n2,
        } && cmd == c2 && addr_matches(dest, d2) && consumed as int == n2,
    }
}

/// Parses the client request `VER CMD RSV ATYP ADDR PORT`.
pub fn parse_request(data: &[u8]) -> (r: RequestOutcome)
    requires
        data@.len() < 0x1000_0000,
    ensures
        request_matches(r, sp_parse_request(data@)),
{
    let dlen = data.len();
    if dlen < 4 {
        return RequestOutcome::NeedMore;
    }
    if data[0] != 5 {
        return RequestOutcome::Bad(SocksError::BadVersion(data[0]));
    }
    match parse_addr_field(data, 3) {
        AddrFieldOutcome::NeedMore => RequestOutcome::NeedMore,
        AddrFieldOutcome::Bad(e) => RequestOutcome::Bad(e),
        AddrFieldOutcome::Done(dest, n) => RequestOutcome::Done { cmd: data[1], dest, consumed: n },
    }
}

/// The server's synthetic success reply with a zero IPv4 bind address.
pub fn encode_server_reply() -> (r: Vec<u8>)
    ensures
        r@ == seq![5u8, 0u8, 0u8, 1u8, 0u8, 0u8, 0u8, 0u8, 0u8, 0u8],
{
    let mut v: Vec<u8> = Vec::new();
    v.push(5);
    v.push(0);
    v.push(0);
    v.push(1);
    let mut i: usize = 0;
    while i < 6
        invariant
            i <= 6,
            v@ =~= seq![5u8, 0u8, 0u8, 1u8] + Seq::<u8>::new(i as nat, |j: int| 0u8),
        decreases 6 - i,
    {
        v.push(0);
        proof {
            assert(seq![5u8, 0u8, 0u8, 1u8] + Seq::<u8>::new((i + 1) as nat, |j: int| 0u8)
                =~= (seq![5u8, 0u8, 0u8, 1u8] + Seq::<u8>::new(i as nat, |j: int| 0u8)).push(0u8));
        }
        i += 1;
    }
    proof {
        assert(v@ =~= seq![5u8, 0u8, 0u8, 1u8, 0u8, 0u8, 0u8, 0u8, 0u8, 0u8]);
    }
    v
}

/// Outcome of parsing the upstream server's reply to a request.
pub enum ReplySpec {
    NeedMore,
    Bad(SocksError),
    Done(int),
}

/// Parses the upstream reply `VER REP RSV ATYP BND.ADDR BND.PORT`: success
/// means version 5 and reply code 0; the bind address decides the length.
pub open spec fn sp_parse_reply(data: Seq<u8>) -> ReplySpec {
    if data.len() < 2 {
        ReplySpec::NeedMore
    } else if data[0] != 5 || data[1] != 0 {
        ReplySpec::Bad(SocksError::BadReply)
    } else {
        match sp_addr_field(data, 3) {
            AddrFieldSpec::NeedMore => ReplySpec::NeedMore,
            AddrFieldSpec::Bad(e) => ReplySpec::Bad(e),
            AddrFieldSpec::Done(_, n) => ReplySpec::Done(n),
        }
    }
}

/// Outcome of parsing the upstream server's reply.
pub enum ReplyOutcome {
    NeedMore,
    Bad(SocksError),
    Done(usize),
}

/// Whether the exec outcome reports the spec-level one.
pub open spec fn reply_matches(r: ReplyOutcome, s: ReplySpec) -> bool {
    match r {
        ReplyOutcome::NeedMore => s == ReplySpec::NeedMore,
        ReplyOutcome::Bad(e) => s == ReplySpec::Bad(e),
        ReplyOutcome::Done(n) => s == ReplySpec::Done(n as int),
    }
}

/// Parses the upstream reply `VER REP RSV ATYP BND.ADDR BND.PORT`.
pub fn parse_reply(data: &[u8]) -> (r: ReplyOutcome)
    requires
        data@.len() < 0x1000_0000,
    ensures
        reply_matches(r, sp_parse_reply(data@)),
{
    let dlen = data.len();
    if dlen < 2 {
        return ReplyOutcome::NeedMore;
    }
    if data[0] != 5 || data[1] != 0 {
        return ReplyOutcome::Bad(SocksError::BadReply);
    }
    if dlen < 4 {
        return ReplyOutcome::NeedMore;
    }
    match parse_addr_field(data, 3) {
        AddrFieldOutcome::NeedMore => ReplyOutcome::NeedMore,
        AddrFieldOutcome::Bad(e) => ReplyOutcome::Bad(e),
        AddrFieldOutcome::Done(_, n) => ReplyOutcome::Done(n),
    }
}

/// Outcome of parsing one UDP relay datagram.
pub enum UdpHeaderSpec {
    Bad(SocksError),
    Done(SpecAddr, int),
}

/// Parses the UDP relay header `RSV(2) FRAG ATYP DST.ADDR DST.PORT`: the
/// reserved field must be zero, fragmented datagrams are dropped, and the
/// payload begins just past the header.
pub open spec fn sp_parse_udp_header(data: Seq<u8>) -> UdpHeaderSpec {
    if data.len() < 4 {
        UdpHeaderSpec::Bad(SocksError::BadHeader)
    } else if data[0] != 0 || data[1] != 0 {
        UdpHeaderSpec::Bad(SocksError::BadHeader)
    } else if data[2] != 0 {
        UdpHeaderSpec::Bad(SocksError::Fragmented)
    } else {
        match sp_addr_field(data, 3) {
            AddrFieldSpec::NeedMore => UdpHeaderSpec::Bad(SocksError::BadHeader),
            AddrFieldSpec::Bad(e) => UdpHeaderSpec::Bad(e),
            AddrFieldSpec::Done(dest, n) => UdpHeaderSpec::Done(dest, n),
        }
    }
}

/// Outcome of parsing one UDP relay datagram.
pub enum UdpHeaderOutcome {
    Bad(SocksError),
    Done { dest: Address, payload_start: usize },
}

/// Whether the exec outcome reports the spec-level one.
pub open spec fn udp_header_matches(r: UdpHeaderOutcome, s: UdpHeaderSpec) -> bool {
    match r {
        UdpHeaderOutcome::Bad(e) => s == UdpHeaderSpec::Bad(e),
        UdpHeaderOutcome::Done { dest, payload_start } => s matches UdpHeaderSpec::Done(d2, n2)
            && addr_matches(dest, d2) && payload_start as int == n2,
    }
}

/// Parses the UDP relay header of one datagram.
pub fn parse_udp_header(data: &[u8]) -> (r: UdpHeaderOutcome)
    requires
        data@.len() < 0x1000_0000,
    ensures
        udp_header_matches(r, sp_parse_udp_header(data@)),
{
    let dlen = data.len();
    if dlen < 4 {
        return UdpHeaderOutcome::Bad(SocksError::BadHeader);
    }
    if data[0] != 0 || data[1] != 0 {
        return UdpHeaderOutcome::Bad(SocksError::BadHeader);
    }
    if data[2] != 0 {
        return UdpHeaderOutcome::Bad(SocksError::Fragmented);
    }
    match parse_addr_field(data, 3) {
        AddrFieldOutcome::NeedMore => UdpHeaderOutcome::Bad(SocksError::BadHeader),
        AddrFieldOutcome::Bad(e) => UdpHeaderOutcome::Bad(e),
        AddrFieldOutcome::Done(dest, n) => UdpHeaderOutcome::Done { dest, payload_start: n },
    }
}

/// The address part of a request: type tag, address bytes, big-endian port.
/// A domain name travels as its UTF-8 bytes behind a one-byte length.
pub open spec fn sp_request_addr_bytes(dest: Address) -> Seq<u8> {
    match dest {
        Address::Domain(name, port) => {
            let bytes = vstd::utf8::encode_utf8(name@);
            seq![3u8, bytes.len() as u8] + bytes + int_be_bytes(port as int, 2)
        },
        Address::Ip(sa) => match sa.ip {
            IpAddress::V4(v) => seq![1u8] + int_be_bytes(v as int, 4) + int_be_bytes(
                sa.port as int,
                2,
            ),
            IpAddress::V6(v) => seq![4u8] + int_be_bytes(v as int, 16) + int_be_bytes(
                sa.port as int,
                2,
            ),
        },
    }
}

/// The full CONNECT request for a destination.
pub open spec fn sp_request_bytes(dest: Address) -> Seq<u8> {
    seq![5u8, 1u8, 0u8] + sp_request_addr_bytes(dest)
}

/// Appends the CONNECT request for the session's destination. A domain name
/// travels behind a one-byte length, so it must fit 255 bytes.
/// Appends the address field `ATYP ADDR PORT` for a destination, as every
/// frame of the protocol family writes it.
pub fn append_addr_port(buf: &mut Vec<u8>, dest: &Address)
    requires
        *dest matches Address::Domain(name, _) ==> vstd::utf8::encode_utf8(name@).len() <= 255,
    ensures
        final(buf)@ == old(buf)@ + sp_request_addr_bytes(*dest),
{
    match dest {
        Address::Domain(name, port) => {
            buf.push(3);
            let bytes = name.as_str().as_bytes();
            buf.push(bytes.len() as u8);
            buf.extend_from_slice(bytes);
            push_u16_be(buf, *port);
        },
        Address::Ip(sa) => {
            match sa.ip {
                IpAddress::V4(v) => {
                    buf.push(1);
                    crate::wire::push_u32_be(buf, v);
                },
                IpAddress::V6(v) => {
                    buf.push(4);
                    crate::wire::push_int_be(buf, v, 16);
                },
            }
            push_u16_be(buf, sa.port);
        },
    }
    proof {
        assert(buf@ =~= old(buf)@ + sp_request_addr_bytes(*dest));
    }
}

pub fn build_request(buf: &mut Vec<u8>, session: &crate::addr::Session)
    requires
        session.destination matches Address::Domain(name, _) ==> vstd::utf8::encode_utf8(
            name@,
        ).len() <= 255,
    ensures
        final(buf)@ == old(buf)@ + sp_request_bytes(session.destination),
{
    buf.push(5);
    buf.push(1);
    buf.push(0);
    append_addr_port(buf, &session.destination);
    proof {
        assert(buf@ =~= old(buf)@ + sp_request_bytes(session.destination));
    }
}

/// The UDP relay header for a reply carried back to the client: zero
/// reserved bytes, fragment zero, then the datagram's remote source.
pub fn encode_udp_header(dest: &Address) -> (r: Vec<u8>)
    requires
        *dest matches Address::Domain(name, _) ==> vstd::utf8::encode_utf8(name@).len() <= 255,
    ensures
        r@ == seq![0u8, 0u8, 0u8] + sp_request_addr_bytes(*dest),
{
    let mut v: Vec<u8> = Vec::new();
    v.push(0);
    v.push(0);
    v.push(0);
    append_addr_port(&mut v, dest);
    proof {
        assert(v@ =~= seq![0u8, 0u8, 0u8] + sp_request_addr_bytes(*dest));
    }
    v
}

/// Handles the server side of a SOCKS5 TCP accept.
pub struct TcpInboundHandler;

/// Handles the server side of SOCKS5 UDP relay datagrams.
pub struct UdpInboundHandler;

/// Connects through an upstream SOCKS5 server.
pub struct TcpOutboundHandler {
    pub address: Address,
}

/// Relays UDP through an upstream SOCKS5 server.
pub struct UdpOutboundHandler {
    pub addr: String,
    pub port: u16,
}

} // verus!
